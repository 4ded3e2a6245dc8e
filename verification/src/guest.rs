//! Reads that a program asks for by pointer.
use crate::context::ComputeMeter;
use crate::error::{EbpfError, SyscallError};
use crate::memory::{host_address, translate_slice, u64_at, HostMemory, MemoryRegion};
use crate::pubkey::{byte_strings, Pubkey, BPF_LOADER_DEPRECATED_ID};
use crate::text::{cut_at_zero, from_utf8};
use vstd::prelude::*;

verus! {

/// The memory of a program as its syscalls reach it: through which regions, under which loader's
/// rules, and the bytes behind the regions.
pub struct Window {
    pub regions: Seq<MemoryRegion>,
    pub loader_id: Seq<u8>,
    pub memory: Seq<u8>,
}

/// The window that a syscall has through `regions`.
pub open spec fn window(
    regions: &[MemoryRegion],
    loader_id: &Pubkey,
    memory: &HostMemory,
) -> Window {
    Window { regions: regions@, loader_id: loader_id@, memory: memory@ }
}

impl Window {
    /// Whether the regions lie in the memory.
    pub open spec fn is_valid(self) -> bool {
        crate::memory::regions_valid(self.regions, self.memory.len() as int)
    }

    /// Host address of `len` bytes, whatever their alignment.
    pub open spec fn span(self, vm_addr: u64, len: u64) -> Result<u64, EbpfError> {
        crate::memory::translated(self.regions, vm_addr, len)
    }

    /// Host address of one value.
    pub open spec fn value(self, vm_addr: u64, size: u64, align: u64) -> Result<u64, EbpfError> {
        crate::memory::translated_type(self.regions, self.loader_id, vm_addr, size, align)
    }

    /// Host address of `count` values.
    pub open spec fn values(self, vm_addr: u64, count: u64, size: u64, align: u64) -> Result<
        u64,
        EbpfError,
    > {
        crate::memory::translated_slice(self.regions, self.loader_id, vm_addr, count, size, align)
    }

    /// Whether a host address belongs to the regions.
    pub open spec fn reaches(self, host: int) -> bool {
        crate::memory::in_regions(self.regions, host)
    }

    /// All bytes that were found belong to the regions.
    pub proof fn lemma_span_is_reached(self, vm_addr: u64, len: u64)
        requires
            self.is_valid(),
            self.span(vm_addr, len) is Ok,
        ensures
            forall|host: int|
                self.span(vm_addr, len)->Ok_0 <= host < self.span(vm_addr, len)->Ok_0 + len
                    ==> #[trigger] self.reaches(host),
    {
        reveal(crate::memory::translated);
        crate::memory::lemma_host_address_in_memory(
            self.regions,
            vm_addr as int,
            len as int,
            self.memory.len() as int,
        );
        assert forall|host: int|
            self.span(vm_addr, len)->Ok_0 <= host < self.span(vm_addr, len)->Ok_0
                + len implies #[trigger] self.reaches(host) by {
            crate::memory::lemma_granted_in_regions(
                self.regions,
                vm_addr as int,
                len as int,
                host,
            );
        }
    }

    /// All bytes of a value that was found lie in the memory and belong to the regions.
    pub proof fn lemma_value_is_reached(self, vm_addr: u64, size: u64, align: u64)
        requires
            self.is_valid(),
            self.value(vm_addr, size, align) is Ok,
        ensures
            self.value(vm_addr, size, align)->Ok_0 + size <= self.memory.len(),
            forall|host: int|
                self.value(vm_addr, size, align)->Ok_0 <= host < self.value(
                    vm_addr,
                    size,
                    align,
                )->Ok_0 + size ==> #[trigger] self.reaches(host),
    {
        self.lemma_span_is_reached(vm_addr, size);
        reveal(crate::memory::translated);
        crate::memory::lemma_host_address_in_memory(
            self.regions,
            vm_addr as int,
            size as int,
            self.memory.len() as int,
        );
    }

    /// All bytes of a byte string that was found lie in the memory and belong to the regions.
    pub proof fn lemma_bytes_are_reached(self, vm_addr: u64, len: u64)
        requires
            self.is_valid(),
            self.values(vm_addr, len, 1, 1) is Ok,
        ensures
            self.values(vm_addr, len, 1, 1)->Ok_0 + len <= self.memory.len(),
            forall|host: int|
                self.values(vm_addr, len, 1, 1)->Ok_0 <= host < self.values(
                    vm_addr,
                    len,
                    1,
                    1,
                )->Ok_0 + len ==> #[trigger] self.reaches(host),
    {
        crate::memory::lemma_translated_slice_in_memory(
            self.regions,
            self.loader_id,
            vm_addr,
            len,
            1,
            1,
            self.memory.len() as int,
        );
        if len > 0 {
            assert(crate::memory::saturating_product(len, 1) == len);
            self.lemma_span_is_reached(vm_addr, len);
        }
    }

    /// Writing to bytes that were found changes only what the regions reach.
    pub proof fn lemma_write_is_within(self, addr: u64, bytes: Seq<u8>)
        requires
            self.is_valid(),
            bytes.len() <= u64::MAX,
            self.values(addr, bytes.len() as u64, 1, 1) is Ok,
        ensures
            changed_within(
                self,
                self.memory,
                crate::memory::written(
                    self.memory,
                    self.values(addr, bytes.len() as u64, 1, 1)->Ok_0 as int,
                    bytes,
                ),
            ),
    {
        let at = self.values(addr, bytes.len() as u64, 1, 1)->Ok_0 as int;
        self.lemma_bytes_are_reached(addr, bytes.len() as u64);
        crate::memory::law_write_is_local(self.memory, at, bytes);
    }

    /// The number at a host address.
    pub open spec fn word(self, at: int) -> u64 {
        crate::memory::u64_at(self.memory, at)
    }

    /// The flag at a host address.
    pub open spec fn flag(self, at: int) -> bool {
        crate::memory::flag_at(self.memory, at)
    }

    /// The `n` bytes at a host address.
    pub open spec fn bytes(self, at: int, n: int) -> Seq<u8> {
        crate::memory::bytes_at(self.memory, at, n)
    }

    /// The byte string that a pointer and a length describe.
    pub open spec fn byte_string(self, vm_addr: u64, len: u64) -> Result<Seq<u8>, EbpfError> {
        match self.values(vm_addr, len, 1, 1) {
            Ok(at) => Ok(self.bytes(at as int, len as int)),
            Err(e) => Err(e),
        }
    }

    /// The byte string that the `i`-th pair of a pointer and a length describes.
    pub open spec fn nth_byte_string(self, at: int, i: int) -> Result<Seq<u8>, EbpfError> {
        self.byte_string(self.word(at + 16 * i), self.word(at + 16 * i + 8))
    }

    /// The byte strings that `n` pairs of a pointer and a length describe, if all of them can be
    /// read; else the error of the first that cannot.
    pub open spec fn byte_strings(self, at: int, n: nat) -> Result<Seq<Seq<u8>>, EbpfError>
        decreases n,
    {
        if n == 0 {
            Ok(seq![])
        } else {
            match self.byte_strings(at, (n - 1) as nat) {
                Ok(before) => match self.nth_byte_string(at, n - 1) {
                    Ok(bytes) => Ok(before.push(bytes)),
                    Err(e) => Err(e),
                },
                Err(e) => Err(e),
            }
        }
    }

    /// The first byte string that cannot be read decides.
    pub proof fn lemma_byte_strings_error(self, at: int, k: nat, n: nat)
        requires
            k <= n,
            self.byte_strings(at, k) is Err,
        ensures
            self.byte_strings(at, n) == self.byte_strings(at, k),
        decreases n,
    {
        if k < n {
            self.lemma_byte_strings_error(at, k, (n - 1) as nat);
        }
    }
}

impl Window {
    /// Whether bytes stand at a virtual address, all in the region that decides about it. No byte
    /// stands anywhere.
    pub open spec fn shows(self, vm_addr: int, bytes: Seq<u8>) -> bool {
        bytes.len() > 0 ==> {
            &&& host_address(self.regions, vm_addr, bytes.len() as int) is Some
            &&& forall|k: int|
                0 <= k < bytes.len() ==> self.memory[host_address(
                    self.regions,
                    vm_addr,
                    bytes.len() as int,
                )->0 + k] == #[trigger] bytes[k]
        }
    }

    /// Whether `len` bytes at a virtual address can be accessed.
    pub open spec fn holds(self, vm_addr: int, len: int) -> bool {
        host_address(self.regions, vm_addr, len) is Some
    }

    /// Whether the loader takes a pointer as aligned.
    pub open spec fn is_aligned(self, vm_addr: int, align: int) -> bool {
        self.loader_id == BPF_LOADER_DEPRECATED_ID@ || vm_addr % align == 0
    }

    /// Whether byte strings are described at a virtual address: by a list of pairs of eight bytes
    /// each, a pointer and a length.
    pub open spec fn shows_strings(self, vm_addr: int, strings: Seq<Seq<u8>>) -> bool {
        exists|list: Seq<u8>| #[trigger]
            self.shows(vm_addr, list) && self.describes(list, strings)
    }

    /// Whether pairs of a pointer and a length describe byte strings.
    pub open spec fn describes(self, list: Seq<u8>, strings: Seq<Seq<u8>>) -> bool {
        &&& list.len() == 16 * strings.len()
        &&& forall|i: int|
            0 <= i < strings.len() ==> {
                &&& u64_at(list, 16 * i + 8) == (#[trigger] strings[i]).len()
                &&& self.shows(u64_at(list, 16 * i) as int, strings[i])
            }
    }

    /// Bytes that stand at a virtual address are found and read there.
    pub proof fn lemma_shown(self, vm_addr: u64, bytes: Seq<u8>)
        requires
            self.is_valid(),
            0 < bytes.len() <= u64::MAX,
            self.shows(vm_addr as int, bytes),
        ensures
            self.span(vm_addr, bytes.len() as u64) is Ok,
            self.span(vm_addr, bytes.len() as u64)->Ok_0 as int == host_address(
                self.regions,
                vm_addr as int,
                bytes.len() as int,
            )->0,
            self.span(vm_addr, bytes.len() as u64)->Ok_0 + bytes.len() <= self.memory.len(),
            self.bytes(
                self.span(vm_addr, bytes.len() as u64)->Ok_0 as int,
                bytes.len() as int,
            ) == bytes,
    {
        reveal(crate::memory::translated);
        crate::memory::lemma_host_address_in_memory(
            self.regions,
            vm_addr as int,
            bytes.len() as int,
            self.memory.len() as int,
        );
        assert(self.bytes(
            self.span(vm_addr, bytes.len() as u64)->Ok_0 as int,
            bytes.len() as int,
        ) =~= bytes);
    }

    /// A value that stands at a virtual address is found and read there.
    pub proof fn lemma_shown_value(self, vm_addr: u64, bytes: Seq<u8>, align: u64)
        requires
            self.is_valid(),
            0 < bytes.len() <= u64::MAX,
            align > 0,
            self.is_aligned(vm_addr as int, align as int),
            self.shows(vm_addr as int, bytes),
        ensures
            self.value(vm_addr, bytes.len() as u64, align) is Ok,
            self.value(vm_addr, bytes.len() as u64, align)->Ok_0 as int == host_address(
                self.regions,
                vm_addr as int,
                bytes.len() as int,
            )->0,
            self.value(vm_addr, bytes.len() as u64, align)->Ok_0 + bytes.len()
                <= self.memory.len(),
            self.bytes(
                self.value(vm_addr, bytes.len() as u64, align)->Ok_0 as int,
                bytes.len() as int,
            ) == bytes,
    {
        self.lemma_shown(vm_addr, bytes);
    }

    /// Values that stand at a virtual address are found and read there.
    pub proof fn lemma_shown_values(
        self,
        vm_addr: u64,
        count: u64,
        size: u64,
        align: u64,
        bytes: Seq<u8>,
    )
        requires
            self.is_valid(),
            size > 0,
            align > 0,
            bytes.len() == count * size,
            self.is_aligned(vm_addr as int, align as int),
            self.shows(vm_addr as int, bytes),
        ensures
            self.values(vm_addr, count, size, align) is Ok,
            self.values(vm_addr, count, size, align)->Ok_0 + bytes.len() <= self.memory.len(),
            self.bytes(
                self.values(vm_addr, count, size, align)->Ok_0 as int,
                bytes.len() as int,
            ) == bytes,
            count > 0 ==> self.values(vm_addr, count, size, align)->Ok_0 as int == host_address(
                self.regions,
                vm_addr as int,
                bytes.len() as int,
            )->0,
    {
        if count == 0 {
            assert(count * size == 0) by (nonlinear_arith)
                requires
                    count == 0,
            ;
            assert(self.bytes(0, 0) =~= bytes);
        } else {
            assert(count * size > 0) by (nonlinear_arith)
                requires
                    count > 0,
                    size > 0,
            ;
            crate::memory::lemma_host_address_in_memory(
                self.regions,
                vm_addr as int,
                bytes.len() as int,
                self.memory.len() as int,
            );
            self.lemma_shown(vm_addr, bytes);
        }
    }

    /// Numbers of what was read are numbers of the memory.
    pub proof fn lemma_shown_word(self, at: int, bytes: Seq<u8>, offset: int)
        requires
            0 <= at,
            at + bytes.len() <= self.memory.len(),
            self.bytes(at, bytes.len() as int) == bytes,
            0 <= offset,
            offset + 8 <= bytes.len(),
        ensures
            self.word(at + offset) == u64_at(bytes, offset),
    {
        reveal(crate::memory::u64_at);
        let words = crate::memory::bytes_at(bytes, offset, 8);
        assert(crate::memory::bytes_at(self.memory, at + offset, 8) =~= words) by {
            assert forall|k: int| 0 <= k < 8 implies self.memory[at + offset + k]
                == #[trigger] words[k] by {
                assert(self.bytes(at, bytes.len() as int)[offset + k] == bytes[offset + k]);
            }
        }
    }

    /// Bytes of what was read are bytes of the memory.
    pub proof fn lemma_shown_byte(self, at: int, bytes: Seq<u8>, offset: int)
        requires
            0 <= at,
            at + bytes.len() <= self.memory.len(),
            self.bytes(at, bytes.len() as int) == bytes,
            0 <= offset < bytes.len(),
        ensures
            self.memory[at + offset] == bytes[offset],
    {
        assert(self.bytes(at, bytes.len() as int)[offset] == bytes[offset]);
    }

    /// What is read at a virtual address stands there.
    pub proof fn lemma_read_is_shown(self, vm_addr: u64, len: u64)
        requires
            self.is_valid(),
            self.span(vm_addr, len) is Ok,
        ensures
            self.span(vm_addr, len)->Ok_0 + len <= self.memory.len(),
            self.bytes(self.span(vm_addr, len)->Ok_0 as int, len as int).len() == len,
            self.shows(
                vm_addr as int,
                self.bytes(self.span(vm_addr, len)->Ok_0 as int, len as int),
            ),
    {
        reveal(crate::memory::translated);
        crate::memory::lemma_host_address_in_memory(
            self.regions,
            vm_addr as int,
            len as int,
            self.memory.len() as int,
        );
    }

    /// Values that are read at a virtual address stand there.
    pub proof fn lemma_read_values_are_shown(
        self,
        vm_addr: u64,
        count: u64,
        size: u64,
        align: u64,
    )
        requires
            self.is_valid(),
            align > 0,
            self.values(vm_addr, count, size, align) is Ok,
        ensures
            self.is_aligned(vm_addr as int, align as int),
            self.values(vm_addr, count, size, align)->Ok_0 + count * size <= self.memory.len(),
            0 <= count * size,
            self.bytes(
                self.values(vm_addr, count, size, align)->Ok_0 as int,
                count * size,
            ).len() == count * size,
            self.shows(
                vm_addr as int,
                self.bytes(
                    self.values(vm_addr, count, size, align)->Ok_0 as int,
                    count * size,
                ),
            ),
    {
        crate::memory::lemma_translated_slice_in_memory(
            self.regions,
            self.loader_id,
            vm_addr,
            count,
            size,
            align,
            self.memory.len() as int,
        );
        assert(0 <= count * size) by (nonlinear_arith)
            requires
                count >= 0,
                size >= 0,
        ;
        if count == 0 {
            assert(count * size == 0) by (nonlinear_arith)
                requires
                    count == 0,
            ;
        } else {
            self.lemma_read_is_shown(vm_addr, (count * size) as u64);
        }
    }

    /// Law: byte strings that are described at a virtual address are read as they are.
    pub proof fn law_described_strings_are_read(self, vm_addr: u64, strings: Seq<Seq<u8>>)
        requires
            self.is_valid(),
            16 * strings.len() <= u64::MAX,
            self.is_aligned(vm_addr as int, 8),
            self.shows_strings(vm_addr as int, strings),
        ensures
            self.values(vm_addr, strings.len() as u64, 16, 8) is Ok,
            self.byte_strings(
                self.values(vm_addr, strings.len() as u64, 16, 8)->Ok_0 as int,
                strings.len(),
            ) == Ok::<_, EbpfError>(strings),
    {
        let list = choose|list: Seq<u8>| #[trigger]
            self.shows(vm_addr as int, list) && self.describes(list, strings);
        self.lemma_shown_values(vm_addr, strings.len() as u64, 16, 8, list);
        let at = self.values(vm_addr, strings.len() as u64, 16, 8)->Ok_0 as int;
        self.lemma_described_strings(at, list, strings, strings.len());
        assert(strings.take(strings.len() as int) =~= strings);
    }

    /// The first of the byte strings that a list describes are read as they are.
    proof fn lemma_described_strings(
        self,
        at: int,
        list: Seq<u8>,
        strings: Seq<Seq<u8>>,
        n: nat,
    )
        requires
            self.is_valid(),
            0 <= at,
            at + list.len() <= self.memory.len(),
            self.bytes(at, list.len() as int) == list,
            self.describes(list, strings),
            n <= strings.len(),
        ensures
            self.byte_strings(at, n) == Ok::<_, EbpfError>(strings.take(n as int)),
            forall|i: int|
                0 <= i < n ==> self.word(at + 16 * i + 8) == (#[trigger] strings[i]).len(),
        decreases n,
    {
        if n == 0 {
            assert(strings.take(0) =~= seq![]);
        } else {
            let i = n - 1;
            self.lemma_described_strings(at, list, strings, (n - 1) as nat);
            self.lemma_shown_word(at, list, 16 * i);
            self.lemma_shown_word(at, list, 16 * i + 8);
            let vm_addr = u64_at(list, 16 * i);
            let bytes = strings[i];
            assert(u64_at(list, 16 * i + 8) == bytes.len());
            self.lemma_shown_values(vm_addr, bytes.len() as u64, 1, 1, bytes);
            assert(self.nth_byte_string(at, i) == Ok::<_, EbpfError>(bytes));
            assert(strings.take(n as int) =~= strings.take(i).push(bytes));
        }
    }

    /// Lengths of byte strings that are described at a virtual address are read as they are.
    pub proof fn lemma_described_lengths(self, vm_addr: u64, strings: Seq<Seq<u8>>)
        requires
            self.is_valid(),
            16 * strings.len() <= u64::MAX,
            self.is_aligned(vm_addr as int, 8),
            self.shows_strings(vm_addr as int, strings),
        ensures
            self.values(vm_addr, strings.len() as u64, 16, 8) is Ok,
            forall|i: int|
                0 <= i < strings.len() ==> self.word(
                    self.values(vm_addr, strings.len() as u64, 16, 8)->Ok_0 + 16 * i + 8,
                ) == (#[trigger] strings[i]).len(),
            forall|i: int|
                0 <= i < strings.len() ==> self.nth_byte_string(
                    self.values(vm_addr, strings.len() as u64, 16, 8)->Ok_0 as int,
                    i,
                ) == Ok::<_, EbpfError>(#[trigger] strings[i]),
    {
        let list = choose|list: Seq<u8>| #[trigger]
            self.shows(vm_addr as int, list) && self.describes(list, strings);
        self.lemma_shown_values(vm_addr, strings.len() as u64, 16, 8, list);
        let at = self.values(vm_addr, strings.len() as u64, 16, 8)->Ok_0 as int;
        self.lemma_described_strings(at, list, strings, strings.len());
        assert forall|i: int| 0 <= i < strings.len() implies self.nth_byte_string(at, i) == Ok::<
            _,
            EbpfError,
        >(#[trigger] strings[i]) by {
            self.lemma_shown_word(at, list, 16 * i);
            let bytes = strings[i];
            self.lemma_shown_values(
                u64_at(list, 16 * i),
                bytes.len() as u64,
                1,
                1,
                bytes,
            );
        }
    }

    /// Byte strings that are read stand in memory as a list describes them.
    proof fn lemma_read_strings_described(self, at: int, n: nat, m: nat)
        requires
            self.is_valid(),
            0 <= at,
            n <= m,
            at + 16 * m <= self.memory.len(),
            self.byte_strings(at, n) is Ok,
        ensures
            self.byte_strings(at, n)->Ok_0.len() == n,
            forall|i: int|
                0 <= i < n ==> {
                    let string = #[trigger] self.byte_strings(at, n)->Ok_0[i];
                    let list = self.bytes(at, 16 * m as int);
                    &&& u64_at(list, 16 * i + 8) == string.len()
                    &&& self.shows(u64_at(list, 16 * i) as int, string)
                },
        decreases n,
    {
        if n > 0 {
            let i = n - 1;
            let list = self.bytes(at, 16 * m as int);
            self.lemma_read_strings_described(at, (n - 1) as nat, m);
            self.lemma_shown_word(at, list, 16 * i);
            self.lemma_shown_word(at, list, 16 * i + 8);
            self.lemma_read_values_are_shown(
                self.word(at + 16 * i),
                self.word(at + 16 * i + 8),
                1,
                1,
            );
        }
    }

    /// Law: byte strings are read at a virtual address if and only if they are described there.
    pub proof fn law_strings_are_read_where_described(
        self,
        vm_addr: u64,
        n: u64,
        strings: Seq<Seq<u8>>,
    )
        requires
            self.is_valid(),
        ensures
            self.values(vm_addr, n, 16, 8) is Ok && self.byte_strings(
                self.values(vm_addr, n, 16, 8)->Ok_0 as int,
                n as nat,
            ) == Ok::<_, EbpfError>(strings) <==> strings.len() == n && self.is_aligned(
                vm_addr as int,
                8,
            ) && self.shows_strings(vm_addr as int, strings),
    {
        if strings.len() == n && self.is_aligned(vm_addr as int, 8) && self.shows_strings(
            vm_addr as int,
            strings,
        ) {
            let list = choose|list: Seq<u8>| #[trigger]
                self.shows(vm_addr as int, list) && self.describes(list, strings);
            if list.len() > 0 {
                crate::memory::lemma_host_address_in_memory(
                    self.regions,
                    vm_addr as int,
                    list.len() as int,
                    self.memory.len() as int,
                );
            }
            self.law_described_strings_are_read(vm_addr, strings);
        }
        if self.values(vm_addr, n, 16, 8) is Ok && self.byte_strings(
            self.values(vm_addr, n, 16, 8)->Ok_0 as int,
            n as nat,
        ) == Ok::<_, EbpfError>(strings) {
            self.lemma_read_values_are_shown(vm_addr, n, 16, 8);
            let at = self.values(vm_addr, n, 16, 8)->Ok_0 as int;
            self.lemma_read_strings_described(at, n as nat, n as nat);
            let list = self.bytes(at, n * 16);
            assert(self.shows(vm_addr as int, list) && self.describes(list, strings));
        }
    }

    /// Bytes that were written at a virtual address stand there.
    pub proof fn lemma_written_is_shown(self, vm_addr: u64, bytes: Seq<u8>)
        requires
            self.is_valid(),
            0 < bytes.len() <= u64::MAX,
            self.holds(vm_addr as int, bytes.len() as int),
        ensures
            self.span(vm_addr, bytes.len() as u64) is Ok,
            self.span(vm_addr, bytes.len() as u64)->Ok_0 as int == host_address(
                self.regions,
                vm_addr as int,
                bytes.len() as int,
            )->0,
            self.span(vm_addr, bytes.len() as u64)->Ok_0 + bytes.len() <= self.memory.len(),
            self.with_memory(
                crate::memory::written(
                    self.memory,
                    self.span(vm_addr, bytes.len() as u64)->Ok_0 as int,
                    bytes,
                ),
            ).shows(vm_addr as int, bytes),
    {
        reveal(crate::memory::translated);
        crate::memory::lemma_host_address_in_memory(
            self.regions,
            vm_addr as int,
            bytes.len() as int,
            self.memory.len() as int,
        );
        let at = self.span(vm_addr, bytes.len() as u64)->Ok_0 as int;
        crate::memory::law_write_is_local(self.memory, at, bytes);
        let after = crate::memory::written(self.memory, at, bytes);
        assert forall|k: int| 0 <= k < bytes.len() implies after[at + k] == #[trigger] bytes[k] by {
            assert(crate::memory::bytes_at(after, at, bytes.len() as int)[k] == bytes[k]);
        }
    }

    /// The same window on another memory.
    pub open spec fn with_memory(self, memory: Seq<u8>) -> Window {
        Window { memory, ..self }
    }
}

/// Law: a window is valid if and only if its regions are those of its memory, whatever the loader
/// and the bytes are.
pub proof fn law_windows_are_valid_with_their_regions(w: Window)
    ensures
        w.is_valid() <==> crate::memory::regions_valid(w.regions, w.memory.len() as int),
{
}

/// Why a pointer to `len` bytes is refused, if it is: it is unaligned, or they cannot be accessed.
pub open spec fn pointer_error(w: Window, vm_addr: int, len: int, align: int) -> Option<EbpfError> {
    if !w.is_aligned(vm_addr, align) {
        Some(
            EbpfError::UserError(
                crate::error::BPFError::SyscallError(SyscallError::UnalignedPointer),
            ),
        )
    } else if !w.holds(vm_addr, len) {
        Some(EbpfError::AccessViolation(vm_addr as u64, len as u64))
    } else {
        None
    }
}

/// Why a pointer to a list is refused, if it is: one without items only if it is unaligned.
pub open spec fn list_error(w: Window, vm_addr: int, count: int, size: int, align: int) -> Option<
    EbpfError,
> {
    if !w.is_aligned(vm_addr, align) {
        Some(
            EbpfError::UserError(
                crate::error::BPFError::SyscallError(SyscallError::UnalignedPointer),
            ),
        )
    } else if count > 0 && !w.holds(vm_addr, count * size) {
        Some(
            EbpfError::AccessViolation(
                vm_addr as u64,
                if count * size <= u64::MAX {
                    (count * size) as u64
                } else {
                    u64::MAX
                },
            ),
        )
    } else {
        None
    }
}

/// The first of some errors, if there is one.
pub open spec fn first_error(errors: Seq<Option<EbpfError>>) -> Option<EbpfError>
    decreases errors.len(),
{
    if errors.len() == 0 {
        None
    } else if errors[0] is Some {
        errors[0]
    } else {
        first_error(errors.drop_first())
    }
}

impl Window {
    /// A pointer is refused for its error, and taken without one.
    pub proof fn lemma_pointer_error(self, vm_addr: u64, len: u64, align: u64)
        requires
            align > 0,
        ensures
            match pointer_error(self, vm_addr as int, len as int, align as int) {
                Some(e) => self.value(vm_addr, len, align) == Err::<u64, EbpfError>(e),
                None => self.value(vm_addr, len, align) is Ok,
            },
            align == 1 ==> self.span(vm_addr, len) == self.value(vm_addr, len, align),
    {
        reveal(crate::memory::translated);
    }

    /// A pointer to a list is refused for its error, and taken without one.
    pub proof fn lemma_list_error(self, vm_addr: u64, count: u64, size: u64, align: u64)
        requires
            self.is_valid(),
            align > 0,
        ensures
            match list_error(self, vm_addr as int, count as int, size as int, align as int) {
                Some(e) => self.values(vm_addr, count, size, align) == Err::<u64, EbpfError>(e),
                None => self.values(vm_addr, count, size, align) is Ok,
            },
    {
        reveal(crate::memory::translated);
        let len = count as int * size as int;
        assert(len >= 0) by (nonlinear_arith)
            requires
                len == count as int * size as int,
                count >= 0,
                size >= 0,
        ;
        crate::memory::lemma_host_address_in_memory(
            self.regions,
            vm_addr as int,
            len,
            self.memory.len() as int,
        );
        crate::memory::lemma_host_address_in_memory(
            self.regions,
            vm_addr as int,
            u64::MAX as int,
            self.memory.len() as int,
        );
    }

    /// Law: of byte strings that a list describes the first that cannot be accessed decides.
    pub proof fn law_first_unreadable_string_decides(
        self,
        vm_addr: u64,
        n: u64,
        list: Seq<u8>,
        strings: Seq<Seq<u8>>,
        bad: int,
    )
        requires
            self.is_valid(),
            self.is_aligned(vm_addr as int, 8),
            list.len() == 16 * n,
            self.shows(vm_addr as int, list),
            0 <= bad < n,
            strings.len() == bad,
            forall|i: int|
                0 <= i < bad ==> {
                    &&& u64_at(list, 16 * i + 8) == (#[trigger] strings[i]).len()
                    &&& self.shows(u64_at(list, 16 * i) as int, strings[i])
                },
            u64_at(list, 16 * bad + 8) > 0,
            !self.holds(u64_at(list, 16 * bad) as int, u64_at(list, 16 * bad + 8) as int),
        ensures
            self.values(vm_addr, n, 16, 8) is Ok,
            self.byte_strings(self.values(vm_addr, n, 16, 8)->Ok_0 as int, n as nat) == Err::<
                Seq<Seq<u8>>,
                EbpfError,
            >(
                EbpfError::AccessViolation(u64_at(list, 16 * bad), u64_at(list, 16 * bad + 8)),
            ),
    {
        self.lemma_shown_values(vm_addr, n, 16, 8, list);
        let at = self.values(vm_addr, n, 16, 8)->Ok_0 as int;
        self.lemma_first_strings(at, list, strings, bad as nat);
        self.lemma_shown_word(at, list, 16 * bad);
        self.lemma_shown_word(at, list, 16 * bad + 8);
        self.lemma_list_error(u64_at(list, 16 * bad), u64_at(list, 16 * bad + 8), 1, 1);
        self.lemma_byte_strings_error(at, (bad + 1) as nat, n as nat);
    }

    /// The first byte strings of a list are read as they are described.
    proof fn lemma_first_strings(self, at: int, list: Seq<u8>, strings: Seq<Seq<u8>>, n: nat)
        requires
            self.is_valid(),
            0 <= at,
            at + list.len() <= self.memory.len(),
            self.bytes(at, list.len() as int) == list,
            16 * strings.len() <= list.len(),
            n <= strings.len(),
            forall|i: int|
                0 <= i < strings.len() ==> {
                    &&& u64_at(list, 16 * i + 8) == (#[trigger] strings[i]).len()
                    &&& self.shows(u64_at(list, 16 * i) as int, strings[i])
                },
        ensures
            self.byte_strings(at, n) is Ok,
        decreases n,
    {
        if n > 0 {
            let i = n - 1;
            self.lemma_first_strings(at, list, strings, (n - 1) as nat);
            self.lemma_shown_word(at, list, 16 * i);
            self.lemma_shown_word(at, list, 16 * i + 8);
            let bytes = strings[i];
            assert(u64_at(list, 16 * i + 8) == bytes.len());
            self.lemma_shown_values(u64_at(list, 16 * i), bytes.len() as u64, 1, 1, bytes);
        }
    }
}

/// Whether two memories differ only in the bytes at a virtual address.
pub open spec fn changed_only_at(w: Window, vm_addr: int, len: int, after: Seq<u8>) -> bool {
    &&& after.len() == w.memory.len()
    &&& forall|host: int|
        0 <= host < after.len() && !(host_address(w.regions, vm_addr, len)->0 <= host
            < host_address(w.regions, vm_addr, len)->0 + len) ==> #[trigger] after[host]
            == w.memory[host]
}

/// Whether two memories differ only where the regions of a window reach.
pub open spec fn changed_within(w: Window, before: Seq<u8>, after: Seq<u8>) -> bool {
    &&& after.len() == before.len()
    &&& forall|host: int|
        0 <= host < before.len() && !w.reaches(host) ==> #[trigger] after[host] == before[host]
}

/// What a syscall leaves behind: its result, the compute meter and the memory.
pub struct Outcome {
    pub result: Result<u64, EbpfError>,
    pub meter: ComputeMeter,
    pub memory: Seq<u8>,
}

/// A result whose value is taken by its view.
pub open spec fn view_result<T: View>(r: Result<T, EbpfError>) -> Result<T::V, EbpfError> {
    match r {
        Ok(value) => Ok(value@),
        Err(e) => Err(e),
    }
}

/// Reads a byte string.
pub fn read_byte_string(
    vm_addr: u64,
    len: u64,
    regions: &[MemoryRegion],
    loader_id: &Pubkey,
    memory: &HostMemory,
) -> (r: Result<Vec<u8>, EbpfError>)
    requires
        window(regions, loader_id, memory).is_valid(),
    ensures
        view_result(r) == window(regions, loader_id, memory).byte_string(vm_addr, len),
        r is Ok ==> r->Ok_0@.len() == len && len <= memory@.len(),
{
    let at: u64 = translate_slice(vm_addr, len, 1, 1, regions, loader_id, memory)?;
    Ok(memory.read_bytes(at, len))
}

/// Reads the byte strings that the `n` pairs of a pointer and a length at a host address
/// describe.
pub fn read_byte_strings(
    at: u64,
    n: u64,
    regions: &[MemoryRegion],
    loader_id: &Pubkey,
    memory: &HostMemory,
) -> (r: Result<Vec<Vec<u8>>, EbpfError>)
    requires
        window(regions, loader_id, memory).is_valid(),
        at + 16 * n <= memory@.len(),
    ensures
        match r {
            Ok(strings) => window(regions, loader_id, memory).byte_strings(at as int, n as nat)
                == Ok::<_, EbpfError>(byte_strings(strings@)),
            Err(e) => window(regions, loader_id, memory).byte_strings(at as int, n as nat) == Err::<
                Seq<Seq<u8>>,
                EbpfError,
            >(e),
        },
{
    let ghost w = window(regions, loader_id, memory);
    let mut strings: Vec<Vec<u8>> = Vec::new();
    let mut i: u64 = 0;
    assert(byte_strings(strings@) =~= seq![]);
    while i < n
        invariant
            i <= n,
            w == window(regions, loader_id, memory),
            w.is_valid(),
            at + 16 * n <= memory@.len(),
            w.byte_strings(at as int, i as nat) == Ok::<_, EbpfError>(byte_strings(strings@)),
        decreases n - i,
    {
        assert(memory.bytes.len() <= usize::MAX);
        let vm_addr: u64 = memory.read_u64(at + 16 * i);
        let len: u64 = memory.read_u64(at + 16 * i + 8);
        match read_byte_string(vm_addr, len, regions, loader_id, memory) {
            Ok(bytes) => {
                let ghost before = byte_strings(strings@);
                strings.push(bytes);
                assert(byte_strings(strings@) =~= before.push(bytes@));
            },
            Err(e) => {
                proof {
                    w.lemma_byte_strings_error(at as int, (i + 1) as nat, n as nat);
                }
                return Err(e);
            },
        }
        i = i + 1;
    }
    Ok(strings)
}

/// What a string pointer of a program leads to.
pub enum Text {
    /// The characters before the first zero byte.
    Valid(Seq<char>),
    /// The bytes before the first zero byte, where they are not UTF-8.
    Invalid(Seq<u8>),
    /// The memory cannot be read.
    Unreadable(EbpfError),
}

impl Window {
    /// The text that a pointer and a length describe.
    pub open spec fn text(self, vm_addr: u64, len: u64) -> Text {
        match self.byte_string(vm_addr, len) {
            Ok(bytes) => {
                let text = crate::text::before_zero(bytes);
                if vstd::utf8::valid_utf8(text) {
                    Text::Valid(vstd::utf8::decode_utf8(text))
                } else {
                    Text::Invalid(text)
                }
            },
            Err(e) => Text::Unreadable(e),
        }
    }
}

impl Window {
    /// Law: a pointer and a length describe the text that stands there up to the first zero byte,
    /// or to the end. The text is refused if it is not UTF-8, whatever follows the zero byte.
    /// Memory that cannot be accessed is a violation of the access.
    pub proof fn law_text_is_read_up_to_a_zero_byte(
        self,
        vm_addr: u64,
        len: u64,
        text: Seq<u8>,
        rest: Seq<u8>,
        chars: Seq<char>,
    )
        requires
            self.is_valid(),
        ensures
            len > 0 && !self.holds(vm_addr as int, len as int) ==> self.text(vm_addr, len)
                == Text::Unreadable(EbpfError::AccessViolation(vm_addr, len)),
            len == text.len() + rest.len() && self.shows(vm_addr as int, text + rest)
                && !text.contains(0) && (rest.len() > 0 ==> rest[0] == 0) ==> {
                &&& text == vstd::utf8::encode_utf8(chars) ==> self.text(vm_addr, len)
                    == Text::Valid(chars)
                &&& !vstd::utf8::valid_utf8(text) ==> self.text(vm_addr, len) == Text::Invalid(text)
            },
    {
        reveal(crate::memory::translated);
        let all = text + rest;
        if len == text.len() + rest.len() && self.shows(vm_addr as int, all) && !text.contains(0)
            && (rest.len() > 0 ==> rest[0] == 0) {
            self.lemma_shown_values(vm_addr, len, 1, 1, all);
            crate::text::law_before_zero(all);
            let read = crate::text::before_zero(all);
            if read.len() < text.len() {
                assert(text[read.len() as int] == all[read.len() as int]);
            }
            if read.len() > text.len() {
                assert(read[text.len() as int] == rest[0]);
            }
            assert(read =~= text);
            vstd::utf8::encode_utf8_valid_utf8(chars);
            vstd::utf8::encode_utf8_decode_utf8(chars);
        }
    }
}

/// Whether `error` refuses a string because of its bytes.
pub open spec fn refuses_string(error: EbpfError, bytes: Seq<u8>) -> bool {
    &&& error matches EbpfError::UserError(
        crate::error::BPFError::SyscallError(SyscallError::InvalidString(why, shown)),
    )
    &&& shown@ == bytes
    &&& crate::text::explains(why, bytes)
    &&& why.error_len == crate::text::utf8_error_len(bytes)
}

/// Law: a string that is refused is shown as it stands in memory, with the length of its longest
/// part, from the start, that is text.
pub proof fn law_refused_strings_are_shown(error: EbpfError, bytes: Seq<u8>)
    requires
        refuses_string(error, bytes),
    ensures
        error is UserError,
        error->UserError_0 is SyscallError,
        error->UserError_0->SyscallError_0 matches SyscallError::InvalidString(why, shown)
            && shown@ == bytes && why.valid_up_to <= bytes.len() && vstd::utf8::valid_utf8(
            bytes.take(why.valid_up_to as int),
        ) && (forall|k: int|
            why.valid_up_to < k <= bytes.len() ==> !vstd::utf8::valid_utf8(
                #[trigger] bytes.take(k),
            )),
{
}

/// Reads the text that a pointer and a length describe.
pub fn translate_string(
    addr: u64,
    len: u64,
    regions: &[MemoryRegion],
    loader_id: &Pubkey,
    memory: &HostMemory,
) -> (r: Result<String, EbpfError>)
    requires
        window(regions, loader_id, memory).is_valid(),
    ensures
        match window(regions, loader_id, memory).text(addr, len) {
            Text::Valid(chars) => r is Ok && r->Ok_0@ == chars,
            Text::Invalid(bytes) => r is Err && refuses_string(r->Err_0, bytes),
            Text::Unreadable(e) => r == Err::<String, EbpfError>(e),
        },
{
    let mut bytes = read_byte_string(addr, len, regions, loader_id, memory)?;
    cut_at_zero(&mut bytes);
    match from_utf8(bytes.as_slice()) {
        Ok(text) => Ok(text),
        Err(why) => Err(EbpfError::from(SyscallError::InvalidString(why, bytes))),
    }
}

/// Takes a virtual pointer to a string, translates it and passes it to a work function.
pub fn translate_string_and_do<F: FnOnce(&str) -> Result<u64, EbpfError>>(
    addr: u64,
    len: u64,
    regions: &[MemoryRegion],
    loader_id: &Pubkey,
    memory: &HostMemory,
    work: F,
) -> (r: Result<u64, EbpfError>)
    requires
        window(regions, loader_id, memory).is_valid(),
        forall|s: &str|
            window(regions, loader_id, memory).text(addr, len) == Text::Valid(s@)
                ==> #[trigger] work.requires((s,)),
    ensures
        match window(regions, loader_id, memory).text(addr, len) {
            Text::Valid(chars) => exists|s: &str| s@ == chars && #[trigger] work.ensures((s,), r),
            Text::Invalid(bytes) => r is Err && refuses_string(r->Err_0, bytes),
            Text::Unreadable(e) => r == Err::<u64, EbpfError>(e),
        },
{
    let text = translate_string(addr, len, regions, loader_id, memory)?;
    work(text.as_str())
}

} // verus!
