//! Memory of a program: virtual addresses, the regions that back them, and the bytes behind the
//! regions.
use crate::error::{refused, EbpfError, SyscallError};
use crate::pubkey::{Pubkey, BPF_LOADER_DEPRECATED_ID};
use vstd::arithmetic::power::pow;
use vstd::prelude::*;

verus! {

/// A run of virtual addresses that one run of host bytes backs.
#[derive(Debug, Clone, Copy, PartialEq, Eq, Structural)]
pub struct MemoryRegion {
    /// First host address.
    pub addr_host: u64,
    /// First virtual address.
    pub addr_vm: u64,
    /// Length in bytes.
    pub len: u64,
}

impl MemoryRegion {
    /// The region that backs the virtual addresses from `addr_vm` by `len` host bytes from
    /// `addr_host`.
    pub fn new(addr_host: u64, addr_vm: u64, len: u64) -> (r: MemoryRegion)
        ensures
            r == (MemoryRegion { addr_host, addr_vm, len }),
    {
        MemoryRegion { addr_host, addr_vm, len }
    }
}

impl Default for MemoryRegion {
    fn default() -> (r: MemoryRegion)
        ensures
            r == (MemoryRegion { addr_host: 0, addr_vm: 0, len: 0 }),
    {
        MemoryRegion { addr_host: 0, addr_vm: 0, len: 0 }
    }
}

/// Whether the regions ascend by virtual address, and neither their host addresses nor their
/// virtual addresses leave the machine's range.
pub open spec fn regions_ordered(regions: Seq<MemoryRegion>) -> bool {
    &&& forall|i: int, j: int|
        #![trigger regions[i], regions[j]]
        0 <= i < j < regions.len() ==> regions[i].addr_vm < regions[j].addr_vm
    &&& forall|i: int|
        0 <= i < regions.len() ==> {
            &&& (#[trigger] regions[i]).addr_host + regions[i].len <= u64::MAX
            &&& 1 <= regions[i].addr_vm + regions[i].len <= u64::MAX
        }
}

/// Whether the regions are ordered and lie in a host memory of `size` bytes.
pub open spec fn regions_valid(regions: Seq<MemoryRegion>, size: int) -> bool {
    &&& size <= isize::MAX
    &&& regions_ordered(regions)
    &&& forall|i: int|
        0 <= i < regions.len() ==> (#[trigger] regions[i]).addr_host + regions[i].len <= size
}

/// The host address behind a virtual address: the last region that starts at or below it
/// decides, and must hold all `len` bytes.
pub open spec fn host_address(regions: Seq<MemoryRegion>, vm_addr: int, len: int) -> Option<int>
    decreases regions.len(),
{
    if regions.len() == 0 {
        None
    } else if regions.last().addr_vm <= vm_addr {
        if vm_addr - regions.last().addr_vm + len <= regions.last().len {
            Some(regions.last().addr_host + (vm_addr - regions.last().addr_vm))
        } else {
            None
        }
    } else {
        host_address(regions.drop_last(), vm_addr, len)
    }
}

/// Calls `solana_rbpf::memory_region::translate_addr`. It finds by binary search the region with
/// the greatest start at or below the address, and gives the host address if the access ends
/// within that region. Regions that do not ascend would leave the search without an answer, and
/// it computes the last address of each region when it reports a violation.
#[verifier::external_body]
fn translate_addr(vm_addr: u64, len: usize, regions: &[MemoryRegion]) -> (r: Option<u64>)
    requires
        regions_ordered(regions@),
    ensures
        match r {
            Some(host) => host_address(regions@, vm_addr as int, len as int) == Some(host as int),
            None => host_address(regions@, vm_addr as int, len as int) is None,
        },
{
    let regions: Vec<solana_rbpf::memory_region::MemoryRegion> = regions.iter().map(
        |r|
            solana_rbpf::memory_region::MemoryRegion {
                addr_host: r.addr_host,
                addr_vm: r.addr_vm,
                len: r.len,
            },
    ).collect();
    solana_rbpf::memory_region::translate_addr::<solana_rbpf::user_error::UserError>(
        vm_addr, len, "syscall", 0, &regions,
    ).ok()
}

/// A translated access lies in the host memory.
pub proof fn lemma_host_address_in_memory(
    regions: Seq<MemoryRegion>,
    vm_addr: int,
    len: int,
    size: int,
)
    requires
        regions_valid(regions, size),
        0 <= len,
    ensures
        match host_address(regions, vm_addr, len) {
            Some(host) => 0 <= host && host + len <= size && vm_addr + len <= u64::MAX,
            None => true,
        },
    decreases regions.len(),
{
    if regions.len() > 0 {
        assert(regions.last() == regions[regions.len() - 1]);
        if regions.last().addr_vm > vm_addr {
            assert forall|i: int, j: int|
                #![trigger regions.drop_last()[i], regions.drop_last()[j]]
                0 <= i < j
                    < regions.drop_last().len() implies regions.drop_last()[i].addr_vm
                < regions.drop_last()[j].addr_vm by {
                assert(regions.drop_last()[i] == regions[i]);
                assert(regions.drop_last()[j] == regions[j]);
            }
            assert forall|i: int| 0 <= i < regions.drop_last().len() implies {
                &&& (#[trigger] regions.drop_last()[i]).addr_host + regions.drop_last()[i].len
                    <= size
                &&& regions.drop_last()[i].addr_host + regions.drop_last()[i].len <= u64::MAX
                &&& 1 <= regions.drop_last()[i].addr_vm + regions.drop_last()[i].len <= u64::MAX
            } by {
                assert(regions.drop_last()[i] == regions[i]);
            }
            lemma_host_address_in_memory(regions.drop_last(), vm_addr, len, size);
        }
    }
}

/// Whether the `k`-th region decides about a virtual address: it is the last that starts at or
/// below it.
pub open spec fn decides(regions: Seq<MemoryRegion>, k: int, vm_addr: int) -> bool {
    &&& 0 <= k < regions.len()
    &&& regions[k].addr_vm <= vm_addr
    &&& k + 1 < regions.len() ==> vm_addr < regions[k + 1].addr_vm
}

/// Whether the `k`-th region decides about an access and holds all of it.
pub open spec fn grants(regions: Seq<MemoryRegion>, k: int, vm_addr: int, len: int) -> bool {
    decides(regions, k, vm_addr) && vm_addr + len <= regions[k].addr_vm + regions[k].len
}

/// Law: an access is granted if and only if it lies within the region that decides about its
/// address; then the host address is as far into the region as the virtual address is.
pub proof fn law_translation_stays_in_one_region(
    regions: Seq<MemoryRegion>,
    vm_addr: int,
    len: int,
    k: int,
)
    requires
        regions_ordered(regions),
        0 <= len,
        decides(regions, k, vm_addr),
    ensures
        host_address(regions, vm_addr, len) == if grants(regions, k, vm_addr, len) {
            Some(regions[k].addr_host + (vm_addr - regions[k].addr_vm))
        } else {
            None
        },
    decreases regions.len(),
{
    if k < regions.len() - 1 {
        let before = regions.drop_last();
        assert(regions[k + 1].addr_vm <= regions[regions.len() - 1].addr_vm);
        assert(before[k] == regions[k]);
        if k + 1 < before.len() {
            assert(before[k + 1] == regions[k + 1]);
        }
        lemma_ordered_prefix(regions);
        law_translation_stays_in_one_region(before, vm_addr, len, k);
    }
}

/// Law: no access is granted whose address lies below all regions.
pub proof fn law_translation_below_regions(regions: Seq<MemoryRegion>, vm_addr: int, len: int)
    requires
        forall|i: int| 0 <= i < regions.len() ==> vm_addr < (#[trigger] regions[i]).addr_vm,
    ensures
        host_address(regions, vm_addr, len) is None,
    decreases regions.len(),
{
    if regions.len() > 0 {
        assert(regions.last() == regions[regions.len() - 1]);
        assert forall|i: int| 0 <= i < regions.drop_last().len() implies vm_addr
            < (#[trigger] regions.drop_last()[i]).addr_vm by {
            assert(regions.drop_last()[i] == regions[i]);
        }
        law_translation_below_regions(regions.drop_last(), vm_addr, len);
    }
}

/// Ordered regions without the last are ordered.
proof fn lemma_ordered_prefix(regions: Seq<MemoryRegion>)
    requires
        regions_ordered(regions),
        regions.len() > 0,
    ensures
        regions_ordered(regions.drop_last()),
{
    let before = regions.drop_last();
    assert forall|i: int, j: int|
        #![trigger before[i], before[j]]
        0 <= i < j < before.len() implies before[i].addr_vm < before[j].addr_vm by {
        assert(before[i] == regions[i] && before[j] == regions[j]);
    }
    assert forall|i: int| 0 <= i < before.len() implies {
        &&& (#[trigger] before[i]).addr_host + before[i].len <= u64::MAX
        &&& 1 <= before[i].addr_vm + before[i].len <= u64::MAX
    } by {
        assert(before[i] == regions[i]);
    }
}

/// Whether a host address belongs to one of the regions.
pub open spec fn in_regions(regions: Seq<MemoryRegion>, host: int) -> bool {
    exists|k: int|
        0 <= k < regions.len() && (#[trigger] regions[k]).addr_host <= host < regions[k].addr_host
            + regions[k].len
}

/// The host addresses of an access that was granted belong to a region.
pub proof fn lemma_granted_in_regions(
    regions: Seq<MemoryRegion>,
    vm_addr: int,
    len: int,
    host: int,
)
    requires
        host_address(regions, vm_addr, len) is Some,
        host_address(regions, vm_addr, len)->0 <= host < host_address(regions, vm_addr, len)->0
            + len,
    ensures
        in_regions(regions, host),
    decreases regions.len(),
{
    if regions.last().addr_vm <= vm_addr {
        assert(regions[regions.len() - 1] == regions.last());
    } else {
        let before = regions.drop_last();
        lemma_granted_in_regions(before, vm_addr, len, host);
        let k = choose|k: int|
            0 <= k < before.len() && (#[trigger] before[k]).addr_host <= host < before[k].addr_host
                + before[k].len;
        assert(regions[k] == before[k]);
    }
}

/// What translating an access comes to.
#[verifier::opaque]
pub open spec fn translated(regions: Seq<MemoryRegion>, vm_addr: u64, len: u64) -> Result<
    u64,
    EbpfError,
> {
    match host_address(regions, vm_addr as int, len as int) {
        Some(host) => Ok(host as u64),
        None => Err(EbpfError::AccessViolation(vm_addr, len)),
    }
}

/// Host address of the `len` bytes at a virtual address.
pub fn translate(
    vm_addr: u64,
    len: u64,
    regions: &[MemoryRegion],
    memory: &HostMemory,
) -> (r: Result<u64, EbpfError>)
    requires
        regions_valid(regions@, memory@.len() as int),
    ensures
        r == translated(regions@, vm_addr, len),
        r is Ok ==> r->Ok_0 + len <= memory@.len() && vm_addr + len <= u64::MAX,
{
    proof {
        reveal(translated);
        lemma_host_address_in_memory(
            regions@,
            vm_addr as int,
            len as int,
            memory@.len() as int,
        );
    }
    if len > memory.bytes.len() as u64 {
        return Err(EbpfError::AccessViolation(vm_addr, len));
    }
    match translate_addr(vm_addr, len as usize, regions) {
        Some(host) => Ok(host),
        None => Err(EbpfError::AccessViolation(vm_addr, len)),
    }
}

/// Bytes of the host, addressed from zero.
#[derive(Debug)]
pub struct HostMemory {
    pub bytes: Vec<u8>,
}

impl View for HostMemory {
    type V = Seq<u8>;

    open spec fn view(&self) -> Seq<u8> {
        self.bytes@
    }
}

/// The `n` bytes at a host address.
pub open spec fn bytes_at(memory: Seq<u8>, at: int, n: int) -> Seq<u8> {
    memory.subrange(at, at + n)
}

/// The number of which `s` holds the eight bytes, least significant first.
pub open spec fn le_u64(s: Seq<u8>) -> int {
    s[0] + s[1] * 0x100 + s[2] * 0x1_0000 + s[3] * 0x100_0000 + s[4] * 0x1_0000_0000 + s[5]
        * 0x100_0000_0000 + s[6] * 0x1_0000_0000_0000 + s[7] * 0x100_0000_0000_0000
}

/// The eight bytes of a number, least significant first.
pub open spec fn u64_bytes(x: u64) -> Seq<u8> {
    seq![
        (x % 0x100) as u8,
        (x / 0x100 % 0x100) as u8,
        (x / 0x1_0000 % 0x100) as u8,
        (x / 0x100_0000 % 0x100) as u8,
        (x / 0x1_0000_0000 % 0x100) as u8,
        (x / 0x100_0000_0000 % 0x100) as u8,
        (x / 0x1_0000_0000_0000 % 0x100) as u8,
        (x / 0x100_0000_0000_0000) as u8,
    ]
}

/// The number at a host address.
#[verifier::opaque]
pub open spec fn u64_at(memory: Seq<u8>, at: int) -> u64 {
    le_u64(bytes_at(memory, at, 8)) as u64
}

/// The flag at a host address: any byte but zero is set.
pub open spec fn flag_at(memory: Seq<u8>, at: int) -> bool {
    memory[at] != 0
}

/// The memory after `bytes` were written at a host address.
pub open spec fn written(memory: Seq<u8>, at: int, bytes: Seq<u8>) -> Seq<u8> {
    memory.take(at) + bytes + memory.skip(at + bytes.len())
}

impl HostMemory {
    /// The byte at a host address.
    pub fn read_u8(&self, at: u64) -> (r: u8)
        requires
            at < self@.len(),
        ensures
            r == self@[at as int],
    {
        assert(self.bytes.len() <= usize::MAX);
        self.bytes[at as usize]
    }

    /// The flag at a host address.
    pub fn read_flag(&self, at: u64) -> (r: bool)
        requires
            at < self@.len(),
        ensures
            r == flag_at(self@, at as int),
    {
        assert(self.bytes.len() <= usize::MAX);
        self.bytes[at as usize] != 0
    }

    /// The number at a host address.
    pub fn read_u64(&self, at: u64) -> (r: u64)
        requires
            at + 8 <= self@.len(),
        ensures
            r == u64_at(self@, at as int),
    {
        assert(self.bytes.len() <= usize::MAX);
        let i: usize = at as usize;
        proof {
            reveal(u64_at);
        }
        self.bytes[i] as u64 + self.bytes[i + 1] as u64 * 0x100 + self.bytes[i + 2] as u64
            * 0x1_0000 + self.bytes[i + 3] as u64 * 0x100_0000 + self.bytes[i + 4] as u64
            * 0x1_0000_0000 + self.bytes[i + 5] as u64 * 0x100_0000_0000 + self.bytes[i + 6] as u64
            * 0x1_0000_0000_0000 + self.bytes[i + 7] as u64 * 0x100_0000_0000_0000
    }

    /// The `n` bytes at a host address.
    pub fn read_bytes(&self, at: u64, n: u64) -> (r: Vec<u8>)
        requires
            at + n <= self@.len(),
        ensures
            r@ == bytes_at(self@, at as int, n as int),
    {
        assert(self.bytes.len() <= usize::MAX);
        let i: usize = at as usize;
        vstd::slice::slice_to_vec(
            vstd::slice::slice_subrange(self.bytes.as_slice(), i, i + n as usize),
        )
    }

    /// The address at a host address.
    pub fn read_pubkey(&self, at: u64) -> (r: Pubkey)
        requires
            at + 32 <= self@.len(),
        ensures
            r@ == bytes_at(self@, at as int, 32),
    {
        let mut bytes: [u8; 32] = [0;32];
        let mut i: usize = 0;
        while i < 32
            invariant
                i <= 32,
                at + 32 <= self@.len(),
                forall|j: int| 0 <= j < i ==> bytes@[j] == self@[at + j],
            decreases 32 - i,
        {
            assert(self.bytes.len() <= usize::MAX);
            bytes[i] = self.bytes[at as usize + i];
            i = i + 1;
        }
        assert(bytes@ =~= bytes_at(self@, at as int, 32));
        Pubkey { bytes }
    }

    /// Writes `bytes` at a host address.
    pub fn write_bytes(&mut self, at: u64, bytes: &[u8])
        requires
            at + bytes@.len() <= old(self)@.len(),
        ensures
            final(self)@ == written(old(self)@, at as int, bytes@),
            final(self)@.len() == old(self)@.len(),
    {
        let n: usize = bytes.len();
        let mut i: usize = 0;
        while i < n
            invariant
                i <= n,
                n == bytes@.len(),
                at + n <= old(self)@.len(),
                self@.len() == old(self)@.len(),
                forall|j: int|
                    0 <= j < self@.len() ==> #[trigger] self@[j] == if at <= j < at + i {
                        bytes@[j - at]
                    } else {
                        old(self)@[j]
                    },
            decreases n - i,
        {
            assert(self.bytes.len() <= usize::MAX);
            self.bytes.set(at as usize + i, bytes[i]);
            i = i + 1;
        }
        assert(self@ =~= written(old(self)@, at as int, bytes@));
    }

    /// Writes a number at a host address.
    pub fn write_u64(&mut self, at: u64, x: u64)
        requires
            at + 8 <= old(self)@.len(),
        ensures
            final(self)@ == written(old(self)@, at as int, u64_bytes(x)),
            final(self)@.len() == old(self)@.len(),
    {
        let bytes: [u8; 8] = [
            (x % 0x100) as u8,
            (x / 0x100 % 0x100) as u8,
            (x / 0x1_0000 % 0x100) as u8,
            (x / 0x100_0000 % 0x100) as u8,
            (x / 0x1_0000_0000 % 0x100) as u8,
            (x / 0x100_0000_0000 % 0x100) as u8,
            (x / 0x1_0000_0000_0000 % 0x100) as u8,
            (x / 0x100_0000_0000_0000) as u8,
        ];
        assert(bytes@ =~= u64_bytes(x));
        self.write_bytes(at, bytes.as_slice());
    }

    /// Writes one byte at a host address.
    pub fn write_u8(&mut self, at: u64, x: u8)
        requires
            at < old(self)@.len(),
        ensures
            final(self)@ == written(old(self)@, at as int, seq![x]),
            final(self)@.len() == old(self)@.len(),
    {
        assert(self.bytes.len() <= usize::MAX);
        self.bytes.set(at as usize, x);
        assert(self@ =~= written(old(self)@, at as int, seq![x]));
    }
}

/// Law: a number that was written is read back.
pub proof fn law_read_u64_after_write(memory: Seq<u8>, at: int, x: u64)
    requires
        0 <= at,
        at + 8 <= memory.len(),
    ensures
        u64_at(written(memory, at, u64_bytes(x)), at) == x,
{
    reveal(u64_at);
    assert(bytes_at(written(memory, at, u64_bytes(x)), at, 8) =~= u64_bytes(x));
    assert((x % 0x100) + (x / 0x100 % 0x100) * 0x100 + (x / 0x1_0000 % 0x100) * 0x1_0000 + (x
        / 0x100_0000 % 0x100) * 0x100_0000 + (x / 0x1_0000_0000 % 0x100) * 0x1_0000_0000 + (x
        / 0x100_0000_0000 % 0x100) * 0x100_0000_0000 + (x / 0x1_0000_0000_0000 % 0x100)
        * 0x1_0000_0000_0000 + (x / 0x100_0000_0000_0000) * 0x100_0000_0000_0000 == x)
        by (bit_vector);
}

/// Law: writing back the number that was read changes nothing.
pub proof fn law_write_u64_after_read(memory: Seq<u8>, at: int)
    requires
        0 <= at,
        at + 8 <= memory.len(),
    ensures
        written(memory, at, u64_bytes(u64_at(memory, at))) == memory,
{
    reveal(u64_at);
    let s = bytes_at(memory, at, 8);
    let x: u64 = u64_at(memory, at);
    let (b0, b1, b2, b3): (u64, u64, u64, u64) = (
        s[0] as u64,
        s[1] as u64,
        s[2] as u64,
        s[3] as u64,
    );
    let (b4, b5, b6, b7): (u64, u64, u64, u64) = (
        s[4] as u64,
        s[5] as u64,
        s[6] as u64,
        s[7] as u64,
    );
    assert(x == b0 + b1 * 0x100 + b2 * 0x1_0000 + b3 * 0x100_0000 + b4 * 0x1_0000_0000 + b5
        * 0x100_0000_0000 + b6 * 0x1_0000_0000_0000 + b7 * 0x100_0000_0000_0000);
    assert(x % 0x100 == b0 && x / 0x100 % 0x100 == b1 && x / 0x1_0000 % 0x100 == b2 && x
        / 0x100_0000 % 0x100 == b3 && x / 0x1_0000_0000 % 0x100 == b4 && x / 0x100_0000_0000
        % 0x100 == b5 && x / 0x1_0000_0000_0000 % 0x100 == b6 && x / 0x100_0000_0000_0000 == b7)
        by (bit_vector)
        requires
            b0 < 0x100,
            b1 < 0x100,
            b2 < 0x100,
            b3 < 0x100,
            b4 < 0x100,
            b5 < 0x100,
            b6 < 0x100,
            b7 < 0x100,
            x == b0 + b1 * 0x100 + b2 * 0x1_0000 + b3 * 0x100_0000 + b4 * 0x1_0000_0000 + b5
                * 0x100_0000_0000 + b6 * 0x1_0000_0000_0000 + b7 * 0x100_0000_0000_0000,
    ;
    assert(u64_bytes(x) =~= s);
    law_write_after_read(memory, at, 8);
}

/// A number is read where its bytes stand, and only there.
pub proof fn lemma_word_has_its_bytes(memory: Seq<u8>, at: int, x: u64)
    requires
        0 <= at,
        at + 8 <= memory.len(),
    ensures
        u64_at(memory, at) == x <==> bytes_at(memory, at, 8) == u64_bytes(x),
{
    law_write_u64_after_read(memory, at);
    law_write_is_local(memory, at, u64_bytes(u64_at(memory, at)));
    law_read_u64_after_write(memory, at, x);
    if bytes_at(memory, at, 8) == u64_bytes(x) {
        law_write_after_read(memory, at, 8);
    }
}

/// Law: the least significant byte of a number comes first. The byte at each of the eight places
/// is the digit of that place, in base 256, of the number that is read there; and the bytes of a
/// number are its digits.
pub proof fn law_words_are_little_endian(memory: Seq<u8>, at: int, x: u64, k: nat)
    requires
        0 <= at,
        at + 8 <= memory.len(),
        k < 8,
    ensures
        memory[at + k] == u64_at(memory, at) as int / pow(256, k) % 256,
        u64_bytes(x).len() == 8,
        u64_bytes(x)[k as int] == x as int / pow(256, k) % 256,
{
    law_write_u64_after_read(memory, at);
    let y = u64_at(memory, at);
    law_write_is_local(memory, at, u64_bytes(y));
    assert(bytes_at(memory, at, 8)[k as int] == memory[at + k]);
    reveal_with_fuel(pow, 9);
    assert(x / 0x100_0000_0000_0000 < 0x100) by (bit_vector);
    assert(y / 0x100_0000_0000_0000 < 0x100) by (bit_vector);
    if k == 0 {
        assert(pow(256, k) == 1);
    } else if k == 1 {
        assert(pow(256, k) == 0x100);
    } else if k == 2 {
        assert(pow(256, k) == 0x1_0000);
    } else if k == 3 {
        assert(pow(256, k) == 0x100_0000);
    } else if k == 4 {
        assert(pow(256, k) == 0x1_0000_0000);
    } else if k == 5 {
        assert(pow(256, k) == 0x100_0000_0000);
    } else if k == 6 {
        assert(pow(256, k) == 0x1_0000_0000_0000);
    } else {
        assert(pow(256, k) == 0x100_0000_0000_0000);
    }
}

/// Law: writing back the bytes that were read changes nothing.
pub proof fn law_write_after_read(memory: Seq<u8>, at: int, n: int)
    requires
        0 <= at,
        0 <= n,
        at + n <= memory.len(),
    ensures
        written(memory, at, bytes_at(memory, at, n)) == memory,
{
    assert(written(memory, at, bytes_at(memory, at, n)) =~= memory);
}

/// Law: bytes that were written are read back, and a write changes no byte outside its range.
pub proof fn law_write_is_local(memory: Seq<u8>, at: int, bytes: Seq<u8>)
    requires
        0 <= at,
        at + bytes.len() <= memory.len(),
    ensures
        written(memory, at, bytes).len() == memory.len(),
        bytes_at(written(memory, at, bytes), at, bytes.len() as int) == bytes,
        forall|i: int|
            0 <= i < memory.len() && !(at <= i < at + bytes.len()) ==> #[trigger] written(
                memory,
                at,
                bytes,
            )[i] == memory[i],
{
    assert(bytes_at(written(memory, at, bytes), at, bytes.len() as int) =~= bytes);
}

/// Whether pointers of a program of this loader must be aligned.
pub open spec fn checks_alignment(loader_id: Seq<u8>) -> bool {
    loader_id != BPF_LOADER_DEPRECATED_ID@
}

/// Whether this loader's alignment rule refuses a pointer.
pub open spec fn misaligned(loader_id: Seq<u8>, vm_addr: u64, align: u64) -> bool {
    checks_alignment(loader_id) && vm_addr % align != 0
}

/// A product that stops at the largest number.
pub open spec fn saturating_product(a: u64, b: u64) -> u64 {
    if a * b <= u64::MAX {
        (a * b) as u64
    } else {
        u64::MAX
    }
}

/// What translating a pointer to one value comes to.
pub open spec fn translated_type(
    regions: Seq<MemoryRegion>,
    loader_id: Seq<u8>,
    vm_addr: u64,
    size: u64,
    align: u64,
) -> Result<u64, EbpfError> {
    if misaligned(loader_id, vm_addr, align) {
        Err(refused(SyscallError::UnalignedPointer))
    } else {
        translated(regions, vm_addr, size)
    }
}

/// What translating a pointer to `count` values comes to. An empty slice needs no memory: its
/// host address is zero.
pub open spec fn translated_slice(
    regions: Seq<MemoryRegion>,
    loader_id: Seq<u8>,
    vm_addr: u64,
    count: u64,
    size: u64,
    align: u64,
) -> Result<u64, EbpfError> {
    if misaligned(loader_id, vm_addr, align) {
        Err(refused(SyscallError::UnalignedPointer))
    } else if count == 0 {
        Ok(0)
    } else {
        translated(regions, vm_addr, saturating_product(count, size))
    }
}

/// Values that were found lie in the host memory.
pub proof fn lemma_translated_slice_in_memory(
    regions: Seq<MemoryRegion>,
    loader_id: Seq<u8>,
    vm_addr: u64,
    count: u64,
    size: u64,
    align: u64,
    memory_size: int,
)
    requires
        regions_valid(regions, memory_size),
        0 <= memory_size,
    ensures
        match translated_slice(regions, loader_id, vm_addr, count, size, align) {
            Ok(at) => at + count * size <= memory_size,
            Err(_) => true,
        },
{
    reveal(translated);
    let len = saturating_product(count, size);
    lemma_host_address_in_memory(regions, vm_addr as int, len as int, memory_size);
    if count == 0 {
        assert(count * size == 0) by (nonlinear_arith)
            requires
                count == 0,
        ;
    }
}

/// Whether this loader's alignment rule refuses a pointer.
fn is_misaligned(loader_id: &Pubkey, vm_addr: u64, align: u64) -> (r: bool)
    requires
        align > 0,
    ensures
        r == misaligned(loader_id@, vm_addr, align),
{
    !loader_id.has_bytes(&BPF_LOADER_DEPRECATED_ID) && vm_addr % align != 0
}

/// Host address of the value of `size` bytes at a virtual address.
pub fn translate_type(
    vm_addr: u64,
    size: u64,
    align: u64,
    regions: &[MemoryRegion],
    loader_id: &Pubkey,
    memory: &HostMemory,
) -> (r: Result<u64, EbpfError>)
    requires
        align > 0,
        regions_valid(regions@, memory@.len() as int),
    ensures
        r == translated_type(regions@, loader_id@, vm_addr, size, align),
        r is Ok ==> r->Ok_0 + size <= memory@.len() && vm_addr + size <= u64::MAX,
{
    if is_misaligned(loader_id, vm_addr, align) {
        Err(EbpfError::from(SyscallError::UnalignedPointer))
    } else {
        translate(vm_addr, size, regions, memory)
    }
}

/// Host address of the `count` values of `size` bytes each at a virtual address.
pub fn translate_slice(
    vm_addr: u64,
    count: u64,
    size: u64,
    align: u64,
    regions: &[MemoryRegion],
    loader_id: &Pubkey,
    memory: &HostMemory,
) -> (r: Result<u64, EbpfError>)
    requires
        align > 0,
        regions_valid(regions@, memory@.len() as int),
    ensures
        r == translated_slice(regions@, loader_id@, vm_addr, count, size, align),
        r is Ok ==> r->Ok_0 + count * size <= memory@.len() && vm_addr + count * size <= u64::MAX,
{
    if is_misaligned(loader_id, vm_addr, align) {
        Err(EbpfError::from(SyscallError::UnalignedPointer))
    } else if count == 0 {
        assert(count * size == 0) by (nonlinear_arith)
            requires
                count == 0,
        ;
        Ok(0)
    } else {
        let len: u64 = match count.checked_mul(size) {
            Some(len) => len,
            None => u64::MAX,
        };
        translate(vm_addr, len, regions, memory)
    }
}

/// Law: regions are valid if and only if each lies in the memory and in the virtual addresses, and
/// each but the first starts behind the start of the one before it.
pub proof fn law_valid_regions_lie_in_memory(regions: Seq<MemoryRegion>, size: int)
    requires
        0 <= size <= isize::MAX,
    ensures
        regions_valid(regions, size) <==> (forall|i: int|
            0 <= i < regions.len() ==> (#[trigger] regions[i]).addr_host + regions[i].len <= size
                && regions[i].addr_vm + regions[i].len <= u64::MAX && (regions[i].addr_vm > 0
                || regions[i].len > 0)) && (forall|i: int|
            0 < i < regions.len() ==> regions[i - 1].addr_vm < (#[trigger] regions[i]).addr_vm),
{
    if forall|i: int|
        0 < i < regions.len() ==> regions[i - 1].addr_vm < (#[trigger] regions[i]).addr_vm {
        assert forall|i: int, j: int|
            #![trigger regions[i], regions[j]]
            0 <= i < j < regions.len() implies regions[i].addr_vm < regions[j].addr_vm by {
            lemma_ascend(regions, i, j);
        }
    }
    if regions_valid(regions, size) {
        assert forall|i: int| 0 < i < regions.len() implies regions[i - 1].addr_vm < (
        #[trigger] regions[i]).addr_vm by {
            assert(regions[i - 1].addr_vm < regions[i].addr_vm);
        }
    }
}

/// Regions of which each starts behind the one before it ascend.
proof fn lemma_ascend(regions: Seq<MemoryRegion>, i: int, j: int)
    requires
        0 <= i < j < regions.len(),
        forall|k: int|
            0 < k < regions.len() ==> regions[k - 1].addr_vm < (#[trigger] regions[k]).addr_vm,
    ensures
        regions[i].addr_vm < regions[j].addr_vm,
    decreases j - i,
{
    assert(regions[j - 1].addr_vm < regions[j].addr_vm);
    if i < j - 1 {
        lemma_ascend(regions, i, j - 1);
    }
}

/// Whether an access to `len` bytes at a virtual address ends within the region that decides about
/// the address, and `host` is as far into the host bytes of that region.
pub open spec fn backs(regions: Seq<MemoryRegion>, vm_addr: int, len: int, host: int) -> bool {
    exists|k: int|
        0 <= k < regions.len() && (#[trigger] regions[k]).addr_vm <= vm_addr && (k + 1
            < regions.len() ==> vm_addr < regions[k + 1].addr_vm) && vm_addr + len
            <= regions[k].addr_vm + regions[k].len && host == regions[k].addr_host + vm_addr
            - regions[k].addr_vm
}

/// Among ordered regions some region decides about an address, unless it lies below all of them.
proof fn lemma_some_region_decides(regions: Seq<MemoryRegion>, vm_addr: int) -> (k: int)
    requires
        regions_ordered(regions),
        regions.len() > 0,
        regions[0].addr_vm <= vm_addr,
    ensures
        decides(regions, k, vm_addr),
    decreases regions.len(),
{
    let last = regions.len() - 1;
    if regions[last].addr_vm <= vm_addr {
        last
    } else {
        lemma_ordered_prefix(regions);
        let before = regions.drop_last();
        let k = lemma_some_region_decides(before, vm_addr);
        assert(before[k] == regions[k]);
        if k + 1 < before.len() {
            assert(before[k + 1] == regions[k + 1]);
        }
        k
    }
}

/// An access is granted if and only if a region backs it.
pub proof fn lemma_granted_is_backed(regions: Seq<MemoryRegion>, vm_addr: int, len: int, host: int)
    requires
        regions_ordered(regions),
        0 <= len,
    ensures
        host_address(regions, vm_addr, len) == Some(host) <==> backs(regions, vm_addr, len, host),
{
    if regions.len() > 0 && regions[0].addr_vm <= vm_addr {
        let k = lemma_some_region_decides(regions, vm_addr);
        law_translation_stays_in_one_region(regions, vm_addr, len, k);
        if backs(regions, vm_addr, len, host) {
            let j = choose|j: int|
                0 <= j < regions.len() && (#[trigger] regions[j]).addr_vm <= vm_addr && (j + 1
                    < regions.len() ==> vm_addr < regions[j + 1].addr_vm) && vm_addr + len
                    <= regions[j].addr_vm + regions[j].len && host == regions[j].addr_host + vm_addr
                    - regions[j].addr_vm;
            assert(decides(regions, j, vm_addr));
            law_translation_stays_in_one_region(regions, vm_addr, len, j);
        }
        if host_address(regions, vm_addr, len) == Some(host) {
            assert(regions[k].addr_vm <= vm_addr);
        }
    } else {
        assert forall|i: int| 0 <= i < regions.len() implies vm_addr < (
        #[trigger] regions[i]).addr_vm by {
            assert(regions[0].addr_vm <= regions[i].addr_vm);
        }
        law_translation_below_regions(regions, vm_addr, len);
    }
}

/// Whether no two regions have a virtual address in common.
pub open spec fn regions_apart(regions: Seq<MemoryRegion>) -> bool {
    forall|i: int, j: int|
        #![trigger regions[i], regions[j]]
        0 <= i < j < regions.len() ==> regions[i].addr_vm + regions[i].len <= regions[j].addr_vm
}

/// Law: where regions have no address in common, an access to many bytes is an access to each of
/// them, in their order.
pub proof fn law_accesses_are_made_of_bytes(
    regions: Seq<MemoryRegion>,
    vm_addr: int,
    len: int,
    i: int,
)
    requires
        regions_ordered(regions),
        regions_apart(regions),
        host_address(regions, vm_addr, len) is Some,
        0 <= i < len,
    ensures
        host_address(regions, vm_addr + i, 1) == Some(host_address(regions, vm_addr, len)->0 + i),
{
    let host = host_address(regions, vm_addr, len)->0;
    lemma_granted_is_backed(regions, vm_addr, len, host);
    let k = choose|k: int|
        0 <= k < regions.len() && (#[trigger] regions[k]).addr_vm <= vm_addr && (k + 1
            < regions.len() ==> vm_addr < regions[k + 1].addr_vm) && vm_addr + len
            <= regions[k].addr_vm + regions[k].len && host == regions[k].addr_host + vm_addr
            - regions[k].addr_vm;
    if k + 1 < regions.len() {
        assert(regions[k].addr_vm + regions[k].len <= regions[k + 1].addr_vm);
    }
    assert(backs(regions, vm_addr + i, 1, host + i)) by {
        assert(regions[k].addr_vm <= vm_addr + i);
    }
    lemma_granted_is_backed(regions, vm_addr + i, 1, host + i);
}

/// Law: a pointer to values is refused as unaligned if and only if its address is no multiple of
/// the alignment and the loader is not the deprecated one. Any other pointer leads to where a
/// region backs all bytes of the values, and is a violation of the access where none does. Values
/// that have no bytes are found without a region if there are none of them.
pub proof fn law_pointers_are_checked(
    regions: Seq<MemoryRegion>,
    loader_id: Seq<u8>,
    vm_addr: u64,
    count: u64,
    size: u64,
    align: u64,
    memory_size: int,
    host: u64,
)
    requires
        regions_valid(regions, memory_size),
        0 <= memory_size,
        align > 0,
    ensures
        ({
            let unaligned = loader_id != BPF_LOADER_DEPRECATED_ID@ && vm_addr as int % align as int
                != 0;
            let one = translated_type(regions, loader_id, vm_addr, size, align);
            let many = translated_slice(regions, loader_id, vm_addr, count, size, align);
            let unaligned_error = EbpfError::UserError(
                crate::error::BPFError::SyscallError(SyscallError::UnalignedPointer),
            );
            &&& unaligned ==> one == Err::<u64, EbpfError>(unaligned_error) && many == Err::<
                u64,
                EbpfError,
            >(unaligned_error)
            &&& !unaligned ==> {
                &&& one == Ok::<u64, EbpfError>(host) <==> backs(
                    regions,
                    vm_addr as int,
                    size as int,
                    host as int,
                )
                &&& one is Err ==> one == Err::<u64, EbpfError>(
                    EbpfError::AccessViolation(vm_addr, size),
                )
                &&& count == 0 ==> many == Ok::<u64, EbpfError>(0)
                &&& count > 0 ==> (many == Ok::<u64, EbpfError>(host) <==> backs(
                    regions,
                    vm_addr as int,
                    count as int * size as int,
                    host as int,
                ))
                &&& many is Err && count * size <= u64::MAX ==> many == Err::<u64, EbpfError>(
                    EbpfError::AccessViolation(vm_addr, (count * size) as u64),
                )
                &&& many is Err && count * size > u64::MAX ==> many == Err::<u64, EbpfError>(
                    EbpfError::AccessViolation(vm_addr, u64::MAX),
                )
            }
        }),
{
    reveal(translated);
    let len = count as int * size as int;
    assert(len >= 0) by (nonlinear_arith)
        requires
            len == count as int * size as int,
            count >= 0,
            size >= 0,
    ;
    lemma_granted_is_backed(regions, vm_addr as int, size as int, host as int);
    lemma_granted_is_backed(regions, vm_addr as int, len, host as int);
    lemma_granted_is_backed(regions, vm_addr as int, u64::MAX as int, host as int);
    lemma_host_address_in_memory(regions, vm_addr as int, size as int, memory_size);
    lemma_host_address_in_memory(regions, vm_addr as int, len, memory_size);
    lemma_host_address_in_memory(regions, vm_addr as int, u64::MAX as int, memory_size);
}

/// Whether the regions lie in the memory and ascend, as every translation asks.
pub fn regions_are_valid(regions: &[MemoryRegion], memory: &HostMemory) -> (r: bool)
    ensures
        r == regions_valid(regions@, memory@.len() as int),
{
    let size: u64 = memory.bytes.len() as u64;
    if memory.bytes.len() > isize::MAX as usize {
        return false;
    }
    let mut i: usize = 0;
    while i < regions.len()
        invariant
            i <= regions@.len(),
            size == memory@.len(),
            size <= isize::MAX,
            regions_valid(regions@.take(i as int), size as int),
        decreases regions@.len() - i,
    {
        let region = regions[i];
        assert(regions@.take(i + 1).last() == regions@[i as int]);
        let ok: bool = region.addr_host <= size && region.len <= size - region.addr_host
            && region.addr_vm <= u64::MAX - region.len && (region.addr_vm > 0 || region.len > 0)
            && (i == 0 || regions[i - 1].addr_vm < region.addr_vm);
        if !ok {
            return false;
        }
        assert(regions_valid(regions@.take(i + 1), size as int)) by {
            let before = regions@.take(i as int);
            let after = regions@.take(i + 1);
            assert forall|a: int, b: int|
                #![trigger after[a], after[b]]
                0 <= a < b < after.len() implies after[a].addr_vm < after[b].addr_vm by {
                if b < i {
                    assert(before[a] == after[a] && before[b] == after[b]);
                } else if a < i - 1 {
                    assert(before[a] == after[a] && before[i - 1] == after[i - 1]);
                }
            }
            assert forall|a: int| 0 <= a < after.len() implies {
                &&& (#[trigger] after[a]).addr_host + after[a].len <= size
                &&& after[a].addr_host + after[a].len <= u64::MAX
                &&& 1 <= after[a].addr_vm + after[a].len <= u64::MAX
            } by {
                if a < i {
                    assert(before[a] == after[a]);
                }
            }
        }
        i = i + 1;
    }
    assert(regions@.take(i as int) =~= regions@);
    true
}

} // verus!
