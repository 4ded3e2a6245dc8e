//! The heap of a program, and the syscall by which the program takes memory from it.
use crate::error::EbpfError;
use crate::memory::MemoryRegion;
use vstd::prelude::*;

verus! {

/// First virtual address of the heap.
pub const MM_HEAP_START: u64 = 0x3_0000_0000;

/// Default program heap size, allocators are expected to enforce this
pub const DEFAULT_HEAP_SIZE: usize = 32 * 1024;

/// The heap does not have the memory that was asked for.
#[derive(Debug, Clone, Copy, PartialEq, Eq, Structural)]
pub struct AllocErr;

/// Simple bump allocator, never frees
#[derive(Debug)]
pub struct BPFAllocator {
    heap: Vec<u8>,
    start: u64,
    pos: u64,
}

/// An allocator: where its heap starts, the bytes of the heap, and how many of them are taken.
pub struct AllocatorView {
    pub start: u64,
    pub heap: Seq<u8>,
    pub pos: u64,
}

impl View for BPFAllocator {
    type V = AllocatorView;

    closed spec fn view(&self) -> AllocatorView {
        AllocatorView { start: self.start, heap: self.heap@, pos: self.pos }
    }
}

/// Number of bytes that lie between a position and the next multiple of `align`.
pub open spec fn padding(pos: int, align: int) -> int {
    (align - pos % align) % align
}

impl AllocatorView {
    /// Whether the heap lies in the virtual address space and not more of it is taken than there
    /// is.
    pub open spec fn is_valid(self) -> bool {
        self.pos <= self.heap.len() < u64::MAX && self.start + self.heap.len() <= u64::MAX
    }

    /// Position of an allocation, whether or not it fits.
    pub open spec fn next(self, align: int) -> int {
        self.pos + padding(self.pos as int, align)
    }

    /// Whether an allocation fits into what is left.
    pub open spec fn has_room(self, size: int, align: int) -> bool {
        self.next(align) + size <= self.heap.len()
    }

    /// The allocator after an allocation.
    pub open spec fn after(self, size: int, align: int) -> AllocatorView {
        if self.has_room(size, align) {
            AllocatorView { pos: (self.next(align) + size) as u64, ..self }
        } else {
            self
        }
    }
}

/// What taking bytes from a heap comes to: their virtual address, and the allocator from then on.
pub open spec fn allocated(a: AllocatorView, size: u64, align: u64) -> (
    Result<u64, AllocErr>,
    AllocatorView,
) {
    (
        if a.has_room(size as int, align as int) {
            Ok((a.start + a.next(align as int)) as u64)
        } else {
            Err(AllocErr)
        },
        a.after(size as int, align as int),
    )
}

impl BPFAllocator {
    /// Whether the heap lies in the virtual address space and not more of it is taken than there
    /// is.
    pub open spec fn is_valid(self) -> bool {
        self@.is_valid()
    }

    /// An allocator of which nothing is taken, for a heap at a virtual address.
    pub fn new(heap: Vec<u8>, virtual_address: u64) -> (r: BPFAllocator)
        requires
            heap@.len() < u64::MAX,
            virtual_address + heap@.len() <= u64::MAX,
        ensures
            r.is_valid(),
            r@ == (AllocatorView { start: virtual_address, heap: heap@, pos: 0 }),
    {
        BPFAllocator { heap, start: virtual_address, pos: 0 }
    }

    /// The bytes of the heap.
    pub fn heap(&self) -> (r: &[u8])
        ensures
            r@ == self@.heap,
    {
        self.heap.as_slice()
    }

    /// Takes `size` bytes at the next multiple of `align`. Gives their virtual address.
    pub fn allocate(&mut self, size: u64, align: u64) -> (r: Result<u64, AllocErr>)
        requires
            old(self).is_valid(),
            0 < align,
        ensures
            final(self).is_valid(),
            final(self)@ == old(self)@.after(size as int, align as int),
            r == if old(self)@.has_room(size as int, align as int) {
                Ok((old(self)@.start + old(self)@.next(align as int)) as u64)
            } else {
                Err(AllocErr)
            },
            (r, final(self)@) == allocated(old(self)@, size, align),
    {
        let len: u64 = self.heap.len() as u64;
        let bytes_to_align: u64 = (align - self.pos % align) % align;
        if self.pos.saturating_add(bytes_to_align).saturating_add(size) <= len {
            self.pos = self.pos + bytes_to_align;
            let addr: u64 = self.start + self.pos;
            self.pos = self.pos + size;
            Ok(addr)
        } else {
            Err(AllocErr)
        }
    }
}

/// Alignment of what is allocated for a program whose pointers must be aligned.
pub const HEAP_ALIGN: u64 = 8;

/// Dynamic memory allocation syscall called when the BPF program calls
/// `sol_alloc_free_()`.  The allocator is expected to allocate/free
/// from/to a given chunk of memory and enforce size restrictions.  The
/// memory chunk is given to the allocator during allocator creation and
/// information about that memory (start address and size) is passed
/// to the VM to use for enforcement.
#[derive(Debug)]
pub struct SyscallAllocFree {
    pub aligned: bool,
    pub allocator: BPFAllocator,
}

/// Alignment of the allocations.
pub open spec fn heap_align(aligned: bool) -> int {
    if aligned {
        HEAP_ALIGN as int
    } else {
        1
    }
}

/// What an allocation or a free comes to: the answer, and the allocator from then on.
pub open spec fn alloc_free_outcome(
    a: AllocatorView,
    aligned: bool,
    size: u64,
    free_addr: u64,
) -> (u64, AllocatorView) {
    let align = heap_align(aligned);
    if free_addr == 0 && a.has_room(size as int, align) {
        ((a.start + a.next(align)) as u64, a.after(size as int, align))
    } else {
        (0, a)
    }
}

impl SyscallAllocFree {
    /// Allocates `size` bytes, or frees what is at `free_addr` if that is not zero. Returns the
    /// address of the allocation, or zero if there is none. A size that is too large for any
    /// layout is too large for every heap.
    pub fn call(
        &mut self,
        size: u64,
        free_addr: u64,
        _arg3: u64,
        _arg4: u64,
        _arg5: u64,
        _ro_regions: &[MemoryRegion],
        _rw_regions: &[MemoryRegion],
    ) -> (r: Result<u64, EbpfError>)
        requires
            old(self).allocator.is_valid(),
        ensures
            final(self).allocator.is_valid(),
            final(self).aligned == old(self).aligned,
            r is Ok,
            (r->Ok_0, final(self).allocator@) == alloc_free_outcome(
                old(self).allocator@,
                old(self).aligned,
                size,
                free_addr,
            ),
    {
        let align: u64 = if self.aligned {
            HEAP_ALIGN
        } else {
            1
        };
        if free_addr == 0 {
            match self.allocator.allocate(size, align) {
                Ok(addr) => Ok(addr),
                Err(_) => Ok(0),
            }
        } else {
            // Nothing is ever freed
            Ok(0)
        }
    }
}

/// Law: an allocation lies in the heap, behind all that was taken before, and is aligned from
/// the start of the heap. All of it counts as taken from then on, so that no later allocation
/// overlaps it.
pub proof fn law_allocations_are_disjoint(a: AllocatorView, size: int, align: int)
    requires
        a.is_valid(),
        0 < align,
        0 <= size,
        a.has_room(size, align),
    ensures
        a.pos <= a.next(align),
        a.next(align) + size == a.after(size, align).pos,
        a.after(size, align).is_valid(),
        a.next(align) % align == 0,
        a.next(align) < a.pos + align,
{
    let rest = a.pos as int % align;
    vstd::arithmetic::div_mod::lemma_fundamental_div_mod(a.pos as int, align);
    vstd::arithmetic::div_mod::lemma_mod_bound(a.pos as int, align);
    if rest == 0 {
        vstd::arithmetic::div_mod::lemma_mod_self_0(align);
        assert(padding(a.pos as int, align) == 0);
    } else {
        vstd::arithmetic::div_mod::lemma_small_mod((align - rest) as nat, align as nat);
        assert(padding(a.pos as int, align) == align - rest);
        let q = a.pos as int / align;
        assert(a.next(align) == align * (q + 1)) by (nonlinear_arith)
            requires
                a.next(align) == align * q + rest + (align - rest),
        ;
        vstd::arithmetic::div_mod::lemma_mod_multiples_basic(q + 1, align);
        assert(align * (q + 1) == (q + 1) * align) by (nonlinear_arith);
    }
}

/// Law: a free is answered by zero and changes nothing: what was allocated stays taken, whatever
/// is freed.
pub proof fn law_nothing_is_freed(a: AllocatorView, aligned: bool, size: u64, free_addr: u64)
    requires
        free_addr != 0,
    ensures
        alloc_free_outcome(a, aligned, size, free_addr) == (0u64, a),
{
}

/// Law: what is refused changes nothing, and what was refused once is refused from then on.
pub proof fn law_refusals_last(a: AllocatorView, size: int, size2: int, align: int)
    requires
        a.is_valid(),
        0 < align,
        0 <= size,
        0 <= size2,
        !a.has_room(size, align),
    ensures
        a.after(size, align) == a,
        !a.after(size2, align).has_room(size, align),
{
    if a.has_room(size2, align) {
        let b = a.after(size2, align);
        law_allocations_are_disjoint(a, size2, align);
        vstd::arithmetic::div_mod::lemma_mod_bound(align - b.pos as int % align, align);
        assert(b.next(align) >= b.pos);
        assert(b.next(align) >= a.next(align));
    }
}

/// Law: an allocation is at the first position behind what is taken that is a multiple of the
/// alignment: of eight where pointers must be aligned, of any position where not. It is granted if
/// and only if the heap has the room there; then its address is that position behind the start of
/// the heap, and all up to its end is taken. Otherwise zero is answered and nothing is taken. The
/// heap itself stays.
pub proof fn law_allocation_is_the_first_that_fits(
    a: AllocatorView,
    aligned: bool,
    size: u64,
    position: int,
)
    requires
        a.is_valid(),
        position >= a.pos,
        aligned ==> position % 8 == 0,
        forall|p: int| a.pos <= p < position ==> aligned && #[trigger] (p % 8) != 0,
    ensures
        ({
            let (answer, after) = alloc_free_outcome(a, aligned, size, 0);
            &&& after.start == a.start
            &&& after.heap == a.heap
            &&& position + size <= a.heap.len() ==> answer == a.start + position && after.pos
                == position + size
            &&& position + size > a.heap.len() ==> answer == 0 && after.pos == a.pos
        }),
{
    let align = heap_align(aligned);
    let next = a.next(align);
    lemma_next_is_first(a, align);
    if aligned {
        if next < position {
            assert(next % 8 != 0);
        }
        assert(next <= position);
    } else if a.pos < position {
        let p = a.pos as int;
        assert(p % 8 != 0);
    }
    assert(next == position);
}

/// The position of an allocation is a multiple of the alignment, and less than one multiple behind
/// what is taken.
proof fn lemma_next_is_first(a: AllocatorView, align: int)
    requires
        0 < align,
    ensures
        a.pos <= a.next(align) < a.pos + align,
        a.next(align) % align == 0,
{
    let rest = a.pos as int % align;
    vstd::arithmetic::div_mod::lemma_mod_bound(a.pos as int, align);
    vstd::arithmetic::div_mod::lemma_fundamental_div_mod(a.pos as int, align);
    if rest == 0 {
        vstd::arithmetic::div_mod::lemma_mod_self_0(align);
    } else {
        vstd::arithmetic::div_mod::lemma_small_mod((align - rest) as nat, align as nat);
        let q = a.pos as int / align;
        assert(a.next(align) == align * (q + 1)) by (nonlinear_arith)
            requires
                a.next(align) == align * q + rest + (align - rest),
        ;
        vstd::arithmetic::div_mod::lemma_mod_multiples_basic(q + 1, align);
        assert(align * (q + 1) == (q + 1) * align) by (nonlinear_arith);
    }
}

/// Law: bytes are taken at the first multiple of the alignment behind what is taken, if and only if
/// the heap has the room there, and all up to their end is taken from then on. Otherwise nothing is
/// taken. The heap itself stays.
pub proof fn law_bytes_are_taken_at_the_first_multiple(
    a: AllocatorView,
    size: u64,
    align: u64,
    multiple: int,
)
    requires
        a.is_valid(),
        align > 0,
        a.pos <= multiple < a.pos + align,
        multiple % align as int == 0,
    ensures
        ({
            let (r, after) = allocated(a, size, align);
            &&& after.start == a.start
            &&& after.heap == a.heap
            &&& multiple + size <= a.heap.len() ==> r is Ok && r->Ok_0 == a.start + multiple
                && after.pos == multiple + size
            &&& multiple + size > a.heap.len() ==> r == Err::<u64, AllocErr>(AllocErr) && after
                == a
        }),
{
    let n = align as int;
    let next = a.next(n);
    lemma_next_is_first(a, n);
    vstd::arithmetic::div_mod::lemma_fundamental_div_mod(next, n);
    vstd::arithmetic::div_mod::lemma_fundamental_div_mod(multiple, n);
    let p = next / n;
    let q = multiple / n;
    assert(p == q) by (nonlinear_arith)
        requires
            n > 0,
            next == n * p,
            multiple == n * q,
            -n < next - multiple < n,
    ;
}

} // verus!
