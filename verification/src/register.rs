//! Which syscalls a program is offered, and under which names.
use crate::allocator::law_allocations_are_disjoint;
use crate::allocator::{
    AllocatorView, BPFAllocator, SyscallAllocFree, DEFAULT_HEAP_SIZE, MM_HEAP_START,
};
use crate::context::{BpfComputeBudget, FeatureSet};
use crate::crypto::{SyscallRistrettoMul, SyscallSha256};
use crate::error::EbpfError;
use crate::instruction::{lemma_push_contains, views, KeyPrivileges, KeyedAccount};
use crate::invoke::InvokeContext;
use crate::invoke_signed::{SyscallInvokeSignedC, SyscallInvokeSignedRust};
use crate::log::{
    SyscallLog, SyscallLogBpfComputeUnits, SyscallLogPubkey, SyscallLogU64, SyscallPanic,
};
use crate::memory::{bytes_at, host_address, regions_valid, HostMemory, MemoryRegion};
use crate::program_address::{SyscallCreateProgramAddress, SyscallTryFindProgramAddress};
use crate::pubkey::{Pubkey, BPF_LOADER_DEPRECATED_ID};
use vstd::prelude::*;

verus! {

/// A syscall with its configuration.
#[derive(Debug)]
pub enum Syscall<'a> {
    Abort,
    Panic(SyscallPanic<'a>),
    Log(SyscallLog<'a>),
    LogU64(SyscallLogU64),
    LogBpfComputeUnits(SyscallLogBpfComputeUnits),
    LogPubkey(SyscallLogPubkey<'a>),
    Sha256(SyscallSha256<'a>),
    RistrettoMul(SyscallRistrettoMul<'a>),
    CreateProgramAddress(SyscallCreateProgramAddress<'a>),
    TryFindProgramAddress(SyscallTryFindProgramAddress<'a>),
    InvokeSignedC(SyscallInvokeSignedC<'a>),
    InvokeSignedRust(SyscallInvokeSignedRust<'a>),
    AllocFree(SyscallAllocFree),
}

/// Configuration of a syscall.
pub enum SyscallView {
    Abort,
    Panic { loader_id: Seq<u8> },
    Log { cost: u64, loader_id: Seq<u8> },
    LogU64 { cost: u64 },
    LogBpfComputeUnits { cost: u64 },
    LogPubkey { cost: u64, loader_id: Seq<u8> },
    Sha256 { base_cost: u64, byte_cost: u64, loader_id: Seq<u8> },
    RistrettoMul { cost: u64, loader_id: Seq<u8> },
    CreateProgramAddress { cost: u64, loader_id: Seq<u8> },
    TryFindProgramAddress { cost: u64, loader_id: Seq<u8> },
    InvokeSignedC { callers: Seq<KeyPrivileges>, loader_id: Seq<u8> },
    InvokeSignedRust { callers: Seq<KeyPrivileges>, loader_id: Seq<u8> },
    AllocFree { aligned: bool, allocator: AllocatorView },
}

impl<'a> View for Syscall<'a> {
    type V = SyscallView;

    open spec fn view(&self) -> SyscallView {
        match self {
            Syscall::Abort => SyscallView::Abort,
            Syscall::Panic(s) => SyscallView::Panic { loader_id: s.loader_id@ },
            Syscall::Log(s) => SyscallView::Log { cost: s.cost, loader_id: s.loader_id@ },
            Syscall::LogU64(s) => SyscallView::LogU64 { cost: s.cost },
            Syscall::LogBpfComputeUnits(s) => SyscallView::LogBpfComputeUnits { cost: s.cost },
            Syscall::LogPubkey(s) => SyscallView::LogPubkey {
                cost: s.cost,
                loader_id: s.loader_id@,
            },
            Syscall::Sha256(s) => SyscallView::Sha256 {
                base_cost: s.sha256_base_cost,
                byte_cost: s.sha256_byte_cost,
                loader_id: s.loader_id@,
            },
            Syscall::RistrettoMul(s) => SyscallView::RistrettoMul {
                cost: s.cost,
                loader_id: s.loader_id@,
            },
            Syscall::CreateProgramAddress(s) => SyscallView::CreateProgramAddress {
                cost: s.cost,
                loader_id: s.loader_id@,
            },
            Syscall::TryFindProgramAddress(s) => SyscallView::TryFindProgramAddress {
                cost: s.cost,
                loader_id: s.loader_id@,
            },
            Syscall::InvokeSignedC(s) => SyscallView::InvokeSignedC {
                callers: views(s.callers_keyed_accounts@),
                loader_id: s.loader_id@,
            },
            Syscall::InvokeSignedRust(s) => SyscallView::InvokeSignedRust {
                callers: views(s.callers_keyed_accounts@),
                loader_id: s.loader_id@,
            },
            Syscall::AllocFree(s) => SyscallView::AllocFree {
                aligned: s.aligned,
                allocator: s.allocator@,
            },
        }
    }
}

/// A syscall under its name.
#[derive(Debug)]
pub struct Registration<'a> {
    pub name: &'static str,
    pub syscall: Syscall<'a>,
}

/// A name with the configuration of the syscall behind it.
pub struct RegistrationView {
    pub name: Seq<char>,
    pub syscall: SyscallView,
}

impl<'a> View for Registration<'a> {
    type V = RegistrationView;

    open spec fn view(&self) -> RegistrationView {
        RegistrationView { name: self.name@, syscall: self.syscall@ }
    }
}

/// The syscalls of a virtual machine, in the order of their registration.
#[derive(Debug)]
pub struct SyscallRegistry<'a> {
    pub registrations: Vec<Registration<'a>>,
}

impl<'a> View for SyscallRegistry<'a> {
    type V = Seq<RegistrationView>;

    open spec fn view(&self) -> Seq<RegistrationView> {
        views(self.registrations@)
    }
}

impl<'a> SyscallRegistry<'a> {
    /// A registry without syscalls.
    pub fn new() -> (r: SyscallRegistry<'a>)
        ensures
            r@ == Seq::<RegistrationView>::empty(),
    {
        let r = SyscallRegistry { registrations: Vec::new() };
        assert(r@ =~= Seq::<RegistrationView>::empty());
        r
    }

    /// Registers a syscall.
    pub fn register(&mut self, name: &'static str, syscall: Syscall<'a>)
        ensures
            final(self)@ == old(self)@.push(RegistrationView { name: name@, syscall: syscall@ }),
    {
        self.registrations.push(Registration { name, syscall });
        assert(self@ =~= old(self)@.push(RegistrationView { name: name@, syscall: syscall@ }));
    }
}

/// A syscall, and whether a program is offered it.
pub struct Offer {
    pub is_active: bool,
    pub registration: RegistrationView,
}

/// A syscall that is offered if its feature is active.
pub open spec fn offer(is_active: bool, name: Seq<char>, syscall: SyscallView) -> Offer {
    Offer { is_active, registration: RegistrationView { name, syscall } }
}

/// All syscalls, in the order in which they are registered.
pub open spec fn offers(
    loader_id: Seq<u8>,
    callers: Seq<KeyPrivileges>,
    budget: BpfComputeBudget,
    features: FeatureSet,
) -> Seq<Offer> {
    let cost = budget.create_program_address_units;
    seq![
        offer(true, "abort"@, SyscallView::Abort),
        offer(true, "sol_panic_"@, SyscallView::Panic { loader_id }),
        offer(true, "sol_log_"@, SyscallView::Log { cost: budget.log_units, loader_id }),
        offer(true, "sol_log_64_"@, SyscallView::LogU64 { cost: budget.log_64_units }),
        offer(
            features.sol_log_compute_units_syscall,
            "sol_log_compute_units_"@,
            SyscallView::LogBpfComputeUnits { cost: 0 },
        ),
        offer(
            features.pubkey_log_syscall_enabled,
            "sol_log_pubkey"@,
            SyscallView::LogPubkey { cost: budget.log_pubkey_units, loader_id },
        ),
        offer(
            features.sha256_syscall_enabled,
            "sol_sha256"@,
            SyscallView::Sha256 {
                base_cost: budget.sha256_base_cost,
                byte_cost: budget.sha256_byte_cost,
                loader_id,
            },
        ),
        offer(
            features.ristretto_mul_syscall_enabled,
            "sol_ristretto_mul"@,
            SyscallView::RistrettoMul { cost: 0, loader_id },
        ),
        offer(
            true,
            "sol_create_program_address"@,
            SyscallView::CreateProgramAddress { cost, loader_id },
        ),
        offer(
            features.try_find_program_address_syscall_enabled,
            "sol_try_find_program_address"@,
            SyscallView::TryFindProgramAddress { cost, loader_id },
        ),
        offer(true, "sol_invoke_signed_c"@, SyscallView::InvokeSignedC { callers, loader_id }),
        offer(
            true,
            "sol_invoke_signed_rust"@,
            SyscallView::InvokeSignedRust { callers, loader_id },
        ),
        offer(
            true,
            "sol_alloc_free_"@,
            SyscallView::AllocFree {
                aligned: loader_id != BPF_LOADER_DEPRECATED_ID@,
                allocator: AllocatorView { start: MM_HEAP_START, heap: new_heap(), pos: 0 },
            },
        ),
    ]
}

/// A list, and behind it those of the first `n` syscalls that are offered.
pub open spec fn with_offers(s: Seq<RegistrationView>, offers: Seq<Offer>, n: nat) -> Seq<
    RegistrationView,
>
    decreases n,
{
    if n == 0 {
        s
    } else {
        let before = with_offers(s, offers, (n - 1) as nat);
        if offers[n - 1].is_active {
            before.push(offers[n - 1].registration)
        } else {
            before
        }
    }
}

/// All syscalls that a program is offered, behind those that were registered before.
pub open spec fn with_syscalls(
    s: Seq<RegistrationView>,
    loader_id: Seq<u8>,
    callers: Seq<KeyPrivileges>,
    budget: BpfComputeBudget,
    features: FeatureSet,
) -> Seq<RegistrationView> {
    let offers = offers(loader_id, callers, budget, features);
    with_offers(s, offers, offers.len())
}

/// A heap of which nothing was written.
pub open spec fn new_heap() -> Seq<u8> {
    Seq::new(DEFAULT_HEAP_SIZE as nat, |i: int| 0u8)
}

/// A memory with a new heap behind it.
pub open spec fn with_heap(memory: Seq<u8>) -> Seq<u8> {
    memory + new_heap()
}

/// Law: a program gets a heap of 32 KiB zeros behind the memory that is there, which stays, and
/// reaches it from the first address of the heap on.
pub proof fn law_heap_is_new_memory(memory: Seq<u8>, i: int)
    requires
        memory.len() <= u64::MAX,
    ensures
        with_heap(memory).len() == memory.len() + 32768,
        0 <= i < memory.len() ==> with_heap(memory)[i] == memory[i],
        0 <= i < 32768 ==> with_heap(memory)[memory.len() + i] == 0 && host_address(
            seq![heap_region(memory.len() as u64)],
            0x3_0000_0000 + i,
            1,
        ) == Some(memory.len() + i),
        i < 0 || i >= 32768 ==> host_address(
            seq![heap_region(memory.len() as u64)],
            0x3_0000_0000 + i,
            1,
        ) is None,
{
    let regions = seq![heap_region(memory.len() as u64)];
    assert(regions.last() == heap_region(memory.len() as u64));
    assert(regions.drop_last() =~= Seq::<MemoryRegion>::empty());
    assert(host_address(regions.drop_last(), 0x3_0000_0000 + i, 1) is None);
}

/// The region through which a program reaches its heap, which stands at a host address.
pub open spec fn heap_region(heap_addr_host: u64) -> MemoryRegion {
    MemoryRegion {
        addr_host: heap_addr_host,
        addr_vm: MM_HEAP_START,
        len: DEFAULT_HEAP_SIZE as u64,
    }
}

/// Registers the syscalls of a program, and gives the region of its heap. The heap is added to
/// the host memory.
pub fn register_syscalls<'a>(
    loader_id: &'a Pubkey,
    vm: &mut SyscallRegistry<'a>,
    callers_keyed_accounts: &'a [KeyedAccount],
    invoke_context: &InvokeContext,
    memory: &mut HostMemory,
) -> (r: Result<MemoryRegion, EbpfError>)
    requires
        old(memory)@.len() + DEFAULT_HEAP_SIZE <= isize::MAX,
    ensures
        r == Ok::<MemoryRegion, EbpfError>(heap_region(old(memory)@.len() as u64)),
        final(memory)@ == old(memory)@ + new_heap(),
        final(memory)@ == with_heap(old(memory)@),
        regions_valid(seq![r->Ok_0], final(memory)@.len() as int),
        final(vm).registrations@.len() > 0,
        final(vm).registrations@.last().syscall matches Syscall::AllocFree(s)
            && s.allocator@.heap == bytes_at(
            final(memory)@,
            r->Ok_0.addr_host as int,
            r->Ok_0.len as int,
        ) && s.allocator@.heap == new_heap(),
        final(vm)@ == with_syscalls(
            old(vm)@,
            loader_id@,
            views(callers_keyed_accounts@),
            invoke_context.bpf_compute_budget,
            invoke_context.features,
        ),
        forall|i: int|
            old(vm).registrations@.len() <= i < final(vm).registrations@.len() ==> leads_to_its_own(
                (#[trigger] final(vm).registrations@[i]).name@,
                final(vm).registrations@[i].syscall,
            ),
{
    let budget = invoke_context.bpf_compute_budget;
    let features = invoke_context.features;
    let ghost offers = offers(loader_id@, views(callers_keyed_accounts@), budget, features);

    // Syscall functions common across languages

    vm.register("abort", Syscall::Abort);
    vm.register("sol_panic_", Syscall::Panic(SyscallPanic { loader_id }));
    vm.register("sol_log_", Syscall::Log(SyscallLog { cost: budget.log_units, loader_id }));
    vm.register("sol_log_64_", Syscall::LogU64(SyscallLogU64 { cost: budget.log_64_units }));
    if features.sol_log_compute_units_syscall {
        vm.register(
            "sol_log_compute_units_",
            Syscall::LogBpfComputeUnits(SyscallLogBpfComputeUnits { cost: 0 }),
        );
    }
    if features.pubkey_log_syscall_enabled {
        vm.register(
            "sol_log_pubkey",
            Syscall::LogPubkey(SyscallLogPubkey { cost: budget.log_pubkey_units, loader_id }),
        );
    }
    proof {
        reveal_with_fuel(with_offers, 7);
        assert(vm@ == with_offers(old(vm)@, offers, 6));
    }

    if features.sha256_syscall_enabled {
        vm.register(
            "sol_sha256",
            Syscall::Sha256(
                SyscallSha256 {
                    sha256_base_cost: budget.sha256_base_cost,
                    sha256_byte_cost: budget.sha256_byte_cost,
                    loader_id,
                },
            ),
        );
    }
    if features.ristretto_mul_syscall_enabled {
        vm.register(
            "sol_ristretto_mul",
            Syscall::RistrettoMul(SyscallRistrettoMul { cost: 0, loader_id }),
        );
    }
    let cost: u64 = budget.create_program_address_units;
    vm.register(
        "sol_create_program_address",
        Syscall::CreateProgramAddress(SyscallCreateProgramAddress { cost, loader_id }),
    );
    if features.try_find_program_address_syscall_enabled {
        vm.register(
            "sol_try_find_program_address",
            Syscall::TryFindProgramAddress(SyscallTryFindProgramAddress { cost, loader_id }),
        );
    }
    proof {
        reveal_with_fuel(with_offers, 5);
        assert(vm@ == with_offers(old(vm)@, offers, 10));
    }

    // Cross-program invocation syscalls

    vm.register(
        "sol_invoke_signed_c",
        Syscall::InvokeSignedC(SyscallInvokeSignedC { callers_keyed_accounts, loader_id }),
    );
    vm.register(
        "sol_invoke_signed_rust",
        Syscall::InvokeSignedRust(SyscallInvokeSignedRust { callers_keyed_accounts, loader_id }),
    );

    // Memory allocator

    let heap: Vec<u8> = vec![0u8; DEFAULT_HEAP_SIZE];
    let heap_region = MemoryRegion {
        addr_host: memory.bytes.len() as u64,
        addr_vm: MM_HEAP_START,
        len: DEFAULT_HEAP_SIZE as u64,
    };
    assert(heap@ =~= new_heap());
    memory.bytes.extend_from_slice(heap.as_slice());
    assert(memory@ =~= old(memory)@ + new_heap());
    vm.register(
        "sol_alloc_free_",
        Syscall::AllocFree(
            SyscallAllocFree {
                aligned: !loader_id.has_bytes(&BPF_LOADER_DEPRECATED_ID),
                allocator: BPFAllocator::new(heap, MM_HEAP_START),
            },
        ),
    );

    proof {
        reveal_with_fuel(with_offers, 4);
        let regions = seq![heap_region];
        assert(regions[0] == heap_region);
        assert(bytes_at(memory@, heap_region.addr_host as int, heap_region.len as int)
            =~= new_heap());
        let last = vm.registrations@.last();
        assert(vm@.last() == last@);
        assert forall|i: int|
            old(vm).registrations@.len() <= i
                < vm.registrations@.len() implies leads_to_its_own(
            (#[trigger] vm.registrations@[i]).name@,
            vm.registrations@[i].syscall,
        ) by {
            assert(vm@[i] == vm.registrations@[i]@);
            lemma_registrations(old(vm)@, offers, offers.len());
            lemma_offers_are_told_by_their_names(
                loader_id@,
                views(callers_keyed_accounts@),
                budget,
                features,
            );
            lemma_ranks();
            law_views_tell_syscalls(vm.registrations@[i].syscall);
            let j = choose|j: int|
                0 <= j < offers.len() && (#[trigger] offers[j]).is_active && offers[j].registration
                    == vm@[i];
            assert(rank(offers[j].registration.name) == j);
        }
    }
    Ok(heap_region)
}

/// Law: what is allocated from the heap can be reached through the region of the heap. Of the
/// bytes of the heap each can be reached, and no two stand at one host address.
pub proof fn law_allocations_are_accessible(
    heap_addr_host: u64,
    a: AllocatorView,
    size: int,
    align: int,
)
    requires
        a.start == MM_HEAP_START,
        a.heap.len() == DEFAULT_HEAP_SIZE,
        a.is_valid(),
        0 < align,
        0 <= size,
        a.has_room(size, align),
    ensures
        host_address(seq![heap_region(heap_addr_host)], a.start + a.next(align), size) == Some(
            heap_addr_host + a.next(align),
        ),
        forall|i: int|
            0 <= i < a.heap.len() ==> #[trigger] host_address(
                seq![heap_region(heap_addr_host)],
                a.start + i,
                1,
            ) == Some(heap_addr_host + i),
{
    law_allocations_are_disjoint(a, size, align);
    assert(seq![heap_region(heap_addr_host)].last() == heap_region(heap_addr_host));
}

/// Whether a syscall is of the kind that its name stands for.
pub open spec fn leads_to_its_own(name: Seq<char>, syscall: Syscall) -> bool {
    &&& name == "abort"@ <==> syscall is Abort
    &&& name == "sol_panic_"@ <==> syscall is Panic
    &&& name == "sol_log_"@ <==> syscall is Log
    &&& name == "sol_log_64_"@ <==> syscall is LogU64
    &&& name == "sol_log_compute_units_"@ <==> syscall is LogBpfComputeUnits
    &&& name == "sol_log_pubkey"@ <==> syscall is LogPubkey
    &&& name == "sol_sha256"@ <==> syscall is Sha256
    &&& name == "sol_ristretto_mul"@ <==> syscall is RistrettoMul
    &&& name == "sol_create_program_address"@ <==> syscall is CreateProgramAddress
    &&& name == "sol_try_find_program_address"@ <==> syscall is TryFindProgramAddress
    &&& name == "sol_invoke_signed_c"@ <==> syscall is InvokeSignedC
    &&& name == "sol_invoke_signed_rust"@ <==> syscall is InvokeSignedRust
    &&& name == "sol_alloc_free_"@ <==> syscall is AllocFree
}

/// Whether a configuration is that of the kind of syscall that a name stands for, with the prices
/// of the budget, the accounts of the caller and the loader of the program.
pub open spec fn is_configured(
    name: Seq<char>,
    syscall: SyscallView,
    loader_id: Seq<u8>,
    callers: Seq<KeyPrivileges>,
    budget: BpfComputeBudget,
) -> bool {
    &&& name == "abort"@ ==> syscall == SyscallView::Abort
    &&& name == "sol_panic_"@ ==> syscall == SyscallView::Panic { loader_id }
    &&& name == "sol_log_"@ ==> syscall == SyscallView::Log { cost: budget.log_units, loader_id }
    &&& name == "sol_log_64_"@ ==> syscall == SyscallView::LogU64 { cost: budget.log_64_units }
    &&& name == "sol_log_compute_units_"@ ==> syscall == SyscallView::LogBpfComputeUnits { cost: 0 }
    &&& name == "sol_log_pubkey"@ ==> syscall == SyscallView::LogPubkey {
        cost: budget.log_pubkey_units,
        loader_id,
    }
    &&& name == "sol_sha256"@ ==> syscall == SyscallView::Sha256 {
        base_cost: budget.sha256_base_cost,
        byte_cost: budget.sha256_byte_cost,
        loader_id,
    }
    &&& name == "sol_ristretto_mul"@ ==> syscall == SyscallView::RistrettoMul { cost: 0, loader_id }
    &&& name == "sol_create_program_address"@ ==> syscall == SyscallView::CreateProgramAddress {
        cost: budget.create_program_address_units,
        loader_id,
    }
    &&& name == "sol_try_find_program_address"@ ==> syscall == SyscallView::TryFindProgramAddress {
        cost: budget.create_program_address_units,
        loader_id,
    }
    &&& name == "sol_invoke_signed_c"@ ==> syscall == SyscallView::InvokeSignedC {
        callers,
        loader_id,
    }
    &&& name == "sol_invoke_signed_rust"@ ==> syscall == SyscallView::InvokeSignedRust {
        callers,
        loader_id,
    }
    &&& name == "sol_alloc_free_"@ ==> {
        &&& syscall is AllocFree
        &&& syscall->aligned == (loader_id != BPF_LOADER_DEPRECATED_ID@)
        &&& syscall->allocator.start == 0x3_0000_0000
        &&& syscall->allocator.pos == 0
        &&& syscall->allocator.heap.len() == 32768
        &&& forall|i: int| 0 <= i < 32768 ==> syscall->allocator.heap[i] == 0
    }
}

/// Each syscall of a list was there before, or is one of those that are offered.
proof fn lemma_registrations(s: Seq<RegistrationView>, offers: Seq<Offer>, n: nat)
    requires
        n <= offers.len(),
    ensures
        with_offers(s, offers, n).len() >= s.len(),
        forall|i: int|
            0 <= i < s.len() ==> #[trigger] with_offers(s, offers, n)[i] == s[i],
        forall|i: int|
            s.len() <= i < with_offers(s, offers, n).len() ==> exists|j: int|
                0 <= j < n && (#[trigger] offers[j]).is_active && offers[j].registration
                    == #[trigger] with_offers(s, offers, n)[i],
    decreases n,
{
    if n > 0 {
        lemma_registrations(s, offers, (n - 1) as nat);
        let before = with_offers(s, offers, (n - 1) as nat);
        let after = with_offers(s, offers, n);
        assert forall|i: int| s.len() <= i < after.len() implies exists|j: int|
            0 <= j < n && (#[trigger] offers[j]).is_active && offers[j].registration
                == #[trigger] after[i] by {
            if i < before.len() {
                assert(before[i] == after[i]);
            } else {
                assert(offers[n - 1].registration == after[i]);
            }
        }
    }
}

/// Law: each name leads to its own syscall, with its prices and, where it reads memory or sends
/// instructions, under the rules of the program's loader and with the accounts of the caller. What
/// was registered before stays.
pub proof fn law_names_lead_to_their_syscalls(
    s: Seq<RegistrationView>,
    loader_id: Seq<u8>,
    callers: Seq<KeyPrivileges>,
    budget: BpfComputeBudget,
    features: FeatureSet,
    i: int,
)
    requires
        0 <= i < with_syscalls(s, loader_id, callers, budget, features).len(),
    ensures
        ({
            let all = with_syscalls(s, loader_id, callers, budget, features);
            &&& i < s.len() ==> all[i] == s[i]
            &&& i >= s.len() ==> is_configured(
                all[i].name,
                all[i].syscall,
                loader_id,
                callers,
                budget,
            ) && offered(features, all[i].name)
        }),
{
    let all = with_syscalls(s, loader_id, callers, budget, features);
    let offers = offers(loader_id, callers, budget, features);
    lemma_registrations(s, offers, offers.len());
    if i >= s.len() {
        let j = choose|j: int|
            0 <= j < offers.len() && (#[trigger] offers[j]).is_active && offers[j].registration
                == all[i];
        lemma_offers_are_told_by_their_names(loader_id, callers, budget, features);
        assert(is_configured(
            offers[j].registration.name,
            offers[j].registration.syscall,
            loader_id,
            callers,
            budget,
        ));
    }
}

/// No two syscalls that are offered share a name, and each is configured as its name tells.
proof fn lemma_offers_are_told_by_their_names(
    loader_id: Seq<u8>,
    callers: Seq<KeyPrivileges>,
    budget: BpfComputeBudget,
    features: FeatureSet,
)
    ensures
        ({
            let offers = offers(loader_id, callers, budget, features);
            &&& forall|j: int|
                0 <= j < offers.len() ==> is_configured(
                    (#[trigger] offers[j]).registration.name,
                    offers[j].registration.syscall,
                    loader_id,
                    callers,
                    budget,
                )
            &&& forall|j: int|
                0 <= j < offers.len() && (#[trigger] offers[j]).is_active ==> offered(
                    features,
                    offers[j].registration.name,
                )
        }),
{
    lemma_ranks();
    let offers = offers(loader_id, callers, budget, features);
    assert forall|j: int| 0 <= j < offers.len() implies is_configured(
        (#[trigger] offers[j]).registration.name,
        offers[j].registration.syscall,
        loader_id,
        callers,
        budget,
    ) by {
        assert(rank(offers[j].registration.name) == j);
    }
}

/// Law: the view of a syscall tells its kind and its configuration.
pub proof fn law_views_tell_syscalls(s: Syscall)
    ensures
        s@ is Abort <==> s is Abort,
        s@ is LogU64 <==> s is LogU64,
        s@ is LogBpfComputeUnits <==> s is LogBpfComputeUnits,
        s@ is InvokeSignedC <==> s is InvokeSignedC,
        s@ is InvokeSignedRust <==> s is InvokeSignedRust,
        s@ is AllocFree <==> s is AllocFree,
        s matches Syscall::Panic(c) ==> s@ == (SyscallView::Panic { loader_id: c.loader_id@ }),
        s matches Syscall::Log(c) ==> s@ == (SyscallView::Log {
            cost: c.cost,
            loader_id: c.loader_id@,
        }),
        s matches Syscall::LogU64(c) ==> s@ == (SyscallView::LogU64 { cost: c.cost }),
        s matches Syscall::LogBpfComputeUnits(c) ==> s@ == (SyscallView::LogBpfComputeUnits {
            cost: c.cost,
        }),
        s matches Syscall::LogPubkey(c) ==> s@ == (SyscallView::LogPubkey {
            cost: c.cost,
            loader_id: c.loader_id@,
        }),
        s matches Syscall::Sha256(c) ==> s@ == (SyscallView::Sha256 {
            base_cost: c.sha256_base_cost,
            byte_cost: c.sha256_byte_cost,
            loader_id: c.loader_id@,
        }),
        s matches Syscall::RistrettoMul(c) ==> s@ == (SyscallView::RistrettoMul {
            cost: c.cost,
            loader_id: c.loader_id@,
        }),
        s matches Syscall::CreateProgramAddress(c) ==> s@ == (SyscallView::CreateProgramAddress {
            cost: c.cost,
            loader_id: c.loader_id@,
        }),
        s matches Syscall::TryFindProgramAddress(c) ==> s@ == (SyscallView::TryFindProgramAddress {
            cost: c.cost,
            loader_id: c.loader_id@,
        }),
        s matches Syscall::InvokeSignedC(c) ==> s@ == (SyscallView::InvokeSignedC {
            callers: views(c.callers_keyed_accounts@),
            loader_id: c.loader_id@,
        }),
        s matches Syscall::InvokeSignedRust(c) ==> s@ == (SyscallView::InvokeSignedRust {
            callers: views(c.callers_keyed_accounts@),
            loader_id: c.loader_id@,
        }),
        s matches Syscall::AllocFree(c) ==> s@ == (SyscallView::AllocFree {
            aligned: c.aligned,
            allocator: c.allocator@,
        }),
{
}

/// The names of a list.
pub open spec fn names(s: Seq<RegistrationView>) -> Seq<Seq<char>> {
    Seq::new(s.len(), |i: int| s[i].name)
}

/// Whether a program is offered a syscall of a name: some names always, others if their feature
/// is active.
pub open spec fn offered(features: FeatureSet, name: Seq<char>) -> bool {
    ||| name == "abort"@
    ||| name == "sol_panic_"@
    ||| name == "sol_log_"@
    ||| name == "sol_log_64_"@
    ||| features.sol_log_compute_units_syscall && name == "sol_log_compute_units_"@
    ||| features.pubkey_log_syscall_enabled && name == "sol_log_pubkey"@
    ||| features.sha256_syscall_enabled && name == "sol_sha256"@
    ||| features.ristretto_mul_syscall_enabled && name == "sol_ristretto_mul"@
    ||| name == "sol_create_program_address"@
    ||| features.try_find_program_address_syscall_enabled && name
        == "sol_try_find_program_address"@
    ||| name == "sol_invoke_signed_c"@
    ||| name == "sol_invoke_signed_rust"@
    ||| name == "sol_alloc_free_"@
}

/// A list with syscalls that are offered holds their names, and those that it held before.
proof fn lemma_offered_names(s: Seq<RegistrationView>, offers: Seq<Offer>, n: nat, name: Seq<char>)
    requires
        n <= offers.len(),
    ensures
        names(with_offers(s, offers, n)).contains(name) <==> names(s).contains(name) || exists|
            i: int,
        |
            0 <= i < n && (#[trigger] offers[i]).is_active && offers[i].registration.name == name,
    decreases n,
{
    if n > 0 {
        let before = with_offers(s, offers, (n - 1) as nat);
        let last = offers[n - 1].registration;
        lemma_offered_names(s, offers, (n - 1) as nat, name);
        assert(names(before.push(last)) =~= names(before).push(last.name));
        lemma_push_contains(names(before), last.name, name);
    }
}

/// Law: a program is offered the syscalls of all languages, and those whose features are active,
/// and no others. What was registered before stays.
pub proof fn law_features_gate_syscalls(
    s: Seq<RegistrationView>,
    loader_id: Seq<u8>,
    callers: Seq<KeyPrivileges>,
    budget: BpfComputeBudget,
    features: FeatureSet,
    name: Seq<char>,
)
    ensures
        names(with_syscalls(s, loader_id, callers, budget, features)).contains(name) <==> names(
            s,
        ).contains(name) || offered(features, name),
{
    let offers = offers(loader_id, callers, budget, features);
    lemma_offered_names(s, offers, offers.len(), name);
    assert(offers[0].registration.name == "abort"@);
    assert(offers[1].registration.name == "sol_panic_"@);
    assert(offers[2].registration.name == "sol_log_"@);
    assert(offers[3].registration.name == "sol_log_64_"@);
    assert(offers[4].registration.name == "sol_log_compute_units_"@);
    assert(offers[5].registration.name == "sol_log_pubkey"@);
    assert(offers[6].registration.name == "sol_sha256"@);
    assert(offers[7].registration.name == "sol_ristretto_mul"@);
    assert(offers[8].registration.name == "sol_create_program_address"@);
    assert(offers[9].registration.name == "sol_try_find_program_address"@);
    assert(offers[10].registration.name == "sol_invoke_signed_c"@);
    assert(offers[11].registration.name == "sol_invoke_signed_rust"@);
    assert(offers[12].registration.name == "sol_alloc_free_"@);
}

/// Position of a name in the order of registration, told by its length, and by its fifth
/// character where lengths are equal.
spec fn rank(name: Seq<char>) -> int {
    if name.len() == 5 {
        0
    } else if name.len() == 10 {
        if name[4] == 'p' {
            1
        } else {
            6
        }
    } else if name.len() == 8 {
        2
    } else if name.len() == 11 {
        3
    } else if name.len() == 22 {
        if name[4] == 'l' {
            4
        } else {
            11
        }
    } else if name.len() == 14 {
        5
    } else if name.len() == 17 {
        7
    } else if name.len() == 26 {
        8
    } else if name.len() == 28 {
        9
    } else if name.len() == 19 {
        10
    } else {
        12
    }
}

/// The ranks of the names.
proof fn lemma_ranks()
    ensures
        rank("abort"@) == 0,
        rank("sol_panic_"@) == 1,
        rank("sol_log_"@) == 2,
        rank("sol_log_64_"@) == 3,
        rank("sol_log_compute_units_"@) == 4,
        rank("sol_log_pubkey"@) == 5,
        rank("sol_sha256"@) == 6,
        rank("sol_ristretto_mul"@) == 7,
        rank("sol_create_program_address"@) == 8,
        rank("sol_try_find_program_address"@) == 9,
        rank("sol_invoke_signed_c"@) == 10,
        rank("sol_invoke_signed_rust"@) == 11,
        rank("sol_alloc_free_"@) == 12,
{
    reveal_strlit("abort");
    reveal_strlit("sol_panic_");
    reveal_strlit("sol_log_");
    reveal_strlit("sol_log_64_");
    reveal_strlit("sol_log_compute_units_");
    reveal_strlit("sol_log_pubkey");
    reveal_strlit("sol_sha256");
    reveal_strlit("sol_ristretto_mul");
    reveal_strlit("sol_create_program_address");
    reveal_strlit("sol_try_find_program_address");
    reveal_strlit("sol_invoke_signed_c");
    reveal_strlit("sol_invoke_signed_rust");
    reveal_strlit("sol_alloc_free_");
}

/// Syscalls whose names ascend, and differ from those that were registered before, share no name.
proof fn lemma_distinct_names(s: Seq<RegistrationView>, offers: Seq<Offer>, n: nat)
    requires
        n <= offers.len(),
        names(s).no_duplicates(),
        forall|i: int|
            0 <= i < offers.len() ==> rank((#[trigger] offers[i]).registration.name) == i,
        forall|i: int|
            0 <= i < offers.len() && (#[trigger] offers[i]).is_active ==> !names(s).contains(
                offers[i].registration.name,
            ),
    ensures
        names(with_offers(s, offers, n)).no_duplicates(),
    decreases n,
{
    if n > 0 {
        let before = with_offers(s, offers, (n - 1) as nat);
        let last = offers[n - 1].registration;
        lemma_distinct_names(s, offers, (n - 1) as nat);
        lemma_offered_names(s, offers, (n - 1) as nat, last.name);
        assert(names(before.push(last)) =~= names(before).push(last.name));
    }
}

/// Law: no two syscalls share a name, so that none takes the place of another, unless the name was
/// taken before.
pub proof fn law_names_are_distinct(
    s: Seq<RegistrationView>,
    loader_id: Seq<u8>,
    callers: Seq<KeyPrivileges>,
    budget: BpfComputeBudget,
    features: FeatureSet,
)
    requires
        names(s).no_duplicates(),
        forall|i: int| 0 <= i < s.len() ==> !offered(features, (#[trigger] s[i]).name),
    ensures
        names(with_syscalls(s, loader_id, callers, budget, features)).no_duplicates(),
{
    lemma_ranks();
    let offers = offers(loader_id, callers, budget, features);
    assert forall|i: int|
        0 <= i < offers.len() && (#[trigger] offers[i]).is_active implies !names(s).contains(
        offers[i].registration.name,
    ) by {
        assert(offered(features, offers[i].registration.name));
    }
    lemma_distinct_names(s, offers, offers.len());
}

} // verus!
