use bpf_syscalls::allocator::{AllocErr, BPFAllocator, SyscallAllocFree, MM_HEAP_START};
use bpf_syscalls::context::{
    BpfComputeBudget, ComputeMeter, FeatureSet, Logger,
};
use bpf_syscalls::error::{BPFError, EbpfError, InstructionError, SyscallError};
use bpf_syscalls::instruction::KeyedAccount;
use bpf_syscalls::invoke::InvokeContext;
use bpf_syscalls::log::{
    SyscallLog, SyscallLogBpfComputeUnits, SyscallLogPubkey, SyscallLogU64, SyscallPanic,
};
use bpf_syscalls::memory::{translate, HostMemory, MemoryRegion};
use bpf_syscalls::native_token::{Safe, LAMPORTS_PER_PANO};
use bpf_syscalls::pubkey::{
    Pubkey, BPF_LOADER_DEPRECATED_ID, BPF_LOADER_ID, BPF_LOADER_UPGRADEABLE_ID, NATIVE_LOADER_ID,
};
use bpf_syscalls::register::{register_syscalls, Syscall, SyscallRegistry};
use bpf_syscalls::text::{push_digits, push_hex, push_padded_digits};

fn refused(error: SyscallError) -> EbpfError {
    EbpfError::UserError(BPFError::SyscallError(error))
}

fn amount(lamports: u64) -> String {
    let mut text = String::new();
    Safe(lamports).write_in_sol(&mut text);
    text
}

#[test]
fn amounts_are_exact() {
    assert_eq!(amount(0), "◎0.000000000");
    assert_eq!(amount(1), "◎0.000000001");
    assert_eq!(amount(LAMPORTS_PER_PANO - 1), "◎0.999999999");
    assert_eq!(amount(LAMPORTS_PER_PANO), "◎1.000000000");
    assert_eq!(amount(42_000_000_017), "◎42.000000017");
    assert_eq!(amount(u64::MAX), "◎18446744073.709551615");
    let mut text = "total: ".to_string();
    Safe(5).write_in_sol(&mut text);
    assert_eq!(text, "total: ◎0.000000005");
}

#[test]
fn digits_agree_with_formatting() {
    for n in [0, 1, 9, 10, 15, 16, 255, 256, 1_000_000_007, u64::MAX] {
        let mut decimal = String::new();
        push_digits(&mut decimal, n, 10);
        assert_eq!(decimal, format!("{}", n));
        let mut hex = String::new();
        push_hex(&mut hex, n);
        assert_eq!(hex, format!("{:#x}", n));
        let mut padded = String::new();
        push_padded_digits(&mut padded, n % 1_000_000_000, 9);
        assert_eq!(padded, format!("{:09}", n % 1_000_000_000));
    }
}

#[test]
fn loader_ids_are_the_known_ones() {
    assert_eq!(NATIVE_LOADER_ID, solana_sdk::native_loader::id().to_bytes());
    assert_eq!(BPF_LOADER_ID, solana_sdk::bpf_loader::id().to_bytes());
    assert_eq!(BPF_LOADER_DEPRECATED_ID, solana_sdk::bpf_loader_deprecated::id().to_bytes());
    assert_eq!(BPF_LOADER_UPGRADEABLE_ID, solana_sdk::bpf_loader_upgradeable::id().to_bytes());
    assert_eq!(MM_HEAP_START, solana_rbpf::ebpf::MM_HEAP_START);
}

#[test]
fn charges_are_exact() {
    let mut meter = ComputeMeter { remaining: 10, is_borrowed: false };
    assert_eq!(meter.consume(4), Ok(()));
    assert_eq!(meter.remaining, 6);
    assert_eq!(meter.consume(6), Ok(()));
    assert_eq!(meter.remaining, 0);
    assert_eq!(meter.consume(0), Ok(()));
    let exceeded = refused(SyscallError::InstructionError(
        InstructionError::ComputationalBudgetExceeded,
    ));
    assert_eq!(meter.consume(1), Err(exceeded));

    // A charge that exceeds what is left takes all of it.
    let mut meter = ComputeMeter { remaining: 10, is_borrowed: false };
    assert!(meter.consume(11).is_err());
    assert_eq!(meter.remaining, 0);

    let mut meter = ComputeMeter { remaining: 10, is_borrowed: true };
    assert_eq!(meter.consume(1), Err(refused(SyscallError::InvokeContextBorrowFailed)));
    assert_eq!(meter.remaining, 10);
}

fn quiet() -> Logger {
    Logger { lines: vec![], is_enabled: false, is_borrowed: false }
}

fn busy() -> Logger {
    Logger { lines: vec![], is_enabled: true, is_borrowed: true }
}

fn log() -> Logger {
    Logger { lines: vec![], is_enabled: true, is_borrowed: false }
}

#[test]
fn program_messages_are_dropped_where_the_log_takes_none() {
    let loader = Pubkey { bytes: BPF_LOADER_ID };
    let memory = HostMemory { bytes: "blagh".as_bytes().to_vec() };
    let ro = [MemoryRegion::new(0, 1000, 5)];
    let syscall = SyscallLog { cost: 1, loader_id: &loader };
    for mut logger in [quiet(), busy()] {
        let mut meter = ComputeMeter { remaining: 2, is_borrowed: false };
        assert_eq!(
            syscall.call(1000, 5, 0, 0, 0, &ro, &[], &memory, &mut meter, &mut logger),
            Ok(0)
        );
        assert_eq!(logger.lines.len(), 0);
        assert_eq!(meter.remaining, 1);
    }
    let mut meter = ComputeMeter { remaining: 2, is_borrowed: true };
    let mut logger = log();
    assert_eq!(
        syscall.call(1000, 5, 0, 0, 0, &ro, &[], &memory, &mut meter, &mut logger),
        Err(refused(SyscallError::InvokeContextBorrowFailed))
    );
    assert_eq!(logger.lines.len(), 0);
}

#[test]
fn remaining_units_are_logged_without_prefix() {
    let syscall = SyscallLogBpfComputeUnits { cost: 7 };
    let mut meter = ComputeMeter { remaining: 107, is_borrowed: false };
    let mut logger = log();
    assert_eq!(syscall.call(0, 0, 0, 0, 0, &[], &[], &mut meter, &mut logger), Ok(0));
    assert_eq!(logger.lines, ["Program consumption: 100 units remaining"]);
    let mut logger = quiet();
    assert_eq!(syscall.call(0, 0, 0, 0, 0, &[], &[], &mut meter, &mut logger), Ok(0));
    assert_eq!(logger.lines.len(), 0);
    let mut logger = busy();
    assert_eq!(
        syscall.call(0, 0, 0, 0, 0, &[], &[], &mut meter, &mut logger),
        Err(refused(SyscallError::InvokeContextBorrowFailed))
    );
    assert_eq!(meter.remaining, 86);
}

#[test]
fn numbers_are_logged_in_hexadecimal() {
    let syscall = SyscallLogU64 { cost: 0 };
    let mut meter = ComputeMeter { remaining: 0, is_borrowed: false };
    let mut logger = log();
    assert_eq!(
        syscall.call(0, 10, 255, 4096, u64::MAX, &[], &[], &mut meter, &mut logger),
        Ok(0)
    );
    assert_eq!(logger.lines, ["Program log: 0x0, 0xa, 0xff, 0x1000, 0xffffffffffffffff"]);
}

#[test]
fn addresses_are_logged_in_base_58() {
    let loader = Pubkey { bytes: BPF_LOADER_ID };
    let memory = HostMemory { bytes: BPF_LOADER_UPGRADEABLE_ID.to_vec() };
    let ro = [MemoryRegion::new(0, 1001, 32)];
    let syscall = SyscallLogPubkey { cost: 0, loader_id: &loader };
    let mut meter = ComputeMeter { remaining: 0, is_borrowed: false };
    let mut logger = log();
    assert_eq!(
        syscall.call(1001, 0, 0, 0, 0, &ro, &[], &memory, &mut meter, &mut logger),
        Ok(0)
    );
    assert_eq!(logger.lines, ["Program log: BPFLoaderUpgradeab1e11111111111111111111111"]);
}

#[test]
fn a_panic_without_a_readable_file_is_an_error_too() {
    let loader = Pubkey { bytes: BPF_LOADER_ID };
    let memory = HostMemory { bytes: vec![b'a', 0xff] };
    let ro = [MemoryRegion::new(0, 1000, 2)];
    let syscall = SyscallPanic { loader_id: &loader };
    assert_eq!(
        syscall.call(1000, 1, 3, 4, 0, &ro, &[], &memory),
        Err(refused(SyscallError::Panic("a".to_string(), 3, 4)))
    );
    assert_eq!(
        syscall.call(1000, 3, 3, 4, 0, &ro, &[], &memory),
        Err(EbpfError::AccessViolation(1000, 3))
    );
    assert!(matches!(
        syscall.call(1000, 2, 3, 4, 0, &ro, &[], &memory),
        Err(EbpfError::UserError(BPFError::SyscallError(SyscallError::InvalidString(_, _))))
    ));
}

#[test]
fn allocations_follow_each_other() {
    let mut allocator = BPFAllocator::new(vec![0; 100], 1000);
    assert_eq!(allocator.allocate(10, 8), Ok(1000));
    assert_eq!(allocator.allocate(1, 8), Ok(1016));
    assert_eq!(allocator.allocate(1, 1), Ok(1017));
    assert_eq!(allocator.allocate(0, 8), Ok(1024));
    assert_eq!(allocator.allocate(77, 8), Err(AllocErr));
    assert_eq!(allocator.allocate(u64::MAX, 8), Err(AllocErr));
    // What was refused has taken nothing.
    assert_eq!(allocator.allocate(76, 8), Ok(1024));
    assert_eq!(allocator.allocate(0, 8), Err(AllocErr));
    assert_eq!(allocator.allocate(0, 1), Ok(1100));
    assert_eq!(allocator.heap().len(), 100);
}

#[test]
fn freeing_gives_nothing_back() {
    let mut syscall =
        SyscallAllocFree { aligned: true, allocator: BPFAllocator::new(vec![0; 16], 1000) };
    assert_eq!(syscall.call(10, 0, 0, 0, 0, &[], &[]), Ok(1000));
    assert_eq!(syscall.call(10, 1000, 0, 0, 0, &[], &[]), Ok(0));
    assert_eq!(syscall.call(10, 0, 0, 0, 0, &[], &[]), Ok(0));
    assert_eq!(syscall.call(0, u64::MAX, 0, 0, 0, &[], &[]), Ok(0));
    assert_eq!(syscall.call(0, 0, 0, 0, 0, &[], &[]), Ok(1016));
}

fn features(on: bool) -> FeatureSet {
    FeatureSet {
        sol_log_compute_units_syscall: on,
        pubkey_log_syscall_enabled: on,
        sha256_syscall_enabled: on,
        ristretto_mul_syscall_enabled: on,
        try_find_program_address_syscall_enabled: on,
        use_loaded_program_accounts: on,
        limit_cpi_loader_invoke: on,
        abort_on_all_cpi_failures: on,
    }
}

fn context(on: bool) -> InvokeContext {
    InvokeContext {
        is_borrowed: false,
        compute_meter: ComputeMeter { remaining: 0, is_borrowed: false },
        bpf_compute_budget: BpfComputeBudget {
            log_units: 100,
            log_64_units: 101,
            create_program_address_units: 1500,
            invoke_units: 1000,
            sha256_base_cost: 85,
            sha256_byte_cost: 1,
            log_pubkey_units: 102,
            max_cpi_instruction_size: 1280,
        },
        features: features(on),
        caller: Err(InstructionError::CallDepth),
    }
}

fn names(registry: &SyscallRegistry) -> Vec<&'static str> {
    registry.registrations.iter().map(|r| r.name).collect()
}

#[test]
fn features_decide_which_syscalls_are_offered() {
    let loader = Pubkey { bytes: BPF_LOADER_ID };
    let callers: [KeyedAccount; 0] = [];
    let mut all = SyscallRegistry::new();
    let mut memory = HostMemory { bytes: vec![7; 64] };
    let region =
        register_syscalls(&loader, &mut all, &callers, &context(true), &mut memory).unwrap();
    assert_eq!(region, MemoryRegion::new(64, MM_HEAP_START, 32 * 1024));
    assert_eq!(memory.bytes[..64], [7; 64]);
    assert_eq!(
        names(&all),
        [
            "abort",
            "sol_panic_",
            "sol_log_",
            "sol_log_64_",
            "sol_log_compute_units_",
            "sol_log_pubkey",
            "sol_sha256",
            "sol_ristretto_mul",
            "sol_create_program_address",
            "sol_try_find_program_address",
            "sol_invoke_signed_c",
            "sol_invoke_signed_rust",
            "sol_alloc_free_",
        ]
    );
    let mut few = SyscallRegistry::new();
    register_syscalls(&loader, &mut few, &callers, &context(false), &mut memory).unwrap();
    assert_eq!(
        names(&few),
        [
            "abort",
            "sol_panic_",
            "sol_log_",
            "sol_log_64_",
            "sol_create_program_address",
            "sol_invoke_signed_c",
            "sol_invoke_signed_rust",
            "sol_alloc_free_",
        ]
    );
}

#[test]
fn what_was_registered_before_stays() {
    let loader = Pubkey { bytes: BPF_LOADER_ID };
    let mut registry = SyscallRegistry::new();
    registry.register("sol_other_", Syscall::Abort);
    let mut memory = HostMemory { bytes: vec![] };
    register_syscalls(&loader, &mut registry, &[], &context(true), &mut memory).unwrap();
    let names = names(&registry);
    assert_eq!(names[..2], ["sol_other_", "abort"]);
    let distinct: std::collections::BTreeSet<_> = names.iter().collect();
    assert_eq!(distinct.len(), 14);
}

#[test]
fn syscalls_are_registered_with_their_prices() {
    let loader = Pubkey { bytes: BPF_LOADER_ID };
    let mut registry = SyscallRegistry::new();
    let mut memory = HostMemory { bytes: vec![] };
    register_syscalls(&loader, &mut registry, &[], &context(true), &mut memory).unwrap();
    for registration in &registry.registrations {
        match &registration.syscall {
            Syscall::Log(s) => assert_eq!(s.cost, 100),
            Syscall::LogU64(s) => assert_eq!(s.cost, 101),
            Syscall::LogBpfComputeUnits(s) => assert_eq!(s.cost, 0),
            Syscall::LogPubkey(s) => assert_eq!(s.cost, 102),
            Syscall::Sha256(s) => {
                assert_eq!((s.sha256_base_cost, s.sha256_byte_cost), (85, 1))
            }
            Syscall::RistrettoMul(s) => assert_eq!(s.cost, 0),
            Syscall::CreateProgramAddress(s) => assert_eq!(s.cost, 1500),
            Syscall::TryFindProgramAddress(s) => assert_eq!(s.cost, 1500),
            _ => (),
        }
    }
}

#[test]
fn allocations_can_be_reached_through_the_heap_region() {
    for loader_id in [BPF_LOADER_ID, BPF_LOADER_DEPRECATED_ID] {
        let loader = Pubkey { bytes: loader_id };
        let mut memory = HostMemory { bytes: vec![7; 8] };
        let mut registry = SyscallRegistry::new();
        let region =
            register_syscalls(&loader, &mut registry, &[], &context(false), &mut memory).unwrap();
        match registry.registrations.pop().unwrap().syscall {
            Syscall::AllocFree(mut s) => {
                let first = s.call(3, 0, 0, 0, 0, &[], &[]).unwrap();
                let second = s.call(5, 0, 0, 0, 0, &[], &[]).unwrap();
                let gap = if loader_id == BPF_LOADER_DEPRECATED_ID { 3 } else { 8 };
                assert_eq!(translate(first, 3, &[region], &memory), Ok(8));
                assert_eq!(translate(second, 5, &[region], &memory), Ok(8 + gap));
                // The region shows the heap of the allocator, which nothing was written to.
                let shown = memory.read_bytes(region.addr_host, region.len);
                assert_eq!(shown, vec![0; 32 * 1024]);
                assert_eq!(s.allocator.heap(), &shown[..]);
            }
            _ => panic!(),
        }
    }
}
