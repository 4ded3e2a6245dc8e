use bpf_syscalls::allocator::{BPFAllocator, SyscallAllocFree, MM_HEAP_START};
use bpf_syscalls::context::{ComputeMeter, Logger};
use bpf_syscalls::crypto::{SyscallSha256, HASH_BYTES};
use bpf_syscalls::error::{BPFError, EbpfError, InstructionError, SyscallError};
use bpf_syscalls::guest::translate_string_and_do;
use bpf_syscalls::invoke_signed::{SyscallInvokeSigned, SyscallInvokeSignedRust};
use bpf_syscalls::log::{
    syscall_abort, SyscallLog, SyscallLogPubkey, SyscallLogU64, SyscallPanic,
};
use bpf_syscalls::memory::{translate, translate_slice, translate_type, HostMemory, MemoryRegion};
use bpf_syscalls::pubkey::{Pubkey, BPF_LOADER_DEPRECATED_ID, BPF_LOADER_ID};
use std::mem::{align_of, size_of};
use std::str::FromStr;

fn bpf_loader() -> Pubkey {
    Pubkey { bytes: BPF_LOADER_ID }
}

fn memory_with(at: usize, bytes: &[u8]) -> HostMemory {
    let mut memory = vec![0; at];
    memory.extend_from_slice(bytes);
    HostMemory { bytes: memory }
}

fn meter(remaining: u64) -> ComputeMeter {
    ComputeMeter { remaining, is_borrowed: false }
}

fn log() -> Logger {
    Logger { lines: vec![], is_enabled: true, is_borrowed: false }
}

fn assert_access_violation<T>(result: Result<T, EbpfError>, va: u64, len: u64) {
    match result {
        Err(EbpfError::AccessViolation(at, n)) if va == at && len == n => (),
        _ => panic!(),
    }
}

fn budget_exceeded() -> EbpfError {
    EbpfError::UserError(BPFError::SyscallError(SyscallError::InstructionError(
        InstructionError::ComputationalBudgetExceeded,
    )))
}

#[test]
fn test_translate() {
    const START: u64 = 100;
    const LENGTH: u64 = 1000;
    let addr = 64;
    let memory = memory_with(64, &[0u8; LENGTH as usize]);
    let regions = vec![MemoryRegion::new(addr, START, LENGTH)];

    let cases = vec![
        (true, START, 0, addr),
        (true, START, 1, addr),
        (true, START, LENGTH, addr),
        (true, START + 1, LENGTH - 1, addr + 1),
        (false, START + 1, LENGTH, 0),
        (true, START + LENGTH - 1, 1, addr + LENGTH - 1),
        (true, START + LENGTH, 0, addr + LENGTH),
        (false, START + LENGTH, 1, 0),
        (false, START, LENGTH + 1, 0),
        (false, 0, 0, 0),
        (false, 0, 1, 0),
        (false, START - 1, 0, 0),
        (false, START - 1, 1, 0),
        (true, START + LENGTH / 2, LENGTH / 2, addr + LENGTH / 2),
    ];
    for (ok, start, length, value) in cases {
        if ok {
            assert_eq!(translate(start, length, &regions, &memory).unwrap(), value)
        } else {
            assert!(translate(start, length, &regions, &memory).is_err())
        }
    }
}

#[test]
fn test_translate_type() {
    // Pubkey
    let pubkey = solana_sdk::pubkey::new_rand();
    let memory = memory_with(8, pubkey.as_ref());
    let regions = vec![MemoryRegion { addr_host: 8, addr_vm: 100, len: 32 }];
    let at = translate_type(100, 32, 1, &regions, &bpf_loader(), &memory).unwrap();
    assert_eq!(pubkey.to_bytes(), memory.read_pubkey(at).bytes);

    // Instruction
    let program_id = solana_sdk::pubkey::new_rand();
    let account = solana_sdk::pubkey::new_rand();
    // The account is writable and does not sign.
    let mut memory = memory_with(0, account.as_ref());
    memory.bytes.extend_from_slice(&[0, 1]);
    memory.bytes.extend_from_slice("foobar".as_bytes());
    let at = memory.bytes.len() as u64;
    for word in [0x1000u64, 1, 1, 0x1000 + 34, 6, 6] {
        memory.bytes.extend_from_slice(&word.to_le_bytes());
    }
    memory.bytes.extend_from_slice(program_id.as_ref());
    let mut regions = vec![
        MemoryRegion { addr_host: at, addr_vm: 96, len: 80 },
        MemoryRegion { addr_host: 0, addr_vm: 0x1000, len: at },
    ];
    let translated = translate_type(96, 80, 8, &regions, &bpf_loader(), &memory).unwrap();
    assert_eq!(translated, at);
    let loader_id = bpf_loader();
    let syscall = SyscallInvokeSignedRust { callers_keyed_accounts: &[], loader_id: &loader_id };
    let instruction = syscall.translate_instruction(96, 1280, &regions, &memory).unwrap();
    assert_eq!(instruction.program_id.bytes, program_id.to_bytes());
    assert_eq!(instruction.accounts.len(), 1);
    assert_eq!(instruction.accounts[0].pubkey.bytes, account.to_bytes());
    assert!(!instruction.accounts[0].is_signer);
    assert!(instruction.accounts[0].is_writable);
    assert_eq!(instruction.data, "foobar".as_bytes());
    regions[0].len = 1;
    assert!(translate_type(100, 80, 8, &regions, &bpf_loader(), &memory).is_err());
}

#[test]
fn test_translate_slice() {
    // zero len
    let good_data = vec![1u8, 2, 3, 4, 5];
    let data: Vec<u8> = vec![];
    assert_eq!(0x1, data.as_ptr() as usize);
    let memory = memory_with(8, &good_data);
    let regions = vec![MemoryRegion { addr_host: 8, addr_vm: 100, len: good_data.len() as u64 }];
    let at = translate_slice(0x1, 0, 1, 1, &regions, &bpf_loader(), &memory).unwrap();
    let translated_data = memory.read_bytes(at, 0);
    assert_eq!(data, translated_data);
    assert_eq!(0, translated_data.len());

    // u8
    let mut data = vec![1u8, 2, 3, 4, 5];
    let len = data.len() as u64;
    let mut memory = memory_with(8, &data);
    let regions = vec![MemoryRegion { addr_host: 8, addr_vm: 100, len }];
    let at = translate_slice(100, len, 1, 1, &regions, &bpf_loader(), &memory).unwrap();
    assert_eq!(data, memory.read_bytes(at, len));
    data[0] = 10;
    memory.bytes[8] = 10;
    assert_eq!(data, memory.read_bytes(at, len));
    assert!(translate_slice(8, u64::MAX, 1, 1, &regions, &bpf_loader(), &memory).is_err());

    assert!(translate_slice(100 - 1, len, 1, 1, &regions, &bpf_loader(), &memory).is_err());

    // Pubkeys
    let mut data = vec![solana_sdk::pubkey::new_rand(); 5];
    let len = data.len() as u64;
    let bytes: Vec<u8> = data.iter().flat_map(|key| key.to_bytes().to_vec()).collect();
    let mut memory = memory_with(8, &bytes);
    let regions = vec![MemoryRegion { addr_host: 8, addr_vm: 100, len: len * 32 }];
    let at = translate_slice(100, len, 32, 1, &regions, &bpf_loader(), &memory).unwrap();
    for i in 0..5 {
        assert_eq!(data[i].to_bytes(), memory.read_pubkey(at + 32 * i as u64).bytes);
    }
    data[0] = solana_sdk::pubkey::new_rand(); // Both should point to same place
    memory.write_bytes(8, data[0].as_ref());
    for i in 0..5 {
        assert_eq!(data[i].to_bytes(), memory.read_pubkey(at + 32 * i as u64).bytes);
    }
}

#[test]
fn test_translate_string_and_do() {
    let string = "Gaggablaghblagh!";
    let memory = memory_with(8, string.as_bytes());
    let regions = vec![MemoryRegion { addr_host: 8, addr_vm: 100, len: string.len() as u64 }];
    assert_eq!(
        42,
        translate_string_and_do(
            100,
            string.len() as u64,
            &regions,
            &bpf_loader(),
            &memory,
            &mut |string: &str| {
                assert_eq!(string, "Gaggablaghblagh!");
                Ok(42)
            }
        )
        .unwrap()
    );
}

#[test]
#[should_panic(expected = "UserError(SyscallError(Abort))")]
fn test_syscall_abort() {
    let ro_region = MemoryRegion::default();
    let rw_region = MemoryRegion::default();
    syscall_abort(0, 0, 0, 0, 0, &[ro_region], &[rw_region]).unwrap();
}

#[test]
#[should_panic(expected = "UserError(SyscallError(Panic(\"Gaggablaghblagh!\", 42, 84)))")]
fn test_syscall_sol_panic() {
    let string = "Gaggablaghblagh!";
    let memory = memory_with(8, string.as_bytes());
    let ro_region = MemoryRegion { addr_host: 8, addr_vm: 100, len: string.len() as u64 };
    let rw_region = MemoryRegion::default();
    let syscall_panic = SyscallPanic { loader_id: &bpf_loader() };
    syscall_panic
        .call(100, string.len() as u64, 42, 84, 0, &[ro_region], &[rw_region], &memory)
        .unwrap();
}

#[test]
fn test_syscall_sol_log() {
    let string = "Gaggablaghblagh!";
    let len = string.len() as u64;
    let memory = memory_with(8, string.as_bytes());

    let mut compute_meter = meter(3);
    let mut logger = log();
    let loader_id = bpf_loader();
    let syscall_sol_log = SyscallLog { cost: 1, loader_id: &loader_id };
    let ro_regions = &[MemoryRegion { addr_host: 8, addr_vm: 100, len }];
    let rw_regions = &[MemoryRegion::default()];

    syscall_sol_log
        .call(100, len, 0, 0, 0, ro_regions, rw_regions, &memory, &mut compute_meter, &mut logger)
        .unwrap();
    assert_eq!(logger.lines.len(), 1);
    assert_eq!(logger.lines[0], "Program log: Gaggablaghblagh!");

    assert_access_violation(
        syscall_sol_log.call(
            101, // AccessViolation
            len,
            0,
            0,
            0,
            ro_regions,
            rw_regions,
            &memory,
            &mut compute_meter,
            &mut logger,
        ),
        101,
        len,
    );
    assert_access_violation(
        syscall_sol_log.call(
            100,
            len * 2, // AccessViolation
            0,
            0,
            0,
            ro_regions,
            rw_regions,
            &memory,
            &mut compute_meter,
            &mut logger,
        ),
        100,
        len * 2,
    );

    assert_eq!(
        Err(budget_exceeded()),
        syscall_sol_log.call(
            100,
            len,
            0,
            0,
            0,
            ro_regions,
            rw_regions,
            &memory,
            &mut compute_meter,
            &mut logger,
        )
    );
    assert_eq!(logger.lines.len(), 1);
}

#[test]
fn test_syscall_sol_log_u64() {
    let mut compute_meter = meter(u64::MAX);
    let mut logger = log();
    let syscall_sol_log_u64 = SyscallLogU64 { cost: 0 };
    let ro_regions = &[MemoryRegion::default()];
    let rw_regions = &[MemoryRegion::default()];

    syscall_sol_log_u64
        .call(1, 2, 3, 4, 5, ro_regions, rw_regions, &mut compute_meter, &mut logger)
        .unwrap();

    assert_eq!(logger.lines.len(), 1);
    assert_eq!(logger.lines[0], "Program log: 0x1, 0x2, 0x3, 0x4, 0x5");
}

#[test]
fn test_syscall_sol_pubkey() {
    let pubkey =
        solana_sdk::pubkey::Pubkey::from_str("BNwVU7MhnDnGEQGAqpJ1dGKVtaYw4SvxbTvoACcdENd2")
            .unwrap();
    let memory = memory_with(8, pubkey.as_ref());

    let mut compute_meter = meter(2);
    let mut logger = log();
    let loader_id = bpf_loader();
    let syscall_sol_pubkey = SyscallLogPubkey { cost: 1, loader_id: &loader_id };
    let ro_regions = &[MemoryRegion { addr_host: 8, addr_vm: 100, len: 32 }];
    let rw_regions = &[MemoryRegion::default()];

    syscall_sol_pubkey
        .call(100, 0, 0, 0, 0, ro_regions, rw_regions, &memory, &mut compute_meter, &mut logger)
        .unwrap();
    assert_eq!(logger.lines.len(), 1);
    assert_eq!(
        logger.lines[0],
        "Program log: BNwVU7MhnDnGEQGAqpJ1dGKVtaYw4SvxbTvoACcdENd2"
    );

    assert_access_violation(
        syscall_sol_pubkey.call(
            101, // AccessViolation
            32,
            0,
            0,
            0,
            ro_regions,
            rw_regions,
            &memory,
            &mut compute_meter,
            &mut logger,
        ),
        101,
        32,
    );

    assert_eq!(
        Err(budget_exceeded()),
        syscall_sol_pubkey.call(
            100,
            32,
            0,
            0,
            0,
            ro_regions,
            rw_regions,
            &memory,
            &mut compute_meter,
            &mut logger,
        )
    );
}

fn alloc_free(aligned: bool) -> SyscallAllocFree {
    let heap = vec![0_u8; 100];
    SyscallAllocFree { aligned, allocator: BPFAllocator::new(heap, MM_HEAP_START) }
}

fn check_alignment<T>() {
    let ro_regions = &[MemoryRegion::default()];
    let rw_regions = &[MemoryRegion::new(0, MM_HEAP_START, 100)];
    let mut syscall = alloc_free(true);
    let address = syscall
        .call(size_of::<u8>() as u64, 0, 0, 0, 0, ro_regions, rw_regions)
        .unwrap();
    assert_ne!(address, 0);
    assert_eq!(address % align_of::<u8>() as u64, 0);
}

#[test]
fn test_syscall_sol_alloc_free() {
    let ro_regions = &[MemoryRegion::default()];
    let rw_regions = &[MemoryRegion::new(0, MM_HEAP_START, 100)];
    // large alloc
    {
        let mut syscall = alloc_free(true);
        assert_ne!(syscall.call(100, 0, 0, 0, 0, ro_regions, rw_regions).unwrap(), 0);
        assert_eq!(syscall.call(100, 0, 0, 0, 0, ro_regions, rw_regions).unwrap(), 0);
        assert_eq!(syscall.call(u64::MAX, 0, 0, 0, 0, ro_regions, rw_regions).unwrap(), 0);
    }
    // many small unaligned allocs
    {
        let mut syscall = alloc_free(false);
        for _ in 0..100 {
            assert_ne!(syscall.call(1, 0, 0, 0, 0, ro_regions, rw_regions).unwrap(), 0);
        }
        assert_eq!(syscall.call(100, 0, 0, 0, 0, ro_regions, rw_regions).unwrap(), 0);
    }
    // many small aligned allocs
    {
        let mut syscall = alloc_free(true);
        for _ in 0..12 {
            assert_ne!(syscall.call(1, 0, 0, 0, 0, ro_regions, rw_regions).unwrap(), 0);
        }
        assert_eq!(syscall.call(100, 0, 0, 0, 0, ro_regions, rw_regions).unwrap(), 0);
    }
    // aligned allocs
    check_alignment::<u8>();
    check_alignment::<u16>();
    check_alignment::<u32>();
    check_alignment::<u64>();
    check_alignment::<u128>();
}

#[test]
fn test_syscall_sha256() {
    let bytes1 = "Gaggablaghblagh!";
    let bytes2 = "flurbos";

    let mut memory = memory_with(0, bytes1.as_bytes());
    memory.bytes.extend_from_slice(bytes2.as_bytes());
    let slices_at = memory.bytes.len() as u64;
    for word in [4096, bytes1.len() as u64, 8192, bytes2.len() as u64] {
        memory.bytes.extend_from_slice(&word.to_le_bytes());
    }
    let result_at = memory.bytes.len() as u64;
    memory.bytes.extend_from_slice(&[0; HASH_BYTES as usize]);

    let ro_len = 2;
    let ro_va = 96;
    let ro_regions = &mut [
        MemoryRegion { addr_host: 0, addr_vm: 4096, len: bytes1.len() as u64 },
        MemoryRegion {
            addr_host: bytes1.len() as u64,
            addr_vm: 8192,
            len: bytes2.len() as u64,
        },
        MemoryRegion { addr_host: slices_at, addr_vm: 96, len: 32 },
    ];
    ro_regions.sort_by(|a, b| a.addr_vm.cmp(&b.addr_vm));
    let rw_va = 192;
    let rw_regions = &[MemoryRegion { addr_host: result_at, addr_vm: rw_va, len: HASH_BYTES }];
    let mut compute_meter = meter((bytes1.len() + bytes2.len()) as u64);
    let loader_id = Pubkey { bytes: BPF_LOADER_DEPRECATED_ID };
    let syscall = SyscallSha256 {
        sha256_base_cost: 0,
        sha256_byte_cost: 2,
        loader_id: &loader_id,
    };

    syscall
        .call(
            ro_va,
            ro_len,
            rw_va,
            0,
            0,
            ro_regions,
            rw_regions,
            &mut memory,
            &mut compute_meter,
        )
        .unwrap();

    let hash_local = solana_sdk::hash::hashv(&[bytes1.as_ref(), bytes2.as_ref()]).to_bytes();
    assert_eq!(memory.read_bytes(result_at, HASH_BYTES), hash_local);

    assert_access_violation(
        syscall.call(
            ro_va - 1, // AccessViolation
            ro_len,
            rw_va,
            0,
            0,
            ro_regions,
            rw_regions,
            &mut memory,
            &mut compute_meter,
        ),
        ro_va - 1,
        ro_len * 16,
    );
    assert_access_violation(
        syscall.call(
            ro_va,
            ro_len + 1, // AccessViolation
            rw_va,
            0,
            0,
            ro_regions,
            rw_regions,
            &mut memory,
            &mut compute_meter,
        ),
        ro_va,
        (ro_len + 1) * 16,
    );
    assert_access_violation(
        syscall.call(
            ro_va,
            ro_len,
            rw_va - 1, // AccessViolation
            0,
            0,
            ro_regions,
            rw_regions,
            &mut memory,
            &mut compute_meter,
        ),
        rw_va - 1,
        HASH_BYTES,
    );

    assert_eq!(
        Err(budget_exceeded()),
        syscall.call(
            ro_va,
            ro_len,
            rw_va,
            0,
            0,
            ro_regions,
            rw_regions,
            &mut memory,
            &mut compute_meter,
        )
    );
}
