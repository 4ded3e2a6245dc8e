use bpf_syscalls::context::ComputeMeter;
use bpf_syscalls::crypto::{SyscallRistrettoMul, SyscallSha256};
use bpf_syscalls::error::{BPFError, EbpfError, InstructionError, PubkeyError, SyscallError};
use bpf_syscalls::memory::{HostMemory, MemoryRegion};
use bpf_syscalls::program_address::{
    translate_program_address_inputs, write_created_address, write_found_address,
    SyscallCreateProgramAddress, SyscallTryFindProgramAddress,
};
use bpf_syscalls::pubkey::{Pubkey, BPF_LOADER_ID};

const BASE: u64 = 0x10000;

fn loader() -> Pubkey {
    Pubkey { bytes: BPF_LOADER_ID }
}

fn refused(error: SyscallError) -> EbpfError {
    EbpfError::UserError(BPFError::SyscallError(error))
}

fn exceeded() -> EbpfError {
    refused(SyscallError::InstructionError(InstructionError::ComputationalBudgetExceeded))
}

fn meter(remaining: u64) -> ComputeMeter {
    ComputeMeter { remaining, is_borrowed: false }
}

/// A program's memory, all of it readable and writable from `BASE` on.
struct Program {
    memory: HostMemory,
}

impl Program {
    fn new() -> Program {
        Program { memory: HostMemory { bytes: vec![] } }
    }

    /// Places bytes at an aligned address.
    fn place(&mut self, bytes: &[u8]) -> u64 {
        while self.memory.bytes.len() % 8 != 0 {
            self.memory.bytes.push(0);
        }
        let addr = BASE + self.memory.bytes.len() as u64;
        self.memory.bytes.extend_from_slice(bytes);
        addr
    }

    /// Places byte strings and then the pairs of pointer and length that describe them.
    fn place_strings(&mut self, strings: &[&[u8]]) -> u64 {
        let mut pairs = vec![];
        for string in strings {
            let addr = self.place(string);
            pairs.extend_from_slice(&addr.to_le_bytes());
            pairs.extend_from_slice(&(string.len() as u64).to_le_bytes());
        }
        self.place(&pairs)
    }

    fn regions(&self) -> [MemoryRegion; 1] {
        [MemoryRegion::new(0, BASE, self.memory.bytes.len() as u64)]
    }

    fn read(&self, addr: u64, len: u64) -> Vec<u8> {
        self.memory.read_bytes(addr - BASE, len)
    }
}

fn sdk(key: &Pubkey) -> solana_sdk::pubkey::Pubkey {
    solana_sdk::pubkey::Pubkey::new_from_array(key.bytes)
}

/// Calls the syscall; gives its answer and the 32 bytes at the result.
fn create(seeds: &[&[u8]], units: u64) -> (Result<u64, EbpfError>, Vec<u8>, u64) {
    let loader = loader();
    let mut program = Program::new();
    let seeds_addr = program.place_strings(seeds);
    let program_id = program.place(&BPF_LOADER_ID);
    let result = program.place(&[7; 32]);
    let regions = program.regions();
    let mut compute_meter = meter(units);
    let syscall = SyscallCreateProgramAddress { cost: 10, loader_id: &loader };
    let answer = syscall.call(
        seeds_addr,
        seeds.len() as u64,
        program_id,
        result,
        0,
        &regions,
        &regions,
        &mut program.memory,
        &mut compute_meter,
    );
    (answer, program.read(result, 32), compute_meter.remaining)
}

#[test]
fn created_addresses_are_those_of_the_sdk() {
    let mut valid = 0;
    for i in 0..40u8 {
        let seeds: Vec<&[u8]> = vec![b"blagh", std::slice::from_ref(&i)];
        let (answer, bytes, left) = create(&seeds, 50);
        assert_eq!(left, 30);
        match solana_sdk::pubkey::Pubkey::create_program_address(&seeds, &sdk(&loader())) {
            Ok(address) => {
                valid += 1;
                assert_eq!(answer, Ok(0));
                assert_eq!(bytes, address.to_bytes());
            }
            Err(_) => {
                assert_eq!(answer, Ok(1));
                assert_eq!(bytes, [7; 32]);
            }
        }
    }
    assert!(0 < valid && valid < 40);
}

#[test]
fn creating_an_address_is_paid_twice() {
    let seeds: Vec<&[u8]> = vec![b"blagh"];
    assert_eq!(create(&seeds, 9), (Err(exceeded()), vec![7; 32], 0));
    assert_eq!(create(&seeds, 19), (Err(exceeded()), vec![7; 32], 0));
    let too_many: Vec<&[u8]> = vec![b"a"; 17];
    assert_eq!(
        create(&too_many, 19),
        (
            Err(refused(SyscallError::BadSeeds(PubkeyError::MaxSeedLengthExceeded))),
            vec![7; 32],
            9
        )
    );
    let too_long: Vec<&[u8]> = vec![&[1; 33]];
    assert_eq!(create(&too_long, 20), (Ok(1), vec![7; 32], 0));
}

#[test]
fn a_found_bump_seed_is_the_one_of_the_sdk() {
    let loader = loader();
    for i in 0..20u8 {
        let seeds: Vec<&[u8]> = vec![b"flurbos", std::slice::from_ref(&i)];
        let mut program = Program::new();
        let seeds_addr = program.place_strings(&seeds);
        let program_id = program.place(&BPF_LOADER_ID);
        let result = program.place(&[7; 32]);
        let bump = program.place(&[0]);
        let regions = program.regions();
        let mut compute_meter = meter(100_000);
        let syscall = SyscallTryFindProgramAddress { cost: 10, loader_id: &loader };
        assert_eq!(
            syscall.call(
                seeds_addr,
                2,
                program_id,
                result,
                bump,
                &regions,
                &regions,
                &mut program.memory,
                &mut compute_meter,
            ),
            Ok(0)
        );
        let (address, expected) =
            solana_sdk::pubkey::Pubkey::find_program_address(&seeds, &sdk(&loader));
        assert_eq!(program.read(result, 32), address.to_bytes());
        assert_eq!(program.read(bump, 1), [expected]);
        // Each try is paid for.
        assert_eq!(compute_meter.remaining, 100_000 - 10 * (256 - expected as u64));
        // The address can be derived again with the bump seed that was found.
        let found = program.read(bump, 1);
        let again: Vec<&[u8]> = vec![seeds[0], seeds[1], &found];
        assert_eq!(create(&again, 50), (Ok(0), program.read(result, 32), 30));
    }
}

#[test]
fn a_search_without_result_tries_all_bump_seeds() {
    let loader = loader();
    // With a bump seed these are too many.
    let seeds: Vec<&[u8]> = vec![b"a"; 16];
    let mut program = Program::new();
    let seeds_addr = program.place_strings(&seeds);
    let program_id = program.place(&BPF_LOADER_ID);
    let result = program.place(&[7; 32]);
    let bump = program.place(&[9]);
    let before = program.memory.bytes.clone();
    let regions = program.regions();
    let mut compute_meter = meter(3000);
    let syscall = SyscallTryFindProgramAddress { cost: 10, loader_id: &loader };
    assert_eq!(
        syscall.call(
            seeds_addr,
            16,
            program_id,
            result,
            bump,
            &regions,
            &regions,
            &mut program.memory,
            &mut compute_meter,
        ),
        Ok(1)
    );
    assert_eq!(compute_meter.remaining, 3000 - 10 * 255);
    let mut compute_meter = meter(100);
    assert_eq!(
        syscall.call(
            seeds_addr,
            16,
            program_id,
            result,
            bump,
            &regions,
            &regions,
            &mut program.memory,
            &mut compute_meter,
        ),
        Err(exceeded())
    );
    // A place that cannot be written is noticed once an address was found.
    let mut compute_meter = meter(5000);
    assert_eq!(
        syscall.call(
            seeds_addr,
            1,
            program_id,
            result,
            1,
            &regions,
            &regions,
            &mut program.memory,
            &mut compute_meter,
        ),
        Err(EbpfError::AccessViolation(1, 1))
    );
    assert_eq!(program.memory.bytes, before);
}

#[test]
fn program_address_inputs_are_read_in_order() {
    let loader = loader();
    let mut program = Program::new();
    let seeds_addr = program.place_strings(&[b"ab", b"", b"cde"]);
    let program_id = program.place(&[3; 32]);
    let regions = program.regions();
    let inputs = translate_program_address_inputs(
        seeds_addr,
        3,
        program_id,
        &regions,
        &loader,
        &program.memory,
    )
    .unwrap();
    assert_eq!(inputs.seeds, vec![b"ab".to_vec(), vec![], b"cde".to_vec()]);
    assert_eq!(inputs.program_id.bytes, [3; 32]);
    assert!(matches!(
        translate_program_address_inputs(
            seeds_addr,
            3,
            5,
            &regions,
            &loader,
            &program.memory
        ),
        Err(EbpfError::AccessViolation(5, 32))
    ));
    assert!(matches!(
        translate_program_address_inputs(
            seeds_addr + 1,
            3,
            program_id,
            &regions,
            &loader,
            &program.memory
        ),
        Err(EbpfError::UserError(BPFError::SyscallError(SyscallError::UnalignedPointer)))
    ));
}

#[test]
fn a_hash_is_that_of_the_values_behind_each_other() {
    let loader = loader();
    let syscall = SyscallSha256 { sha256_base_cost: 5, sha256_byte_cost: 3, loader_id: &loader };
    let lists: Vec<Vec<&[u8]>> = vec![
        vec![],
        vec![b""],
        vec![b"abc"],
        vec![b"a", b"", b"bc"],
        vec![b"Gaggablaghblagh!", b"flurbos"],
    ];
    for values in lists {
        let mut program = Program::new();
        let vals_addr = program.place_strings(&values);
        let result = program.place(&[0; 32]);
        let regions = program.regions();
        let mut compute_meter = meter(1000);
        assert_eq!(
            syscall.call(
                vals_addr,
                values.len() as u64,
                result,
                0,
                0,
                &regions,
                &regions,
                &mut program.memory,
                &mut compute_meter,
            ),
            Ok(0)
        );
        assert_eq!(program.read(result, 32), solana_sdk::hash::hashv(&values).to_bytes());
        let price: u64 = values.iter().map(|v| 3 * (v.len() as u64 / 2)).sum();
        assert_eq!(compute_meter.remaining, 1000 - 5 - price);
    }
}

#[test]
fn a_hash_that_is_not_paid_is_not_written() {
    let loader = loader();
    let syscall = SyscallSha256 { sha256_base_cost: 5, sha256_byte_cost: 3, loader_id: &loader };
    let mut program = Program::new();
    let vals_addr = program.place_strings(&[b"abcd", b"efgh"]);
    let result = program.place(&[7; 32]);
    let regions = program.regions();
    for (units, left) in [(4, 0), (10, 0), (16, 0)] {
        let mut compute_meter = meter(units);
        assert_eq!(
            syscall.call(
                vals_addr,
                2,
                result,
                0,
                0,
                &regions,
                &regions,
                &mut program.memory,
                &mut compute_meter,
            ),
            Err(exceeded())
        );
        assert_eq!(compute_meter.remaining, left);
        assert_eq!(program.read(result, 32), [7; 32]);
    }
}

#[test]
fn a_product_is_written_where_it_was_asked_for() {
    let loader = loader();
    let syscall = SyscallRistrettoMul { cost: 4, loader_id: &loader };
    let mut program = Program::new();
    let point = program.place(&[1; 160]);
    let scalar = program.place(&[2; 32]);
    let result = program.place(&[3; 160]);
    let regions = program.regions();
    let mut compute_meter = meter(6);
    let operands = syscall
        .begin(point, scalar, result, &regions, &regions, &program.memory, &mut compute_meter)
        .unwrap();
    assert_eq!(compute_meter.remaining, 2);
    assert_eq!(operands.point, [1; 160]);
    assert_eq!(operands.scalar, [2; 32]);
    assert_eq!(syscall.finish(operands.result, &[4; 160], &mut program.memory), Ok(0));
    assert_eq!(program.read(point, 160), [1; 160]);
    assert_eq!(program.read(scalar, 32), [2; 32]);
    assert_eq!(program.read(result, 160), [4; 160]);

    let failed = syscall.begin(
        point,
        scalar,
        result,
        &regions,
        &regions,
        &program.memory,
        &mut compute_meter,
    );
    assert_eq!(failed.unwrap_err(), exceeded());
    let mut compute_meter = meter(100);
    let failed = syscall.begin(
        point + 1,
        scalar,
        result,
        &regions,
        &regions,
        &program.memory,
        &mut compute_meter,
    );
    assert_eq!(failed.unwrap_err(), refused(SyscallError::UnalignedPointer));
    let failed = syscall.begin(
        point,
        scalar,
        result + 8,
        &regions,
        &regions,
        &program.memory,
        &mut compute_meter,
    );
    assert_eq!(failed.unwrap_err(), EbpfError::AccessViolation(result + 8, 160));
}

#[test]
fn derived_addresses_are_written() {
    let loader = loader();
    let mut program = Program::new();
    let result = program.place(&[7; 32]);
    let bump = program.place(&[7]);
    let regions = program.regions();
    let memory = &mut program.memory;
    let key = Pubkey { bytes: [1; 32] };
    for error in [PubkeyError::InvalidSeeds, PubkeyError::MaxSeedLengthExceeded] {
        assert_eq!(write_created_address(Err(error), result, &regions, &loader, memory), Ok(1));
        assert_eq!(memory.read_bytes(0, 32), [7; 32]);
    }
    assert_eq!(
        write_created_address(Ok(key), 5, &regions, &loader, memory),
        Err(EbpfError::AccessViolation(5, 32))
    );
    assert_eq!(write_created_address(Ok(key), result, &regions, &loader, memory), Ok(0));
    assert_eq!(memory.read_bytes(0, 32), [1; 32]);

    let other = Pubkey { bytes: [2; 32] };
    assert_eq!(
        write_found_address(200, &other, 5, bump, &regions, &loader, memory),
        Err(EbpfError::AccessViolation(5, 32))
    );
    assert_eq!(memory.read_bytes(0, 33)[32], 7);
    assert_eq!(write_found_address(200, &other, result, bump, &regions, &loader, memory), Ok(0));
    assert_eq!(memory.read_bytes(0, 32), [2; 32]);
    assert_eq!(memory.read_u8(32), 200);
}

#[test]
fn the_hash_of_nothing_reads_no_values() {
    let loader = loader();
    let syscall = SyscallSha256 { sha256_base_cost: 0, sha256_byte_cost: 1, loader_id: &loader };
    let mut program = Program::new();
    let result = program.place(&[0; 32]);
    let regions = program.regions();
    let memory = &mut program.memory;
    // The address of the values is neither aligned nor readable.
    assert_eq!(syscall.call(3, 0, result, 0, 0, &regions, &regions, memory, &mut meter(0)), Ok(0));
    let digest: String =
        memory.read_bytes(0, 32).iter().map(|byte| format!("{:02x}", byte)).collect();
    assert_eq!(digest, "e3b0c44298fc1c149afbf4c8996fb92427ae41e4649b934ca495991b7852b855");
}

#[test]
fn prices_behind_a_value_that_is_not_paid_are_not_asked() {
    let loader = loader();
    // The price of the second value is no number of the machine, but the first is too dear.
    let byte_cost = u64::MAX / 2;
    let syscall =
        SyscallSha256 { sha256_base_cost: 0, sha256_byte_cost: byte_cost, loader_id: &loader };
    let mut program = Program::new();
    let vals_addr = program.place_strings(&[b"ab", b"abcdefgh"]);
    let result = program.place(&[7; 32]);
    let regions = program.regions();
    let memory = &mut program.memory;
    let mut compute_meter = meter(byte_cost - 1);
    assert_eq!(
        syscall.call(vals_addr, 2, result, 0, 0, &regions, &regions, memory, &mut compute_meter),
        Err(exceeded())
    );
    assert_eq!(compute_meter.remaining, 0);
}

#[test]
fn prices_are_tested_as_they_are_asked() {
    let loader = loader();
    let byte_cost = u64::MAX / 2;
    let mut program = Program::new();
    let vals_addr = program.place_strings(&[b"ab", b"abcdefgh"]);
    let result = program.place(&[7; 32]);
    let regions = program.regions();
    let fit = |byte_cost: u64, vals_len: u64, result: u64, meter: ComputeMeter| {
        SyscallSha256 { sha256_base_cost: 1, sha256_byte_cost: byte_cost, loader_id: &loader }
            .prices_fit(vals_addr, vals_len, result, &regions, &regions, &program.memory, &meter)
    };
    // The second price is asked once the first was paid.
    assert!(!fit(byte_cost, 2, result, meter(byte_cost + 1)));
    assert!(fit(byte_cost, 2, result, meter(byte_cost)));
    assert!(fit(byte_cost, 1, result, meter(byte_cost + 1)));
    assert!(fit(byte_cost, 0, result, meter(byte_cost + 1)));
    // None is asked before the base price was paid and the result was found.
    assert!(fit(byte_cost, 2, result, meter(0)));
    assert!(fit(byte_cost, 2, 0, meter(byte_cost + 1)));
    assert!(fit(byte_cost / 2, 2, result, meter(u64::MAX)));
}
