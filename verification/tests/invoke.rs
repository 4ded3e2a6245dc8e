use bpf_syscalls::context::{BpfComputeBudget, ComputeMeter, FeatureSet};
use bpf_syscalls::error::{BPFError, EbpfError, InstructionError, PubkeyError, SyscallError};
use bpf_syscalls::instruction::{
    check_authorized_program, check_instruction_size, create_message, may_send,
    message_result, names_few_keys, AccountMeta, Instruction, KeyedAccount, Message,
};
use bpf_syscalls::invoke::{
    begin_call, executable_accounts, finish_call, load_accounts, programdata_address,
    select_program, try_begin_call, InvokeArgs, InvokeContext,
};
use bpf_syscalls::invoke_signed::{
    signer_of, translate_signers, Account, SyscallInvokeSigned, SyscallInvokeSignedC,
    SyscallInvokeSignedRust,
};
use bpf_syscalls::memory::{HostMemory, MemoryRegion};
use bpf_syscalls::pubkey::{
    Pubkey, BPF_LOADER_DEPRECATED_ID, BPF_LOADER_ID, BPF_LOADER_UPGRADEABLE_ID, NATIVE_LOADER_ID,
};
use solana_sdk::instruction::InstructionError as SdkError;
use std::cell::RefCell;
use std::convert::TryFrom;
use std::mem::{align_of, size_of};

const BASE: u64 = 0x10000;

fn key(n: u8) -> Pubkey {
    Pubkey { bytes: [n; 32] }
}

fn loader() -> Pubkey {
    Pubkey { bytes: BPF_LOADER_ID }
}

fn refused(error: SyscallError) -> EbpfError {
    EbpfError::UserError(BPFError::SyscallError(error))
}

fn rejected(error: InstructionError) -> EbpfError {
    refused(SyscallError::InstructionError(error))
}

fn meta(n: u8, is_signer: bool, is_writable: bool) -> AccountMeta {
    AccountMeta { pubkey: key(n), is_signer, is_writable }
}

fn held(n: u8, is_signer: bool, is_writable: bool) -> KeyedAccount {
    KeyedAccount { key: key(n), is_signer, is_writable }
}

fn words(words: &[u64]) -> Vec<u8> {
    words.iter().flat_map(|word| word.to_le_bytes().to_vec()).collect()
}

/// A program's memory, all of it readable and writable from `BASE` on.
struct Program {
    memory: HostMemory,
}

impl Program {
    fn new() -> Program {
        Program { memory: HostMemory { bytes: vec![] } }
    }

    fn place(&mut self, bytes: &[u8]) -> u64 {
        while self.memory.bytes.len() % 8 != 0 {
            self.memory.bytes.push(0);
        }
        let addr = BASE + self.memory.bytes.len() as u64;
        self.memory.bytes.extend_from_slice(bytes);
        addr
    }

    fn regions(&self) -> [MemoryRegion; 1] {
        [MemoryRegion::new(0, BASE, self.memory.bytes.len() as u64)]
    }

    fn read(&self, addr: u64, len: u64) -> Vec<u8> {
        self.memory.read_bytes(addr - BASE, len)
    }

    fn word(&self, addr: u64) -> u64 {
        self.memory.read_u64(addr - BASE)
    }

    /// Places lists of seeds, each a list of byte strings.
    fn place_seeds(&mut self, signers: &[Vec<Vec<u8>>]) -> u64 {
        let mut outer = vec![];
        for seeds in signers {
            let mut inner = vec![];
            for seed in seeds {
                let addr = self.place(seed);
                inner.extend_from_slice(&words(&[addr, seed.len() as u64]));
            }
            let addr = self.place(&inner);
            outer.extend_from_slice(&words(&[addr, seeds.len() as u64]));
        }
        self.place(&outer)
    }

    fn place_rust_instruction(&mut self, program: u8, metas: &[AccountMeta], data: &[u8]) -> u64 {
        let mut bytes = vec![];
        for meta in metas {
            bytes.extend_from_slice(&meta.pubkey.bytes);
            bytes.push(meta.is_signer as u8);
            bytes.push(meta.is_writable as u8);
        }
        let accounts = self.place(&bytes);
        let data_addr = self.place(data);
        let mut instruction = words(&[
            accounts,
            metas.len() as u64,
            metas.len() as u64,
            data_addr,
            data.len() as u64,
            data.len() as u64,
        ]);
        instruction.extend_from_slice(&[program; 32]);
        self.place(&instruction)
    }

    fn place_c_instruction(&mut self, program: u8, metas: &[AccountMeta], data: &[u8]) -> u64 {
        let mut bytes = vec![];
        for meta in metas {
            let addr = self.place(&meta.pubkey.bytes);
            bytes.extend_from_slice(&words(&[addr]));
            bytes.push(meta.is_writable as u8);
            bytes.push(meta.is_signer as u8);
            bytes.extend_from_slice(&[0; 6]);
        }
        let accounts = self.place(&bytes);
        let data_addr = self.place(data);
        let program_id = self.place(&[program; 32]);
        self.place(&words(&[
            program_id,
            accounts,
            metas.len() as u64,
            data_addr,
            data.len() as u64,
        ]))
    }
}

/// Where a caller keeps an account.
struct Kept {
    lamports: u64,
    owner: u64,
    data: u64,
    /// The length in front of the data.
    serialized_len: u64,
    /// The length that the account itself holds.
    len_in_vm: u64,
}

/// An account that a caller passes.
struct Passed {
    n: u8,
    lamports: u64,
    owner: u8,
    data: Vec<u8>,
    /// Room behind the data.
    room: usize,
    executable: bool,
    rent_epoch: u64,
}

fn passed(n: u8, lamports: u64, data: &[u8]) -> Passed {
    Passed {
        n,
        lamports,
        owner: 100 + n,
        data: data.to_vec(),
        room: 0,
        executable: false,
        rent_epoch: 1000 + n as u64,
    }
}

fn place_rust_infos(program: &mut Program, accounts: &[Passed]) -> (u64, Vec<Kept>) {
    let mut infos = vec![];
    let mut kept = vec![];
    for account in accounts {
        let key = program.place(&[account.n; 32]);
        let owner = program.place(&[account.owner; 32]);
        let lamports = program.place(&words(&[account.lamports]));
        let lamports_rc = program.place(&words(&[1, 1, 0, lamports]));
        let serialized_len = program.place(&words(&[account.data.len() as u64]));
        let data = program.place(&account.data);
        program.place(&vec![0; account.room]);
        let data_rc = program.place(&words(&[1, 1, 0, data, account.data.len() as u64]));
        infos.extend_from_slice(&words(&[key, lamports_rc, data_rc, owner, account.rent_epoch]));
        infos.extend_from_slice(&[0, 1, account.executable as u8, 0, 0, 0, 0, 0]);
        kept.push(Kept { lamports, owner, data, serialized_len, len_in_vm: data_rc + 32 });
    }
    (program.place(&infos), kept)
}

fn place_c_infos(program: &mut Program, accounts: &[Passed]) -> (u64, Vec<Kept>) {
    let mut infos = vec![];
    let mut kept = vec![];
    for account in accounts {
        let key = program.place(&[account.n; 32]);
        let owner = program.place(&[account.owner; 32]);
        let lamports = program.place(&words(&[account.lamports]));
        let serialized_len = program.place(&words(&[account.data.len() as u64]));
        let data = program.place(&account.data);
        program.place(&vec![0; account.room]);
        infos.extend_from_slice(&words(&[
            key,
            lamports,
            account.data.len() as u64,
            data,
            owner,
            account.rent_epoch,
        ]));
        infos.extend_from_slice(&[0, 1, account.executable as u8, 0, 0, 0, 0, 0]);
        kept.push(Kept { lamports, owner, data, serialized_len, len_in_vm: 0 });
    }
    let addr = program.place(&infos);
    for (i, kept) in kept.iter_mut().enumerate() {
        kept.len_in_vm = addr + 56 * i as u64 + 16;
    }
    (addr, kept)
}

fn features() -> FeatureSet {
    FeatureSet {
        sol_log_compute_units_syscall: true,
        pubkey_log_syscall_enabled: true,
        sha256_syscall_enabled: true,
        ristretto_mul_syscall_enabled: true,
        try_find_program_address_syscall_enabled: true,
        use_loaded_program_accounts: true,
        limit_cpi_loader_invoke: true,
        abort_on_all_cpi_failures: false,
    }
}

fn context() -> InvokeContext {
    InvokeContext {
        is_borrowed: false,
        compute_meter: ComputeMeter { remaining: 1500, is_borrowed: false },
        bpf_compute_budget: BpfComputeBudget {
            log_units: 100,
            log_64_units: 100,
            create_program_address_units: 1500,
            invoke_units: 1000,
            sha256_base_cost: 85,
            sha256_byte_cost: 1,
            log_pubkey_units: 100,
            max_cpi_instruction_size: 1280,
        },
        features: features(),
        caller: Ok(key(77)),
    }
}

fn args(instruction: u64, infos: u64, infos_len: u64, seeds: u64, seeds_len: u64) -> InvokeArgs {
    InvokeArgs {
        instruction_addr: instruction,
        account_infos_addr: infos,
        account_infos_len: infos_len,
        signers_seeds_addr: seeds,
        signers_seeds_len: seeds_len,
    }
}

fn program_account() -> Account {
    Account {
        lamports: 1,
        data: vec![],
        owner: loader(),
        executable: true,
        rent_epoch: 0,
    }
}

/// Runs an invocation in which the callee moves lamports, sets the owner, writes data, and lets an
/// empty account grow.
fn invoke<S: SyscallInvokeSigned>(
    syscall: &S,
    instruction: u64,
    infos: u64,
    kept: &[Kept],
    program: &mut Program,
) {
    let regions = program.regions();
    let mut context = context();
    let features = context.features;
    let args = args(instruction, infos, 3, 0, 0);
    let pending = begin_call(syscall, &mut context, args, &regions, &program.memory).unwrap();
    assert_eq!(context.compute_meter.remaining, 500);
    assert!(pending.instruction.program_id == key(9));
    assert_eq!(pending.instruction.data, [1, 2, 3]);
    // Writable ones first, the program among the read-only ones.
    let keys: Vec<u8> = pending.message.account_keys.iter().map(|k| k.bytes[0]).collect();
    assert_eq!(keys, [1, 2, 3, 9]);
    let writable: Vec<bool> = (0..4).map(|i| pending.message.is_writable(i)).collect();
    assert_eq!(writable, [true, true, false, false]);
    assert_eq!(pending.message.program_id_index, 3);

    let t = load_accounts(
        syscall,
        &pending,
        &features,
        args,
        &regions,
        &regions,
        &program.memory,
    )
    .unwrap();
    assert_eq!(t.accounts.len(), 3);
    assert_eq!(t.accounts[0].lamports, 10);
    assert_eq!(t.accounts[0].data, [5, 6, 7]);
    assert!(t.accounts[0].owner == key(101));
    assert_eq!(t.accounts[0].rent_epoch, 1001);
    assert!(!t.accounts[0].executable);
    assert_eq!(t.accounts[1].data.len(), 0);
    assert_eq!(t.accounts[2].lamports, 30);

    let before = program.memory.bytes.clone();
    let selected =
        select_program(t, &pending.message, &features, Some(program_account())).unwrap();
    assert_eq!(selected.accounts.len(), 4);
    assert_eq!(selected.refs.len(), 4);
    assert!(selected.refs[3].is_none());
    assert!(selected.programdata_address.is_none());
    assert!(selected.program_account.executable);

    // A callee that changes nothing changes nothing.
    let answer = finish_call(
        &pending.message,
        &selected.accounts,
        &selected.refs,
        Ok(()),
        &features,
        &regions,
        &mut program.memory,
    );
    assert_eq!(answer, Ok(0));
    assert_eq!(program.memory.bytes, before);

    let mut after = selected.accounts;
    after[0].lamports = 4;
    after[0].data = vec![8, 9, 10];
    after[1].lamports = 26;
    after[1].owner = key(55);
    after[1].data = vec![1; 100];
    after[2].lamports = 0;
    after[2].data = vec![0; 2];
    let answer = finish_call(
        &pending.message,
        &after,
        &selected.refs,
        Ok(()),
        &features,
        &regions,
        &mut program.memory,
    );
    assert_eq!(answer, Ok(0));
    assert_eq!(program.word(kept[0].lamports), 4);
    assert_eq!(program.read(kept[0].data, 3), [8, 9, 10]);
    assert_eq!(program.word(kept[0].len_in_vm), 3);
    assert_eq!(program.word(kept[1].lamports), 26);
    assert_eq!(program.read(kept[1].owner, 32), [55; 32]);
    assert_eq!(program.word(kept[1].len_in_vm), 100);
    assert_eq!(program.word(kept[1].serialized_len), 100);
    // The read-only account stays as it was.
    assert_eq!(program.word(kept[2].lamports), 30);
    assert_eq!(program.read(kept[2].data, 2), [3, 4]);
}

fn three_accounts() -> Vec<Passed> {
    let mut growing = passed(2, 20, &[]);
    growing.room = 200;
    vec![passed(1, 10, &[5, 6, 7]), growing, passed(3, 30, &[3, 4])]
}

fn three_metas() -> Vec<AccountMeta> {
    vec![meta(3, false, false), meta(1, false, true), meta(2, false, true)]
}

fn four_held() -> Vec<KeyedAccount> {
    vec![
        held(1, false, true),
        held(2, false, true),
        held(3, false, false),
        held(9, false, false),
    ]
}

#[test]
fn an_invocation_from_rust() {
    let loader = loader();
    let callers = four_held();
    let mut program = Program::new();
    let (infos, kept) = place_rust_infos(&mut program, &three_accounts());
    let instruction = program.place_rust_instruction(9, &three_metas(), &[1, 2, 3]);
    let syscall =
        SyscallInvokeSignedRust { callers_keyed_accounts: &callers, loader_id: &loader };
    invoke(&syscall, instruction, infos, &kept, &mut program);
}

#[test]
fn an_invocation_from_c() {
    let loader = loader();
    let callers = four_held();
    let mut program = Program::new();
    let (infos, kept) = place_c_infos(&mut program, &three_accounts());
    let instruction = program.place_c_instruction(9, &three_metas(), &[1, 2, 3]);
    let syscall = SyscallInvokeSignedC { callers_keyed_accounts: &callers, loader_id: &loader };
    invoke(&syscall, instruction, infos, &kept, &mut program);
}

#[test]
fn an_invocation_must_be_paid_and_borrowed() {
    let loader = loader();
    let callers = four_held();
    let mut program = Program::new();
    let instruction = program.place_rust_instruction(9, &[], &[1; 100]);
    let regions = program.regions();
    let syscall =
        SyscallInvokeSignedRust { callers_keyed_accounts: &callers, loader_id: &loader };
    let args = args(instruction, 0, 0, 0, 0);
    let begin = |context: &mut InvokeContext| {
        begin_call(&syscall, context, args, &regions, &program.memory).err()
    };

    let mut borrowed = context();
    borrowed.is_borrowed = true;
    assert_eq!(begin(&mut borrowed), Some(refused(SyscallError::InvokeContextBorrowFailed)));
    assert_eq!(borrowed.compute_meter.remaining, 1500);

    let mut poor = context();
    poor.compute_meter.remaining = 999;
    assert_eq!(
        begin(&mut poor),
        Some(rejected(InstructionError::ComputationalBudgetExceeded))
    );
    assert_eq!(poor.compute_meter.remaining, 0);

    let mut metered = context();
    metered.compute_meter.is_borrowed = true;
    assert_eq!(begin(&mut metered), Some(refused(SyscallError::InvokeContextBorrowFailed)));

    let mut small = context();
    small.bpf_compute_budget.max_cpi_instruction_size = 99;
    assert_eq!(
        begin(&mut small),
        Some(rejected(InstructionError::ComputationalBudgetExceeded))
    );
    assert_eq!(small.compute_meter.remaining, 500);

    let mut deep = context();
    deep.caller = Err(InstructionError::CallDepth);
    assert_eq!(begin(&mut deep), Some(rejected(InstructionError::CallDepth)));

    assert_eq!(begin(&mut context()), None);
}

#[test]
fn a_caller_cannot_gain_privileges() {
    let loader = loader();
    let callers = vec![
        held(1, false, false),
        held(2, true, true),
        held(9, false, false),
        // Only the first account with a key counts.
        held(1, true, true),
    ];
    let begin = |metas: &[AccountMeta], program_id: u8| {
        let mut program = Program::new();
        let instruction = program.place_rust_instruction(program_id, metas, &[]);
        let regions = program.regions();
        let syscall =
            SyscallInvokeSignedRust { callers_keyed_accounts: &callers, loader_id: &loader };
        let args = args(instruction, 0, 0, 0, 0);
        begin_call(&syscall, &mut context(), args, &regions, &program.memory).err()
    };
    let missing = Some(rejected(InstructionError::MissingAccount));
    let escalation = Some(rejected(InstructionError::PrivilegeEscalation));
    assert_eq!(begin(&[meta(1, false, false), meta(2, true, true)], 9), None);
    assert_eq!(begin(&[meta(3, false, false)], 9), missing);
    assert_eq!(begin(&[meta(2, true, true)], 8), missing);
    assert_eq!(begin(&[meta(1, false, true)], 9), escalation);
    assert_eq!(begin(&[meta(1, true, false)], 9), escalation);
    assert_eq!(begin(&[meta(2, true, true), meta(1, true, false)], 9), escalation);
    // The first account that is wrong decides.
    assert_eq!(begin(&[meta(3, false, false), meta(1, true, false)], 9), missing);
    assert_eq!(begin(&[meta(1, true, false), meta(3, false, false)], 9), escalation);
    assert_eq!(begin(&[meta(1, true, false)], 8), escalation);
}

#[test]
fn a_caller_signs_for_the_addresses_that_it_derives() {
    let loader = loader();
    let caller = solana_sdk::pubkey::Pubkey::new_from_array(key(77).bytes);
    let (address, bump) =
        solana_sdk::pubkey::Pubkey::find_program_address(&[b"vault"], &caller);
    let derived = Pubkey { bytes: address.to_bytes() };
    let callers = vec![
        KeyedAccount { key: derived, is_signer: false, is_writable: true },
        held(9, false, false),
    ];
    let mut program = Program::new();
    let metas = [AccountMeta { pubkey: derived, is_signer: true, is_writable: true }];
    let instruction = program.place_rust_instruction(9, &metas, &[]);
    let seeds = program.place_seeds(&[vec![b"vault".to_vec(), vec![bump]]]);
    let regions = program.regions();
    let syscall =
        SyscallInvokeSignedRust { callers_keyed_accounts: &callers, loader_id: &loader };
    let signed = args(instruction, 0, 0, seeds, 1);
    let pending =
        begin_call(&syscall, &mut context(), signed, &regions, &program.memory).unwrap();
    assert_eq!(pending.message.num_required_signatures, 1);
    let unsigned = args(instruction, 0, 0, 0, 0);
    assert_eq!(
        begin_call(&syscall, &mut context(), unsigned, &regions, &program.memory).err(),
        Some(rejected(InstructionError::PrivilegeEscalation))
    );
}

#[test]
fn signers_are_derived_from_their_seeds() {
    let caller = key(77);
    let sdk_caller = solana_sdk::pubkey::Pubkey::new_from_array(caller.bytes);
    let mut program = Program::new();
    let mut signers = vec![];
    let mut expected = vec![];
    for n in 0..3u8 {
        let (address, bump) =
            solana_sdk::pubkey::Pubkey::find_program_address(&[&[n; 4]], &sdk_caller);
        signers.push(vec![vec![n; 4], vec![bump]]);
        expected.push(address.to_bytes());
    }
    let seeds = program.place_seeds(&signers);
    let regions = program.regions();
    let got =
        translate_signers(&caller, seeds, 3, &regions, &loader(), &program.memory).unwrap();
    let got: Vec<[u8; 32]> = got.iter().map(|signer| signer.bytes).collect();
    assert_eq!(got, expected);
    // Without signers nothing is read.
    assert_eq!(
        translate_signers(&caller, 3, 0, &regions, &loader(), &program.memory)
            .unwrap()
            .len(),
        0
    );
}

#[test]
fn bad_signers_are_refused() {
    let caller = key(77);
    let signers_error = |signers: &[Vec<Vec<u8>>]| {
        let mut program = Program::new();
        let seeds = program.place_seeds(signers);
        let regions = program.regions();
        let len = signers.len() as u64;
        translate_signers(&caller, seeds, len, &regions, &loader(), &program.memory).err()
    };
    assert_eq!(
        signers_error(&vec![vec![]; 17]),
        Some(refused(SyscallError::TooManySigners))
    );
    assert_eq!(
        signers_error(&[vec![vec![1]; 17]]),
        Some(rejected(InstructionError::MaxSeedLengthExceeded))
    );
    assert_eq!(
        signers_error(&[vec![vec![1; 33]]]),
        Some(refused(SyscallError::BadSeeds(PubkeyError::MaxSeedLengthExceeded)))
    );
    // Of the bump seeds behind the one that is found, some give a point on the curve.
    let sdk_caller = solana_sdk::pubkey::Pubkey::new_from_array(caller.bytes);
    let bad = (0..=255u8)
        .find(|bump| {
            solana_sdk::pubkey::Pubkey::create_program_address(&[&[*bump]], &sdk_caller).is_err()
        })
        .unwrap();
    assert_eq!(
        signers_error(&[vec![vec![bad]]]),
        Some(refused(SyscallError::BadSeeds(PubkeyError::InvalidSeeds)))
    );
    let program = Program::new();
    assert_eq!(
        translate_signers(&caller, 8, 1, &[], &loader(), &program.memory).err(),
        Some(EbpfError::AccessViolation(8, 16))
    );
}

fn sdk_key(key: &Pubkey) -> solana_sdk::pubkey::Pubkey {
    solana_sdk::pubkey::Pubkey::new_from_array(key.bytes)
}

/// What the runtime makes of the same instruction.
fn sdk_message(
    instruction: &Instruction,
    callers: &[KeyedAccount],
    signers: &[Pubkey],
) -> Result<(solana_sdk::message::Message, usize), SdkError> {
    let sdk_instruction = solana_sdk::instruction::Instruction {
        program_id: sdk_key(&instruction.program_id),
        accounts: instruction
            .accounts
            .iter()
            .map(|meta| solana_sdk::instruction::AccountMeta {
                pubkey: sdk_key(&meta.pubkey),
                is_signer: meta.is_signer,
                is_writable: meta.is_writable,
            })
            .collect(),
        data: instruction.data.clone(),
    };
    let account = RefCell::new(solana_sdk::account::Account::default());
    let keys: Vec<_> = callers.iter().map(|caller| sdk_key(&caller.key)).collect();
    let keyed: Vec<_> = callers
        .iter()
        .zip(&keys)
        .map(|(caller, key)| {
            if caller.is_writable {
                solana_sdk::keyed_account::KeyedAccount::new(key, caller.is_signer, &account)
            } else {
                solana_sdk::keyed_account::KeyedAccount::new_readonly(
                    key,
                    caller.is_signer,
                    &account,
                )
            }
        })
        .collect();
    let refs: Vec<_> = keyed.iter().collect();
    let signers: Vec<_> = signers.iter().map(sdk_key).collect();
    solana_runtime::message_processor::MessageProcessor::create_message(
        &sdk_instruction,
        &refs,
        &signers,
    )
    .map(|(message, _, index)| (message, index))
}

#[test]
fn messages_are_those_of_the_runtime() {
    let callers = vec![
        held(1, false, false),
        held(2, true, true),
        held(3, true, false),
        held(4, false, true),
        held(9, false, false),
    ];
    let signers = vec![key(4), key(1)];
    let mut accepted = 0;
    let mut refused = 0;
    // All instructions with two accounts of five addresses, and the program.
    for a in 1..6u8 {
        for b in 1..6u8 {
            for flags in 0..16 {
                for program in [9, 1, 7] {
                    let instruction = Instruction {
                        program_id: key(program),
                        accounts: vec![
                            meta(a, flags & 1 != 0, flags & 2 != 0),
                            meta(b, flags & 4 != 0, flags & 8 != 0),
                        ],
                        data: vec![a, b],
                    };
                    let got = create_message(&instruction, &callers, &signers);
                    match sdk_message(&instruction, &callers, &signers) {
                        Ok((message, index)) => {
                            accepted += 1;
                            same_message(&got.unwrap(), &message, index);
                        }
                        Err(e) => {
                            refused += 1;
                            assert_eq!(format!("{:?}", got.unwrap_err()), format!("{:?}", e));
                        }
                    }
                }
            }
        }
    }
    assert!(accepted > 100 && refused > 100);
}

fn same_message(got: &Message, expected: &solana_sdk::message::Message, index: usize) {
    let keys: Vec<[u8; 32]> = got.account_keys.iter().map(|key| key.bytes).collect();
    let expected_keys: Vec<[u8; 32]> =
        expected.account_keys.iter().map(|key| key.to_bytes()).collect();
    assert_eq!(keys, expected_keys);
    assert_eq!(got.program_id_index as usize, index);
    for i in 0..keys.len() + 1 {
        assert_eq!(got.is_writable(i), expected.is_writable(i));
    }
}

#[test]
fn addresses_of_a_message_are_counted_once() {
    let mut instruction = Instruction {
        program_id: key(254),
        accounts: (0..255).map(|n| meta(n, false, false)).collect(),
        data: vec![],
    };
    assert!(names_few_keys(&instruction));
    instruction.accounts.push(meta(17, true, true));
    assert!(names_few_keys(&instruction));
    instruction.accounts.push(meta(255, false, false));
    assert!(!names_few_keys(&instruction));
    instruction.accounts.clear();
    assert!(names_few_keys(&instruction));
}

#[test]
fn loaders_take_only_upgrades() {
    let unsupported = rejected(InstructionError::UnsupportedProgramId);
    let check = |id: [u8; 32], data: &[u8]| {
        check_authorized_program(&Pubkey { bytes: id }, data).err()
    };
    assert_eq!(check(NATIVE_LOADER_ID, &[3]), Some(unsupported));
    let unsupported = rejected(InstructionError::UnsupportedProgramId);
    assert_eq!(check(BPF_LOADER_ID, &[]), Some(unsupported));
    let unsupported = rejected(InstructionError::UnsupportedProgramId);
    assert_eq!(check(BPF_LOADER_DEPRECATED_ID, &[3]), Some(unsupported));
    for first in 0..=255u8 {
        let upgrade =
            solana_sdk::bpf_loader_upgradeable::is_upgrade_instruction(&[first, 0, 0, 0]);
        assert_eq!(check(BPF_LOADER_UPGRADEABLE_ID, &[first, 0, 0, 0]).is_none(), upgrade);
    }
    assert_eq!(check([5; 32], &[]), None);
}

#[test]
fn large_instructions_are_rejected() {
    let exceeded = || Err(rejected(InstructionError::ComputationalBudgetExceeded));
    assert_eq!(check_instruction_size(2, 32, 100), Ok(()));
    assert_eq!(check_instruction_size(2, 33, 100), exceeded());
    assert_eq!(check_instruction_size(0, 0, 0), Ok(()));
    assert_eq!(check_instruction_size(u64::MAX, u64::MAX, u64::MAX - 1), exceeded());
    assert_eq!(check_instruction_size(u64::MAX, u64::MAX, u64::MAX), Ok(()));
    assert_eq!(check_instruction_size(u64::MAX / 34 + 1, 0, 1280), exceeded());
    assert_eq!(std::mem::size_of::<solana_sdk::instruction::AccountMeta>(), 34);
}

#[test]
fn an_instruction_to_a_loader_is_rejected_if_the_feature_is_active() {
    let loader = loader();
    let callers = vec![KeyedAccount { key: loader, is_signer: false, is_writable: false }];
    let mut program = Program::new();
    let instruction = program.place_rust_instruction(9, &[], &[1]);
    let at = (instruction - BASE) as usize;
    program.memory.bytes[at + 48..at + 80].copy_from_slice(&BPF_LOADER_ID);
    let regions = program.regions();
    let syscall =
        SyscallInvokeSignedRust { callers_keyed_accounts: &callers, loader_id: &loader };
    let args = args(instruction, 0, 0, 0, 0);
    let mut context = context();
    let pending = begin_call(&syscall, &mut context, args, &regions, &program.memory).unwrap();
    let mut features = features();
    let load = |features: &FeatureSet| {
        load_accounts(&syscall, &pending, features, args, &regions, &regions, &program.memory)
            .map(|t| t.accounts.len())
    };
    assert_eq!(load(&features), Err(rejected(InstructionError::UnsupportedProgramId)));
    features.limit_cpi_loader_invoke = false;
    assert_eq!(load(&features), Ok(0));
    // Without the loaded account the caller has to pass the program.
    features.use_loaded_program_accounts = false;
    assert_eq!(load(&features), Err(rejected(InstructionError::MissingAccount)));
}

fn load_error<S: SyscallInvokeSigned>(
    syscall: &S,
    instruction: u64,
    infos: u64,
    infos_len: u64,
    program: &Program,
    rw: &[MemoryRegion],
) -> Option<EbpfError> {
    let ro = program.regions();
    let args = args(instruction, infos, infos_len, 0, 0);
    let mut context = context();
    let pending = begin_call(syscall, &mut context, args, &ro, &program.memory).unwrap();
    load_accounts(syscall, &pending, &context.features, args, &ro, rw, &program.memory).err()
}

#[test]
fn accounts_must_be_writable_where_the_caller_keeps_them() {
    let loader = loader();
    let callers = four_held();
    for in_c in [false, true] {
        let mut program = Program::new();
        let (infos, kept, instruction) = if in_c {
            let (infos, kept) = place_c_infos(&mut program, &three_accounts());
            (infos, kept, program.place_c_instruction(9, &three_metas(), &[]))
        } else {
            let (infos, kept) = place_rust_infos(&mut program, &three_accounts());
            (infos, kept, program.place_rust_instruction(9, &three_metas(), &[]))
        };
        let error = |infos_len: u64, rw: &[MemoryRegion]| {
            if in_c {
                let syscall = SyscallInvokeSignedC {
                    callers_keyed_accounts: &callers,
                    loader_id: &loader,
                };
                load_error(&syscall, instruction, infos, infos_len, &program, rw)
            } else {
                let syscall = SyscallInvokeSignedRust {
                    callers_keyed_accounts: &callers,
                    loader_id: &loader,
                };
                load_error(&syscall, instruction, infos, infos_len, &program, rw)
            }
        };
        let all = program.regions();
        assert_eq!(error(3, &all), None);
        // The third account is wanted too.
        assert_eq!(error(2, &all), Some(rejected(InstructionError::MissingAccount)));
        assert_eq!(error(0, &all), Some(rejected(InstructionError::MissingAccount)));
        assert_eq!(error(3, &[]), Some(EbpfError::AccessViolation(kept[0].lamports, 8)));
        // All but one of the places of the first account.
        let without = |addr: u64, len: u64| {
            vec![
                MemoryRegion::new(0, BASE, addr - BASE),
                MemoryRegion::new(
                    addr + len - BASE,
                    addr + len,
                    BASE + all[0].len - (addr + len),
                ),
            ]
        };
        for (addr, len) in [
            (kept[0].lamports, 8),
            (kept[0].owner, 32),
            (kept[0].data, 3),
            (kept[0].len_in_vm, 8),
            (kept[0].serialized_len, 8),
        ] {
            assert_eq!(
                error(3, &without(addr, len)),
                Some(EbpfError::AccessViolation(addr, len))
            );
        }
    }
}

#[test]
fn an_unreadable_key_is_an_error() {
    let loader = loader();
    let callers = four_held();
    let mut program = Program::new();
    let (infos, _) = place_rust_infos(&mut program, &three_accounts());
    let instruction = program.place_rust_instruction(9, &three_metas(), &[]);
    program.memory.write_u64(infos - BASE + 48, 3);
    let syscall =
        SyscallInvokeSignedRust { callers_keyed_accounts: &callers, loader_id: &loader };
    let regions = program.regions();
    // The second account is passed on the way to the others.
    assert_eq!(
        load_error(&syscall, instruction, infos, 3, &program, &regions),
        Some(EbpfError::AccessViolation(3, 32))
    );
}

fn upgradeable(data: Vec<u8>) -> Account {
    Account {
        lamports: 1,
        data,
        owner: Pubkey { bytes: BPF_LOADER_UPGRADEABLE_ID },
        executable: true,
        rent_epoch: 0,
    }
}

#[test]
fn the_code_of_an_upgradeable_program_is_elsewhere() {
    use_state(vec![2, 0, 0, 0], 32, Ok(true));
    use_state(vec![2, 0, 0, 0], 40, Ok(true));
    use_state(vec![2, 0, 0, 0], 31, Err(InstructionError::InvalidAccountData));
    use_state(vec![2, 0, 0, 1], 32, Err(InstructionError::InvalidAccountData));
    use_state(vec![0, 0, 0, 0], 0, Err(InstructionError::MissingAccount));
    use_state(vec![1, 0, 0, 0, 0], 0, Err(InstructionError::MissingAccount));
    use_state(vec![1, 0, 0, 0, 1], 31, Err(InstructionError::InvalidAccountData));
    let slot_without_authority = vec![3, 0, 0, 0, 0, 0, 0, 0, 0, 0, 0, 0, 0];
    use_state(slot_without_authority, 0, Err(InstructionError::MissingAccount));
    use_state(vec![4, 0, 0, 0], 64, Err(InstructionError::InvalidAccountData));
    use_state(vec![], 0, Err(InstructionError::InvalidAccountData));

    let mut data = program_account();
    assert_eq!(programdata_address(&data).map(|a| a.is_some()), Ok(false));
    data.executable = false;
    assert_eq!(
        programdata_address(&data).err(),
        Some(rejected(InstructionError::AccountNotExecutable))
    );
}

fn use_state(mut data: Vec<u8>, more: usize, expected: Result<bool, InstructionError>) {
    for i in 0..more {
        data.push(1 + i as u8);
    }
    match (programdata_address(&upgradeable(data.clone())), expected) {
        (Ok(Some(address)), Ok(true)) => assert_eq!(&address.bytes[..], &data[4..36]),
        (Err(e), Err(expected)) => assert_eq!(e, rejected(expected)),
        _ => panic!(),
    }
}

#[test]
fn the_program_account_is_selected() {
    let message = Message {
        account_keys: vec![key(1), key(9)],
        num_required_signatures: 0,
        num_readonly_signed_accounts: 0,
        num_readonly_unsigned_accounts: 1,
        program_id_index: 1,
    };
    let accounts = |n: usize| bpf_syscalls::invoke_signed::TranslatedAccounts {
        accounts: (0..n).map(|_| program_account()).collect(),
        refs: (0..n).map(|_| None).collect(),
    };
    let mut features = features();
    assert_eq!(
        select_program(accounts(1), &message, &features, None).err(),
        Some(rejected(InstructionError::MissingAccount))
    );
    let mut data = program_account();
    data.lamports = 5;
    let selected = select_program(accounts(1), &message, &features, Some(data)).unwrap();
    assert_eq!(selected.accounts.len(), 2);
    assert_eq!(selected.accounts[1].lamports, 5);
    assert_eq!(selected.program_account.lamports, 5);

    let mut plain = program_account();
    plain.executable = false;
    assert_eq!(
        select_program(accounts(1), &message, &features, Some(plain)).err(),
        Some(rejected(InstructionError::AccountNotExecutable))
    );

    features.use_loaded_program_accounts = false;
    let selected = select_program(accounts(2), &message, &features, None).unwrap();
    assert_eq!(selected.accounts.len(), 2);
    assert_eq!(
        select_program(accounts(1), &message, &features, None).err(),
        Some(rejected(InstructionError::MissingAccount))
    );
}

#[test]
fn executables_are_the_program_and_its_code() {
    let only = executable_accounts(key(9), program_account(), None, None).unwrap();
    assert_eq!(only.len(), 1);
    assert!(only[0].key == key(9));
    let mut code = program_account();
    code.lamports = 8;
    let both =
        executable_accounts(key(9), program_account(), Some(key(10)), Some(code)).unwrap();
    assert_eq!(both.len(), 2);
    assert!(both[1].key == key(10));
    assert_eq!(both[1].account.lamports, 8);
    assert_eq!(
        executable_accounts(key(9), program_account(), Some(key(10)), None).err(),
        Some(rejected(InstructionError::MissingAccount))
    );
}

/// Runs an invocation whose callee leaves the first account with `data`.
fn finish_with(old: &[u8], room: usize, data: Vec<u8>) -> (Result<u64, EbpfError>, u64, u64) {
    let loader = loader();
    let callers = four_held();
    let mut program = Program::new();
    let mut account = passed(1, 10, old);
    account.room = room;
    let (infos, kept) = place_rust_infos(&mut program, &[account]);
    let instruction = program.place_rust_instruction(9, &[meta(1, false, true)], &[]);
    let regions = program.regions();
    let syscall =
        SyscallInvokeSignedRust { callers_keyed_accounts: &callers, loader_id: &loader };
    let args = args(instruction, infos, 1, 0, 0);
    let mut context = context();
    let pending = begin_call(&syscall, &mut context, args, &regions, &program.memory).unwrap();
    let mut t = load_accounts(
        &syscall,
        &pending,
        &context.features,
        args,
        &regions,
        &regions,
        &program.memory,
    )
    .unwrap();
    t.accounts[0].lamports = 99;
    t.accounts[0].data = data;
    let answer = finish_call(
        &pending.message,
        &t.accounts,
        &t.refs,
        Ok(()),
        &context.features,
        &regions,
        &mut program.memory,
    );
    (answer, program.word(kept[0].lamports), program.word(kept[0].len_in_vm))
}

#[test]
fn only_empty_accounts_grow_and_not_by_much() {
    let realloc = || Err(rejected(InstructionError::InvalidRealloc));
    assert_eq!(finish_with(&[], 20000, vec![1; 10240]), (Ok(0), 99, 10240));
    assert_eq!(finish_with(&[], 20000, vec![1; 10241]), (realloc(), 99, 0));
    assert_eq!(finish_with(&[1, 2], 100, vec![1; 3]), (realloc(), 99, 2));
    assert_eq!(finish_with(&[1, 2], 100, vec![]), (realloc(), 99, 2));
    // There must be memory behind the data.
    let (answer, lamports, len) = finish_with(&[], 0, vec![1; 10000]);
    assert!(matches!(answer, Err(EbpfError::AccessViolation(_, 10000))));
    assert_eq!((lamports, len), (99, 0));
}

#[test]
fn programs_are_not_copied_back() {
    let message = Message {
        account_keys: vec![key(1)],
        num_required_signatures: 0,
        num_readonly_signed_accounts: 0,
        num_readonly_unsigned_accounts: 0,
        program_id_index: 0,
    };
    let refs = [Some(bpf_syscalls::invoke_signed::AccountReferences {
        lamports: 0,
        owner: 8,
        data: 0,
        data_len: 0,
        vm_data_addr: 0,
        ref_to_len_in_vm: 40,
        serialized_len_ptr: 48,
    })];
    let mut memory = HostMemory { bytes: vec![7; 56] };
    let accounts = [program_account()];
    assert_eq!(
        finish_call(&message, &accounts, &refs, Ok(()), &features(), &[], &mut memory),
        Ok(0)
    );
    assert_eq!(memory.bytes, [7; 56]);
}

#[test]
fn failures_of_the_callee_are_reported() {
    let message = Message {
        account_keys: vec![],
        num_required_signatures: 0,
        num_readonly_signed_accounts: 0,
        num_readonly_unsigned_accounts: 0,
        program_id_index: 0,
    };
    let mut memory = HostMemory { bytes: vec![7; 8] };
    let mut features = features();
    let mut finish = |error: InstructionError, features: &FeatureSet| {
        finish_call(&message, &[], &[], Err(error), features, &[], &mut memory)
    };
    assert_eq!(finish(InstructionError::Custom(42), &features), Ok(42));
    assert_eq!(finish(InstructionError::Custom(0), &features), Ok(1 << 32));
    assert_eq!(finish(InstructionError::InvalidArgument, &features), Ok(2 << 32));
    assert_eq!(
        finish(InstructionError::CallDepth, &features),
        Err(rejected(InstructionError::CallDepth))
    );
    features.abort_on_all_cpi_failures = true;
    assert_eq!(
        finish(InstructionError::Custom(42), &features),
        Err(rejected(InstructionError::Custom(42)))
    );
}

#[test]
fn return_values_are_those_of_the_sdk() {
    let pairs = [
        (InstructionError::GenericError, SdkError::GenericError),
        (InstructionError::InvalidArgument, SdkError::InvalidArgument),
        (InstructionError::InvalidInstructionData, SdkError::InvalidInstructionData),
        (InstructionError::InvalidAccountData, SdkError::InvalidAccountData),
        (InstructionError::AccountDataTooSmall, SdkError::AccountDataTooSmall),
        (InstructionError::InsufficientFunds, SdkError::InsufficientFunds),
        (InstructionError::IncorrectProgramId, SdkError::IncorrectProgramId),
        (InstructionError::MissingRequiredSignature, SdkError::MissingRequiredSignature),
        (InstructionError::AccountAlreadyInitialized, SdkError::AccountAlreadyInitialized),
        (InstructionError::UninitializedAccount, SdkError::UninitializedAccount),
        (InstructionError::UnbalancedInstruction, SdkError::UnbalancedInstruction),
        (InstructionError::ModifiedProgramId, SdkError::ModifiedProgramId),
        (InstructionError::ExternalAccountLamportSpend, SdkError::ExternalAccountLamportSpend),
        (InstructionError::ExternalAccountDataModified, SdkError::ExternalAccountDataModified),
        (InstructionError::ReadonlyLamportChange, SdkError::ReadonlyLamportChange),
        (InstructionError::ReadonlyDataModified, SdkError::ReadonlyDataModified),
        (InstructionError::DuplicateAccountIndex, SdkError::DuplicateAccountIndex),
        (InstructionError::ExecutableModified, SdkError::ExecutableModified),
        (InstructionError::RentEpochModified, SdkError::RentEpochModified),
        (InstructionError::NotEnoughAccountKeys, SdkError::NotEnoughAccountKeys),
        (InstructionError::AccountDataSizeChanged, SdkError::AccountDataSizeChanged),
        (InstructionError::AccountNotExecutable, SdkError::AccountNotExecutable),
        (InstructionError::AccountBorrowFailed, SdkError::AccountBorrowFailed),
        (InstructionError::AccountBorrowOutstanding, SdkError::AccountBorrowOutstanding),
        (InstructionError::DuplicateAccountOutOfSync, SdkError::DuplicateAccountOutOfSync),
        (InstructionError::Custom(0), SdkError::Custom(0)),
        (InstructionError::Custom(1), SdkError::Custom(1)),
        (InstructionError::Custom(u32::MAX), SdkError::Custom(u32::MAX)),
        (InstructionError::InvalidError, SdkError::InvalidError),
        (InstructionError::ExecutableDataModified, SdkError::ExecutableDataModified),
        (InstructionError::ExecutableLamportChange, SdkError::ExecutableLamportChange),
        (
            InstructionError::ExecutableAccountNotRentExempt,
            SdkError::ExecutableAccountNotRentExempt,
        ),
        (InstructionError::UnsupportedProgramId, SdkError::UnsupportedProgramId),
        (InstructionError::CallDepth, SdkError::CallDepth),
        (InstructionError::MissingAccount, SdkError::MissingAccount),
        (InstructionError::ReentrancyNotAllowed, SdkError::ReentrancyNotAllowed),
        (InstructionError::MaxSeedLengthExceeded, SdkError::MaxSeedLengthExceeded),
        (InstructionError::InvalidSeeds, SdkError::InvalidSeeds),
        (InstructionError::InvalidRealloc, SdkError::InvalidRealloc),
        (InstructionError::ComputationalBudgetExceeded, SdkError::ComputationalBudgetExceeded),
        (InstructionError::PrivilegeEscalation, SdkError::PrivilegeEscalation),
        (
            InstructionError::ProgramEnvironmentSetupFailure,
            SdkError::ProgramEnvironmentSetupFailure,
        ),
        (InstructionError::ProgramFailedToComplete, SdkError::ProgramFailedToComplete),
        (InstructionError::ProgramFailedToCompile, SdkError::ProgramFailedToCompile),
        (InstructionError::Immutable, SdkError::Immutable),
        (InstructionError::IncorrectAuthority, SdkError::IncorrectAuthority),
    ];
    assert_eq!(pairs[0].0.tag(), 0);
    assert_eq!(pairs[25].0.tag(), 25);
    assert_eq!(pairs[pairs.len() - 1].0.tag(), 43);
    for (error, sdk_error) in pairs {
        assert_eq!(format!("{:?}", error), format!("{:?}", sdk_error));
        let expected =
            solana_sdk::program_error::ProgramError::try_from(sdk_error).ok().map(u64::from);
        assert_eq!(error.program_code(), expected);
    }
}

#[test]
fn a_signer_is_what_was_derived() {
    assert!(signer_of(Ok(key(5))).unwrap() == key(5));
    for error in [PubkeyError::InvalidSeeds, PubkeyError::MaxSeedLengthExceeded] {
        assert_eq!(
            signer_of(Err(error)).err(),
            Some(refused(SyscallError::BadSeeds(error)))
        );
    }
}

#[test]
fn layouts_have_the_sizes_of_the_sdk() {
    assert_eq!(size_of::<solana_sdk::instruction::Instruction>(), 80);
    assert_eq!(align_of::<solana_sdk::instruction::Instruction>(), 8);
    assert_eq!(align_of::<solana_sdk::instruction::AccountMeta>(), 1);
    assert_eq!(size_of::<solana_sdk::account_info::AccountInfo>(), 48);
    assert_eq!(align_of::<solana_sdk::account_info::AccountInfo>(), 8);
    assert_eq!(size_of::<&[u8]>(), 16);
    assert_eq!(size_of::<curve25519_dalek::ristretto::RistrettoPoint>(), 160);
    assert_eq!(align_of::<curve25519_dalek::ristretto::RistrettoPoint>(), 8);
    assert_eq!(size_of::<curve25519_dalek::scalar::Scalar>(), 32);
    assert_eq!(align_of::<curve25519_dalek::scalar::Scalar>(), 1);
}

#[test]
fn a_check_of_a_message_tells_two_errors() {
    assert_eq!(message_result(None), Ok(()));
    assert_eq!(message_result(Some(true)), Err(InstructionError::MissingAccount));
    assert_eq!(message_result(Some(false)), Err(InstructionError::PrivilegeEscalation));
}

#[test]
fn a_message_holds_the_addresses_of_its_instruction_once() {
    let callers = vec![held(1, true, true), held(2, true, true), held(9, false, false)];
    let instruction = Instruction {
        program_id: key(9),
        accounts: vec![
            meta(2, false, false),
            meta(1, true, false),
            meta(2, false, true),
            meta(9, false, false),
        ],
        data: vec![],
    };
    let message = create_message(&instruction, &callers, &[]).unwrap();
    let mut keys: Vec<u8> = message.account_keys.iter().map(|key| key.bytes[0]).collect();
    assert_eq!(keys[message.program_id_index as usize], 9);
    keys.sort_unstable();
    assert_eq!(keys, [1, 2, 9]);
}

/// Whether one mention of an address asks for all that its mentions ask, where any asks for a
/// signature.
fn is_consistent(accounts: &[AccountMeta]) -> bool {
    accounts.iter().all(|signed| {
        let mentions = || accounts.iter().filter(|meta| meta.pubkey == signed.pubkey);
        !signed.is_signer
            || !mentions().any(|meta| meta.is_writable)
            || mentions().any(|meta| meta.is_signer && meta.is_writable)
    })
}

#[test]
fn messages_grant_what_their_instruction_asks() {
    let callers =
        vec![held(1, true, true), held(2, true, true), held(3, true, true), held(9, true, true)];
    let mut consistent = 0;
    let mut misplaced = 0;
    // All instructions with three accounts of three addresses; the program may be one of them.
    for keys in 0..27 {
        for flags in 0..64 {
            for program in [9, 1] {
                let account = |n: u8, flags: u32| meta(n + 1, flags & 1 != 0, flags & 2 != 0);
                let instruction = Instruction {
                    program_id: key(program),
                    accounts: vec![
                        account(keys % 3, flags),
                        account(keys / 3 % 3, flags >> 2),
                        account(keys / 9, flags >> 4),
                    ],
                    data: vec![],
                };
                let message = create_message(&instruction, &callers, &[]).unwrap();
                for (i, key) in message.account_keys.iter().enumerate() {
                    let mentions = || instruction.accounts.iter().filter(|m| m.pubkey == *key);
                    assert_eq!(
                        i < message.num_required_signatures as usize,
                        mentions().any(|meta| meta.is_signer)
                    );
                    let asks_write = mentions().any(|meta| meta.is_writable);
                    if is_consistent(&instruction.accounts) {
                        consistent += 1;
                        assert_eq!(message.is_writable(i), asks_write);
                    } else if message.is_writable(i) != asks_write {
                        misplaced += 1;
                    }
                }
            }
        }
    }
    assert!(consistent > 1000 && misplaced > 0);
}

#[test]
fn an_address_can_stand_where_its_first_mention_puts_it() {
    // One mention of the second signer asks for a signature only, another for a change only. The
    // read-only signers are counted without it, and are the last ones.
    let callers = vec![held(1, true, true), held(2, true, false), held(9, false, false)];
    let instruction = Instruction {
        program_id: key(9),
        accounts: vec![meta(2, true, false), meta(1, true, false), meta(1, false, true)],
        data: vec![],
    };
    let message = create_message(&instruction, &callers, &[]).unwrap();
    assert_eq!(message.account_keys, [key(2), key(1), key(9)]);
    assert_eq!(message.num_required_signatures, 2);
    assert_eq!((message.is_writable(0), message.is_writable(1)), (true, false));
}

/// Different addresses, as an instruction names them and as a caller holds them.
fn many(n: u16) -> (Vec<AccountMeta>, Vec<KeyedAccount>) {
    (0..n)
        .map(|i| {
            let mut key = key(1);
            key.bytes[..2].copy_from_slice(&i.to_le_bytes());
            (
                AccountMeta { pubkey: key, is_signer: false, is_writable: false },
                KeyedAccount { key, is_signer: false, is_writable: false },
            )
        })
        .unzip()
}

#[test]
fn instructions_are_checked_however_many_addresses_they_name() {
    for n in [0, 1, 253, 254, 255, 508, 509, 600] {
        let (accounts, mut callers) = many(n);
        callers.push(held(9, false, false));
        let mut instruction = Instruction { program_id: key(9), accounts, data: vec![] };
        assert!(may_send(&instruction, &callers, &[]));
        assert!(!may_send(&instruction, &callers[..n as usize], &[]));
        for i in 0..n as usize {
            instruction.accounts[i].is_signer = true;
            if i % 50 == 0 || i + 1 == n as usize {
                assert!(!may_send(&instruction, &callers, &[]));
                let signer = instruction.accounts[i].pubkey;
                assert!(may_send(&instruction, &callers, &[signer]));
            }
            instruction.accounts[i].is_signer = false;
        }
    }
}

#[test]
fn an_invocation_is_started_unless_it_names_too_many_addresses() {
    let loader = loader();
    let wide = || {
        let mut context = context();
        context.bpf_compute_budget.max_cpi_instruction_size = 100_000;
        context
    };
    for (n, is_started) in [(254, true), (255, false)] {
        let mut program = Program::new();
        let (mut metas, mut callers) = many(n);
        callers.push(held(9, false, false));
        let instruction = program.place_rust_instruction(9, &metas, &[]);
        metas[1].is_writable = true;
        let escalating = program.place_rust_instruction(9, &metas, &[]);
        let regions = program.regions();
        let args = args(instruction, 0, 0, 0, 0);
        let begin = |callers: &[KeyedAccount], args: InvokeArgs, context: &mut InvokeContext| {
            let syscall =
                SyscallInvokeSignedRust { callers_keyed_accounts: callers, loader_id: &loader };
            try_begin_call(&syscall, context, args, &regions, &program.memory)
        };
        let mut all = wide();
        match begin(&callers, args, &mut all) {
            Some(pending) => {
                assert!(is_started);
                let pending = pending.unwrap();
                assert!(names_few_keys(&pending.instruction));
                assert_eq!(pending.message.account_keys.len(), 255);
                assert_eq!(all.compute_meter.remaining, 500);
            }
            None => {
                assert!(!is_started);
                assert_eq!(all.compute_meter.remaining, 1500);
            }
        }

        // What fails before the message is made is reported.
        let failed = |callers: &[KeyedAccount], args: InvokeArgs, context: &mut InvokeContext| {
            begin(callers, args, context).unwrap().err()
        };
        let missing = Some(rejected(InstructionError::MissingAccount));
        assert_eq!(failed(&callers[1..], args, &mut wide()), missing);
        assert_eq!(failed(&callers[..callers.len() - 1], args, &mut wide()), missing);
        let escalating = InvokeArgs { instruction_addr: escalating, ..args };
        assert_eq!(
            failed(&callers, escalating, &mut wide()),
            Some(rejected(InstructionError::PrivilegeEscalation))
        );
        let mut poor = wide();
        poor.compute_meter.remaining = 999;
        let exceeded = Some(rejected(InstructionError::ComputationalBudgetExceeded));
        assert_eq!(failed(&callers, args, &mut poor), exceeded);
        assert_eq!(poor.compute_meter.remaining, 0);
        let mut borrowed = wide();
        borrowed.is_borrowed = true;
        assert_eq!(
            failed(&callers, args, &mut borrowed),
            Some(refused(SyscallError::InvokeContextBorrowFailed))
        );
        let mut deep = wide();
        deep.caller = Err(InstructionError::CallDepth);
        assert_eq!(
            failed(&callers, args, &mut deep),
            Some(rejected(InstructionError::CallDepth))
        );
        let unreadable = InvokeArgs { instruction_addr: 0, ..args };
        assert_eq!(
            failed(&callers, unreadable, &mut wide()),
            Some(EbpfError::AccessViolation(0, 80))
        );
        let unsigned = InvokeArgs { signers_seeds_addr: 8, signers_seeds_len: 1, ..args };
        assert_eq!(
            failed(&callers, unsigned, &mut wide()),
            Some(EbpfError::AccessViolation(8, 16))
        );
    }
}
