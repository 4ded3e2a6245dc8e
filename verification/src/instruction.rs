//! Instructions that one program sends to another, and what the sender must hold to send them.
use crate::error::{reject, rejected, EbpfError, InstructionError};
use crate::pubkey::{
    Pubkey, BPF_LOADER_DEPRECATED_ID, BPF_LOADER_ID, BPF_LOADER_UPGRADEABLE_ID, NATIVE_LOADER_ID,
};
use solana_runtime::message_processor::MessageProcessor;
use solana_sdk::instruction::{
    AccountMeta as SdkAccountMeta, Instruction as SdkInstruction,
    InstructionError as SdkInstructionError,
};
use solana_sdk::keyed_account::KeyedAccount as SdkKeyedAccount;
use solana_sdk::pubkey::Pubkey as SdkPubkey;
use vstd::prelude::*;

verus! {

/// An account that an instruction names, and what it asks of it.
#[derive(Debug, Clone, Copy)]
pub struct AccountMeta {
    pub pubkey: Pubkey,
    pub is_signer: bool,
    pub is_writable: bool,
}

/// An account that was passed to the calling program, and what that program holds of it.
#[derive(Debug, Clone, Copy)]
pub struct KeyedAccount {
    pub key: Pubkey,
    pub is_signer: bool,
    pub is_writable: bool,
}

/// An address with the privileges that are asked or held.
pub struct KeyPrivileges {
    pub key: Seq<u8>,
    pub is_signer: bool,
    pub is_writable: bool,
}

impl View for AccountMeta {
    type V = KeyPrivileges;

    open spec fn view(&self) -> KeyPrivileges {
        KeyPrivileges {
            key: self.pubkey@,
            is_signer: self.is_signer,
            is_writable: self.is_writable,
        }
    }
}

impl View for KeyedAccount {
    type V = KeyPrivileges;

    open spec fn view(&self) -> KeyPrivileges {
        KeyPrivileges { key: self.key@, is_signer: self.is_signer, is_writable: self.is_writable }
    }
}

/// The views of a list.
pub open spec fn views<T: View>(s: Seq<T>) -> Seq<T::V> {
    Seq::new(s.len(), |i: int| s[i]@)
}

/// An instruction.
#[derive(Debug)]
pub struct Instruction {
    pub program_id: Pubkey,
    pub accounts: Vec<AccountMeta>,
    pub data: Vec<u8>,
}

/// Contents of an instruction.
pub struct InstructionView {
    pub program_id: Seq<u8>,
    pub accounts: Seq<KeyPrivileges>,
    pub data: Seq<u8>,
}

impl View for Instruction {
    type V = InstructionView;

    open spec fn view(&self) -> InstructionView {
        InstructionView {
            program_id: self.program_id@,
            accounts: views(self.accounts@),
            data: self.data@,
        }
    }
}

/// Number of bytes that an instruction counts for each account that it names.
pub const ACCOUNT_META_SIZE: u64 = 34;

/// The size that an instruction is charged for, up to the largest number.
pub open spec fn instruction_size(num_accounts: u64, data_len: u64) -> int {
    if num_accounts * ACCOUNT_META_SIZE + data_len <= u64::MAX {
        num_accounts * ACCOUNT_META_SIZE + data_len
    } else {
        u64::MAX as int
    }
}

/// Whether an instruction is small enough to be sent.
pub open spec fn size_result(num_accounts: u64, data_len: u64, max_size: u64) -> Result<
    (),
    EbpfError,
> {
    if instruction_size(num_accounts, data_len) > max_size {
        Err(rejected(InstructionError::ComputationalBudgetExceeded))
    } else {
        Ok(())
    }
}

/// Rejects an instruction that is larger than `max_size`.
pub fn check_instruction_size(num_accounts: u64, data_len: u64, max_size: u64) -> (r: Result<
    (),
    EbpfError,
>)
    ensures
        r == size_result(num_accounts, data_len, max_size),
{
    let accounts_size: u64 = match num_accounts.checked_mul(ACCOUNT_META_SIZE) {
        Some(size) => size,
        None => u64::MAX,
    };
    let size: u64 = accounts_size.saturating_add(data_len);
    if size > max_size {
        return Err(reject(InstructionError::ComputationalBudgetExceeded));
    }
    Ok(())
}

/// Whether an instruction of the upgradeable loader is the one that programs may send.
pub open spec fn is_upgrade_instruction(instruction_data: Seq<u8>) -> bool {
    instruction_data[0] == 3
}

/// Whether programs may send an instruction to `program_id`: loaders take none, but for the
/// upgrade of a program.
pub open spec fn authorized(program_id: Seq<u8>, instruction_data: Seq<u8>) -> bool {
    &&& program_id != NATIVE_LOADER_ID@
    &&& program_id != BPF_LOADER_ID@
    &&& program_id != BPF_LOADER_DEPRECATED_ID@
    &&& program_id == BPF_LOADER_UPGRADEABLE_ID@ ==> is_upgrade_instruction(instruction_data)
}

/// Whether authorization can be decided: the upgradeable loader is told by the first byte of its
/// instructions.
pub open spec fn authorization_decidable(program_id: Seq<u8>, instruction_data: Seq<u8>) -> bool {
    program_id == BPF_LOADER_UPGRADEABLE_ID@ ==> instruction_data.len() > 0
}

/// Rejects an instruction that programs may not send.
pub fn check_authorized_program(program_id: &Pubkey, instruction_data: &[u8]) -> (r: Result<
    (),
    EbpfError,
>)
    requires
        authorization_decidable(program_id@, instruction_data@),
    ensures
        r == if authorized(program_id@, instruction_data@) {
            Ok(())
        } else {
            Err(rejected(InstructionError::UnsupportedProgramId))
        },
{
    if program_id.has_bytes(&NATIVE_LOADER_ID) || program_id.has_bytes(&BPF_LOADER_ID)
        || program_id.has_bytes(&BPF_LOADER_DEPRECATED_ID) || (program_id.has_bytes(
        &BPF_LOADER_UPGRADEABLE_ID,
    ) && instruction_data[0] != 3) {
        return Err(reject(InstructionError::UnsupportedProgramId));
    }
    Ok(())
}

/// Position of the first account with a key, from `from` on.
pub open spec fn position_of(accounts: Seq<KeyPrivileges>, key: Seq<u8>, from: int) -> Option<int>
    decreases accounts.len() - from,
{
    if from >= accounts.len() {
        None
    } else if accounts[from].key == key {
        Some(from)
    } else {
        position_of(accounts, key, from + 1)
    }
}

/// Why a program that holds `callers`, and signs for `signers`, may not name an account in an
/// instruction: it does not hold the account, or asks more of it than it holds.
pub open spec fn meta_error(
    meta: KeyPrivileges,
    callers: Seq<KeyPrivileges>,
    signers: Seq<Seq<u8>>,
) -> Option<InstructionError> {
    match position_of(callers, meta.key, 0) {
        None => Some(InstructionError::MissingAccount),
        Some(j) => if (meta.is_writable && !callers[j].is_writable) || (meta.is_signer
            && !callers[j].is_signer && !signers.contains(meta.key)) {
            Some(InstructionError::PrivilegeEscalation)
        } else {
            None
        },
    }
}

/// The error of the first account that may not be named, from `from` on.
pub open spec fn metas_error(
    metas: Seq<KeyPrivileges>,
    callers: Seq<KeyPrivileges>,
    signers: Seq<Seq<u8>>,
    from: int,
) -> Option<InstructionError>
    decreases metas.len() - from,
{
    if from >= metas.len() {
        None
    } else {
        match meta_error(metas[from], callers, signers) {
            Some(e) => Some(e),
            None => metas_error(metas, callers, signers, from + 1),
        }
    }
}

/// Why a program may not send an instruction.
pub open spec fn message_error(
    instruction: InstructionView,
    callers: Seq<KeyPrivileges>,
    signers: Seq<Seq<u8>>,
) -> Option<InstructionError> {
    match metas_error(instruction.accounts, callers, signers, 0) {
        Some(e) => Some(e),
        None => if position_of(callers, instruction.program_id, 0) is None {
            Some(InstructionError::MissingAccount)
        } else {
            None
        },
    }
}

/// Whether a list of addresses holds a key.
fn contains_key(keys: &[Pubkey], key: &Pubkey) -> (r: bool)
    ensures
        r == views(keys@).contains(key@),
{
    let mut i: usize = 0;
    while i < keys.len()
        invariant
            i <= keys@.len(),
            forall|j: int| 0 <= j < i ==> keys@[j]@ != key@,
        decreases keys@.len() - i,
    {
        if keys[i].has_bytes(&key.bytes) {
            assert(views(keys@)[i as int] == key@);
            return true;
        }
        i = i + 1;
    }
    false
}

/// The addresses of a list of accounts.
pub open spec fn keys_of(accounts: Seq<KeyPrivileges>) -> Seq<Seq<u8>> {
    Seq::new(accounts.len(), |i: int| accounts[i].key)
}

/// The addresses that an instruction names.
pub open spec fn keys_named(instruction: InstructionView) -> Seq<Seq<u8>> {
    keys_of(instruction.accounts).push(instruction.program_id)
}

/// Largest number of addresses in one message.
pub const MAX_MESSAGE_KEYS: usize = 255;

/// Whether at most `MAX_MESSAGE_KEYS` different addresses occur.
pub open spec fn few_keys(keys: Seq<Seq<u8>>) -> bool {
    keys.to_set().len() <= MAX_MESSAGE_KEYS
}

/// An instruction compiled for the runtime: its addresses, each of them once, signers first and
/// read-only ones last among the signers and among the others.
#[derive(Debug)]
pub struct Message {
    pub account_keys: Vec<Pubkey>,
    pub num_required_signatures: u8,
    pub num_readonly_signed_accounts: u8,
    pub num_readonly_unsigned_accounts: u8,
    /// Position of the program among the addresses.
    pub program_id_index: u8,
}

/// Contents of a message.
pub struct MessageView {
    pub account_keys: Seq<Seq<u8>>,
    pub num_required_signatures: u8,
    pub num_readonly_signed_accounts: u8,
    pub num_readonly_unsigned_accounts: u8,
    pub program_id_index: u8,
}

impl View for Message {
    type V = MessageView;

    open spec fn view(&self) -> MessageView {
        MessageView {
            account_keys: views(self.account_keys@),
            num_required_signatures: self.num_required_signatures,
            num_readonly_signed_accounts: self.num_readonly_signed_accounts,
            num_readonly_unsigned_accounts: self.num_readonly_unsigned_accounts,
            program_id_index: self.program_id_index,
        }
    }
}

impl MessageView {
    /// Whether the counts and the program's position fit the list of addresses.
    pub open spec fn is_valid(self) -> bool {
        &&& self.num_readonly_signed_accounts <= self.num_required_signatures
        &&& self.num_required_signatures + self.num_readonly_unsigned_accounts
            <= self.account_keys.len()
        &&& self.program_id_index < self.account_keys.len()
    }

    /// Whether the message holds the addresses that an instruction names, each of them once, and
    /// the program at the program's position.
    pub open spec fn is_of(self, instruction: InstructionView) -> bool {
        &&& self.account_keys.no_duplicates()
        &&& self.account_keys.to_set() == keys_named(instruction).to_set()
        &&& self.account_keys[self.program_id_index as int] == instruction.program_id
    }

    /// Whether the `i`-th account of the message counts as signed.
    pub open spec fn is_signer(self, i: int) -> bool {
        i < self.num_required_signatures
    }

    /// Whether the `i`-th account of the message may be changed.
    pub open spec fn is_writable(self, i: int) -> bool {
        ||| i < self.num_required_signatures - self.num_readonly_signed_accounts
        ||| self.num_required_signatures <= i < self.account_keys.len()
            - self.num_readonly_unsigned_accounts
    }

    /// The `i`-th account of the message, with what the message grants of it.
    pub open spec fn account(self, i: int) -> KeyPrivileges {
        KeyPrivileges {
            key: self.account_keys[i],
            is_signer: self.is_signer(i),
            is_writable: self.is_writable(i),
        }
    }

    /// Whether the message grants what the accounts of an instruction ask: an address counts as
    /// signed if and only if some mention of it asks for a signature; and if the mentions are
    /// consistent, an address may be changed if and only if some mention of it asks for that.
    pub open spec fn grants(self, accounts: Seq<KeyPrivileges>) -> bool {
        forall|i: int|
            0 <= i < self.account_keys.len() ==> {
                let key = #[trigger] self.account_keys[i];
                &&& self.is_signer(i) <==> asks_signature(accounts, key)
                &&& mentions_consistent(accounts) ==> (self.is_writable(i) <==> asks_write(
                    accounts,
                    key,
                ))
            }
    }
}

/// Whether some mention of an address asks that it be signed for.
pub open spec fn asks_signature(accounts: Seq<KeyPrivileges>, key: Seq<u8>) -> bool {
    exists|j: int|
        0 <= j < accounts.len() && (#[trigger] accounts[j]).key == key && accounts[j].is_signer
}

/// Whether some mention of an address asks that it may be changed.
pub open spec fn asks_write(accounts: Seq<KeyPrivileges>, key: Seq<u8>) -> bool {
    exists|j: int|
        0 <= j < accounts.len() && (#[trigger] accounts[j]).key == key && accounts[j].is_writable
}

/// Whether one mention of an address asks for both a signature and a change, if the mentions of
/// the address ask for both at all.
pub open spec fn mentions_consistent(accounts: Seq<KeyPrivileges>) -> bool {
    forall|key: Seq<u8>| #[trigger]
        asks_signature(accounts, key) && asks_write(accounts, key) ==> exists|j: int|
            0 <= j < accounts.len() && (#[trigger] accounts[j]).key == key && accounts[j].is_signer
                && accounts[j].is_writable
}

impl Message {
    /// Whether the `i`-th account of the message may be changed.
    pub fn is_writable(&self, i: usize) -> (r: bool)
        requires
            self@.is_valid(),
        ensures
            r == self@.is_writable(i as int),
    {
        i < (self.num_required_signatures - self.num_readonly_signed_accounts) as usize || (i
            >= self.num_required_signatures as usize && i < self.account_keys.len()
            - self.num_readonly_unsigned_accounts as usize)
    }
}

/// The message that one instruction is compiled into.
pub uninterp spec fn compiled_message(
    program_id: Seq<u8>,
    accounts: Seq<KeyPrivileges>,
) -> MessageView;

/// Calls `solana_sdk::message::Message::new` with one instruction and no payer. The message goes
/// by the name `compiled_message`. It holds each address of the instruction once; the counts of
/// its header fit its addresses, and the program's own address stands at the program's position.
/// The header and the positions are single bytes, so that the addresses must be few. The accounts
/// are sorted by what their mentions ask, signatures first, and each address stands where its
/// first mention puts it: so it counts as signed if any mention asks for a signature, and as
/// writable if any asks for that, with one exception. Where one mention asks for a signature only
/// and another for a change only, the header counts the address as writable while it stands among
/// the read-only signers; which addresses count as writable is then left to the name.
#[verifier::external_body]
fn compile_message(instruction: &Instruction) -> (r: Message)
    requires
        few_keys(keys_named(instruction@)),
    ensures
        r@ == compiled_message(instruction@.program_id, instruction@.accounts),
        r@.is_valid(),
        r@.is_of(instruction@),
        r@.grants(instruction@.accounts),
{
    let key = |key: &Pubkey| SdkPubkey::new_from_array(key.bytes);
    let meta = |m: &AccountMeta| SdkAccountMeta {
        pubkey: key(&m.pubkey), is_signer: m.is_signer, is_writable: m.is_writable,
    };
    let accounts = instruction.accounts.iter().map(meta).collect();
    let program_id = key(&instruction.program_id);
    let compiled = SdkInstruction { program_id, accounts, data: instruction.data.clone() };
    let message = solana_sdk::message::Message::new(&[compiled], None);
    Message {
        account_keys: message.account_keys.iter().map(|k| Pubkey { bytes: k.to_bytes() }).collect(),
        num_required_signatures: message.header.num_required_signatures,
        num_readonly_signed_accounts: message.header.num_readonly_signed_accounts,
        num_readonly_unsigned_accounts: message.header.num_readonly_unsigned_accounts,
        program_id_index: message.instructions[0].program_id_index,
    }
}

/// Law: mentions are consistent wherever no address is mentioned twice.
pub proof fn law_single_mentions_are_consistent(accounts: Seq<KeyPrivileges>)
    requires
        keys_of(accounts).no_duplicates(),
    ensures
        mentions_consistent(accounts),
{
    assert forall|key: Seq<u8>| #[trigger]
        asks_signature(accounts, key) && asks_write(accounts, key) implies exists|j: int|
        0 <= j < accounts.len() && (#[trigger] accounts[j]).key == key && accounts[j].is_signer
            && accounts[j].is_writable by {
        let i = choose|i: int|
            0 <= i < accounts.len() && (#[trigger] accounts[i]).key == key && accounts[i].is_signer;
        let j = choose|j: int|
            0 <= j < accounts.len() && (#[trigger] accounts[j]).key == key
                && accounts[j].is_writable;
        assert(keys_of(accounts)[i] == keys_of(accounts)[j]);
        assert(i == j);
    }
}

/// A position that was found has the key, and no earlier one has.
proof fn lemma_position_of(accounts: Seq<KeyPrivileges>, key: Seq<u8>, from: int)
    requires
        0 <= from,
    ensures
        match position_of(accounts, key, from) {
            Some(j) => from <= j < accounts.len() && accounts[j].key == key && forall|i: int|
                from <= i < j ==> (#[trigger] accounts[i]).key != key,
            None => forall|i: int|
                from <= i < accounts.len() ==> (#[trigger] accounts[i]).key != key,
        },
    decreases accounts.len() - from,
{
    if from < accounts.len() && accounts[from].key != key {
        lemma_position_of(accounts, key, from + 1);
    }
}

/// Instructions without an error are those that have no account with one.
proof fn lemma_metas_error(
    metas: Seq<KeyPrivileges>,
    callers: Seq<KeyPrivileges>,
    signers: Seq<Seq<u8>>,
    from: int,
)
    requires
        0 <= from,
    ensures
        metas_error(metas, callers, signers, from) is None <==> forall|i: int|
            from <= i < metas.len() ==> meta_error(#[trigger] metas[i], callers, signers) is None,
    decreases metas.len() - from,
{
    if from < metas.len() {
        lemma_metas_error(metas, callers, signers, from + 1);
    }
}

/// Law: a program cannot gain privileges by calling another program. It holds every account that
/// an accepted instruction names; what the instruction may write the caller may write, and what
/// the instruction shows as signed was signed for the caller, or by the caller itself. It also
/// holds the program that it calls.
pub proof fn law_no_privilege_escalation(
    instruction: InstructionView,
    callers: Seq<KeyPrivileges>,
    signers: Seq<Seq<u8>>,
)
    requires
        message_error(instruction, callers, signers) is None,
    ensures
        forall|i: int| 0 <= i < instruction.accounts.len() ==> covered(
            #[trigger] instruction.accounts[i],
            callers,
            signers,
        ),
        keys_of(callers).contains(instruction.program_id),
{
    lemma_metas_error(instruction.accounts, callers, signers, 0);
    assert forall|i: int| 0 <= i < instruction.accounts.len() implies covered(
        #[trigger] instruction.accounts[i],
        callers,
        signers,
    ) by {
        let meta = instruction.accounts[i];
        lemma_position_of(callers, meta.key, 0);
        let j = position_of(callers, meta.key, 0)->0;
        assert(callers[j].key == meta.key);
    }
    lemma_position_of(callers, instruction.program_id, 0);
    let j = position_of(callers, instruction.program_id, 0)->0;
    assert(keys_of(callers)[j] == instruction.program_id);
}

/// Whether some held account has the address and the privileges that are asked.
pub open spec fn covered(
    meta: KeyPrivileges,
    callers: Seq<KeyPrivileges>,
    signers: Seq<Seq<u8>>,
) -> bool {
    exists|j: int|
        #![trigger callers[j]]
        0 <= j < callers.len() && callers[j].key == meta.key && (meta.is_writable
            ==> callers[j].is_writable) && (meta.is_signer ==> callers[j].is_signer
            || signers.contains(meta.key))
}

/// Law: the addresses of an accepted instruction are among those that the caller holds. So they
/// are few if those are.
pub proof fn law_accepted_keys_are_few(
    instruction: InstructionView,
    callers: Seq<KeyPrivileges>,
    signers: Seq<Seq<u8>>,
)
    requires
        message_error(instruction, callers, signers) is None,
        few_keys(keys_of(callers)),
    ensures
        few_keys(keys_named(instruction)),
{
    law_no_privilege_escalation(instruction, callers, signers);
    let named = keys_named(instruction);
    let held = keys_of(callers);
    assert forall|key: Seq<u8>| named.to_set().contains(key) implies held.to_set().contains(
        key,
    ) by {
        let i = choose|i: int| 0 <= i < named.len() && named[i] == key;
        if i < instruction.accounts.len() {
            let meta = instruction.accounts[i];
            assert(covered(meta, callers, signers));
            let j = choose|j: int|
                #![trigger callers[j]]
                0 <= j < callers.len() && callers[j].key == meta.key && (meta.is_writable
                    ==> callers[j].is_writable) && (meta.is_signer ==> callers[j].is_signer
                    || signers.contains(meta.key));
            assert(held[j] == key);
        }
    }
    vstd::set_lib::lemma_len_subset(named.to_set(), held.to_set());
}

/// Whether a program holds all of some addresses.
pub open spec fn all_held(keys: Seq<Seq<u8>>, callers: Seq<KeyPrivileges>) -> bool {
    forall|i: int| 0 <= i < keys.len() ==> keys_of(callers).contains(#[trigger] keys[i])
}

/// Law: a callee gets only accounts that the caller holds.
pub proof fn law_callee_gets_what_the_caller_holds(
    instruction: InstructionView,
    message: MessageView,
    callers: Seq<KeyPrivileges>,
    signers: Seq<Seq<u8>>,
)
    requires
        message_error(instruction, callers, signers) is None,
        message.is_of(instruction),
    ensures
        all_held(message.account_keys, callers),
{
    law_no_privilege_escalation(instruction, callers, signers);
    let named = keys_named(instruction);
    assert forall|i: int| 0 <= i < message.account_keys.len() implies keys_of(callers).contains(
        #[trigger] message.account_keys[i],
    ) by {
        let key = message.account_keys[i];
        assert(message.account_keys.to_set().contains(key));
        assert(named.to_set().contains(key));
        let k = choose|k: int| 0 <= k < named.len() && named[k] == key;
        if k < instruction.accounts.len() {
            let meta = instruction.accounts[k];
            assert(covered(meta, callers, signers));
            let j = choose|j: int|
                #![trigger callers[j]]
                0 <= j < callers.len() && callers[j].key == meta.key && (meta.is_writable
                    ==> callers[j].is_writable) && (meta.is_signer ==> callers[j].is_signer
                    || signers.contains(meta.key));
            assert(keys_of(callers)[j] == key);
        }
    }
}

/// Whether a message grants no more than a program holds and signs for: of its accounts, signatures
/// in any case, and the right to change them if the instruction mentions them consistently.
pub open spec fn gains_nothing(
    message: MessageView,
    accounts: Seq<KeyPrivileges>,
    callers: Seq<KeyPrivileges>,
    signers: Seq<Seq<u8>>,
) -> bool {
    forall|i: int|
        0 <= i < message.account_keys.len() ==> {
            let account = #[trigger] message.account(i);
            &&& covered(KeyPrivileges { is_writable: false, ..account }, callers, signers)
            &&& mentions_consistent(accounts) ==> covered(account, callers, signers)
        }
}

/// Law: a callee gains no privileges over the caller. An account that its message shows as signed
/// was signed for the caller, or by the caller itself; and if the instruction mentions its accounts
/// consistently, the caller may change what the message lets the callee change.
pub proof fn law_message_gains_nothing(
    instruction: InstructionView,
    message: MessageView,
    callers: Seq<KeyPrivileges>,
    signers: Seq<Seq<u8>>,
)
    requires
        message_error(instruction, callers, signers) is None,
        message.is_of(instruction),
        message.grants(instruction.accounts),
    ensures
        gains_nothing(message, instruction.accounts, callers, signers),
{
    law_callee_gets_what_the_caller_holds(instruction, message, callers, signers);
    lemma_metas_error(instruction.accounts, callers, signers, 0);
    assert forall|i: int| 0 <= i < message.account_keys.len() implies {
        let account = #[trigger] message.account(i);
        &&& covered(KeyPrivileges { is_writable: false, ..account }, callers, signers)
        &&& mentions_consistent(instruction.accounts) ==> covered(account, callers, signers)
    } by {
        let key = message.account_keys[i];
        assert(keys_of(callers).contains(key));
        lemma_position_of(callers, key, 0);
        let j = position_of(callers, key, 0)->0;
        assert(callers[j].key == key);
        assert(asks_signature(instruction.accounts, key) ==> callers[j].is_signer
            || signers.contains(key));
        assert(asks_write(instruction.accounts, key) ==> callers[j].is_writable);
    }
}

/// Calls `solana_runtime::message_processor::MessageProcessor::create_message` for a program, and
/// for the accounts of an instruction, those that the caller holds, and those that it signs for,
/// of which only the addresses count. It looks for each account among those that are held, then
/// for the program. `true` stands for its error that an account is missing, `false` for that of
/// privileges that the caller does not hold, `None` for success. The data of the instruction plays
/// no part. On success it also compiles a message, which has room for few addresses.
#[verifier::external_body]
fn check_message(program_id: &Pubkey, lists: [&[AccountMeta]; 3]) -> (r: Option<bool>)
    requires
        unsent_error(program_id@, lists) is None ==> few_keys(
            keys_of(views(lists[0]@)).push(program_id@),
        ),
    ensures
        r == match unsent_error(program_id@, lists) {
            None => None,
            Some(e) => Some(e == InstructionError::MissingAccount),
        },
{
    let [accounts, held, signed] = lists.map(|list| Vec::from_iter(list.iter().map(
        |m| SdkAccountMeta {
            pubkey: SdkPubkey::new(&m.pubkey.bytes),
            is_signer: m.is_signer,
            is_writable: m.is_writable,
        })));
    let account = Default::default();
    let keyed = Vec::from_iter(held.iter().map(|m| [SdkKeyedAccount::new_readonly,
        SdkKeyedAccount::new][m.is_writable as usize](&m.pubkey, m.is_signer, &account)));
    MessageProcessor::create_message(
        &SdkInstruction::new(SdkPubkey::new(&program_id.bytes), &(), accounts),
        &Vec::from_iter(&keyed),
        &Vec::from_iter(signed.iter().map(|m| m.pubkey)),
    ).err().map(|e| e == SdkInstructionError::MissingAccount)
}

/// Why an instruction to a program may not be sent: one with the accounts of the first list, by a
/// program that holds those of the second and signs for the addresses of the third.
pub open spec fn unsent_error(program_id: Seq<u8>, lists: [&[AccountMeta]; 3]) -> Option<
    InstructionError,
> {
    message_error(
        InstructionView { program_id, accounts: views(lists[0]@), data: seq![] },
        views(lists[1]@),
        keys_of(views(lists[2]@)),
    )
}

/// An account is missing, or asked too much of; there is no other error.
proof fn lemma_two_errors(
    metas: Seq<KeyPrivileges>,
    callers: Seq<KeyPrivileges>,
    signers: Seq<Seq<u8>>,
    from: int,
)
    ensures
        match metas_error(metas, callers, signers, from) {
            None => true,
            Some(e) => e == InstructionError::MissingAccount || e
                == InstructionError::PrivilegeEscalation,
        },
    decreases metas.len() - from,
{
    if from < metas.len() {
        lemma_two_errors(metas, callers, signers, from + 1);
    }
}

/// What a program holds, as a list of accounts.
fn held_metas(callers: &[KeyedAccount]) -> (r: Vec<AccountMeta>)
    ensures
        views(r@) == views(callers@),
{
    let mut metas: Vec<AccountMeta> = Vec::new();
    let mut i: usize = 0;
    while i < callers.len()
        invariant
            i <= callers@.len(),
            metas@.len() == i,
            forall|j: int| 0 <= j < i ==> (#[trigger] metas@[j])@ == callers@[j]@,
        decreases callers@.len() - i,
    {
        let caller = callers[i];
        metas.push(
            AccountMeta {
                pubkey: caller.key,
                is_signer: caller.is_signer,
                is_writable: caller.is_writable,
            },
        );
        i = i + 1;
    }
    assert(views(metas@) =~= views(callers@));
    metas
}

/// What a program signs for, as a list of accounts.
fn signed_metas(signers: &[Pubkey]) -> (r: Vec<AccountMeta>)
    ensures
        keys_of(views(r@)) == views(signers@),
{
    let mut metas: Vec<AccountMeta> = Vec::new();
    let mut i: usize = 0;
    while i < signers.len()
        invariant
            i <= signers@.len(),
            metas@.len() == i,
            forall|j: int| 0 <= j < i ==> (#[trigger] metas@[j])@.key == signers@[j]@,
        decreases signers@.len() - i,
    {
        metas.push(AccountMeta { pubkey: signers[i], is_signer: true, is_writable: false });
        i = i + 1;
    }
    assert(keys_of(views(metas@)) =~= views(signers@));
    metas
}

/// The error that checking a message has given.
pub fn message_result(is_missing: Option<bool>) -> (r: Result<(), InstructionError>)
    ensures
        r == match is_missing {
            None => Ok(()),
            Some(true) => Err(InstructionError::MissingAccount),
            Some(false) => Err(InstructionError::PrivilegeEscalation),
        },
{
    match is_missing {
        None => Ok(()),
        Some(true) => Err(InstructionError::MissingAccount),
        Some(false) => Err(InstructionError::PrivilegeEscalation),
    }
}

/// Compiles an instruction for the runtime, if the calling program may send it.
pub fn create_message(
    instruction: &Instruction,
    callers: &[KeyedAccount],
    signers: &[Pubkey],
) -> (r: Result<Message, InstructionError>)
    requires
        message_error(instruction@, views(callers@), views(signers@)) is None ==> few_keys(
            keys_named(instruction@),
        ),
    ensures
        match message_error(instruction@, views(callers@), views(signers@)) {
            Some(e) => r == Err::<Message, InstructionError>(e),
            None => r is Ok && r->Ok_0@ == compiled_message(
                instruction@.program_id,
                instruction@.accounts,
            ) && r->Ok_0@.is_valid() && r->Ok_0@.is_of(instruction@) && r->Ok_0@.grants(
                instruction@.accounts,
            ),
        },
{
    let held = held_metas(callers);
    let signed = signed_metas(signers);
    let lists = [instruction.accounts.as_slice(), held.as_slice(), signed.as_slice()];
    proof {
        lemma_two_errors(instruction@.accounts, views(callers@), views(signers@), 0);
    }
    message_result(check_message(&instruction.program_id, lists))?;
    Ok(compile_message(instruction))
}

/// Law: a message has room for 255 different addresses, however often each is named.
pub proof fn law_messages_have_room_for_few_addresses(keys: Seq<Seq<u8>>, distinct: Seq<Seq<u8>>)
    requires
        distinct.no_duplicates(),
        forall|key: Seq<u8>| keys.contains(key) <==> distinct.contains(key),
    ensures
        few_keys(keys) <==> distinct.len() <= 255,
{
    assert(keys.to_set() =~= distinct.to_set());
    distinct.unique_seq_to_set();
}

/// Whether a program may send an instruction, of however many addresses. The accounts are checked
/// in lots that have room in a message.
pub fn may_send(instruction: &Instruction, callers: &[KeyedAccount], signers: &[Pubkey]) -> (r:
    bool)
    ensures
        r == (message_error(instruction@, views(callers@), views(signers@)) is None),
{
    let held = held_metas(callers);
    let signed = signed_metas(signers);
    let accounts = instruction.accounts.as_slice();
    let ghost metas = instruction@.accounts;
    let mut done: usize = 0;
    loop
        invariant
            done <= accounts@.len(),
            accounts@ == instruction.accounts@,
            metas == instruction@.accounts,
            views(held@) == views(callers@),
            keys_of(views(signed@)) == views(signers@),
            forall|i: int|
                0 <= i < done ==> meta_error(
                    #[trigger] metas[i],
                    views(callers@),
                    views(signers@),
                ) is None,
        decreases accounts@.len() - done,
    {
        let left: usize = accounts.len() - done;
        let end: usize = if left < MAX_MESSAGE_KEYS {
            accounts.len()
        } else {
            done + (MAX_MESSAGE_KEYS - 1)
        };
        let lot = vstd::slice::slice_subrange(accounts, done, end);
        let ghost lot_metas = views(lot@);
        proof {
            keys_of(lot_metas).push(instruction@.program_id).lemma_cardinality_of_set();
            lemma_metas_error(lot_metas, views(callers@), views(signers@), 0);
            lemma_metas_error(metas, views(callers@), views(signers@), 0);
            assert forall|i: int| done <= i < end implies lot_metas[i - done]
                == #[trigger] metas[i] by {}
            assert forall|i: int| 0 <= i < end - done implies #[trigger] lot_metas[i] == metas[i
                + done] by {}
        }
        let lists = [lot, held.as_slice(), signed.as_slice()];
        if check_message(&instruction.program_id, lists).is_some() {
            return false;
        }
        if end == accounts.len() {
            return true;
        }
        done = end;
    }
}

/// Whether some addresses are few enough for one message.
fn are_few(addresses: &[Pubkey]) -> (r: bool)
    ensures
        r == few_keys(views(addresses@)),
{
    let ghost keys = views(addresses@);
    let mut found: Vec<Pubkey> = Vec::new();
    let mut i: usize = 0;
    assert(views(found@).to_set() =~= keys.take(0).to_set());
    while i < addresses.len()
        invariant
            i <= addresses@.len(),
            keys == views(addresses@),
            found@.len() <= i,
            views(found@).no_duplicates(),
            views(found@).to_set() == keys.take(i as int).to_set(),
        decreases addresses@.len() - i,
    {
        let key = addresses[i];
        let ghost before = views(found@);
        assert(keys.take(i + 1) =~= keys.take(i as int).push(key@));
        if !contains_key(found.as_slice(), &key) {
            found.push(key);
            assert(views(found@) =~= before.push(key@));
        }
        assert forall|k: Seq<u8>| views(found@).to_set().contains(k) <==> keys.take(
            i + 1,
        ).to_set().contains(k) by {
            assert(before.to_set().contains(k) <==> keys.take(i as int).to_set().contains(k));
            lemma_push_contains(before, key@, k);
            lemma_push_contains(keys.take(i as int), key@, k);
        }
        assert(views(found@).to_set() =~= keys.take(i + 1).to_set());
        i = i + 1;
    }
    assert(keys.take(i as int) =~= keys);
    proof {
        views(found@).unique_seq_to_set();
    }
    found.len() <= MAX_MESSAGE_KEYS
}

/// Whether an instruction names few enough addresses to send it.
pub fn names_few_keys(instruction: &Instruction) -> (r: bool)
    ensures
        r == few_keys(keys_named(instruction@)),
{
    let mut keys: Vec<Pubkey> = Vec::new();
    let mut i: usize = 0;
    while i < instruction.accounts.len()
        invariant
            i <= instruction.accounts@.len(),
            keys@.len() == i,
            forall|j: int|
                0 <= j < i ==> (#[trigger] keys@[j]) == instruction.accounts@[j].pubkey,
        decreases instruction.accounts@.len() - i,
    {
        keys.push(instruction.accounts[i].pubkey);
        i = i + 1;
    }
    keys.push(instruction.program_id);
    assert(views(keys@) =~= keys_named(instruction@));
    are_few(keys.as_slice())
}

/// Whether the first held account with the address of a mention has what the mention asks: it may
/// be changed if that is asked, and was signed, or is signed for, if that is asked.
pub open spec fn has_what_is_asked(
    meta: KeyPrivileges,
    callers: Seq<KeyPrivileges>,
    signers: Seq<Seq<u8>>,
) -> bool {
    exists|j: int|
        0 <= j < callers.len() && (#[trigger] callers[j]).key == meta.key && (forall|k: int|
            0 <= k < j ==> callers[k].key != meta.key) && (meta.is_writable
            ==> callers[j].is_writable) && (meta.is_signer ==> callers[j].is_signer
            || signers.contains(meta.key))
}

/// Whether an address is held.
pub open spec fn is_held(callers: Seq<KeyPrivileges>, key: Seq<u8>) -> bool {
    exists|j: int| 0 <= j < callers.len() && (#[trigger] callers[j]).key == key
}

/// One mention is refused if the address is not held, or if the first held account does not have
/// what is asked.
proof fn lemma_meta_error(
    meta: KeyPrivileges,
    callers: Seq<KeyPrivileges>,
    signers: Seq<Seq<u8>>,
)
    ensures
        meta_error(meta, callers, signers) is None <==> has_what_is_asked(meta, callers, signers),
        !is_held(callers, meta.key) ==> meta_error(meta, callers, signers) == Some(
            InstructionError::MissingAccount,
        ),
        is_held(callers, meta.key) && !has_what_is_asked(meta, callers, signers) ==> meta_error(
            meta,
            callers,
            signers,
        ) == Some(InstructionError::PrivilegeEscalation),
{
    lemma_position_of(callers, meta.key, 0);
    if let Some(j) = position_of(callers, meta.key, 0) {
        assert(callers[j].key == meta.key);
        if has_what_is_asked(meta, callers, signers) {
            let i = choose|i: int|
                0 <= i < callers.len() && (#[trigger] callers[i]).key == meta.key && (forall|k: int|
                    0 <= k < i ==> callers[k].key != meta.key) && (meta.is_writable
                    ==> callers[i].is_writable) && (meta.is_signer ==> callers[i].is_signer
                    || signers.contains(meta.key));
            assert(i == j);
        }
    }
}

/// Law: a program may send an instruction if and only if it holds the program that it calls, and
/// the first account that it holds of each mentioned address has what is asked. Otherwise the first
/// mention that is wrong decides: an account that is not held is missing, one that does not have
/// what is asked would gain privileges; a program that is not held is missing, too.
pub proof fn law_instructions_are_sent_with_what_is_held(
    instruction: InstructionView,
    callers: Seq<KeyPrivileges>,
    signers: Seq<Seq<u8>>,
    bad: int,
)
    requires
        0 <= bad <= instruction.accounts.len(),
        forall|i: int|
            0 <= i < bad ==> has_what_is_asked(
                #[trigger] instruction.accounts[i],
                callers,
                signers,
            ),
    ensures
        bad == instruction.accounts.len() && is_held(callers, instruction.program_id)
            ==> message_error(instruction, callers, signers) is None,
        bad == instruction.accounts.len() && !is_held(callers, instruction.program_id)
            ==> message_error(instruction, callers, signers) == Some(
            InstructionError::MissingAccount,
        ),
        bad < instruction.accounts.len() && !is_held(callers, instruction.accounts[bad].key)
            ==> message_error(instruction, callers, signers) == Some(
            InstructionError::MissingAccount,
        ),
        bad < instruction.accounts.len() && is_held(callers, instruction.accounts[bad].key)
            && !has_what_is_asked(instruction.accounts[bad], callers, signers) ==> message_error(
            instruction,
            callers,
            signers,
        ) == Some(InstructionError::PrivilegeEscalation),
{
    lemma_first_error(instruction.accounts, callers, signers, 0, bad);
    lemma_position_of(callers, instruction.program_id, 0);
    if bad < instruction.accounts.len() {
        lemma_meta_error(instruction.accounts[bad], callers, signers);
    }
    if let Some(j) = position_of(callers, instruction.program_id, 0) {
        assert(callers[j].key == instruction.program_id);
    }
}

/// The first mention that is refused decides.
proof fn lemma_first_error(
    metas: Seq<KeyPrivileges>,
    callers: Seq<KeyPrivileges>,
    signers: Seq<Seq<u8>>,
    from: int,
    bad: int,
)
    requires
        0 <= from <= bad <= metas.len(),
        forall|i: int|
            from <= i < bad ==> has_what_is_asked(#[trigger] metas[i], callers, signers),
    ensures
        bad == metas.len() ==> metas_error(metas, callers, signers, from) is None,
        bad < metas.len() && meta_error(metas[bad], callers, signers) is Some ==> metas_error(
            metas,
            callers,
            signers,
            from,
        ) == meta_error(metas[bad], callers, signers),
    decreases bad - from,
{
    if from < bad {
        lemma_meta_error(metas[from], callers, signers);
        lemma_first_error(metas, callers, signers, from + 1, bad);
    }
}

/// Law: programs may send instructions to every program but the loaders, of which the upgradeable
/// one takes the upgrade of a program, which the first byte tells, and the others nothing.
pub proof fn law_loaders_take_only_upgrades(program_id: Seq<u8>, data: Seq<u8>)
    ensures
        program_id == NATIVE_LOADER_ID@ || program_id == BPF_LOADER_ID@ || program_id
            == BPF_LOADER_DEPRECATED_ID@ ==> !authorized(program_id, data),
        program_id != NATIVE_LOADER_ID@ && program_id != BPF_LOADER_ID@ && program_id
            != BPF_LOADER_DEPRECATED_ID@ && program_id != BPF_LOADER_UPGRADEABLE_ID@ ==> authorized(
            program_id,
            data,
        ),
        program_id == BPF_LOADER_UPGRADEABLE_ID@ && data.len() > 0 ==> (authorized(program_id, data)
            <==> data[0] == 3),
        authorization_decidable(program_id, data) <==> program_id != BPF_LOADER_UPGRADEABLE_ID@
            || data.len() > 0,
{
    assert(BPF_LOADER_UPGRADEABLE_ID@[7] == 176);
    assert(BPF_LOADER_ID@[7] == 110 && BPF_LOADER_DEPRECATED_ID@[7] == 107);
    assert(NATIVE_LOADER_ID@[0] == 5 && BPF_LOADER_UPGRADEABLE_ID@[0] == 2);
}

/// A list with one more item holds that item and what it held before.
pub proof fn lemma_push_contains<A>(s: Seq<A>, a: A, x: A)
    ensures
        s.push(a).contains(x) <==> s.contains(x) || x == a,
{
    if s.contains(x) {
        let i = choose|i: int| 0 <= i < s.len() && s[i] == x;
        assert(s.push(a)[i] == x);
    }
    if x == a {
        assert(s.push(a)[s.len() as int] == x);
    }
}

/// Law: the contents of an instruction, of what it mentions, of what a program holds, and of a
/// message are those of their fields.
pub proof fn law_contents_are_those_of_the_fields(
    meta: AccountMeta,
    held: KeyedAccount,
    instruction: Instruction,
    message: Message,
)
    ensures
        meta@.key == meta.pubkey.bytes@,
        meta@.is_signer == meta.is_signer,
        meta@.is_writable == meta.is_writable,
        held@.key == held.key.bytes@,
        held@.is_signer == held.is_signer,
        held@.is_writable == held.is_writable,
        instruction@.program_id == instruction.program_id.bytes@,
        instruction@.data == instruction.data@,
        instruction@.accounts.len() == instruction.accounts@.len(),
        forall|i: int|
            0 <= i < instruction.accounts@.len() ==> #[trigger] instruction@.accounts[i]
                == instruction.accounts@[i]@,
        message@.account_keys.len() == message.account_keys@.len(),
        forall|i: int|
            0 <= i < message.account_keys@.len() ==> #[trigger] message@.account_keys[i]
                == message.account_keys@[i].bytes@,
        message@.num_required_signatures == message.num_required_signatures,
        message@.num_readonly_signed_accounts == message.num_readonly_signed_accounts,
        message@.num_readonly_unsigned_accounts == message.num_readonly_unsigned_accounts,
        message@.program_id_index == message.program_id_index,
{
}

/// Law: of the accounts of a message the signers come first, and among them, as among the others,
/// those that may be changed.
pub proof fn law_writable_accounts_come_first(message: MessageView, i: int)
    requires
        message.is_valid(),
        0 <= i < message.account_keys.len(),
    ensures
        message.is_signer(i) <==> i < message.num_required_signatures,
        i < message.num_required_signatures ==> (message.is_writable(i) <==> i
            + message.num_readonly_signed_accounts < message.num_required_signatures),
        i >= message.num_required_signatures ==> (message.is_writable(i) <==> i
            + message.num_readonly_unsigned_accounts < message.account_keys.len()),
{
}

} // verus!
