//! Cross-program invocation. The runtime runs the callee; what surrounds that is decided here, in
//! the order of the functions below.
use crate::context::{charge_result, charged, BpfComputeBudget, ComputeMeter, FeatureSet};
use crate::error::{
    program_error_code, refused, reject, rejected, EbpfError, InstructionError, SyscallError,
};
use crate::guest::{changed_within, view_result, window, Window};
use crate::instruction::{
    all_held, authorization_decidable, authorized, check_authorized_program, compiled_message,
    covered, create_message, few_keys, gains_nothing, has_what_is_asked, is_held, keys_named,
    keys_of, law_callee_gets_what_the_caller_holds, law_instructions_are_sent_with_what_is_held,
    law_message_gains_nothing, law_no_privilege_escalation, may_send, message_error,
    names_few_keys, views, Instruction, InstructionView, KeyPrivileges, Message, MessageView,
};
use crate::invoke_signed::{
    account_with_key, c_places_reached, count_without, holds_accounts, in_c_list_lengths,
    in_places, law_accounts_match_keys, law_c_places_are_writable, law_rust_places_are_writable,
    refs_fit, skipped, translate_accounts, translate_signers, translated_accounts,
    translated_signers, Account, AccountList, AccountReferences, AccountView, SyscallInvokeSigned,
    SyscallInvokeSignedC, SyscallInvokeSignedRust, TranslatedAccounts, TranslatedAccountsView,
};
use crate::memory::{
    bytes_at, host_address, regions_valid, translate, translated, u64_at, u64_bytes, written,
    HostMemory, MemoryRegion,
};
use crate::memory::{
    law_read_u64_after_write, law_write_after_read, law_write_is_local, law_write_u64_after_read,
};
use crate::pubkey::{Pubkey, BPF_LOADER_UPGRADEABLE_ID};
use solana_sdk::account_utils::StateMut;
use solana_sdk::bpf_loader_upgradeable::UpgradeableLoaderState;
use vstd::prelude::*;

verus! {

/// Largest number of bytes by which a callee can let an account grow.
pub const MAX_PERMITTED_DATA_INCREASE: u64 = 10240;

/// What an invocation that succeeds returns.
pub const SUCCESS: u64 = 0;

/// The invocation in which the calling program runs.
#[derive(Debug)]
pub struct InvokeContext {
    /// Whether another holder has borrowed the context, so that nothing can be invoked.
    pub is_borrowed: bool,
    pub compute_meter: ComputeMeter,
    pub bpf_compute_budget: BpfComputeBudget,
    pub features: FeatureSet,
    /// The calling program.
    pub caller: Result<Pubkey, InstructionError>,
}

/// A checked instruction, and the message it is compiled into.
#[derive(Debug)]
pub struct PendingCall {
    pub instruction: Instruction,
    pub message: Message,
}

/// Contents of a pending call.
pub struct PendingCallView {
    pub instruction: InstructionView,
    pub message: MessageView,
}

impl View for PendingCall {
    type V = PendingCallView;

    open spec fn view(&self) -> PendingCallView {
        PendingCallView { instruction: self.instruction@, message: self.message@ }
    }
}

impl PendingCallView {
    /// Whether the message is that of the instruction, and hands the callee no account and no
    /// privilege that the caller does not hold or sign for.
    pub open spec fn is_contained(
        self,
        callers: Seq<KeyPrivileges>,
        signers: Seq<Seq<u8>>,
    ) -> bool {
        &&& self.message.is_valid()
        &&& self.message.is_of(self.instruction)
        &&& self.message.grants(self.instruction.accounts)
        &&& all_held(self.message.account_keys, callers)
        &&& gains_nothing(self.message, self.instruction.accounts, callers, signers)
    }
}

/// The arguments of an invocation.
#[derive(Debug, Clone, Copy, PartialEq, Eq, Structural)]
pub struct InvokeArgs {
    pub instruction_addr: u64,
    pub account_infos_addr: u64,
    pub account_infos_len: u64,
    pub signers_seeds_addr: u64,
    pub signers_seeds_len: u64,
}

/// What checking an instruction comes to, once its price is paid.
pub open spec fn pending_call<S: SyscallInvokeSigned>(
    callers: Seq<KeyPrivileges>,
    context: InvokeContext,
    args: InvokeArgs,
    ro: Window,
) -> Result<PendingCallView, EbpfError> {
    match S::instruction_at(
        ro,
        args.instruction_addr,
        context.bpf_compute_budget.max_cpi_instruction_size,
    ) {
        Err(e) => Err(e),
        Ok(instruction) => match context.caller {
            Err(e) => Err(rejected(e)),
            Ok(caller) => match translated_signers(
                ro,
                caller@,
                args.signers_seeds_addr,
                args.signers_seeds_len,
            ) {
                Err(e) => Err(e),
                Ok(signers) => match message_error(instruction, callers, signers) {
                    Some(e) => Err(rejected(e)),
                    None => Ok(
                        PendingCallView {
                            instruction,
                            message: compiled_message(instruction.program_id, instruction.accounts),
                        },
                    ),
                },
            },
        },
    }
}

/// What starting an invocation comes to.
pub open spec fn begun_call<S: SyscallInvokeSigned>(
    callers: Seq<KeyPrivileges>,
    context: InvokeContext,
    args: InvokeArgs,
    ro: Window,
) -> Result<PendingCallView, EbpfError> {
    if context.is_borrowed {
        Err(refused(SyscallError::InvokeContextBorrowFailed))
    } else {
        match charge_result(context.compute_meter, context.bpf_compute_budget.invoke_units) {
            Err(e) => Err(e),
            Ok(_) => pending_call::<S>(callers, context, args, ro),
        }
    }
}

/// Law: an invocation that is started was paid for, and asks no more than the caller holds: the
/// caller may write what the instruction may write, and what is shown as signed was signed for
/// the caller or is an address that the caller derives.
pub proof fn law_started_invocations_gain_nothing<S: SyscallInvokeSigned>(
    callers: Seq<KeyPrivileges>,
    context: InvokeContext,
    args: InvokeArgs,
    ro: Window,
)
    requires
        begun_call::<S>(callers, context, args, ro) is Ok,
    ensures
        context.bpf_compute_budget.invoke_units <= context.compute_meter.remaining,
        context.caller is Ok,
        translated_signers(
            ro,
            context.caller->Ok_0@,
            args.signers_seeds_addr,
            args.signers_seeds_len,
        ) is Ok,
        ({
            let instruction = begun_call::<S>(callers, context, args, ro)->Ok_0.instruction;
            let signers = translated_signers(
                ro,
                context.caller->Ok_0@,
                args.signers_seeds_addr,
                args.signers_seeds_len,
            )->Ok_0;
            &&& forall|i: int|
                0 <= i < instruction.accounts.len() ==> covered(
                    #[trigger] instruction.accounts[i],
                    callers,
                    signers,
                )
            &&& keys_of(callers).contains(instruction.program_id)
        }),
{
    let instruction = begun_call::<S>(callers, context, args, ro)->Ok_0.instruction;
    let signers = translated_signers(
        ro,
        context.caller->Ok_0@,
        args.signers_seeds_addr,
        args.signers_seeds_len,
    )->Ok_0;
    law_no_privilege_escalation(instruction, callers, signers);
}

/// The context of an invocation once it was started, or refused.
pub open spec fn begun_context(context: InvokeContext) -> InvokeContext {
    InvokeContext {
        compute_meter: if context.is_borrowed {
            context.compute_meter
        } else {
            charged(context.compute_meter, context.bpf_compute_budget.invoke_units)
        },
        ..context
    }
}

/// Law: an invocation takes its price from the meter, and changes nothing else of its context. One
/// that cannot be paid takes what is left; one whose context or meter another holder has borrowed
/// takes nothing.
pub proof fn law_invocations_are_paid_for(context: InvokeContext)
    ensures
        ({
            let after = begun_context(context);
            let price = context.bpf_compute_budget.invoke_units;
            let meter = context.compute_meter;
            let is_free = context.is_borrowed || meter.is_borrowed;
            &&& after.is_borrowed == context.is_borrowed
            &&& after.bpf_compute_budget == context.bpf_compute_budget
            &&& after.features == context.features
            &&& after.caller == context.caller
            &&& after.compute_meter.is_borrowed == meter.is_borrowed
            &&& is_free ==> after.compute_meter.remaining == meter.remaining
            &&& !is_free && price <= meter.remaining ==> after.compute_meter.remaining + price
                == meter.remaining
            &&& !is_free && price > meter.remaining ==> after.compute_meter.remaining == 0
        }),
{
}

/// Starts an invocation: pays its price, reads the instruction, derives the signers, and checks
/// that the caller may send the instruction.
pub fn begin_call<S: SyscallInvokeSigned>(
    syscall: &S,
    context: &mut InvokeContext,
    args: InvokeArgs,
    ro_regions: &[MemoryRegion],
    memory: &HostMemory,
) -> (r: Result<PendingCall, EbpfError>)
    requires
        window(ro_regions, &syscall.loader(), memory).is_valid(),
        begun_call::<S>(
            syscall.callers(),
            *old(context),
            args,
            window(ro_regions, &syscall.loader(), memory),
        ) matches Ok(p) ==> few_keys(keys_named(p.instruction)),
    ensures
        view_result(r) == begun_call::<S>(
            syscall.callers(),
            *old(context),
            args,
            window(ro_regions, &syscall.loader(), memory),
        ),
        r is Ok ==> r->Ok_0@.is_contained(
            syscall.callers(),
            translated_signers(
                window(ro_regions, &syscall.loader(), memory),
                old(context).caller->Ok_0@,
                args.signers_seeds_addr,
                args.signers_seeds_len,
            )->Ok_0,
        ),
        *final(context) == (InvokeContext {
            compute_meter: if old(context).is_borrowed {
                old(context).compute_meter
            } else {
                charged(old(context).compute_meter, old(context).bpf_compute_budget.invoke_units)
            },
            ..*old(context)
        }),
        *final(context) == begun_context(*old(context)),
{
    if context.is_borrowed {
        return Err(EbpfError::from(SyscallError::InvokeContextBorrowFailed));
    }
    context.compute_meter.consume(context.bpf_compute_budget.invoke_units)?;
    let instruction = syscall.translate_instruction(
        args.instruction_addr,
        context.bpf_compute_budget.max_cpi_instruction_size,
        ro_regions,
        memory,
    )?;
    let caller = match context.caller {
        Ok(caller) => caller,
        Err(e) => {
            return Err(reject(e));
        },
    };
    let signers = translate_signers(
        &caller,
        args.signers_seeds_addr,
        args.signers_seeds_len,
        ro_regions,
        syscall.get_loader_id(),
        memory,
    )?;
    match create_message(&instruction, syscall.get_callers_keyed_accounts(), signers.as_slice()) {
        Ok(message) => {
            proof {
                law_callee_gets_what_the_caller_holds(
                    instruction@,
                    message@,
                    syscall.callers(),
                    views(signers@),
                );
                law_message_gains_nothing(
                    instruction@,
                    message@,
                    syscall.callers(),
                    views(signers@),
                );
            }
            Ok(PendingCall { instruction, message })
        },
        Err(e) => Err(reject(e)),
    }
}

/// Starts an invocation, unless its message would have to hold too many addresses; it then leaves
/// all as it is.
pub fn try_begin_call<S: SyscallInvokeSigned>(
    syscall: &S,
    context: &mut InvokeContext,
    args: InvokeArgs,
    ro_regions: &[MemoryRegion],
    memory: &HostMemory,
) -> (r: Option<Result<PendingCall, EbpfError>>)
    requires
        window(ro_regions, &syscall.loader(), memory).is_valid(),
    ensures
        r is None <==> (begun_call::<S>(
            syscall.callers(),
            *old(context),
            args,
            window(ro_regions, &syscall.loader(), memory),
        ) matches Ok(p) && !few_keys(keys_named(p.instruction))),
        r is None ==> *final(context) == *old(context),
        r is Some ==> {
            &&& view_result(r->Some_0) == begun_call::<S>(
                syscall.callers(),
                *old(context),
                args,
                window(ro_regions, &syscall.loader(), memory),
            )
            &&& r->Some_0 is Ok ==> r->Some_0->Ok_0@.is_contained(
                syscall.callers(),
                translated_signers(
                    window(ro_regions, &syscall.loader(), memory),
                    old(context).caller->Ok_0@,
                    args.signers_seeds_addr,
                    args.signers_seeds_len,
                )->Ok_0,
            )
            &&& *final(context) == (InvokeContext {
                compute_meter: if old(context).is_borrowed {
                    old(context).compute_meter
                } else {
                    charged(
                        old(context).compute_meter,
                        old(context).bpf_compute_budget.invoke_units,
                    )
                },
                ..*old(context)
            })
        },
{
    let mut meter = context.compute_meter;
    if !context.is_borrowed && meter.consume(context.bpf_compute_budget.invoke_units).is_ok() {
        let instruction = syscall.translate_instruction(
            args.instruction_addr,
            context.bpf_compute_budget.max_cpi_instruction_size,
            ro_regions,
            memory,
        );
        if let (Ok(instruction), Ok(caller)) = (instruction, context.caller) {
            if !names_few_keys(&instruction) {
                let signers = translate_signers(
                    &caller,
                    args.signers_seeds_addr,
                    args.signers_seeds_len,
                    ro_regions,
                    syscall.get_loader_id(),
                    memory,
                );
                if let Ok(signers) = signers {
                    if may_send(
                        &instruction,
                        syscall.get_callers_keyed_accounts(),
                        signers.as_slice(),
                    ) {
                        return None;
                    }
                }
            }
        }
    }
    Some(begin_call(syscall, context, args, ro_regions, memory))
}

/// What loading the accounts of an invocation comes to.
pub open spec fn loaded_accounts<S: SyscallInvokeSigned>(
    pending: PendingCallView,
    features: FeatureSet,
    args: InvokeArgs,
    ro: Window,
    rw: Window,
) -> Result<TranslatedAccountsView, EbpfError> {
    if features.limit_cpi_loader_invoke && !authorized(
        pending.instruction.program_id,
        pending.instruction.data,
    ) {
        Err(rejected(InstructionError::UnsupportedProgramId))
    } else {
        translated_accounts::<S>(
            ro,
            rw,
            pending.message.account_keys,
            skipped(features.use_loaded_program_accounts, pending.message.program_id_index as u64),
            args.account_infos_addr,
            args.account_infos_len,
        )
    }
}

/// Checks that the callee takes instructions, and reads the accounts that it is passed.
pub fn load_accounts<S: SyscallInvokeSigned>(
    syscall: &S,
    pending: &PendingCall,
    features: &FeatureSet,
    args: InvokeArgs,
    ro_regions: &[MemoryRegion],
    rw_regions: &[MemoryRegion],
    memory: &HostMemory,
) -> (r: Result<TranslatedAccounts, EbpfError>)
    requires
        window(ro_regions, &syscall.loader(), memory).is_valid(),
        window(rw_regions, &syscall.loader(), memory).is_valid(),
        features.limit_cpi_loader_invoke ==> authorization_decidable(
            pending@.instruction.program_id,
            pending@.instruction.data,
        ),
    ensures
        view_result(r) == loaded_accounts::<S>(
            pending@,
            *features,
            args,
            window(ro_regions, &syscall.loader(), memory),
            window(rw_regions, &syscall.loader(), memory),
        ),
        r is Ok ==> refs_fit(r->Ok_0.refs@, memory@.len() as int) && holds_accounts(
            memory@,
            r->Ok_0@,
        ),
        r is Ok ==> r->Ok_0.refs@.len() == r->Ok_0.accounts@.len() == count_without(
            pending@.message.account_keys.len(),
            skipped(
                features.use_loaded_program_accounts,
                pending@.message.program_id_index as u64,
            ),
        ),
{
    if features.limit_cpi_loader_invoke {
        check_authorized_program(
            &pending.instruction.program_id,
            pending.instruction.data.as_slice(),
        )?;
    }
    translate_accounts(
        syscall,
        features.use_loaded_program_accounts,
        pending.message.account_keys.as_slice(),
        pending.message.program_id_index as u64,
        args.account_infos_addr,
        args.account_infos_len,
        ro_regions,
        rw_regions,
        memory,
    )
}

/// A copy of an account.
fn copy_account(account: &Account) -> (r: Account)
    ensures
        r@ == account@,
{
    Account {
        lamports: account.lamports,
        data: vstd::slice::slice_to_vec(account.data.as_slice()),
        owner: account.owner,
        executable: account.executable,
        rent_epoch: account.rent_epoch,
    }
}

/// What the data of an account says to the upgradeable loader.
#[derive(Debug, Clone, Copy)]
pub enum LoaderState {
    /// A program, with the address of the account that holds its code.
    Program(Pubkey),
    /// Another state of the loader.
    Other,
    /// No state of the loader.
    Unreadable,
}

/// Whether data begins with a tag: four bytes, least significant first.
pub open spec fn has_tag(data: Seq<u8>, tag: u8) -> bool {
    data.len() >= 4 && data.take(4) == seq![tag, 0u8, 0, 0]
}

/// Whether data begins as a program account of the upgradeable loader does: a tag, then the
/// address of the account that holds the code.
pub open spec fn is_program_state(data: Seq<u8>) -> bool {
    has_tag(data, 2) && data.len() >= 36
}

/// Whether an optional address stands at a position: a byte that tells whether there is one, and
/// the address if there is.
pub open spec fn has_optional_address(data: Seq<u8>, at: int) -> bool {
    &&& at < data.len()
    &&& data[at] == 0 || (data[at] == 1 && at + 33 <= data.len())
}

/// Whether data begins with a state of the upgradeable loader. An uninitialized account holds
/// nothing, a buffer an optional address, a program an address, and the account with the code of
/// a program a slot and an optional address.
pub open spec fn is_loader_state(data: Seq<u8>) -> bool {
    ||| has_tag(data, 0)
    ||| has_tag(data, 1) && has_optional_address(data, 4)
    ||| is_program_state(data)
    ||| has_tag(data, 3) && has_optional_address(data, 12)
}

/// Calls `solana_sdk::account_utils::StateMut::state` for the states of the upgradeable loader,
/// which decodes the front of the data: a tag of four bytes, least significant first, and what
/// the state holds. A program holds one address.
#[verifier::external_body]
fn loader_state(data: &[u8]) -> (r: LoaderState)
    ensures
        match r {
            LoaderState::Program(address) => is_program_state(data@) && address@ == data@.subrange(
                4,
                36,
            ),
            LoaderState::Other => !is_program_state(data@) && is_loader_state(data@),
            LoaderState::Unreadable => !is_loader_state(data@),
        },
{
    let account = solana_sdk::account::Account { data: data.to_vec(), ..Default::default() };
    match StateMut::<UpgradeableLoaderState>::state(&account) {
        Ok(UpgradeableLoaderState::Program { programdata_address }) => LoaderState::Program(
            Pubkey { bytes: programdata_address.to_bytes() },
        ),
        Ok(_) => LoaderState::Other,
        Err(_) => LoaderState::Unreadable,
    }
}

/// The address of the account with the code of an upgradeable program.
pub fn code_address(state: LoaderState) -> (r: Result<Pubkey, EbpfError>)
    ensures
        view_result(r) == match state {
            LoaderState::Program(address) => Ok(address@),
            LoaderState::Other => Err(rejected(InstructionError::MissingAccount)),
            LoaderState::Unreadable => Err(rejected(InstructionError::InvalidAccountData)),
        },
{
    match state {
        LoaderState::Program(address) => Ok(address),
        LoaderState::Other => Err(reject(InstructionError::MissingAccount)),
        LoaderState::Unreadable => Err(reject(InstructionError::InvalidAccountData)),
    }
}

/// Where the code of a program is: in the program's account, or in another one.
pub open spec fn programdata_of(program: AccountView) -> Result<Option<Seq<u8>>, EbpfError> {
    if !program.executable {
        Err(rejected(InstructionError::AccountNotExecutable))
    } else if program.owner != BPF_LOADER_UPGRADEABLE_ID@ {
        Ok(None)
    } else if is_program_state(program.data) {
        Ok(Some(program.data.subrange(4, 36)))
    } else if is_loader_state(program.data) {
        Err(rejected(InstructionError::MissingAccount))
    } else {
        Err(rejected(InstructionError::InvalidAccountData))
    }
}

/// Finds where the code of a program is.
pub fn programdata_address(program: &Account) -> (r: Result<Option<Pubkey>, EbpfError>)
    ensures
        match r {
            Ok(Some(address)) => programdata_of(program@) == Ok::<_, EbpfError>(Some(address@)),
            Ok(None) => programdata_of(program@) == Ok::<_, EbpfError>(None::<Seq<u8>>),
            Err(e) => programdata_of(program@) == Err::<Option<Seq<u8>>, EbpfError>(e),
        },
{
    if !program.executable {
        return Err(reject(InstructionError::AccountNotExecutable));
    }
    if program.owner.has_bytes(&BPF_LOADER_UPGRADEABLE_ID) {
        let address = code_address(loader_state(program.data.as_slice()))?;
        Ok(Some(address))
    } else {
        Ok(None)
    }
}

/// An invocation whose program was found.
#[derive(Debug)]
pub struct SelectedCall {
    pub accounts: Vec<Account>,
    pub refs: Vec<Option<AccountReferences>>,
    pub program_account: Account,
    /// Address of the account with the program's code, if that is another one.
    pub programdata_address: Option<Pubkey>,
}

/// Contents of an invocation whose program was found.
pub struct SelectedCallView {
    pub accounts: Seq<AccountView>,
    pub refs: Seq<Option<AccountReferences>>,
    pub program_account: AccountView,
    pub programdata_address: Option<Seq<u8>>,
}

impl View for SelectedCall {
    type V = SelectedCallView;

    open spec fn view(&self) -> SelectedCallView {
        SelectedCallView {
            accounts: views(self.accounts@),
            refs: self.refs@,
            program_account: self.program_account@,
            programdata_address: match self.programdata_address {
                Some(key) => Some(key@),
                None => None,
            },
        }
    }
}

/// What finding the program of an invocation comes to.
pub open spec fn selected_call(
    t: TranslatedAccountsView,
    index: int,
    use_loaded: bool,
    loaded: Option<AccountView>,
) -> Result<SelectedCallView, EbpfError> {
    match program_of(t.accounts, index, use_loaded, loaded) {
        None => Err(rejected(InstructionError::MissingAccount)),
        Some(program) => match programdata_of(program) {
            Err(e) => Err(e),
            Ok(programdata_address) => Ok(
                SelectedCallView {
                    accounts: inserted(t.accounts, use_loaded, index, program),
                    refs: inserted(t.refs, use_loaded, index, None),
                    program_account: program,
                    programdata_address,
                },
            ),
        },
    }
}

/// The account of the program among those of a message: `loaded` by the runtime, if the runtime
/// is asked, else the one that the caller passed.
pub open spec fn program_of(
    accounts: Seq<AccountView>,
    index: int,
    use_loaded: bool,
    loaded: Option<AccountView>,
) -> Option<AccountView> {
    if use_loaded {
        loaded
    } else if index < accounts.len() {
        Some(accounts[index])
    } else {
        None
    }
}

/// A list with an item put in at a position, if it is asked for.
pub open spec fn inserted<A>(s: Seq<A>, insert: bool, index: int, a: A) -> Seq<A> {
    if insert {
        s.insert(index, a)
    } else {
        s
    }
}

/// Whether all places that the caller keeps were found when the accounts were read.
pub open spec fn refs_among(
    refs: Seq<Option<AccountReferences>>,
    found: Seq<Option<AccountReferences>>,
) -> bool {
    forall|i: int| 0 <= i < refs.len() && #[trigger] refs[i] is Some ==> found.contains(refs[i])
}

/// Putting in an account that the caller does not keep adds no place.
proof fn lemma_inserted_none(found: Seq<Option<AccountReferences>>, insert: bool, index: int)
    requires
        insert ==> 0 <= index <= found.len(),
    ensures
        refs_among(inserted(found, insert, index, None), found),
{
    let refs = inserted(found, insert, index, None);
    assert forall|i: int| 0 <= i < refs.len() && #[trigger] refs[i] is Some implies found.contains(
        refs[i],
    ) by {
        if insert && i > index {
            assert(found[i - 1] == refs[i]);
        } else {
            assert(found[i] == refs[i]);
        }
    }
}

/// Law: where the accounts that were read fit the memory, so do those of the selected call, so
/// that the call can be finished.
pub proof fn law_selected_places_fit(
    refs: Seq<Option<AccountReferences>>,
    found: Seq<Option<AccountReferences>>,
    size: int,
)
    requires
        refs_among(refs, found),
        refs_fit(found, size),
    ensures
        refs_fit(refs, size),
{
    assert forall|i: int| 0 <= i < refs.len() && #[trigger] refs[i] is Some implies refs[i]->0.fit(
        size,
    ) by {
        let j = choose|j: int| 0 <= j < found.len() && found[j] == refs[i];
        assert(found[j] is Some);
    }
}

/// Finds the account of the program that is called, and where its code is. An account that the
/// runtime loaded takes its place among the accounts; the caller keeps no copy of it.
pub fn select_program(
    t: TranslatedAccounts,
    message: &Message,
    features: &FeatureSet,
    loaded: Option<Account>,
) -> (r: Result<SelectedCall, EbpfError>)
    requires
        t.accounts@.len() == t.refs@.len(),
        features.use_loaded_program_accounts ==> message@.program_id_index <= t.accounts@.len(),
    ensures
        match program_of(
            t@.accounts,
            message@.program_id_index as int,
            features.use_loaded_program_accounts,
            match loaded {
                Some(account) => Some(account@),
                None => None,
            },
        ) {
            None => r == Err::<SelectedCall, EbpfError>(rejected(InstructionError::MissingAccount)),
            Some(program) => match programdata_of(program) {
                Err(e) => r == Err::<SelectedCall, EbpfError>(e),
                Ok(address) => {
                    &&& r is Ok
                    &&& r->Ok_0.program_account@ == program
                    &&& match r->Ok_0.programdata_address {
                        Some(key) => address == Some(key@),
                        None => address is None,
                    }
                    &&& views(r->Ok_0.accounts@) == inserted(
                        t@.accounts,
                        features.use_loaded_program_accounts,
                        message@.program_id_index as int,
                        program,
                    )
                    &&& r->Ok_0.refs@ == inserted(
                        t.refs@,
                        features.use_loaded_program_accounts,
                        message@.program_id_index as int,
                        None,
                    )
                    &&& r->Ok_0.refs@.len() == r->Ok_0.accounts@.len()
                    &&& refs_among(r->Ok_0.refs@, t.refs@)
                },
            },
        },
        view_result(r) == selected_call(
            t@,
            message@.program_id_index as int,
            features.use_loaded_program_accounts,
            match loaded {
                Some(account) => Some(account@),
                None => None,
            },
        ),
{
    let index: usize = message.program_id_index as usize;
    let mut accounts = t.accounts;
    let mut refs = t.refs;
    let program_account: Account;
    if features.use_loaded_program_accounts {
        match loaded {
            Some(account) => {
                let copy = copy_account(&account);
                accounts.insert(index, copy);
                refs.insert(index, None);
                assert(views(accounts@) =~= t@.accounts.insert(index as int, account@));
                program_account = account;
            },
            None => {
                return Err(reject(InstructionError::MissingAccount));
            },
        }
    } else if index < accounts.len() {
        program_account = copy_account(&accounts[index]);
    } else {
        return Err(reject(InstructionError::MissingAccount));
    }
    let programdata_address = programdata_address(&program_account)?;
    proof {
        lemma_inserted_none(
            t.refs@,
            features.use_loaded_program_accounts,
            index as int,
        );
    }
    Ok(SelectedCall { accounts, refs, program_account, programdata_address })
}

/// An account that the runtime executes, with its address.
#[derive(Debug)]
pub struct ExecutableAccount {
    pub key: Pubkey,
    pub account: Account,
}

impl View for ExecutableAccount {
    type V = (Seq<u8>, AccountView);

    open spec fn view(&self) -> (Seq<u8>, AccountView) {
        (self.key@, self.account@)
    }
}

/// What finding the accounts that the runtime executes comes to.
pub open spec fn executables(
    program_id: Seq<u8>,
    program: AccountView,
    programdata_address: Option<Seq<u8>>,
    programdata: Option<AccountView>,
) -> Result<Seq<(Seq<u8>, AccountView)>, EbpfError> {
    match (programdata_address, programdata) {
        (None, _) => Ok(seq![(program_id, program)]),
        (Some(address), Some(account)) => Ok(seq![(program_id, program), (address, account)]),
        (Some(_), None) => Err(rejected(InstructionError::MissingAccount)),
    }
}

/// Law: the runtime executes the program under its own address, and behind it, where the code is
/// elsewhere, the account with the code under its address. Code that is nowhere is a missing
/// account; an account that was not asked for is not executed.
pub proof fn law_program_is_executed_with_its_code(
    program_id: Seq<u8>,
    program: AccountView,
    programdata_address: Option<Seq<u8>>,
    programdata: Option<AccountView>,
)
    ensures
        ({
            let r = executables(program_id, program, programdata_address, programdata);
            &&& r is Ok <==> programdata_address is None || programdata is Some
            &&& r is Err ==> r->Err_0 == rejected(InstructionError::MissingAccount)
            &&& r is Ok ==> r->Ok_0.len() > 0 && r->Ok_0[0].0 == program_id && r->Ok_0[0].1
                == program
            &&& r is Ok && programdata_address is None ==> r->Ok_0.len() == 1
            &&& r is Ok && programdata_address is Some ==> r->Ok_0.len() == 2 && r->Ok_0[1].0
                == programdata_address->0 && r->Ok_0[1].1 == programdata->0
        }),
{
}

/// The accounts that the runtime executes: the program, and the one with its code if that is
/// another one, which must then exist.
pub fn executable_accounts(
    program_id: Pubkey,
    program_account: Account,
    programdata_address: Option<Pubkey>,
    programdata: Option<Account>,
) -> (r: Result<Vec<ExecutableAccount>, EbpfError>)
    ensures
        match (programdata_address, programdata) {
            (None, _) => r is Ok && views(r->Ok_0@) == seq![(program_id@, program_account@)],
            (Some(address), Some(account)) => r is Ok && views(r->Ok_0@) == seq![
                (program_id@, program_account@),
                (address@, account@),
            ],
            (Some(_), None) => r == Err::<Vec<ExecutableAccount>, EbpfError>(
                rejected(InstructionError::MissingAccount),
            ),
        },
        match r {
            Ok(list) => executables(
                program_id@,
                program_account@,
                match programdata_address {
                    Some(address) => Some(address@),
                    None => None,
                },
                match programdata {
                    Some(account) => Some(account@),
                    None => None,
                },
            ) == Ok::<_, EbpfError>(views(list@)),
            Err(e) => executables(
                program_id@,
                program_account@,
                match programdata_address {
                    Some(address) => Some(address@),
                    None => None,
                },
                match programdata {
                    Some(account) => Some(account@),
                    None => None,
                },
            ) == Err::<Seq<(Seq<u8>, AccountView)>, EbpfError>(e),
        },
{
    let mut executables: Vec<ExecutableAccount> = Vec::new();
    executables.push(ExecutableAccount { key: program_id, account: program_account });
    match programdata_address {
        None => {
            assert(views(executables@) =~= seq![(program_id@, program_account@)]);
        },
        Some(key) => match programdata {
            Some(account) => {
                executables.push(ExecutableAccount { key, account });
                assert(views(executables@) =~= seq![
                    (program_id@, program_account@),
                    (key@, account@),
                ]);
            },
            None => {
                return Err(reject(InstructionError::MissingAccount));
            },
        },
    }
    Ok(executables)
}

/// What an invocation returns whose callee failed: the error's return value where a program can
/// report it, unless all such failures abort the caller.
pub open spec fn callee_failure(error: InstructionError, abort: bool) -> Result<u64, EbpfError> {
    if abort {
        Err(rejected(error))
    } else {
        match program_error_code(error) {
            Some(code) => Ok(code as u64),
            None => Err(rejected(error)),
        }
    }
}

/// A memory after some writes, and whether they came to an end.
pub struct Copied {
    pub memory: Seq<u8>,
    pub result: Result<(), EbpfError>,
}

/// The caller's memory after an account was copied back to it. Lamports and owner come first.
/// Data that kept its length is copied. Data that was empty may grow: then its new length is
/// written in both places that hold it. Any other change of length is rejected.
pub open spec fn account_copied(
    rw: Seq<MemoryRegion>,
    account: AccountView,
    refs: AccountReferences,
    memory: Seq<u8>,
) -> Copied {
    let paid = written(memory, refs.lamports as int, u64_bytes(account.lamports));
    let owned = written(paid, refs.owner as int, account.owner);
    let len = account.data.len() as u64;
    if refs.data_len == account.data.len() {
        Copied { memory: written(owned, refs.data as int, account.data), result: Ok(()) }
    } else if refs.data_len != 0 || account.data.len() > MAX_PERMITTED_DATA_INCREASE {
        Copied { memory: owned, result: Err(rejected(InstructionError::InvalidRealloc)) }
    } else {
        match translated(rw, refs.vm_data_addr, len) {
            Err(e) => Copied { memory: owned, result: Err(e) },
            Ok(_) => Copied {
                memory: written(
                    written(owned, refs.ref_to_len_in_vm as int, u64_bytes(len)),
                    refs.serialized_len_ptr as int,
                    u64_bytes(len),
                ),
                result: Ok(()),
            },
        }
    }
}

/// Whether the `i`-th account of an invocation is copied back: the caller keeps it, the message
/// lets it change, and it is no program.
pub open spec fn is_copied_back(
    message: MessageView,
    accounts: Seq<AccountView>,
    refs: Seq<Option<AccountReferences>>,
    i: int,
) -> bool {
    refs[i] is Some && message.is_writable(i) && !accounts[i].executable
}

/// The caller's memory after the first `n` accounts were copied back to it, up to the first that
/// fails.
pub open spec fn copied_back(
    message: MessageView,
    rw: Seq<MemoryRegion>,
    accounts: Seq<AccountView>,
    refs: Seq<Option<AccountReferences>>,
    memory: Seq<u8>,
    n: nat,
) -> Copied
    decreases n,
{
    if n == 0 {
        Copied { memory, result: Ok(()) }
    } else {
        let before = copied_back(message, rw, accounts, refs, memory, (n - 1) as nat);
        if before.result is Ok && is_copied_back(message, accounts, refs, n - 1) {
            account_copied(rw, accounts[n - 1], refs[n - 1]->0, before.memory)
        } else {
            before
        }
    }
}

/// The first account that fails decides.
proof fn lemma_copied_back_error(
    message: MessageView,
    rw: Seq<MemoryRegion>,
    accounts: Seq<AccountView>,
    refs: Seq<Option<AccountReferences>>,
    memory: Seq<u8>,
    k: nat,
    n: nat,
)
    requires
        k <= n,
        copied_back(message, rw, accounts, refs, memory, k).result is Err,
    ensures
        copied_back(message, rw, accounts, refs, memory, n) == copied_back(
            message,
            rw,
            accounts,
            refs,
            memory,
            k,
        ),
    decreases n,
{
    if k < n {
        lemma_copied_back_error(message, rw, accounts, refs, memory, k, (n - 1) as nat);
    }
}

/// Copies one account back to the caller.
fn copy_account_back(
    account: &Account,
    refs: &AccountReferences,
    rw_regions: &[MemoryRegion],
    memory: &mut HostMemory,
) -> (r: Result<(), EbpfError>)
    requires
        regions_valid(rw_regions@, old(memory)@.len() as int),
        refs.fit(old(memory)@.len() as int),
    ensures
        final(memory)@.len() == old(memory)@.len(),
        final(memory)@ == account_copied(rw_regions@, account@, *refs, old(memory)@).memory,
        r == account_copied(rw_regions@, account@, *refs, old(memory)@).result,
{
    memory.write_u64(refs.lamports, account.lamports);
    memory.write_bytes(refs.owner, account.owner.bytes.as_slice());
    let len: u64 = account.data.len() as u64;
    if refs.data_len != len {
        if refs.data_len != 0 || len > MAX_PERMITTED_DATA_INCREASE {
            // Only support for `CreateAccount` at this time.
            return Err(reject(InstructionError::InvalidRealloc));
        }
        let _ = translate(refs.vm_data_addr, len, rw_regions, memory)?;
        memory.write_u64(refs.ref_to_len_in_vm, len);
        memory.write_u64(refs.serialized_len_ptr, len);
    } else {
        memory.write_bytes(refs.data, account.data.as_slice());
    }
    Ok(())
}

/// What an invocation comes to whose callee has run.
pub open spec fn finished_call(
    message: MessageView,
    accounts: Seq<AccountView>,
    refs: Seq<Option<AccountReferences>>,
    outcome: Result<(), InstructionError>,
    features: FeatureSet,
    rw: Seq<MemoryRegion>,
    memory: Seq<u8>,
) -> (Result<u64, EbpfError>, Seq<u8>) {
    match outcome {
        Err(e) => (callee_failure(e, features.abort_on_all_cpi_failures), memory),
        Ok(_) => {
            let n = if accounts.len() < refs.len() {
                accounts.len()
            } else {
                refs.len()
            };
            let copied = copied_back(message, rw, accounts, refs, memory, n);
            (
                match copied.result {
                    Err(e) => Err(e),
                    Ok(_) => Ok(SUCCESS),
                },
                copied.memory,
            )
        },
    }
}

/// Ends an invocation: reports the callee's failure, or copies the accounts as the callee left
/// them back to the caller.
pub fn finish_call(
    message: &Message,
    accounts: &[Account],
    refs: &[Option<AccountReferences>],
    outcome: Result<(), InstructionError>,
    features: &FeatureSet,
    rw_regions: &[MemoryRegion],
    memory: &mut HostMemory,
) -> (r: Result<u64, EbpfError>)
    requires
        message@.is_valid(),
        regions_valid(rw_regions@, old(memory)@.len() as int),
        refs_fit(refs@, old(memory)@.len() as int),
    ensures
        (r, final(memory)@) == finished_call(
            message@,
            views(accounts@),
            refs@,
            outcome,
            *features,
            rw_regions@,
            old(memory)@,
        ),
        final(memory)@.len() == old(memory)@.len(),
{
    if let Err(e) = outcome {
        if features.abort_on_all_cpi_failures {
            return Err(reject(e));
        }
        return match e.program_code() {
            Some(code) => Ok(code),
            None => Err(reject(e)),
        };
    }
    let n: usize = if accounts.len() < refs.len() {
        accounts.len()
    } else {
        refs.len()
    };
    let mut i: usize = 0;
    while i < n
        invariant
            i <= n,
            n == if accounts@.len() < refs@.len() {
                accounts@.len()
            } else {
                refs@.len()
            },
            outcome is Ok,
            message@.is_valid(),
            memory@.len() == old(memory)@.len(),
            regions_valid(rw_regions@, memory@.len() as int),
            refs_fit(refs@, memory@.len() as int),
            copied_back(
                message@,
                rw_regions@,
                views(accounts@),
                refs@,
                old(memory)@,
                i as nat,
            ) == (Copied { memory: memory@, result: Ok(()) }),
        decreases n - i,
    {
        assert(views(accounts@)[i as int] == accounts@[i as int]@);
        if let Some(account_ref) = refs[i] {
            assert(refs@[i as int] is Some);
            if message.is_writable(i) && !accounts[i].executable {
                match copy_account_back(&accounts[i], &account_ref, rw_regions, memory) {
                    Ok(()) => (),
                    Err(e) => {
                        proof {
                            lemma_copied_back_error(
                                message@,
                                rw_regions@,
                                views(accounts@),
                                refs@,
                                old(memory)@,
                                (i + 1) as nat,
                                n as nat,
                            );
                        }
                        return Err(e);
                    },
                }
            }
        }
        i = i + 1;
    }
    Ok(SUCCESS)
}

/// Copying an account changes the memory only where the caller keeps the account.
proof fn lemma_account_copied_is_local(
    rw: Seq<MemoryRegion>,
    account: AccountView,
    refs: AccountReferences,
    memory: Seq<u8>,
)
    requires
        refs.fit(memory.len() as int),
        account.owner.len() == 32,
    ensures
        account_copied(rw, account, refs, memory).memory.len() == memory.len(),
        forall|i: int|
            0 <= i < memory.len() && !in_places(refs, i) ==> #[trigger] account_copied(
                rw,
                account,
                refs,
                memory,
            ).memory[i] == memory[i],
{
    let paid = written(memory, refs.lamports as int, u64_bytes(account.lamports));
    let owned = written(paid, refs.owner as int, account.owner);
    let len = account.data.len() as u64;
    let counted = written(owned, refs.ref_to_len_in_vm as int, u64_bytes(len));
    law_write_is_local(memory, refs.lamports as int, u64_bytes(account.lamports));
    law_write_is_local(paid, refs.owner as int, account.owner);
    if refs.data_len == account.data.len() {
        law_write_is_local(owned, refs.data as int, account.data);
    } else {
        law_write_is_local(owned, refs.ref_to_len_in_vm as int, u64_bytes(len));
        law_write_is_local(counted, refs.serialized_len_ptr as int, u64_bytes(len));
    }
}

/// Whether the accounts have addresses as owners.
pub open spec fn owned_by_addresses(accounts: Seq<AccountView>) -> bool {
    forall|k: int| 0 <= k < accounts.len() ==> (#[trigger] accounts[k]).owner.len() == 32
}

/// Law: an invocation changes the caller's memory only where the caller keeps an account that the
/// message lets change and that is no program. So accounts that were passed as read-only, and
/// programs, stay as they are.
pub proof fn law_copy_back_is_local(
    message: MessageView,
    rw: Seq<MemoryRegion>,
    accounts: Seq<AccountView>,
    refs: Seq<Option<AccountReferences>>,
    memory: Seq<u8>,
    n: nat,
    i: int,
)
    requires
        n <= accounts.len(),
        n <= refs.len(),
        refs_fit(refs, memory.len() as int),
        owned_by_addresses(accounts),
        0 <= i < memory.len(),
        forall|k: int|
            0 <= k < n && is_copied_back(message, accounts, refs, k) ==> !in_places(
                (#[trigger] refs[k])->0,
                i,
            ),
    ensures
        copied_back(message, rw, accounts, refs, memory, n).memory.len() == memory.len(),
        copied_back(message, rw, accounts, refs, memory, n).memory[i] == memory[i],
    decreases n,
{
    if n > 0 {
        law_copy_back_is_local(message, rw, accounts, refs, memory, (n - 1) as nat, i);
        let before = copied_back(message, rw, accounts, refs, memory, (n - 1) as nat);
        if before.result is Ok && is_copied_back(message, accounts, refs, n - 1) {
            assert(refs[n - 1]->0.fit(memory.len() as int));
            lemma_account_copied_is_local(rw, accounts[n - 1], refs[n - 1]->0, before.memory);
        }
    }
}

/// Law: a callee that leaves all accounts as they were leaves the caller's memory as it was, and
/// the invocation succeeds.
pub proof fn law_untouched_accounts_leave_memory(
    message: MessageView,
    rw: Seq<MemoryRegion>,
    t: TranslatedAccountsView,
    memory: Seq<u8>,
    n: nat,
)
    requires
        n <= t.accounts.len(),
        n <= t.refs.len(),
        refs_fit(t.refs, memory.len() as int),
        holds_accounts(memory, t),
    ensures
        copied_back(message, rw, t.accounts, t.refs, memory, n) == (Copied {
            memory,
            result: Ok(()),
        }),
    decreases n,
{
    if n > 0 {
        law_untouched_accounts_leave_memory(message, rw, t, memory, (n - 1) as nat);
        if is_copied_back(message, t.accounts, t.refs, n - 1) {
            let refs = t.refs[n - 1]->0;
            assert(refs.fit(memory.len() as int));
            law_write_u64_after_read(memory, refs.lamports as int);
            law_write_after_read(memory, refs.owner as int, 32);
            law_write_after_read(memory, refs.data as int, refs.data_len as int);
        }
    }
}

/// Whether two runs of bytes have no byte in common.
pub open spec fn apart(a: int, a_len: int, b: int, b_len: int) -> bool {
    a + a_len <= b || b + b_len <= a
}

/// Whether the places where the caller keeps an account have no byte in common.
pub open spec fn places_apart(refs: AccountReferences) -> bool {
    &&& apart(refs.lamports as int, 8, refs.owner as int, 32)
    &&& apart(refs.lamports as int, 8, refs.data as int, refs.data_len as int)
    &&& apart(refs.owner as int, 32, refs.data as int, refs.data_len as int)
    &&& apart(refs.lamports as int, 8, refs.ref_to_len_in_vm as int, 8)
    &&& apart(refs.owner as int, 32, refs.ref_to_len_in_vm as int, 8)
    &&& apart(refs.lamports as int, 8, refs.serialized_len_ptr as int, 8)
    &&& apart(refs.owner as int, 32, refs.serialized_len_ptr as int, 8)
    &&& apart(refs.ref_to_len_in_vm as int, 8, refs.serialized_len_ptr as int, 8)
}

/// What a write leaves alone is read as before.
proof fn lemma_read_apart(memory: Seq<u8>, at: int, bytes: Seq<u8>, b: int, b_len: int)
    requires
        0 <= at,
        at + bytes.len() <= memory.len(),
        0 <= b,
        0 <= b_len,
        b + b_len <= memory.len(),
        apart(at, bytes.len() as int, b, b_len),
    ensures
        bytes_at(written(memory, at, bytes), b, b_len) == bytes_at(memory, b, b_len),
        b_len == 8 ==> u64_at(written(memory, at, bytes), b) == u64_at(memory, b),
{
    reveal(u64_at);
    assert(bytes_at(written(memory, at, bytes), b, b_len) =~= bytes_at(memory, b, b_len));
}

/// Law: the caller reads an account that was copied back as the callee left it: its lamports, its
/// owner, and its data or the new length of the data. The places where the caller keeps the
/// account must have no byte in common.
pub proof fn law_copied_account_is_read_back(
    rw: Seq<MemoryRegion>,
    account: AccountView,
    refs: AccountReferences,
    memory: Seq<u8>,
)
    requires
        refs.fit(memory.len() as int),
        places_apart(refs),
        account.owner.len() == 32,
        account_copied(rw, account, refs, memory).result is Ok,
    ensures
        ({
            let after = account_copied(rw, account, refs, memory).memory;
            &&& u64_at(after, refs.lamports as int) == account.lamports
            &&& bytes_at(after, refs.owner as int, 32) == account.owner
            &&& if account.data.len() == refs.data_len {
                bytes_at(after, refs.data as int, refs.data_len as int) == account.data
            } else {
                &&& u64_at(after, refs.ref_to_len_in_vm as int) == account.data.len()
                &&& u64_at(after, refs.serialized_len_ptr as int) == account.data.len()
            }
        }),
{
    let paid = written(memory, refs.lamports as int, u64_bytes(account.lamports));
    let owned = written(paid, refs.owner as int, account.owner);
    let len = account.data.len() as u64;
    law_read_u64_after_write(memory, refs.lamports as int, account.lamports);
    law_write_is_local(memory, refs.lamports as int, u64_bytes(account.lamports));
    lemma_read_apart(paid, refs.owner as int, account.owner, refs.lamports as int, 8);
    law_write_is_local(paid, refs.owner as int, account.owner);
    if refs.data_len == account.data.len() {
        law_write_is_local(owned, refs.data as int, account.data);
        lemma_read_apart(owned, refs.data as int, account.data, refs.lamports as int, 8);
        lemma_read_apart(owned, refs.data as int, account.data, refs.owner as int, 32);
    } else {
        let first = refs.ref_to_len_in_vm as int;
        let second = refs.serialized_len_ptr as int;
        let counted = written(owned, first, u64_bytes(len));
        law_write_is_local(owned, first, u64_bytes(len));
        law_read_u64_after_write(owned, first, len);
        lemma_read_apart(owned, first, u64_bytes(len), refs.lamports as int, 8);
        lemma_read_apart(owned, first, u64_bytes(len), refs.owner as int, 32);
        law_read_u64_after_write(counted, second, len);
        lemma_read_apart(counted, second, u64_bytes(len), first, 8);
        lemma_read_apart(counted, second, u64_bytes(len), refs.lamports as int, 8);
        lemma_read_apart(counted, second, u64_bytes(len), refs.owner as int, 32);
    }
}

/// Law: a callee that fails changes nothing in the caller's memory.
pub proof fn law_failed_callee_leaves_memory(
    message: MessageView,
    accounts: Seq<AccountView>,
    refs: Seq<Option<AccountReferences>>,
    error: InstructionError,
    features: FeatureSet,
    rw: Seq<MemoryRegion>,
    memory: Seq<u8>,
)
    ensures
        finished_call(message, accounts, refs, Err(error), features, rw, memory).1 == memory,
        finished_call(message, accounts, refs, Err(error), features, rw, memory).0 != Ok::<
            u64,
            EbpfError,
        >(SUCCESS),
{
    crate::error::law_program_code_is_never_success(error);
}

/// Law: an invocation from Rust changes the caller's memory only where the caller may write,
/// whatever the callee does.
pub proof fn law_rust_invocation_is_contained(
    ro: Window,
    rw: Window,
    keys: Seq<Seq<u8>>,
    skip: Option<u64>,
    addr: u64,
    len: u64,
    message: MessageView,
    accounts: Seq<AccountView>,
    refs: Seq<Option<AccountReferences>>,
    n: nat,
)
    requires
        ro.is_valid(),
        rw.is_valid(),
        ro.memory == rw.memory,
        translated_accounts::<SyscallInvokeSignedRust>(ro, rw, keys, skip, addr, len) is Ok,
        n <= accounts.len(),
        n <= refs.len(),
        owned_by_addresses(accounts),
        refs_fit(refs, rw.memory.len() as int),
        refs_among(
            refs,
            translated_accounts::<SyscallInvokeSignedRust>(
                ro,
                rw,
                keys,
                skip,
                addr,
                len,
            )->Ok_0.refs,
        ),
    ensures
        changed_within(
            rw,
            rw.memory,
            copied_back(message, rw.regions, accounts, refs, rw.memory, n).memory,
        ),
{
    let found = translated_accounts::<SyscallInvokeSignedRust>(
        ro,
        rw,
        keys,
        skip,
        addr,
        len,
    )->Ok_0.refs;
    law_rust_places_are_writable(ro, rw, keys, skip, addr, len);
    lemma_copy_back_len(message, rw.regions, accounts, refs, rw.memory, n);
    assert forall|host: int| 0 <= host < rw.memory.len() && !rw.reaches(host) implies copied_back(
        message,
        rw.regions,
        accounts,
        refs,
        rw.memory,
        n,
    ).memory[host] == rw.memory[host] by {
        assert forall|k: int|
            0 <= k < n && is_copied_back(message, accounts, refs, k) implies !in_places(
            (#[trigger] refs[k])->0,
            host,
        ) by {
            let j = choose|j: int| 0 <= j < found.len() && found[j] == refs[k];
            assert(found[j] is Some);
        }
        law_copy_back_is_local(message, rw.regions, accounts, refs, rw.memory, n, host);
    }
}

/// Copying accounts back keeps the size of the memory.
proof fn lemma_copy_back_len(
    message: MessageView,
    rw: Seq<MemoryRegion>,
    accounts: Seq<AccountView>,
    refs: Seq<Option<AccountReferences>>,
    memory: Seq<u8>,
    n: nat,
)
    requires
        n <= accounts.len(),
        n <= refs.len(),
        refs_fit(refs, memory.len() as int),
        owned_by_addresses(accounts),
    ensures
        copied_back(message, rw, accounts, refs, memory, n).memory.len() == memory.len(),
    decreases n,
{
    if n > 0 {
        lemma_copy_back_len(message, rw, accounts, refs, memory, (n - 1) as nat);
        let before = copied_back(message, rw, accounts, refs, memory, (n - 1) as nat);
        if before.result is Ok && is_copied_back(message, accounts, refs, n - 1) {
            assert(refs[n - 1]->0.fit(memory.len() as int));
            lemma_account_copied_is_local(rw, accounts[n - 1], refs[n - 1]->0, before.memory);
        }
    }
}

/// Law: an invocation from C changes the caller's memory only where the caller may write, and in
/// the lengths that stand in the caller's own list of accounts.
pub proof fn law_c_invocation_is_contained(
    ro: Window,
    rw: Window,
    keys: Seq<Seq<u8>>,
    skip: Option<u64>,
    addr: u64,
    len: u64,
    message: MessageView,
    accounts: Seq<AccountView>,
    refs: Seq<Option<AccountReferences>>,
    n: nat,
    host: int,
)
    requires
        ro.is_valid(),
        rw.is_valid(),
        ro.memory == rw.memory,
        translated_accounts::<SyscallInvokeSignedC>(ro, rw, keys, skip, addr, len) is Ok,
        n <= accounts.len(),
        n <= refs.len(),
        owned_by_addresses(accounts),
        refs_fit(refs, rw.memory.len() as int),
        refs_among(
            refs,
            translated_accounts::<SyscallInvokeSignedC>(ro, rw, keys, skip, addr, len)->Ok_0.refs,
        ),
        0 <= host < rw.memory.len(),
        !rw.reaches(host),
        !in_c_list_lengths(ro, addr, len, host),
    ensures
        copied_back(message, rw.regions, accounts, refs, rw.memory, n).memory[host]
            == rw.memory[host],
{
    let found = translated_accounts::<SyscallInvokeSignedC>(
        ro,
        rw,
        keys,
        skip,
        addr,
        len,
    )->Ok_0.refs;
    law_c_places_are_writable(ro, rw, keys, skip, addr, len);
    assert forall|k: int|
        0 <= k < n && is_copied_back(message, accounts, refs, k) implies !in_places(
        (#[trigger] refs[k])->0,
        host,
    ) by {
        let j = choose|j: int| 0 <= j < found.len() && found[j] == refs[k];
        assert(found[j] is Some);
        assert(c_places_reached(ro, rw, addr, len, found[j]->0));
    }
    law_copy_back_is_local(message, rw.regions, accounts, refs, rw.memory, n, host);
}

/// Whether a callee may have changed the `i`-th account of an invocation, and the caller keeps it.
/// Of the signers those in front are writable, of the others too, and programs never change.
pub open spec fn is_kept_and_writable(
    message: MessageView,
    accounts: Seq<AccountView>,
    refs: Seq<Option<AccountReferences>>,
    i: int,
) -> bool {
    &&& 0 <= i < accounts.len()
    &&& i < refs.len()
    &&& refs[i] is Some
    &&& !accounts[i].executable
    &&& if i < message.num_required_signatures {
        i < message.num_required_signatures - message.num_readonly_signed_accounts
    } else {
        i < message.account_keys.len() - message.num_readonly_unsigned_accounts
    }
}

/// Whether a caller finds an account as a callee left it: its lamports, its owner, and its data,
/// or their new length in both places where it stands.
pub open spec fn finds_account(
    memory: Seq<u8>,
    refs: AccountReferences,
    account: AccountView,
) -> bool {
    &&& u64_at(memory, refs.lamports as int) == account.lamports
    &&& bytes_at(memory, refs.owner as int, 32) == account.owner
    &&& account.data.len() == refs.data_len ==> bytes_at(
        memory,
        refs.data as int,
        refs.data_len as int,
    ) == account.data
    &&& account.data.len() != refs.data_len ==> u64_at(memory, refs.ref_to_len_in_vm as int)
        == account.data.len() && u64_at(memory, refs.serialized_len_ptr as int)
        == account.data.len()
}

/// What a caller finds stays while the bytes of its places stay.
proof fn lemma_finds_account_apart(
    before: Seq<u8>,
    after: Seq<u8>,
    refs: AccountReferences,
    account: AccountView,
)
    requires
        refs.fit(before.len() as int),
        after.len() == before.len(),
        finds_account(before, refs, account),
        forall|host: int|
            0 <= host < before.len() && in_places(refs, host) ==> #[trigger] after[host]
                == before[host],
    ensures
        finds_account(after, refs, account),
{
    reveal(u64_at);
    assert(bytes_at(after, refs.lamports as int, 8) =~= bytes_at(before, refs.lamports as int, 8));
    assert(bytes_at(after, refs.owner as int, 32) =~= bytes_at(before, refs.owner as int, 32));
    assert(bytes_at(after, refs.data as int, refs.data_len as int) =~= bytes_at(
        before,
        refs.data as int,
        refs.data_len as int,
    ));
    assert(bytes_at(after, refs.ref_to_len_in_vm as int, 8) =~= bytes_at(
        before,
        refs.ref_to_len_in_vm as int,
        8,
    ));
    assert(bytes_at(after, refs.serialized_len_ptr as int, 8) =~= bytes_at(
        before,
        refs.serialized_len_ptr as int,
        8,
    ));
}

/// Whether the caller keeps the accounts that may have changed at places that have no byte in
/// common.
pub open spec fn kept_apart(
    message: MessageView,
    accounts: Seq<AccountView>,
    refs: Seq<Option<AccountReferences>>,
) -> bool {
    &&& forall|i: int| #[trigger]
        is_kept_and_writable(message, accounts, refs, i) ==> places_apart(refs[i]->0)
    &&& forall|i: int, j: int, host: int|
        #![trigger in_places(refs[i]->0, host), in_places(refs[j]->0, host)]
        is_kept_and_writable(message, accounts, refs, i) && is_kept_and_writable(
            message,
            accounts,
            refs,
            j,
        ) && i != j ==> !(in_places(refs[i]->0, host) && in_places(refs[j]->0, host))
}

/// Each of the first accounts that may have changed is found by the caller.
proof fn lemma_copies_are_found(
    message: MessageView,
    rw: Seq<MemoryRegion>,
    accounts: Seq<AccountView>,
    refs: Seq<Option<AccountReferences>>,
    memory: Seq<u8>,
    n: nat,
    i: int,
)
    requires
        n <= accounts.len(),
        n <= refs.len(),
        refs_fit(refs, memory.len() as int),
        owned_by_addresses(accounts),
        kept_apart(message, accounts, refs),
        copied_back(message, rw, accounts, refs, memory, n).result is Ok,
        0 <= i < n,
        is_kept_and_writable(message, accounts, refs, i),
    ensures
        finds_account(
            copied_back(message, rw, accounts, refs, memory, n).memory,
            refs[i]->0,
            accounts[i],
        ),
    decreases n,
{
    let before = copied_back(message, rw, accounts, refs, memory, (n - 1) as nat);
    let after = copied_back(message, rw, accounts, refs, memory, n);
    lemma_copy_back_len(message, rw, accounts, refs, memory, (n - 1) as nat);
    assert(refs[i] is Some);
    if i == n - 1 {
        law_copied_account_is_read_back(rw, accounts[i], refs[i]->0, before.memory);
    } else {
        lemma_copies_are_found(message, rw, accounts, refs, memory, (n - 1) as nat, i);
        if is_kept_and_writable(message, accounts, refs, n - 1) {
            assert(refs[n - 1] is Some);
            lemma_account_copied_is_local(rw, accounts[n - 1], refs[n - 1]->0, before.memory);
            assert forall|host: int|
                0 <= host < before.memory.len() && in_places(
                    refs[i]->0,
                    host,
                ) implies #[trigger] after.memory[host] == before.memory[host] by {
                assert(!in_places(refs[n - 1]->0, host));
            }
            lemma_finds_account_apart(before.memory, after.memory, refs[i]->0, accounts[i]);
        }
    }
}

/// Law: the caller finds every account that the callee may have changed as the callee left it,
/// whether or not the account signs, once the invocation has succeeded. The places where the caller
/// keeps its accounts must have no byte in common.
pub proof fn law_changed_accounts_are_found_by_the_caller(
    message: MessageView,
    accounts: Seq<AccountView>,
    refs: Seq<Option<AccountReferences>>,
    features: FeatureSet,
    rw: Seq<MemoryRegion>,
    memory: Seq<u8>,
    i: int,
)
    requires
        refs_fit(refs, memory.len() as int),
        owned_by_addresses(accounts),
        kept_apart(message, accounts, refs),
        finished_call(message, accounts, refs, Ok(()), features, rw, memory).0 is Ok,
        is_kept_and_writable(message, accounts, refs, i),
    ensures
        finds_account(
            finished_call(message, accounts, refs, Ok(()), features, rw, memory).1,
            refs[i]->0,
            accounts[i],
        ),
{
    let n = if accounts.len() < refs.len() {
        accounts.len()
    } else {
        refs.len()
    };
    lemma_copies_are_found(message, rw, accounts, refs, memory, n, i);
}

/// Whether an account can be copied back: its data kept their length, or were empty and grew by no
/// more than the caller's memory and the limit of 10240 bytes allow.
pub open spec fn can_be_copied(
    rw: Seq<MemoryRegion>,
    refs: AccountReferences,
    account: AccountView,
) -> bool {
    account.data.len() == refs.data_len || (refs.data_len == 0 && account.data.len() <= 10240
        && host_address(rw, refs.vm_data_addr as int, account.data.len() as int) is Some)
}

/// Accounts that can be copied back are.
proof fn lemma_copy_back_succeeds(
    message: MessageView,
    rw: Seq<MemoryRegion>,
    accounts: Seq<AccountView>,
    refs: Seq<Option<AccountReferences>>,
    memory: Seq<u8>,
    n: nat,
)
    requires
        n <= accounts.len(),
        n <= refs.len(),
        forall|i: int|
            0 <= i < n && #[trigger] is_kept_and_writable(message, accounts, refs, i)
                ==> can_be_copied(rw, refs[i]->0, accounts[i]),
    ensures
        copied_back(message, rw, accounts, refs, memory, n).result is Ok,
    decreases n,
{
    if n > 0 {
        lemma_copy_back_succeeds(message, rw, accounts, refs, memory, (n - 1) as nat);
        reveal(translated);
        assert(is_kept_and_writable(message, accounts, refs, n - 1) ==> can_be_copied(
            rw,
            refs[n - 1]->0,
            accounts[n - 1],
        ));
    }
}

/// Law: an invocation whose callee succeeded is answered by zero if all accounts that may have
/// changed can be copied back. Otherwise the first that cannot decides: a change of length is
/// rejected as a reallocation, unless it is only the caller's memory that does not have the room.
pub proof fn law_invocation_succeeds_if_accounts_can_be_copied(
    message: MessageView,
    accounts: Seq<AccountView>,
    refs: Seq<Option<AccountReferences>>,
    features: FeatureSet,
    rw: Seq<MemoryRegion>,
    memory: Seq<u8>,
    bad: int,
)
    requires
        forall|i: int|
            0 <= i < bad && #[trigger] is_kept_and_writable(message, accounts, refs, i)
                ==> can_be_copied(rw, refs[i]->0, accounts[i]),
    ensures
        accounts.len() <= bad || refs.len() <= bad ==> finished_call(
            message,
            accounts,
            refs,
            Ok(()),
            features,
            rw,
            memory,
        ).0 == Ok::<u64, EbpfError>(0),
        is_kept_and_writable(message, accounts, refs, bad) && !can_be_copied(
            rw,
            refs[bad]->0,
            accounts[bad],
        ) ==> finished_call(message, accounts, refs, Ok(()), features, rw, memory).0 == Err::<
            u64,
            EbpfError,
        >(
            if refs[bad]->0.data_len == 0 && accounts[bad].data.len() <= 10240 {
                EbpfError::AccessViolation(
                    refs[bad]->0.vm_data_addr,
                    accounts[bad].data.len() as u64,
                )
            } else {
                rejected(InstructionError::InvalidRealloc)
            },
        ),
{
    let n = if accounts.len() < refs.len() {
        accounts.len()
    } else {
        refs.len()
    };
    if accounts.len() <= bad || refs.len() <= bad {
        lemma_copy_back_succeeds(message, rw, accounts, refs, memory, n);
    } else if is_kept_and_writable(message, accounts, refs, bad) {
        lemma_copy_back_succeeds(message, rw, accounts, refs, memory, bad as nat);
        reveal(translated);
        if !can_be_copied(rw, refs[bad]->0, accounts[bad]) {
            lemma_copied_back_error(
                message,
                rw,
                accounts,
                refs,
                memory,
                (bad + 1) as nat,
                n,
            );
        }
    }
}

/// Law: an invocation changes no byte of the caller's memory but those of accounts that the callee
/// may have changed, and that the caller keeps.
pub proof fn law_other_bytes_stay(
    message: MessageView,
    accounts: Seq<AccountView>,
    refs: Seq<Option<AccountReferences>>,
    outcome: Result<(), InstructionError>,
    features: FeatureSet,
    rw: Seq<MemoryRegion>,
    memory: Seq<u8>,
    host: int,
)
    requires
        refs_fit(refs, memory.len() as int),
        owned_by_addresses(accounts),
        0 <= host < memory.len(),
        forall|i: int| #[trigger]
            is_kept_and_writable(message, accounts, refs, i) ==> !in_places(refs[i]->0, host),
    ensures
        finished_call(message, accounts, refs, outcome, features, rw, memory).1.len()
            == memory.len(),
        finished_call(message, accounts, refs, outcome, features, rw, memory).1[host]
            == memory[host],
{
    let n = if accounts.len() < refs.len() {
        accounts.len()
    } else {
        refs.len()
    };
    assert forall|k: int|
        0 <= k < n && is_copied_back(message, accounts, refs, k) implies !in_places(
        (#[trigger] refs[k])->0,
        host,
    ) by {
        assert(is_kept_and_writable(message, accounts, refs, k));
    }
    law_copy_back_is_local(message, rw, accounts, refs, memory, n, host);
}

/// Law: the failure of a callee is the failure of the caller where all failures are, and where no
/// return value stands for it; otherwise it is the answer that stands for it.
pub proof fn law_failed_callee_is_reported(
    message: MessageView,
    accounts: Seq<AccountView>,
    refs: Seq<Option<AccountReferences>>,
    error: InstructionError,
    features: FeatureSet,
    rw: Seq<MemoryRegion>,
    memory: Seq<u8>,
)
    ensures
        ({
            let r = finished_call(
                message,
                accounts,
                refs,
                Err(error),
                features,
                rw,
                memory,
            ).0;
            let own = Err::<u64, EbpfError>(
                EbpfError::UserError(
                    crate::error::BPFError::SyscallError(SyscallError::InstructionError(error)),
                ),
            );
            &&& features.abort_on_all_cpi_failures ==> r == own
            &&& !features.abort_on_all_cpi_failures && program_error_code(error) is None ==> r
                == own
            &&& !features.abort_on_all_cpi_failures && program_error_code(error) is Some ==> r is Ok
                && r->Ok_0 == program_error_code(error)->0
        }),
{
}

/// Law: an invocation is started if and only if nothing else holds its context or its meter, its
/// price is paid, its instruction and its signers can be read, its caller is known, and the caller
/// may send the instruction. It sends the instruction that was read, compiled into a message.
pub proof fn law_invocations_are_started<S: SyscallInvokeSigned>(
    callers: Seq<KeyPrivileges>,
    context: InvokeContext,
    args: InvokeArgs,
    ro: Window,
    instruction: InstructionView,
    signers: Seq<Seq<u8>>,
    caller: Pubkey,
)
    ensures
        context.is_borrowed || context.compute_meter.is_borrowed ==> begun_call::<S>(
            callers,
            context,
            args,
            ro,
        ) == Err::<PendingCallView, EbpfError>(refused(SyscallError::InvokeContextBorrowFailed)),
        !context.is_borrowed && !context.compute_meter.is_borrowed
            && context.bpf_compute_budget.invoke_units > context.compute_meter.remaining
            ==> begun_call::<S>(callers, context, args, ro) == Err::<PendingCallView, EbpfError>(
            rejected(InstructionError::ComputationalBudgetExceeded),
        ),
        !context.is_borrowed && !context.compute_meter.is_borrowed
            && context.bpf_compute_budget.invoke_units <= context.compute_meter.remaining
            && S::instruction_at(
            ro,
            args.instruction_addr,
            context.bpf_compute_budget.max_cpi_instruction_size,
        ) == Ok::<_, EbpfError>(instruction) && context.caller == Ok::<_, InstructionError>(caller)
            && translated_signers(
            ro,
            caller@,
            args.signers_seeds_addr,
            args.signers_seeds_len,
        ) == Ok::<_, EbpfError>(signers) ==> {
            let begun = begun_call::<S>(callers, context, args, ro);
            let may = (forall|i: int|
                0 <= i < instruction.accounts.len() ==> has_what_is_asked(
                    #[trigger] instruction.accounts[i],
                    callers,
                    signers,
                )) && is_held(callers, instruction.program_id);
            &&& begun is Ok <==> may
            &&& begun is Ok ==> begun->Ok_0.instruction == instruction && begun->Ok_0.message
                == compiled_message(instruction.program_id, instruction.accounts)
        },
        ({
            let begun = begun_call::<S>(callers, context, args, ro);
            let read = S::instruction_at(
                ro,
                args.instruction_addr,
                context.bpf_compute_budget.max_cpi_instruction_size,
            );
            let signed = translated_signers(
                ro,
                context.caller->Ok_0@,
                args.signers_seeds_addr,
                args.signers_seeds_len,
            );
            let is_paid = !context.is_borrowed && !context.compute_meter.is_borrowed
                && context.bpf_compute_budget.invoke_units <= context.compute_meter.remaining;
            &&& is_paid && read is Err ==> begun == Err::<PendingCallView, EbpfError>(read->Err_0)
            &&& is_paid && read is Ok && context.caller is Err ==> begun == Err::<
                PendingCallView,
                EbpfError,
            >(rejected(context.caller->Err_0))
            &&& is_paid && read is Ok && context.caller is Ok && signed is Err ==> begun == Err::<
                PendingCallView,
                EbpfError,
            >(signed->Err_0)
            &&& is_paid && read is Ok && context.caller is Ok && signed is Ok && message_error(
                read->Ok_0,
                callers,
                signed->Ok_0,
            ) is Some ==> begun == Err::<PendingCallView, EbpfError>(
                rejected(message_error(read->Ok_0, callers, signed->Ok_0)->0),
            )
        }),
        begun_call::<S>(callers, context, args, ro) is Ok ==> S::instruction_at(
            ro,
            args.instruction_addr,
            context.bpf_compute_budget.max_cpi_instruction_size,
        ) is Ok && context.caller is Ok && translated_signers(
            ro,
            context.caller->Ok_0@,
            args.signers_seeds_addr,
            args.signers_seeds_len,
        ) is Ok,
{
    lemma_accepted(instruction, callers, signers);
}

/// An instruction is accepted if and only if all mentions have what they ask and the program is
/// held.
proof fn lemma_accepted(
    instruction: InstructionView,
    callers: Seq<KeyPrivileges>,
    signers: Seq<Seq<u8>>,
)
    ensures
        message_error(instruction, callers, signers) is None <==> (forall|i: int|
            0 <= i < instruction.accounts.len() ==> has_what_is_asked(
                #[trigger] instruction.accounts[i],
                callers,
                signers,
            )) && is_held(callers, instruction.program_id),
{
    let bad = lemma_first_bad(instruction.accounts, callers, signers, 0);
    law_instructions_are_sent_with_what_is_held(instruction, callers, signers, bad);
}

/// Position of the first mention that does not have what it asks.
proof fn lemma_first_bad(
    metas: Seq<KeyPrivileges>,
    callers: Seq<KeyPrivileges>,
    signers: Seq<Seq<u8>>,
    from: int,
) -> (bad: int)
    requires
        0 <= from <= metas.len(),
    ensures
        from <= bad <= metas.len(),
        forall|i: int|
            from <= i < bad ==> has_what_is_asked(#[trigger] metas[i], callers, signers),
        bad < metas.len() ==> !has_what_is_asked(metas[bad], callers, signers),
    decreases metas.len() - from,
{
    if from < metas.len() && has_what_is_asked(metas[from], callers, signers) {
        lemma_first_bad(metas, callers, signers, from + 1)
    } else {
        from
    }
}

/// Law: the accounts of a call stand in the order of the addresses of its message, each of them the
/// first of the caller's list that has the address. Where the runtime loads the program, that
/// account stands at the position of the program, and the caller keeps no copy of it.
pub proof fn law_accounts_of_a_call_line_up<S: SyscallInvokeSigned>(
    pending: PendingCallView,
    features: FeatureSet,
    args: InvokeArgs,
    ro: Window,
    rw: Window,
    loaded: Option<AccountView>,
    i: int,
)
    requires
        pending.message.program_id_index < pending.message.account_keys.len(),
        loaded_accounts::<S>(pending, features, args, ro, rw) is Ok,
        selected_call(
            loaded_accounts::<S>(pending, features, args, ro, rw)->Ok_0,
            pending.message.program_id_index as int,
            features.use_loaded_program_accounts,
            loaded,
        ) is Ok,
        0 <= i < pending.message.account_keys.len(),
    ensures
        S::infos_at(ro, args.account_infos_addr, args.account_infos_len) is Ok,
        features.limit_cpi_loader_invoke ==> authorized(
            pending.instruction.program_id,
            pending.instruction.data,
        ),
        ({
            let use_loaded = features.use_loaded_program_accounts;
            let index = pending.message.program_id_index as int;
            let selected = selected_call(
                loaded_accounts::<S>(pending, features, args, ro, rw)->Ok_0,
                index,
                use_loaded,
                loaded,
            )->Ok_0;
            let accounts = selected.accounts;
            let refs = selected.refs;
            let list = AccountList {
                addr: args.account_infos_addr,
                infos: S::infos_at(ro, args.account_infos_addr, args.account_infos_len)->Ok_0,
                len: args.account_infos_len,
            };
            &&& accounts.len() == pending.message.account_keys.len()
            &&& refs.len() == pending.message.account_keys.len()
            &&& use_loaded ==> loaded == Some(selected.program_account)
            &&& selected.program_account == accounts[index]
            &&& selected.program_account.executable
            &&& use_loaded && i == index ==> refs[i] is None
            &&& !(use_loaded && i == index) ==> refs[i] is Some && account_with_key::<S>(
                ro,
                rw,
                list,
                pending.message.account_keys[i],
                0,
            ) == Ok::<_, EbpfError>((accounts[i], refs[i]->0))
        }),
{
    let keys = pending.message.account_keys;
    let skip = skipped(
        features.use_loaded_program_accounts,
        pending.message.program_id_index as u64,
    );
    let list = AccountList {
        addr: args.account_infos_addr,
        infos: S::infos_at(ro, args.account_infos_addr, args.account_infos_len)->Ok_0,
        len: args.account_infos_len,
    };
    let other = if pending.message.program_id_index == 0 {
        1int
    } else {
        0
    };
    if !(skip is Some && skip->0 == i) {
        law_accounts_match_keys::<S>(ro, rw, list, keys, skip, keys.len(), i as nat);
    } else if keys.len() > 1 {
        law_accounts_match_keys::<S>(ro, rw, list, keys, skip, keys.len(), other as nat);
    } else {
        reveal_with_fuel(crate::invoke_signed::accounts_with_keys, 2);
    }
}

/// Law: accounts are loaded unless loaders are protected and one is called, or they are not found.
pub proof fn law_protected_loaders_are_not_called<S: SyscallInvokeSigned>(
    pending: PendingCallView,
    features: FeatureSet,
    args: InvokeArgs,
    ro: Window,
    rw: Window,
)
    ensures
        features.limit_cpi_loader_invoke && !authorized(
            pending.instruction.program_id,
            pending.instruction.data,
        ) ==> loaded_accounts::<S>(pending, features, args, ro, rw) == Err::<
            TranslatedAccountsView,
            EbpfError,
        >(rejected(InstructionError::UnsupportedProgramId)),
        !features.limit_cpi_loader_invoke || authorized(
            pending.instruction.program_id,
            pending.instruction.data,
        ) ==> loaded_accounts::<S>(pending, features, args, ro, rw) == translated_accounts::<S>(
            ro,
            rw,
            pending.message.account_keys,
            if features.use_loaded_program_accounts {
                Some(pending.message.program_id_index as u64)
            } else {
                None
            },
            args.account_infos_addr,
            args.account_infos_len,
        ),
{
}

/// Law: a call is selected if and only if there is an account of the program, it is executable, and
/// its code is found; its code is where the account says.
pub proof fn law_calls_are_selected(
    t: TranslatedAccountsView,
    index: int,
    use_loaded: bool,
    loaded: Option<AccountView>,
)
    requires
        0 <= index,
    ensures
        ({
            let r = selected_call(t, index, use_loaded, loaded);
            let program = if use_loaded {
                loaded
            } else if index < t.accounts.len() {
                Some(t.accounts[index])
            } else {
                None
            };
            &&& program is None ==> r == Err::<SelectedCallView, EbpfError>(
                rejected(InstructionError::MissingAccount),
            )
            &&& program is Some && !program->0.executable ==> r == Err::<
                SelectedCallView,
                EbpfError,
            >(rejected(InstructionError::AccountNotExecutable))
            &&& program is Some && program->0.executable && program->0.owner
                != BPF_LOADER_UPGRADEABLE_ID@ ==> r is Ok && r->Ok_0.programdata_address is None
            &&& program is Some && programdata_of(program->0) is Ok ==> r is Ok
                && r->Ok_0.program_account == program->0 && r->Ok_0.programdata_address
                == programdata_of(program->0)->Ok_0
            &&& program is Some && programdata_of(program->0) is Err ==> r == Err::<
                SelectedCallView,
                EbpfError,
            >(programdata_of(program->0)->Err_0)
        }),
{
}

/// Law: the account of a program is the one that the runtime loaded where the runtime is asked, and
/// otherwise the one that the caller passed at the position of the program. It must be executable.
/// The code of a program of the upgradeable loader stands in the account whose address follows the
/// four bytes of the tag; other programs hold their code themselves.
pub proof fn law_program_and_code_are_found(
    accounts: Seq<AccountView>,
    index: int,
    loaded: Option<AccountView>,
    program: AccountView,
)
    requires
        0 <= index,
    ensures
        program_of(accounts, index, true, loaded) == loaded,
        index < accounts.len() ==> program_of(accounts, index, false, loaded) == Some(
            accounts[index],
        ),
        index >= accounts.len() ==> program_of(accounts, index, false, loaded) is None,
        programdata_of(program) is Ok ==> program.executable,
        !program.executable ==> programdata_of(program) == Err::<Option<Seq<u8>>, EbpfError>(
            rejected(InstructionError::AccountNotExecutable),
        ),
        program.executable && program.owner != BPF_LOADER_UPGRADEABLE_ID@ ==> programdata_of(
            program,
        ) == Ok::<_, EbpfError>(None::<Seq<u8>>),
        program.executable && program.owner == BPF_LOADER_UPGRADEABLE_ID@ && program.data.len()
            >= 36 && program.data[0] == 2 && program.data[1] == 0 && program.data[2] == 0
            && program.data[3] == 0 ==> programdata_of(program) == Ok::<_, EbpfError>(
            Some(program.data.subrange(4, 36)),
        ),
        program.executable && program.owner == BPF_LOADER_UPGRADEABLE_ID@ && program.data.len() < 4
            ==> programdata_of(program) == Err::<Option<Seq<u8>>, EbpfError>(
            rejected(InstructionError::InvalidAccountData),
        ),
        program.executable && program.owner == BPF_LOADER_UPGRADEABLE_ID@ && program.data.len() >= 4
            && program.data[1] == 0 && program.data[2] == 0 && program.data[3] == 0 ==> {
            let r = programdata_of(program);
            let other = Err::<Option<Seq<u8>>, EbpfError>(
                rejected(InstructionError::MissingAccount),
            );
            let unreadable = Err::<Option<Seq<u8>>, EbpfError>(
                rejected(InstructionError::InvalidAccountData),
            );
            &&& program.data[0] == 0 ==> r == other
            &&& program.data[0] == 1 && program.data.len() == 4 ==> r == unreadable
            &&& program.data[0] == 1 && program.data.len() >= 5 && program.data[4] == 0 ==> r
                == other
            &&& program.data[0] == 2 && program.data.len() < 36 ==> r == unreadable
            &&& program.data[0] == 3 && program.data.len() < 13 ==> r == unreadable
            &&& program.data[0] == 3 && program.data.len() >= 45 && program.data[12] == 1 ==> r
                == other
            &&& program.data[0] > 3 ==> r == unreadable
        },
{
    if program.data.len() >= 4 {
        let tag = program.data.take(4);
        assert(tag[0] == program.data[0] && tag[1] == program.data[1]);
        assert(tag[2] == program.data[2] && tag[3] == program.data[3]);
        assert(program.data[0] == 0 && program.data[1] == 0 && program.data[2] == 0
            && program.data[3] == 0 ==> tag =~= seq![0u8, 0u8, 0, 0]);
        assert(program.data[0] == 1 && program.data[1] == 0 && program.data[2] == 0
            && program.data[3] == 0 ==> tag =~= seq![1u8, 0u8, 0, 0]);
        assert(program.data[0] == 3 && program.data[1] == 0 && program.data[2] == 0
            && program.data[3] == 0 ==> tag =~= seq![3u8, 0u8, 0, 0]);
        assert(seq![0u8, 0u8, 0, 0][0] == 0 && seq![1u8, 0u8, 0, 0][0] == 1);
        assert(seq![2u8, 0u8, 0, 0][0] == 2 && seq![3u8, 0u8, 0, 0][0] == 3);
    }
    if program.data.len() >= 36 && program.data[0] == 2 && program.data[1] == 0 && program.data[2]
        == 0 && program.data[3] == 0 {
        assert(program.data.take(4) =~= seq![2u8, 0u8, 0, 0]);
    }
}

/// Law: the contents of a call, at each of its stages, are those of its fields.
pub proof fn law_contents_of_calls_are_those_of_the_fields(
    pending: PendingCall,
    selected: SelectedCall,
    executable: ExecutableAccount,
)
    ensures
        pending@.instruction == pending.instruction@,
        pending@.message == pending.message@,
        selected@.refs == selected.refs@,
        selected@.accounts.len() == selected.accounts@.len(),
        forall|i: int|
            0 <= i < selected.accounts@.len() ==> #[trigger] selected@.accounts[i]
                == selected.accounts@[i]@,
        selected@.program_account == selected.program_account@,
        selected.programdata_address is None <==> selected@.programdata_address is None,
        selected.programdata_address is Some ==> selected@.programdata_address == Some(
            selected.programdata_address->0.bytes@,
        ),
        executable@.0 == executable.key.bytes@,
        executable@.1 == executable.account@,
{
}

} // verus!
