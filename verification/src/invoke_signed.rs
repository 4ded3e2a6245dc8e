//! How programs lay out what they pass to a cross-program invocation, in Rust and in C.
use crate::error::{
    refused, reject, rejected, EbpfError, InstructionError, PubkeyError, SyscallError,
};
use crate::guest::{
    first_error, list_error, pointer_error, read_byte_string, read_byte_strings, view_result,
    window, Window,
};
use crate::instruction::{
    check_instruction_size, size_result, views, AccountMeta, Instruction, InstructionView,
    KeyPrivileges, KeyedAccount,
};
use crate::memory::{
    bytes_at, flag_at, host_address, translate, translate_slice, translate_type, u64_at, u64_bytes,
    HostMemory, MemoryRegion,
};
use crate::memory::{lemma_host_address_in_memory, lemma_word_has_its_bytes};
use crate::pubkey::{
    create_program_address, derived_address, derives, law_addresses_are_derived, program_address,
    Pubkey, MAX_SEEDS,
};
use vstd::prelude::*;

verus! {

/// Maximum signers
pub const MAX_SIGNERS: usize = 16;

/// An account as a callee receives it.
#[derive(Debug)]
pub struct Account {
    pub lamports: u64,
    pub data: Vec<u8>,
    pub owner: Pubkey,
    pub executable: bool,
    pub rent_epoch: u64,
}

/// Contents of an account.
pub struct AccountView {
    pub lamports: u64,
    pub data: Seq<u8>,
    pub owner: Seq<u8>,
    pub executable: bool,
    pub rent_epoch: u64,
}

impl View for Account {
    type V = AccountView;

    open spec fn view(&self) -> AccountView {
        AccountView {
            lamports: self.lamports,
            data: self.data@,
            owner: self.owner@,
            executable: self.executable,
            rent_epoch: self.rent_epoch,
        }
    }
}

/// Where the caller keeps an account: host addresses, but for `vm_data_addr`.
#[derive(Debug, Clone, Copy, PartialEq, Eq, Structural)]
pub struct AccountReferences {
    pub lamports: u64,
    pub owner: u64,
    pub data: u64,
    /// Number of bytes at `data`.
    pub data_len: u64,
    /// Virtual address of the data.
    pub vm_data_addr: u64,
    /// The length that the caller's own account holds.
    pub ref_to_len_in_vm: u64,
    /// The length in front of the data, in the caller's input.
    pub serialized_len_ptr: u64,
}

impl AccountReferences {
    /// Whether all that is referred to lies in a memory of `size` bytes.
    pub open spec fn fit(self, size: int) -> bool {
        &&& self.lamports + 8 <= size
        &&& self.owner + 32 <= size
        &&& self.data + self.data_len <= size
        &&& self.ref_to_len_in_vm + 8 <= size
        &&& self.serialized_len_ptr + 8 <= size
    }
}

/// Whether a host address lies in one of the places where the caller keeps an account.
pub open spec fn in_places(refs: AccountReferences, i: int) -> bool {
    ||| refs.lamports <= i < refs.lamports + 8
    ||| refs.owner <= i < refs.owner + 32
    ||| refs.data <= i < refs.data + refs.data_len
    ||| refs.ref_to_len_in_vm <= i < refs.ref_to_len_in_vm + 8
    ||| refs.serialized_len_ptr <= i < refs.serialized_len_ptr + 8
}

/// Whether a memory holds an account at the places that are referred to.
pub open spec fn holds_account(
    memory: Seq<u8>,
    refs: AccountReferences,
    account: AccountView,
) -> bool {
    &&& account.lamports == u64_at(memory, refs.lamports as int)
    &&& account.owner == bytes_at(memory, refs.owner as int, 32)
    &&& account.data == bytes_at(memory, refs.data as int, refs.data_len as int)
}

/// An account of the caller with the places where it is kept.
pub struct TranslatedAccount {
    pub account: Account,
    pub refs: AccountReferences,
}

impl View for TranslatedAccount {
    type V = (AccountView, AccountReferences);

    open spec fn view(&self) -> (AccountView, AccountReferences) {
        (self.account@, self.refs)
    }
}

/// Accounts for a callee, with the places where the caller keeps them, if it does.
pub struct TranslatedAccounts {
    pub accounts: Vec<Account>,
    pub refs: Vec<Option<AccountReferences>>,
}

/// Contents of translated accounts.
pub struct TranslatedAccountsView {
    pub accounts: Seq<AccountView>,
    pub refs: Seq<Option<AccountReferences>>,
}

impl View for TranslatedAccounts {
    type V = TranslatedAccountsView;

    open spec fn view(&self) -> TranslatedAccountsView {
        TranslatedAccountsView { accounts: views(self.accounts@), refs: self.refs@ }
    }
}

/// An address displaced by a number of bytes; addresses wrap around.
pub open spec fn displaced(addr: u64, by: int) -> u64 {
    ((addr + by) % 0x1_0000_0000_0000_0000) as u64
}

/// Implemented by language specific data structure translators
pub trait SyscallInvokeSigned: Sized {
    /// The accounts that were passed to the calling program.
    spec fn callers(&self) -> Seq<KeyPrivileges>;

    /// The loader of the calling program.
    spec fn loader(&self) -> Pubkey;

    /// The instruction at a virtual address.
    spec fn instruction_at(ro: Window, addr: u64, max_size: u64) -> Result<
        InstructionView,
        EbpfError,
    >;

    /// Host address of a list of accounts.
    spec fn infos_at(ro: Window, addr: u64, len: u64) -> Result<u64, EbpfError>;

    /// Whether a list of accounts that was found lies in a memory of `size` bytes.
    spec fn infos_fit(addr: u64, infos: u64, len: u64, size: int) -> bool;

    /// Virtual address of the key of the `i`-th account of a list.
    spec fn info_key_at(memory: Seq<u8>, infos: u64, i: int) -> u64;

    /// The `i`-th account of a list at virtual address `addr` and host address `infos`.
    spec fn account_at(ro: Window, rw: Window, addr: u64, infos: u64, i: int) -> Result<
        (AccountView, AccountReferences),
        EbpfError,
    >;

    /// The accounts that were passed to the calling program.
    fn get_callers_keyed_accounts(&self) -> (r: &[KeyedAccount])
        ensures
            views(r@) == self.callers(),
    ;

    /// The loader of the calling program.
    fn get_loader_id(&self) -> (r: &Pubkey)
        ensures
            *r == self.loader(),
    ;

    /// Reads an instruction, if it is not larger than `max_size`.
    fn translate_instruction(
        &self,
        addr: u64,
        max_size: u64,
        ro_regions: &[MemoryRegion],
        memory: &HostMemory,
    ) -> (r: Result<Instruction, EbpfError>)
        requires
            window(ro_regions, &self.loader(), memory).is_valid(),
        ensures
            view_result(r) == Self::instruction_at(
                window(ro_regions, &self.loader(), memory),
                addr,
                max_size,
            ),
    ;

    /// Finds a list of accounts.
    fn translate_infos(
        &self,
        addr: u64,
        len: u64,
        ro_regions: &[MemoryRegion],
        memory: &HostMemory,
    ) -> (r: Result<u64, EbpfError>)
        requires
            window(ro_regions, &self.loader(), memory).is_valid(),
        ensures
            r == Self::infos_at(window(ro_regions, &self.loader(), memory), addr, len),
            r is Ok ==> Self::infos_fit(addr, r->Ok_0, len, memory@.len() as int),
    ;

    /// Reads the virtual address of the key of an account.
    fn info_key(&self, addr: u64, infos: u64, len: u64, i: u64, memory: &HostMemory) -> (r: u64)
        requires
            i < len,
            Self::infos_fit(addr, infos, len, memory@.len() as int),
        ensures
            r == Self::info_key_at(memory@, infos, i as int),
    ;

    /// Reads an account of a list, and finds where its parts are kept.
    fn translate_account(
        &self,
        addr: u64,
        infos: u64,
        len: u64,
        i: u64,
        ro_regions: &[MemoryRegion],
        rw_regions: &[MemoryRegion],
        memory: &HostMemory,
    ) -> (r: Result<TranslatedAccount, EbpfError>)
        requires
            i < len,
            Self::infos_fit(addr, infos, len, memory@.len() as int),
            window(ro_regions, &self.loader(), memory).is_valid(),
            window(rw_regions, &self.loader(), memory).is_valid(),
        ensures
            view_result(r) == Self::account_at(
                window(ro_regions, &self.loader(), memory),
                window(rw_regions, &self.loader(), memory),
                addr,
                infos,
                i as int,
            ),
            r is Ok ==> r->Ok_0.refs.fit(memory@.len() as int) && holds_account(
                memory@,
                r->Ok_0.refs,
                r->Ok_0.account@,
            ),
    ;
}

/// A list of accounts: its virtual address, its host address and its length.
pub struct AccountList {
    pub addr: u64,
    pub infos: u64,
    pub len: u64,
}

/// The first account of a list that has a key, from `from` on.
pub open spec fn account_with_key<S: SyscallInvokeSigned>(
    ro: Window,
    rw: Window,
    list: AccountList,
    key: Seq<u8>,
    from: int,
) -> Result<(AccountView, AccountReferences), EbpfError>
    decreases list.len - from,
{
    if from >= list.len {
        Err(rejected(InstructionError::MissingAccount))
    } else {
        match ro.value(S::info_key_at(ro.memory, list.infos, from), 32, 1) {
            Err(e) => Err(e),
            Ok(at) => if ro.bytes(at as int, 32) == key {
                S::account_at(ro, rw, list.addr, list.infos, from)
            } else {
                account_with_key::<S>(ro, rw, list, key, from + 1)
            },
        }
    }
}

/// The accounts with the first `n` keys, without the skipped one, if all of them are found; else
/// the error of the first that is not.
pub open spec fn accounts_with_keys<S: SyscallInvokeSigned>(
    ro: Window,
    rw: Window,
    list: AccountList,
    keys: Seq<Seq<u8>>,
    skip: Option<u64>,
    n: nat,
) -> Result<TranslatedAccountsView, EbpfError>
    decreases n,
{
    if n == 0 {
        Ok(TranslatedAccountsView { accounts: seq![], refs: seq![] })
    } else {
        match accounts_with_keys::<S>(ro, rw, list, keys, skip, (n - 1) as nat) {
            Err(e) => Err(e),
            Ok(before) => if skip is Some && skip->0 == n - 1 {
                Ok(before)
            } else {
                match account_with_key::<S>(ro, rw, list, keys[n - 1], 0) {
                    Err(e) => Err(e),
                    Ok(found) => Ok(
                        TranslatedAccountsView {
                            accounts: before.accounts.push(found.0),
                            refs: before.refs.push(Some(found.1)),
                        },
                    ),
                }
            },
        }
    }
}

/// The first account that is not found decides.
proof fn lemma_accounts_error<S: SyscallInvokeSigned>(
    ro: Window,
    rw: Window,
    list: AccountList,
    keys: Seq<Seq<u8>>,
    skip: Option<u64>,
    k: nat,
    n: nat,
)
    requires
        k <= n,
        accounts_with_keys::<S>(ro, rw, list, keys, skip, k) is Err,
    ensures
        accounts_with_keys::<S>(ro, rw, list, keys, skip, n) == accounts_with_keys::<S>(
            ro,
            rw,
            list,
            keys,
            skip,
            k,
        ),
    decreases n,
{
    if k < n {
        lemma_accounts_error::<S>(ro, rw, list, keys, skip, k, (n - 1) as nat);
    }
}

/// The position that is left out.
pub open spec fn skipped(skip_program: bool, program_account_index: u64) -> Option<u64> {
    if skip_program {
        Some(program_account_index)
    } else {
        None
    }
}

/// What reading the accounts for a callee comes to.
pub open spec fn translated_accounts<S: SyscallInvokeSigned>(
    ro: Window,
    rw: Window,
    keys: Seq<Seq<u8>>,
    skip: Option<u64>,
    addr: u64,
    len: u64,
) -> Result<TranslatedAccountsView, EbpfError> {
    match S::infos_at(ro, addr, len) {
        Err(e) => Err(e),
        Ok(infos) => accounts_with_keys::<S>(
            ro,
            rw,
            AccountList { addr, infos, len },
            keys,
            skip,
            keys.len(),
        ),
    }
}

/// Whether all references lie in a memory of `size` bytes.
pub open spec fn refs_fit(refs: Seq<Option<AccountReferences>>, size: int) -> bool {
    forall|i: int| 0 <= i < refs.len() ==> (#[trigger] refs[i] is Some ==> refs[i]->0.fit(size))
}

/// Whether a memory holds all accounts at the places that are referred to.
pub open spec fn holds_accounts(memory: Seq<u8>, t: TranslatedAccountsView) -> bool {
    forall|i: int|
        0 <= i < t.accounts.len() && i < t.refs.len() && #[trigger] t.refs[i] is Some
            ==> holds_account(memory, t.refs[i]->0, t.accounts[i])
}

/// Number of the positions below `n` that are not left out.
pub open spec fn count_without(n: nat, skip: Option<u64>) -> nat {
    if skip is Some && skip->0 < n {
        (n - 1) as nat
    } else {
        n
    }
}

/// The address that a program derives from the seeds at a virtual address.
pub open spec fn signer_at(ro: Window, program_id: Seq<u8>, addr: u64, len: u64) -> Result<
    Seq<u8>,
    EbpfError,
> {
    match ro.values(addr, len, 16, 8) {
        Err(e) => Err(e),
        Ok(at) => if len > MAX_SEEDS {
            Err(rejected(InstructionError::MaxSeedLengthExceeded))
        } else {
            match ro.byte_strings(at as int, len as nat) {
                Err(e) => Err(e),
                Ok(seeds) => match program_address(seeds, program_id) {
                    Err(e) => Err(refused(SyscallError::BadSeeds(e))),
                    Ok(address) => Ok(address),
                },
            }
        },
    }
}

/// The addresses that a program derives from the first `n` lists of seeds, if it derives all of
/// them; else the error of the first that it does not.
pub open spec fn signers_at(ro: Window, program_id: Seq<u8>, at: int, n: nat) -> Result<
    Seq<Seq<u8>>,
    EbpfError,
>
    decreases n,
{
    if n == 0 {
        Ok(seq![])
    } else {
        match signers_at(ro, program_id, at, (n - 1) as nat) {
            Err(e) => Err(e),
            Ok(before) => match signer_at(
                ro,
                program_id,
                ro.word(at + 16 * (n - 1)),
                ro.word(at + 16 * (n - 1) + 8),
            ) {
                Err(e) => Err(e),
                Ok(signer) => Ok(before.push(signer)),
            },
        }
    }
}

/// The first signer that is not derived decides.
proof fn lemma_signers_error(ro: Window, program_id: Seq<u8>, at: int, k: nat, n: nat)
    requires
        k <= n,
        signers_at(ro, program_id, at, k) is Err,
    ensures
        signers_at(ro, program_id, at, n) == signers_at(ro, program_id, at, k),
    decreases n,
{
    if k < n {
        lemma_signers_error(ro, program_id, at, k, (n - 1) as nat);
    }
}

/// What deriving the addresses that a program signs for comes to.
pub open spec fn translated_signers(ro: Window, program_id: Seq<u8>, addr: u64, len: u64) -> Result<
    Seq<Seq<u8>>,
    EbpfError,
> {
    if len == 0 {
        Ok(seq![])
    } else {
        match ro.values(addr, len, 16, 8) {
            Err(e) => Err(e),
            Ok(at) => if len > MAX_SIGNERS {
                Err(refused(SyscallError::TooManySigners))
            } else {
                signers_at(ro, program_id, at as int, len as nat)
            },
        }
    }
}

/// Derives one address that the calling program signs for.
fn translate_signer(
    program_id: &Pubkey,
    addr: u64,
    len: u64,
    ro_regions: &[MemoryRegion],
    loader_id: &Pubkey,
    memory: &HostMemory,
) -> (r: Result<Pubkey, EbpfError>)
    requires
        window(ro_regions, loader_id, memory).is_valid(),
    ensures
        view_result(r) == signer_at(
            window(ro_regions, loader_id, memory),
            program_id@,
            addr,
            len,
        ),
{
    let at: u64 = translate_slice(addr, len, 16, 8, ro_regions, loader_id, memory)?;
    if len > MAX_SEEDS {
        return Err(reject(InstructionError::MaxSeedLengthExceeded));
    }
    let seeds = read_byte_strings(at, len, ro_regions, loader_id, memory)?;
    signer_of(create_program_address(&seeds, program_id))
}

/// The signer that deriving an address has given.
pub fn signer_of(created: Result<Pubkey, PubkeyError>) -> (r: Result<Pubkey, EbpfError>)
    ensures
        match created {
            Ok(address) => r == Ok::<Pubkey, EbpfError>(address),
            Err(e) => r == Err::<Pubkey, EbpfError>(refused(SyscallError::BadSeeds(e))),
        },
{
    match created {
        Ok(address) => Ok(address),
        Err(e) => Err(EbpfError::from(SyscallError::BadSeeds(e))),
    }
}

/// Reads the account with a key: the first one of the list that has it.
fn find_account<S: SyscallInvokeSigned>(
    syscall: &S,
    key: &Pubkey,
    addr: u64,
    infos: u64,
    len: u64,
    ro_regions: &[MemoryRegion],
    rw_regions: &[MemoryRegion],
    memory: &HostMemory,
) -> (r: Result<TranslatedAccount, EbpfError>)
    requires
        S::infos_fit(addr, infos, len, memory@.len() as int),
        window(ro_regions, &syscall.loader(), memory).is_valid(),
        window(rw_regions, &syscall.loader(), memory).is_valid(),
    ensures
        view_result(r) == account_with_key::<S>(
            window(ro_regions, &syscall.loader(), memory),
            window(rw_regions, &syscall.loader(), memory),
            AccountList { addr, infos, len },
            key@,
            0,
        ),
        r is Ok ==> r->Ok_0.refs.fit(memory@.len() as int) && holds_account(
            memory@,
            r->Ok_0.refs,
            r->Ok_0.account@,
        ),
{
    let ghost ro = window(ro_regions, &syscall.loader(), memory);
    let ghost rw = window(rw_regions, &syscall.loader(), memory);
    let ghost list = AccountList { addr, infos, len };
    let mut i: u64 = 0;
    while i < len
        invariant
            i <= len,
            ro == window(ro_regions, &syscall.loader(), memory),
            rw == window(rw_regions, &syscall.loader(), memory),
            list == (AccountList { addr, infos, len }),
            S::infos_fit(addr, infos, len, memory@.len() as int),
            ro.is_valid(),
            rw.is_valid(),
            account_with_key::<S>(ro, rw, list, key@, 0) == account_with_key::<S>(
                ro,
                rw,
                list,
                key@,
                i as int,
            ),
        decreases len - i,
    {
        let at: u64 = translate_type(
            syscall.info_key(addr, infos, len, i, memory),
            32,
            1,
            ro_regions,
            syscall.get_loader_id(),
            memory,
        )?;
        if memory.read_pubkey(at).has_bytes(&key.bytes) {
            return syscall.translate_account(
                addr,
                infos,
                len,
                i,
                ro_regions,
                rw_regions,
                memory,
            );
        }
        i = i + 1;
    }
    Err(reject(InstructionError::MissingAccount))
}

/// Reads the accounts with the given keys, without that of the program if it is skipped.
pub fn translate_accounts<S: SyscallInvokeSigned>(
    syscall: &S,
    skip_program: bool,
    account_keys: &[Pubkey],
    program_account_index: u64,
    account_infos_addr: u64,
    account_infos_len: u64,
    ro_regions: &[MemoryRegion],
    rw_regions: &[MemoryRegion],
    memory: &HostMemory,
) -> (r: Result<TranslatedAccounts, EbpfError>)
    requires
        window(ro_regions, &syscall.loader(), memory).is_valid(),
        window(rw_regions, &syscall.loader(), memory).is_valid(),
    ensures
        view_result(r) == translated_accounts::<S>(
            window(ro_regions, &syscall.loader(), memory),
            window(rw_regions, &syscall.loader(), memory),
            views(account_keys@),
            skipped(skip_program, program_account_index),
            account_infos_addr,
            account_infos_len,
        ),
        r is Ok ==> refs_fit(r->Ok_0.refs@, memory@.len() as int) && holds_accounts(
            memory@,
            r->Ok_0@,
        ),
        r is Ok ==> r->Ok_0.accounts@.len() == count_without(
            account_keys@.len(),
            skipped(skip_program, program_account_index),
        ) && r->Ok_0.refs@.len() == r->Ok_0.accounts@.len(),
{
    let infos: u64 = syscall.translate_infos(
        account_infos_addr,
        account_infos_len,
        ro_regions,
        memory,
    )?;
    let ghost ro = window(ro_regions, &syscall.loader(), memory);
    let ghost rw = window(rw_regions, &syscall.loader(), memory);
    let ghost list = AccountList { addr: account_infos_addr, infos, len: account_infos_len };
    let ghost keys = views(account_keys@);
    let ghost skip = skipped(skip_program, program_account_index);
    let mut t = TranslatedAccounts { accounts: Vec::new(), refs: Vec::new() };
    let mut i: usize = 0;
    assert(t@.accounts =~= seq![] && t@.refs =~= seq![]);
    while i < account_keys.len()
        invariant
            i <= account_keys@.len(),
            ro == window(ro_regions, &syscall.loader(), memory),
            rw == window(rw_regions, &syscall.loader(), memory),
            list == (AccountList { addr: account_infos_addr, infos, len: account_infos_len }),
            keys == views(account_keys@),
            skip == skipped(skip_program, program_account_index),
            S::infos_at(ro, account_infos_addr, account_infos_len) == Ok::<_, EbpfError>(infos),
            S::infos_fit(
                account_infos_addr,
                infos,
                account_infos_len,
                memory@.len() as int,
            ),
            ro.is_valid(),
            rw.is_valid(),
            accounts_with_keys::<S>(ro, rw, list, keys, skip, i as nat) == Ok::<
                _,
                EbpfError,
            >(t@),
            refs_fit(t.refs@, memory@.len() as int),
            holds_accounts(memory@, t@),
            t.accounts@.len() == t.refs@.len() == count_without(i as nat, skip),
        decreases account_keys@.len() - i,
    {
        // Don't look for caller passed executable, runtime already has it
        if !(skip_program && i as u64 == program_account_index) {
            match find_account(
                syscall,
                &account_keys[i],
                account_infos_addr,
                infos,
                account_infos_len,
                ro_regions,
                rw_regions,
                memory,
            ) {
                Ok(found) => {
                    let ghost before = t@;
                    t.accounts.push(found.account);
                    t.refs.push(Some(found.refs));
                    assert(t@.accounts =~= before.accounts.push(found.account@));
                },
                Err(e) => {
                    proof {
                        lemma_accounts_error::<S>(
                            ro,
                            rw,
                            list,
                            keys,
                            skip,
                            (i + 1) as nat,
                            keys.len(),
                        );
                    }
                    return Err(e);
                },
            }
        }
        i = i + 1;
    }
    Ok(t)
}

/// Derives the addresses that the calling program signs for. A slice of slices in Rust and
/// the seeds of a signer in C are laid out alike: pairs of a pointer and a length.
pub fn translate_signers(
    program_id: &Pubkey,
    signers_seeds_addr: u64,
    signers_seeds_len: u64,
    ro_regions: &[MemoryRegion],
    loader_id: &Pubkey,
    memory: &HostMemory,
) -> (r: Result<Vec<Pubkey>, EbpfError>)
    requires
        window(ro_regions, loader_id, memory).is_valid(),
    ensures
        match r {
            Ok(signers) => translated_signers(
                window(ro_regions, loader_id, memory),
                program_id@,
                signers_seeds_addr,
                signers_seeds_len,
            ) == Ok::<_, EbpfError>(views(signers@)),
            Err(e) => translated_signers(
                window(ro_regions, loader_id, memory),
                program_id@,
                signers_seeds_addr,
                signers_seeds_len,
            ) == Err::<Seq<Seq<u8>>, EbpfError>(e),
        },
{
    let mut signers: Vec<Pubkey> = Vec::new();
    assert(views(signers@) =~= seq![]);
    if signers_seeds_len == 0 {
        return Ok(signers);
    }
    let at: u64 = translate_slice(
        signers_seeds_addr,
        signers_seeds_len,
        16,
        8,
        ro_regions,
        loader_id,
        memory,
    )?;
    if signers_seeds_len > MAX_SIGNERS as u64 {
        return Err(EbpfError::from(SyscallError::TooManySigners));
    }
    let ghost ro = window(ro_regions, loader_id, memory);
    let mut i: u64 = 0;
    while i < signers_seeds_len
        invariant
            i <= signers_seeds_len,
            0 < signers_seeds_len <= MAX_SIGNERS,
            ro.values(signers_seeds_addr, signers_seeds_len, 16, 8) == Ok::<_, EbpfError>(at),
            at + signers_seeds_len * 16 <= memory@.len(),
            ro == window(ro_regions, loader_id, memory),
            ro.is_valid(),
            signers_at(ro, program_id@, at as int, i as nat) == Ok::<_, EbpfError>(
                views(signers@),
            ),
        decreases signers_seeds_len - i,
    {
        assert(memory.bytes.len() <= usize::MAX);
        match translate_signer(
            program_id,
            memory.read_u64(at + 16 * i),
            memory.read_u64(at + 16 * i + 8),
            ro_regions,
            loader_id,
            memory,
        ) {
            Ok(signer) => {
                let ghost before = views(signers@);
                signers.push(signer);
                assert(views(signers@) =~= before.push(signer@));
            },
            Err(e) => {
                proof {
                    lemma_signers_error(
                        ro,
                        program_id@,
                        at as int,
                        (i + 1) as nat,
                        signers_seeds_len as nat,
                    );
                }
                return Err(e);
            },
        }
        i = i + 1;
    }
    Ok(signers)
}

/// Cross-program invocation called from Rust
#[derive(Debug, Clone, Copy)]
pub struct SyscallInvokeSignedRust<'a> {
    pub callers_keyed_accounts: &'a [KeyedAccount],
    pub loader_id: &'a Pubkey,
}

/// The account that an instruction in Rust names at a host address: the address, then whether it
/// signs and whether it is writable.
pub open spec fn rust_meta_at(memory: Seq<u8>, at: int) -> KeyPrivileges {
    KeyPrivileges {
        key: bytes_at(memory, at, 32),
        is_signer: flag_at(memory, at + 32),
        is_writable: flag_at(memory, at + 33),
    }
}

/// The accounts that an instruction in Rust names.
pub open spec fn rust_metas_at(memory: Seq<u8>, at: int, n: nat) -> Seq<KeyPrivileges> {
    Seq::new(n, |i: int| rust_meta_at(memory, at + 34 * i))
}

/// Reads the accounts that an instruction in Rust names.
fn read_rust_metas(at: u64, n: u64, memory: &HostMemory) -> (r: Vec<AccountMeta>)
    requires
        at + n * 34 <= memory@.len(),
    ensures
        views(r@) == rust_metas_at(memory@, at as int, n as nat),
{
    let mut metas: Vec<AccountMeta> = Vec::new();
    let mut i: u64 = 0;
    while i < n
        invariant
            i <= n,
            at + n * 34 <= memory@.len(),
            views(metas@) == rust_metas_at(memory@, at as int, i as nat),
        decreases n - i,
    {
        assert(memory.bytes.len() <= usize::MAX);
        let here: u64 = at + 34 * i;
        let ghost before = views(metas@);
        metas.push(
            AccountMeta {
                pubkey: memory.read_pubkey(here),
                is_signer: memory.read_flag(here + 32),
                is_writable: memory.read_flag(here + 33),
            },
        );
        assert(views(metas@) =~= before.push(rust_meta_at(memory@, here as int)));
        assert(views(metas@) =~= rust_metas_at(memory@, at as int, (i + 1) as nat));
        i = i + 1;
    }
    metas
}

impl<'a> SyscallInvokeSigned for SyscallInvokeSignedRust<'a> {
    open spec fn callers(&self) -> Seq<KeyPrivileges> {
        views(self.callers_keyed_accounts@)
    }

    open spec fn loader(&self) -> Pubkey {
        *self.loader_id
    }

    /// A vector is its pointer, its capacity and its length. The accounts come first, then the
    /// data, then the program.
    open spec fn instruction_at(ro: Window, addr: u64, max_size: u64) -> Result<
        InstructionView,
        EbpfError,
    > {
        match ro.value(addr, 80, 8) {
            Err(e) => Err(e),
            Ok(at) => {
                let accounts_len = ro.word(at + 16);
                let data_len = ro.word(at + 40);
                match size_result(accounts_len, data_len, max_size) {
                    Err(e) => Err(e),
                    Ok(_) => match ro.values(ro.word(at as int), accounts_len, 34, 1) {
                        Err(e) => Err(e),
                        Ok(metas) => match ro.byte_string(ro.word(at + 24), data_len) {
                            Err(e) => Err(e),
                            Ok(data) => Ok(
                                InstructionView {
                                    program_id: ro.bytes(at + 48, 32),
                                    accounts: rust_metas_at(
                                        ro.memory,
                                        metas as int,
                                        accounts_len as nat,
                                    ),
                                    data,
                                },
                            ),
                        },
                    },
                }
            },
        }
    }

    /// No account needs no memory.
    open spec fn infos_at(ro: Window, addr: u64, len: u64) -> Result<u64, EbpfError> {
        if len > 0 {
            ro.values(addr, len, 48, 8)
        } else {
            Ok(0)
        }
    }

    open spec fn infos_fit(addr: u64, infos: u64, len: u64, size: int) -> bool {
        infos + len * 48 <= size
    }

    open spec fn info_key_at(memory: Seq<u8>, infos: u64, i: int) -> u64 {
        u64_at(memory, infos + 48 * i)
    }

    /// The lamports and the data are shared cells: behind two counts and a borrow flag stands
    /// the pointer to the value.
    open spec fn account_at(ro: Window, rw: Window, addr: u64, infos: u64, i: int) -> Result<
        (AccountView, AccountReferences),
        EbpfError,
    > {
        let at = infos + 48 * i;
        let data_cell = displaced(ro.word(at + 16), 24);
        match ro.value(displaced(ro.word(at + 8), 24), 8, 8) {
            Err(e) => Err(e),
            Ok(lamports_cell) => match rw.value(ro.word(lamports_cell as int), 8, 8) {
                Err(e) => Err(e),
                Ok(lamports) => match rw.value(ro.word(at + 24), 32, 1) {
                    Err(e) => Err(e),
                    Ok(owner) => match ro.value(data_cell, 16, 8) {
                        Err(e) => Err(e),
                        Ok(slice) => {
                            let vm_data_addr = ro.word(slice as int);
                            let data_len = ro.word(slice + 8);
                            match rw.span(displaced(data_cell, 8), 8) {
                                Err(e) => Err(e),
                                Ok(ref_to_len_in_vm) => match rw.value(
                                    displaced(vm_data_addr, -8),
                                    8,
                                    8,
                                ) {
                                    Err(e) => Err(e),
                                    Ok(serialized_len_ptr) => match rw.values(
                                        vm_data_addr,
                                        data_len,
                                        1,
                                        1,
                                    ) {
                                        Err(e) => Err(e),
                                        Ok(data) => Ok(
                                            (
                                                AccountView {
                                                    lamports: rw.word(lamports as int),
                                                    data: rw.bytes(data as int, data_len as int),
                                                    owner: rw.bytes(owner as int, 32),
                                                    executable: ro.flag(at + 42),
                                                    rent_epoch: ro.word(at + 32),
                                                },
                                                AccountReferences {
                                                    lamports,
                                                    owner,
                                                    data,
                                                    data_len,
                                                    vm_data_addr,
                                                    ref_to_len_in_vm,
                                                    serialized_len_ptr,
                                                },
                                            ),
                                        ),
                                    },
                                },
                            }
                        },
                    },
                },
            },
        }
    }

    fn get_callers_keyed_accounts(&self) -> (r: &[KeyedAccount]) {
        self.callers_keyed_accounts
    }

    fn get_loader_id(&self) -> (r: &Pubkey) {
        self.loader_id
    }

    fn translate_instruction(
        &self,
        addr: u64,
        max_size: u64,
        ro_regions: &[MemoryRegion],
        memory: &HostMemory,
    ) -> (r: Result<Instruction, EbpfError>) {
        let ix: u64 = translate_type(addr, 80, 8, ro_regions, self.loader_id, memory)?;
        let accounts_addr: u64 = memory.read_u64(ix);
        let accounts_len: u64 = memory.read_u64(ix + 16);
        let data_addr: u64 = memory.read_u64(ix + 24);
        let data_len: u64 = memory.read_u64(ix + 40);
        check_instruction_size(accounts_len, data_len, max_size)?;
        let metas: u64 = translate_slice(
            accounts_addr,
            accounts_len,
            34,
            1,
            ro_regions,
            self.loader_id,
            memory,
        )?;
        let accounts = read_rust_metas(metas, accounts_len, memory);
        let data = read_byte_string(data_addr, data_len, ro_regions, self.loader_id, memory)?;
        Ok(Instruction { program_id: memory.read_pubkey(ix + 48), accounts, data })
    }

    fn translate_infos(
        &self,
        addr: u64,
        len: u64,
        ro_regions: &[MemoryRegion],
        memory: &HostMemory,
    ) -> (r: Result<u64, EbpfError>) {
        if len > 0 {
            translate_slice(addr, len, 48, 8, ro_regions, self.loader_id, memory)
        } else {
            Ok(0)
        }
    }

    fn info_key(&self, addr: u64, infos: u64, len: u64, i: u64, memory: &HostMemory) -> (r: u64) {
        assert(memory.bytes.len() <= usize::MAX);
        memory.read_u64(infos + 48 * i)
    }

    fn translate_account(
        &self,
        addr: u64,
        infos: u64,
        len: u64,
        i: u64,
        ro_regions: &[MemoryRegion],
        rw_regions: &[MemoryRegion],
        memory: &HostMemory,
    ) -> (r: Result<TranslatedAccount, EbpfError>) {
        let info: u64 = infos + 48 * i;
        // Double translate lamports out of RefCell
        let lamports_cell: u64 = translate_type(
            memory.read_u64(info + 8).wrapping_add(24),
            8,
            8,
            ro_regions,
            self.loader_id,
            memory,
        )?;
        let lamports: u64 = translate_type(
            memory.read_u64(lamports_cell),
            8,
            8,
            rw_regions,
            self.loader_id,
            memory,
        )?;
        let owner: u64 = translate_type(
            memory.read_u64(info + 24),
            32,
            1,
            rw_regions,
            self.loader_id,
            memory,
        )?;
        // Double translate data out of RefCell
        let data_cell: u64 = memory.read_u64(info + 16).wrapping_add(24);
        let slice: u64 = translate_type(data_cell, 16, 8, ro_regions, self.loader_id, memory)?;
        let vm_data_addr: u64 = memory.read_u64(slice);
        let data_len: u64 = memory.read_u64(slice + 8);
        let ref_to_len_in_vm: u64 = translate(data_cell.wrapping_add(8), 8, rw_regions, memory)?;
        let serialized_len_ptr: u64 = translate_type(
            vm_data_addr.wrapping_sub(8),
            8,
            8,
            rw_regions,
            self.loader_id,
            memory,
        )?;
        let data: u64 = translate_slice(
            vm_data_addr,
            data_len,
            1,
            1,
            rw_regions,
            self.loader_id,
            memory,
        )?;
        Ok(
            TranslatedAccount {
                account: Account {
                    lamports: memory.read_u64(lamports),
                    data: memory.read_bytes(data, data_len),
                    owner: memory.read_pubkey(owner),
                    executable: memory.read_flag(info + 42),
                    rent_epoch: memory.read_u64(info + 32),
                },
                refs: AccountReferences {
                    lamports,
                    owner,
                    data,
                    data_len,
                    vm_data_addr,
                    ref_to_len_in_vm,
                    serialized_len_ptr,
                },
            },
        )
    }
}

/// Cross-program invocation called from C
#[derive(Debug, Clone, Copy)]
pub struct SyscallInvokeSignedC<'a> {
    pub callers_keyed_accounts: &'a [KeyedAccount],
    pub loader_id: &'a Pubkey,
}

/// The accounts that an instruction in C names: pointers to their addresses, then whether they
/// are writable and whether they sign. The first address that cannot be read decides.
pub open spec fn c_metas_at(ro: Window, at: int, n: nat) -> Result<Seq<KeyPrivileges>, EbpfError>
    decreases n,
{
    if n == 0 {
        Ok(seq![])
    } else {
        let here = at + 16 * (n - 1);
        match c_metas_at(ro, at, (n - 1) as nat) {
            Err(e) => Err(e),
            Ok(before) => match ro.value(ro.word(here), 32, 1) {
                Err(e) => Err(e),
                Ok(key) => Ok(
                    before.push(
                        KeyPrivileges {
                            key: ro.bytes(key as int, 32),
                            is_signer: ro.flag(here + 9),
                            is_writable: ro.flag(here + 8),
                        },
                    ),
                ),
            },
        }
    }
}

/// The first account that cannot be read decides.
proof fn lemma_c_metas_error(ro: Window, at: int, k: nat, n: nat)
    requires
        k <= n,
        c_metas_at(ro, at, k) is Err,
    ensures
        c_metas_at(ro, at, n) == c_metas_at(ro, at, k),
    decreases n,
{
    if k < n {
        lemma_c_metas_error(ro, at, k, (n - 1) as nat);
    }
}

/// Reads the accounts that an instruction in C names.
fn read_c_metas(
    at: u64,
    n: u64,
    ro_regions: &[MemoryRegion],
    loader_id: &Pubkey,
    memory: &HostMemory,
) -> (r: Result<Vec<AccountMeta>, EbpfError>)
    requires
        window(ro_regions, loader_id, memory).is_valid(),
        at + n * 16 <= memory@.len(),
    ensures
        match r {
            Ok(metas) => c_metas_at(window(ro_regions, loader_id, memory), at as int, n as nat)
                == Ok::<_, EbpfError>(views(metas@)),
            Err(e) => c_metas_at(window(ro_regions, loader_id, memory), at as int, n as nat)
                == Err::<Seq<KeyPrivileges>, EbpfError>(e),
        },
{
    let ghost ro = window(ro_regions, loader_id, memory);
    let mut metas: Vec<AccountMeta> = Vec::new();
    let mut i: u64 = 0;
    assert(views(metas@) =~= seq![]);
    while i < n
        invariant
            i <= n,
            at + n * 16 <= memory@.len(),
            ro == window(ro_regions, loader_id, memory),
            ro.is_valid(),
            c_metas_at(ro, at as int, i as nat) == Ok::<_, EbpfError>(views(metas@)),
        decreases n - i,
    {
        assert(memory.bytes.len() <= usize::MAX);
        let here: u64 = at + 16 * i;
        let key: u64 = match translate_type(
            memory.read_u64(here),
            32,
            1,
            ro_regions,
            loader_id,
            memory,
        ) {
            Ok(key) => key,
            Err(e) => {
                proof {
                    lemma_c_metas_error(ro, at as int, (i + 1) as nat, n as nat);
                }
                return Err(e);
            },
        };
        let ghost before = views(metas@);
        let meta = AccountMeta {
            pubkey: memory.read_pubkey(key),
            is_signer: memory.read_flag(here + 9),
            is_writable: memory.read_flag(here + 8),
        };
        metas.push(meta);
        assert(views(metas@) =~= before.push(meta@));
        i = i + 1;
    }
    Ok(metas)
}

impl<'a> SyscallInvokeSigned for SyscallInvokeSignedC<'a> {
    open spec fn callers(&self) -> Seq<KeyPrivileges> {
        views(self.callers_keyed_accounts@)
    }

    open spec fn loader(&self) -> Pubkey {
        *self.loader_id
    }

    /// Five words: the program's pointer, then pointer and length of the accounts and of the
    /// data.
    open spec fn instruction_at(ro: Window, addr: u64, max_size: u64) -> Result<
        InstructionView,
        EbpfError,
    > {
        match ro.value(addr, 40, 8) {
            Err(e) => Err(e),
            Ok(at) => {
                let accounts_len = ro.word(at + 16);
                let data_len = ro.word(at + 32);
                match size_result(accounts_len, data_len, max_size) {
                    Err(e) => Err(e),
                    Ok(_) => match ro.value(ro.word(at as int), 32, 1) {
                        Err(e) => Err(e),
                        Ok(program_id) => match ro.values(ro.word(at + 8), accounts_len, 16, 8) {
                            Err(e) => Err(e),
                            Ok(metas) => match ro.byte_string(ro.word(at + 24), data_len) {
                                Err(e) => Err(e),
                                Ok(data) => match c_metas_at(
                                    ro,
                                    metas as int,
                                    accounts_len as nat,
                                ) {
                                    Err(e) => Err(e),
                                    Ok(accounts) => Ok(
                                        InstructionView {
                                            program_id: ro.bytes(program_id as int, 32),
                                            accounts,
                                            data,
                                        },
                                    ),
                                },
                            },
                        },
                    },
                }
            },
        }
    }

    open spec fn infos_at(ro: Window, addr: u64, len: u64) -> Result<u64, EbpfError> {
        ro.values(addr, len, 56, 8)
    }

    open spec fn infos_fit(addr: u64, infos: u64, len: u64, size: int) -> bool {
        infos + len * 56 <= size && addr + len * 56 <= u64::MAX
    }

    open spec fn info_key_at(memory: Seq<u8>, infos: u64, i: int) -> u64 {
        u64_at(memory, infos + 56 * i)
    }

    /// The length of the data stands in the list itself: it must be writable there.
    open spec fn account_at(ro: Window, rw: Window, addr: u64, infos: u64, i: int) -> Result<
        (AccountView, AccountReferences),
        EbpfError,
    > {
        let at = infos + 56 * i;
        let data_len = ro.word(at + 16);
        let vm_data_addr = ro.word(at + 24);
        match rw.value(ro.word(at + 8), 8, 8) {
            Err(e) => Err(e),
            Ok(lamports) => match rw.value(ro.word(at + 32), 32, 1) {
                Err(e) => Err(e),
                Ok(owner) => match rw.values(vm_data_addr, data_len, 1, 1) {
                    Err(e) => Err(e),
                    Ok(data) => match rw.span((addr + 56 * i + 16) as u64, 8) {
                        Err(e) => Err(e),
                        Ok(_) => match rw.value(displaced(vm_data_addr, -8), 8, 8) {
                            Err(e) => Err(e),
                            Ok(serialized_len_ptr) => Ok(
                                (
                                    AccountView {
                                        lamports: rw.word(lamports as int),
                                        data: rw.bytes(data as int, data_len as int),
                                        owner: rw.bytes(owner as int, 32),
                                        executable: ro.flag(at + 50),
                                        rent_epoch: ro.word(at + 40),
                                    },
                                    AccountReferences {
                                        lamports,
                                        owner,
                                        data,
                                        data_len,
                                        vm_data_addr,
                                        ref_to_len_in_vm: (at + 16) as u64,
                                        serialized_len_ptr,
                                    },
                                ),
                            ),
                        },
                    },
                },
            },
        }
    }

    fn get_callers_keyed_accounts(&self) -> (r: &[KeyedAccount]) {
        self.callers_keyed_accounts
    }

    fn get_loader_id(&self) -> (r: &Pubkey) {
        self.loader_id
    }

    fn translate_instruction(
        &self,
        addr: u64,
        max_size: u64,
        ro_regions: &[MemoryRegion],
        memory: &HostMemory,
    ) -> (r: Result<Instruction, EbpfError>) {
        let ix_c: u64 = translate_type(addr, 40, 8, ro_regions, self.loader_id, memory)?;
        let accounts_len: u64 = memory.read_u64(ix_c + 16);
        let data_len: u64 = memory.read_u64(ix_c + 32);
        check_instruction_size(accounts_len, data_len, max_size)?;
        let program_id: u64 = translate_type(
            memory.read_u64(ix_c),
            32,
            1,
            ro_regions,
            self.loader_id,
            memory,
        )?;
        let meta_cs: u64 = translate_slice(
            memory.read_u64(ix_c + 8),
            accounts_len,
            16,
            8,
            ro_regions,
            self.loader_id,
            memory,
        )?;
        let data = read_byte_string(
            memory.read_u64(ix_c + 24),
            data_len,
            ro_regions,
            self.loader_id,
            memory,
        )?;
        let accounts = read_c_metas(meta_cs, accounts_len, ro_regions, self.loader_id, memory)?;
        Ok(Instruction { program_id: memory.read_pubkey(program_id), accounts, data })
    }

    fn translate_infos(
        &self,
        addr: u64,
        len: u64,
        ro_regions: &[MemoryRegion],
        memory: &HostMemory,
    ) -> (r: Result<u64, EbpfError>) {
        translate_slice(addr, len, 56, 8, ro_regions, self.loader_id, memory)
    }

    fn info_key(&self, addr: u64, infos: u64, len: u64, i: u64, memory: &HostMemory) -> (r: u64) {
        assert(memory.bytes.len() <= usize::MAX);
        memory.read_u64(infos + 56 * i)
    }

    fn translate_account(
        &self,
        addr: u64,
        infos: u64,
        len: u64,
        i: u64,
        ro_regions: &[MemoryRegion],
        rw_regions: &[MemoryRegion],
        memory: &HostMemory,
    ) -> (r: Result<TranslatedAccount, EbpfError>) {
        let info: u64 = infos + 56 * i;
        let lamports: u64 = translate_type(
            memory.read_u64(info + 8),
            8,
            8,
            rw_regions,
            self.loader_id,
            memory,
        )?;
        let owner: u64 = translate_type(
            memory.read_u64(info + 32),
            32,
            1,
            rw_regions,
            self.loader_id,
            memory,
        )?;
        let vm_data_addr: u64 = memory.read_u64(info + 24);
        let data_len: u64 = memory.read_u64(info + 16);
        let data: u64 = translate_slice(
            vm_data_addr,
            data_len,
            1,
            1,
            rw_regions,
            self.loader_id,
            memory,
        )?;
        let _ = translate(addr + 56 * i + 16, 8, rw_regions, memory)?;
        let serialized_len_ptr: u64 = translate_type(
            vm_data_addr.wrapping_sub(8),
            8,
            8,
            rw_regions,
            self.loader_id,
            memory,
        )?;
        Ok(
            TranslatedAccount {
                account: Account {
                    lamports: memory.read_u64(lamports),
                    data: memory.read_bytes(data, data_len),
                    owner: memory.read_pubkey(owner),
                    executable: memory.read_flag(info + 50),
                    rent_epoch: memory.read_u64(info + 40),
                },
                refs: AccountReferences {
                    lamports,
                    owner,
                    data,
                    data_len,
                    vm_data_addr,
                    ref_to_len_in_vm: info + 16,
                    serialized_len_ptr,
                },
            },
        )
    }
}

/// Law: accounts come in the order of their keys, each of them the first of the caller's list
/// that has its key. Behind a skipped position all move up by one.
pub proof fn law_accounts_match_keys<S: SyscallInvokeSigned>(
    ro: Window,
    rw: Window,
    list: AccountList,
    keys: Seq<Seq<u8>>,
    skip: Option<u64>,
    n: nat,
    i: nat,
)
    requires
        accounts_with_keys::<S>(ro, rw, list, keys, skip, n) is Ok,
        i < n,
        !(skip is Some && skip->0 == i),
    ensures
        ({
            let t = accounts_with_keys::<S>(ro, rw, list, keys, skip, n)->Ok_0;
            let at = count_without(i, skip) as int;
            &&& t.accounts.len() == t.refs.len() == count_without(n, skip)
            &&& t.refs[at] is Some
            &&& account_with_key::<S>(ro, rw, list, keys[i as int], 0) == Ok::<_, EbpfError>(
                (t.accounts[at], t.refs[at]->0),
            )
        }),
    decreases n,
{
    lemma_accounts_len::<S>(ro, rw, list, keys, skip, n);
    lemma_accounts_len::<S>(ro, rw, list, keys, skip, (n - 1) as nat);
    if i < n - 1 {
        law_accounts_match_keys::<S>(ro, rw, list, keys, skip, (n - 1) as nat, i);
    }
}

/// There are as many accounts as keys that are not skipped.
proof fn lemma_accounts_len<S: SyscallInvokeSigned>(
    ro: Window,
    rw: Window,
    list: AccountList,
    keys: Seq<Seq<u8>>,
    skip: Option<u64>,
    n: nat,
)
    requires
        accounts_with_keys::<S>(ro, rw, list, keys, skip, n) is Ok,
    ensures
        ({
            let t = accounts_with_keys::<S>(ro, rw, list, keys, skip, n)->Ok_0;
            t.accounts.len() == t.refs.len() == count_without(n, skip)
        }),
    decreases n,
{
    if n > 0 {
        lemma_accounts_len::<S>(ro, rw, list, keys, skip, (n - 1) as nat);
    }
}

/// What holds of the places of each account of a list holds of all places that are found.
proof fn lemma_all_places<S: SyscallInvokeSigned>(
    ro: Window,
    rw: Window,
    list: AccountList,
    keys: Seq<Seq<u8>>,
    skip: Option<u64>,
    n: nat,
    p: spec_fn(AccountReferences) -> bool,
)
    requires
        forall|i: int|
            0 <= i < list.len && #[trigger] S::account_at(
                ro,
                rw,
                list.addr,
                list.infos,
                i,
            ) is Ok ==> p(S::account_at(ro, rw, list.addr, list.infos, i)->Ok_0.1),
        accounts_with_keys::<S>(ro, rw, list, keys, skip, n) is Ok,
    ensures
        forall|k: int|
            0 <= k < accounts_with_keys::<S>(ro, rw, list, keys, skip, n)->Ok_0.refs.len() ==> {
                &&& #[trigger] accounts_with_keys::<S>(
                    ro,
                    rw,
                    list,
                    keys,
                    skip,
                    n,
                )->Ok_0.refs[k] is Some
                &&& p(accounts_with_keys::<S>(ro, rw, list, keys, skip, n)->Ok_0.refs[k]->0)
            },
    decreases n,
{
    if n > 0 {
        lemma_all_places::<S>(ro, rw, list, keys, skip, (n - 1) as nat, p);
        lemma_places_of_one::<S>(ro, rw, list, keys[n - 1], 0, p);
    }
}

/// What holds of the places of each account of a list holds of those of an account that is found.
proof fn lemma_places_of_one<S: SyscallInvokeSigned>(
    ro: Window,
    rw: Window,
    list: AccountList,
    key: Seq<u8>,
    from: int,
    p: spec_fn(AccountReferences) -> bool,
)
    requires
        0 <= from,
        forall|i: int|
            0 <= i < list.len && #[trigger] S::account_at(
                ro,
                rw,
                list.addr,
                list.infos,
                i,
            ) is Ok ==> p(S::account_at(ro, rw, list.addr, list.infos, i)->Ok_0.1),
    ensures
        match account_with_key::<S>(ro, rw, list, key, from) {
            Ok(found) => p(found.1),
            Err(_) => true,
        },
    decreases list.len - from,
{
    if from < list.len {
        lemma_places_of_one::<S>(ro, rw, list, key, from + 1, p);
    }
}

/// Whether all places of an account belong to the regions of a window.
pub open spec fn places_reached(rw: Window, refs: AccountReferences) -> bool {
    forall|host: int| #[trigger] in_places(refs, host) ==> rw.reaches(host)
}

/// The places of an account in Rust are writable.
proof fn lemma_rust_places(ro: Window, rw: Window, addr: u64, infos: u64, i: int)
    requires
        rw.is_valid(),
        SyscallInvokeSignedRust::account_at(ro, rw, addr, infos, i) is Ok,
    ensures
        places_reached(
            rw,
            SyscallInvokeSignedRust::account_at(ro, rw, addr, infos, i)->Ok_0.1,
        ),
{
    let at = infos + 48 * i;
    let data_cell = displaced(ro.word(at + 16), 24);
    let lamports_cell = ro.value(displaced(ro.word(at + 8), 24), 8, 8)->Ok_0;
    let slice = ro.value(data_cell, 16, 8)->Ok_0;
    let vm_data_addr = ro.word(slice as int);
    let data_len = ro.word(slice + 8);
    rw.lemma_value_is_reached(ro.word(lamports_cell as int), 8, 8);
    rw.lemma_value_is_reached(ro.word(at + 24), 32, 1);
    rw.lemma_span_is_reached(displaced(data_cell, 8), 8);
    rw.lemma_value_is_reached(displaced(vm_data_addr, -8), 8, 8);
    rw.lemma_bytes_are_reached(vm_data_addr, data_len);
}

/// Law: all places where a caller in Rust keeps its accounts are places where it may write.
pub proof fn law_rust_places_are_writable(
    ro: Window,
    rw: Window,
    keys: Seq<Seq<u8>>,
    skip: Option<u64>,
    addr: u64,
    len: u64,
)
    requires
        rw.is_valid(),
        translated_accounts::<SyscallInvokeSignedRust>(ro, rw, keys, skip, addr, len) is Ok,
    ensures
        ({
            let refs = translated_accounts::<SyscallInvokeSignedRust>(
                ro,
                rw,
                keys,
                skip,
                addr,
                len,
            )->Ok_0.refs;
            forall|k: int|
                0 <= k < refs.len() ==> #[trigger] refs[k] is Some && places_reached(
                    rw,
                    refs[k]->0,
                )
        }),
{
    let infos = SyscallInvokeSignedRust::infos_at(ro, addr, len)->Ok_0;
    let list = AccountList { addr, infos, len };
    assert forall|i: int|
        0 <= i < len && #[trigger] SyscallInvokeSignedRust::account_at(
            ro,
            rw,
            addr,
            infos,
            i,
        ) is Ok implies places_reached(
        rw,
        SyscallInvokeSignedRust::account_at(ro, rw, addr, infos, i)->Ok_0.1,
    ) by {
        lemma_rust_places(ro, rw, addr, infos, i);
    }
    lemma_all_places::<SyscallInvokeSignedRust>(
        ro,
        rw,
        list,
        keys,
        skip,
        keys.len(),
        |refs: AccountReferences| places_reached(rw, refs),
    );
}

/// Whether a host address lies in a length of a caller's own list of accounts in C.
pub open spec fn in_c_list_lengths(ro: Window, addr: u64, len: u64, host: int) -> bool {
    exists|i: int|
        0 <= i < len && #[trigger] c_length_at(ro, addr, len, i) <= host < c_length_at(
            ro,
            addr,
            len,
            i,
        ) + 8
}

/// Host address of the length in the `i`-th account of a list in C.
pub open spec fn c_length_at(ro: Window, addr: u64, len: u64, i: int) -> int {
    SyscallInvokeSignedC::infos_at(ro, addr, len)->Ok_0 + 56 * i + 16
}

/// Whether all places of an account in C are writable, or lengths of the caller's list.
pub open spec fn c_places_reached(
    ro: Window,
    rw: Window,
    addr: u64,
    len: u64,
    refs: AccountReferences,
) -> bool {
    forall|host: int| #[trigger]
        in_places(refs, host) ==> rw.reaches(host) || in_c_list_lengths(ro, addr, len, host)
}

/// The places of an account in C are writable, or lengths of the caller's list.
proof fn lemma_c_places(ro: Window, rw: Window, addr: u64, len: u64, i: int)
    requires
        ro.is_valid(),
        rw.is_valid(),
        ro.memory == rw.memory,
        SyscallInvokeSignedC::infos_at(ro, addr, len) is Ok,
        0 <= i < len,
        SyscallInvokeSignedC::account_at(
            ro,
            rw,
            addr,
            SyscallInvokeSignedC::infos_at(ro, addr, len)->Ok_0,
            i,
        ) is Ok,
    ensures
        c_places_reached(
            ro,
            rw,
            addr,
            len,
            SyscallInvokeSignedC::account_at(
                ro,
                rw,
                addr,
                SyscallInvokeSignedC::infos_at(ro, addr, len)->Ok_0,
                i,
            )->Ok_0.1,
        ),
{
    let infos = SyscallInvokeSignedC::infos_at(ro, addr, len)->Ok_0;
    let at = infos + 56 * i;
    crate::memory::lemma_translated_slice_in_memory(
        ro.regions,
        ro.loader_id,
        addr,
        len,
        56,
        8,
        ro.memory.len() as int,
    );
    let vm_data_addr = ro.word(at + 24);
    rw.lemma_value_is_reached(ro.word(at + 8), 8, 8);
    rw.lemma_value_is_reached(ro.word(at + 32), 32, 1);
    rw.lemma_bytes_are_reached(vm_data_addr, ro.word(at + 16));
    rw.lemma_value_is_reached(displaced(vm_data_addr, -8), 8, 8);
    assert(c_length_at(ro, addr, len, i) == at + 16);
}

/// Law: all places where a caller in C keeps its accounts are places where it may write, but for
/// the lengths of the data, which stand in the caller's list.
pub proof fn law_c_places_are_writable(
    ro: Window,
    rw: Window,
    keys: Seq<Seq<u8>>,
    skip: Option<u64>,
    addr: u64,
    len: u64,
)
    requires
        ro.is_valid(),
        rw.is_valid(),
        ro.memory == rw.memory,
        translated_accounts::<SyscallInvokeSignedC>(ro, rw, keys, skip, addr, len) is Ok,
    ensures
        ({
            let refs = translated_accounts::<SyscallInvokeSignedC>(
                ro,
                rw,
                keys,
                skip,
                addr,
                len,
            )->Ok_0.refs;
            forall|k: int|
                0 <= k < refs.len() ==> #[trigger] refs[k] is Some && c_places_reached(
                    ro,
                    rw,
                    addr,
                    len,
                    refs[k]->0,
                )
        }),
{
    let infos = SyscallInvokeSignedC::infos_at(ro, addr, len)->Ok_0;
    let list = AccountList { addr, infos, len };
    assert forall|i: int|
        0 <= i < len && #[trigger] SyscallInvokeSignedC::account_at(
            ro,
            rw,
            addr,
            infos,
            i,
        ) is Ok implies c_places_reached(
        ro,
        rw,
        addr,
        len,
        SyscallInvokeSignedC::account_at(ro, rw, addr, infos, i)->Ok_0.1,
    ) by {
        lemma_c_places(ro, rw, addr, len, i);
    }
    lemma_all_places::<SyscallInvokeSignedC>(
        ro,
        rw,
        list,
        keys,
        skip,
        keys.len(),
        |refs: AccountReferences| c_places_reached(ro, rw, addr, len, refs),
    );
}

/// Whether an instruction is laid out in C: a pointer to the address of the program, pointer and
/// number of the accounts, pointer and length of the data, of eight bytes each; `list` are the
/// accounts, of sixteen bytes each: a pointer to the address, a byte that tells whether the account
/// is writable, a byte that tells whether it signs, and padding.
pub open spec fn c_describes(
    ro: Window,
    head: Seq<u8>,
    list: Seq<u8>,
    instruction: InstructionView,
) -> bool {
    &&& head.len() == 40
    &&& instruction.program_id.len() == 32
    &&& ro.shows(u64_at(head, 0) as int, instruction.program_id)
    &&& ro.is_aligned(u64_at(head, 8) as int, 8)
    &&& ro.shows(u64_at(head, 8) as int, list)
    &&& u64_at(head, 16) == instruction.accounts.len()
    &&& ro.shows(u64_at(head, 24) as int, instruction.data)
    &&& u64_at(head, 32) == instruction.data.len()
    &&& list.len() == 16 * instruction.accounts.len()
    &&& forall|i: int|
        0 <= i < instruction.accounts.len() ==> {
            &&& (#[trigger] instruction.accounts[i]).key.len() == 32
            &&& ro.shows(u64_at(list, 16 * i) as int, instruction.accounts[i].key)
            &&& instruction.accounts[i].is_writable <==> list[16 * i + 8] != 0
            &&& instruction.accounts[i].is_signer <==> list[16 * i + 9] != 0
        }
}

/// Whether an instruction stands at a virtual address as C lays it out, and is small enough: each
/// account counts thirty-four bytes, and the largest number is no limit.
pub open spec fn shows_c_instruction(
    ro: Window,
    addr: u64,
    max_size: u64,
    instruction: InstructionView,
) -> bool {
    &&& ro.is_aligned(addr as int, 8)
    &&& 34 * instruction.accounts.len() + instruction.data.len() <= max_size || max_size
        == u64::MAX
    &&& exists|head: Seq<u8>, list: Seq<u8>| #[trigger]
        ro.shows(addr as int, head) && #[trigger] c_describes(ro, head, list, instruction)
}

/// Accounts that stand in memory as C lays them out are read as they are.
proof fn lemma_c_metas_shown(
    ro: Window,
    at: int,
    list: Seq<u8>,
    accounts: Seq<KeyPrivileges>,
    n: nat,
)
    requires
        ro.is_valid(),
        0 <= at,
        at + list.len() <= ro.memory.len(),
        ro.bytes(at, list.len() as int) == list,
        list.len() == 16 * accounts.len(),
        n <= accounts.len(),
        forall|i: int|
            0 <= i < accounts.len() ==> {
                &&& (#[trigger] accounts[i]).key.len() == 32
                &&& ro.shows(u64_at(list, 16 * i) as int, accounts[i].key)
                &&& accounts[i].is_writable <==> list[16 * i + 8] != 0
                &&& accounts[i].is_signer <==> list[16 * i + 9] != 0
            },
    ensures
        c_metas_at(ro, at, n) == Ok::<_, EbpfError>(accounts.take(n as int)),
    decreases n,
{
    if n == 0 {
        assert(accounts.take(0) =~= seq![]);
    } else {
        let i = n - 1;
        lemma_c_metas_shown(ro, at, list, accounts, (n - 1) as nat);
        ro.lemma_shown_word(at, list, 16 * i);
        ro.lemma_shown_byte(at, list, 16 * i + 8);
        ro.lemma_shown_byte(at, list, 16 * i + 9);
        assert(accounts[i].key.len() == 32);
        ro.lemma_shown_value(u64_at(list, 16 * i), accounts[i].key, 1);
        assert(accounts.take(n as int) =~= accounts.take(i).push(accounts[i]));
    }
}

/// Accounts that are read from memory stand there as C lays them out.
proof fn lemma_c_metas_read(ro: Window, at: int, n: nat, m: nat)
    requires
        ro.is_valid(),
        0 <= at,
        n <= m,
        at + 16 * m <= ro.memory.len(),
        c_metas_at(ro, at, n) is Ok,
    ensures
        c_metas_at(ro, at, n)->Ok_0.len() == n,
        forall|i: int|
            0 <= i < n ==> {
                let account = #[trigger] c_metas_at(ro, at, n)->Ok_0[i];
                let list = ro.bytes(at, 16 * m as int);
                &&& account.key.len() == 32
                &&& ro.shows(u64_at(list, 16 * i) as int, account.key)
                &&& account.is_writable <==> list[16 * i + 8] != 0
                &&& account.is_signer <==> list[16 * i + 9] != 0
            },
    decreases n,
{
    if n > 0 {
        let i = n - 1;
        let list = ro.bytes(at, 16 * m as int);
        lemma_c_metas_read(ro, at, (n - 1) as nat, m);
        ro.lemma_shown_word(at, list, 16 * i);
        ro.lemma_shown_byte(at, list, 16 * i + 8);
        ro.lemma_shown_byte(at, list, 16 * i + 9);
        ro.lemma_read_is_shown(ro.word(at + 16 * i), 32);
    }
}

/// Law: an invocation from C sends the instruction that stands at its address, and sends one only
/// if one stands there: with the program, the data, and the accounts, each with the address that
/// its pointer leads to, as writable where the byte behind the pointer says so and as a signer
/// where the next byte says so.
pub proof fn law_c_instruction_is_read_as_laid_out(
    ro: Window,
    addr: u64,
    max_size: u64,
    instruction: InstructionView,
)
    requires
        ro.is_valid(),
    ensures
        SyscallInvokeSignedC::instruction_at(ro, addr, max_size) == Ok::<_, EbpfError>(instruction)
            <==> shows_c_instruction(ro, addr, max_size, instruction),
{
    if shows_c_instruction(ro, addr, max_size, instruction) {
        let (head, list) = choose|head: Seq<u8>, list: Seq<u8>| #[trigger]
            ro.shows(addr as int, head) && #[trigger] c_describes(ro, head, list, instruction);
        let n = instruction.accounts.len();
        ro.lemma_shown_value(addr, head, 8);
        let at = ro.value(addr, 40, 8)->Ok_0 as int;
        ro.lemma_shown_word(at, head, 0);
        ro.lemma_shown_word(at, head, 8);
        ro.lemma_shown_word(at, head, 16);
        ro.lemma_shown_word(at, head, 24);
        ro.lemma_shown_word(at, head, 32);
        ro.lemma_shown_value(u64_at(head, 0), instruction.program_id, 1);
        ro.lemma_shown_values(u64_at(head, 8), n as u64, 16, 8, list);
        ro.lemma_shown_values(
            u64_at(head, 24),
            instruction.data.len() as u64,
            1,
            1,
            instruction.data,
        );
        let metas = ro.values(u64_at(head, 8), n as u64, 16, 8)->Ok_0 as int;
        lemma_c_metas_shown(ro, metas, list, instruction.accounts, n);
        assert(instruction.accounts.take(n as int) =~= instruction.accounts);
    }
    if SyscallInvokeSignedC::instruction_at(ro, addr, max_size) == Ok::<_, EbpfError>(instruction) {
        let at = ro.value(addr, 40, 8)->Ok_0 as int;
        let head = ro.bytes(at, 40);
        ro.lemma_read_is_shown(addr, 40);
        ro.lemma_shown_word(at, head, 0);
        ro.lemma_shown_word(at, head, 8);
        ro.lemma_shown_word(at, head, 16);
        ro.lemma_shown_word(at, head, 24);
        ro.lemma_shown_word(at, head, 32);
        let n = ro.word(at + 16);
        ro.lemma_read_is_shown(ro.word(at), 32);
        ro.lemma_read_values_are_shown(ro.word(at + 8), n, 16, 8);
        ro.lemma_read_values_are_shown(ro.word(at + 24), ro.word(at + 32), 1, 1);
        let metas = ro.values(ro.word(at + 8), n, 16, 8)->Ok_0 as int;
        let list = ro.bytes(metas, n * 16);
        lemma_c_metas_read(ro, metas, n as nat, n as nat);
        assert(ro.shows(addr as int, head) && c_describes(ro, head, list, instruction));
    }
}

/// Whether an instruction is laid out in Rust: a vector of accounts, a vector of data, and the
/// address of the program; a vector is its pointer, its capacity and its length, of eight bytes
/// each. `list` are the accounts, of thirty-four bytes each: the address, a byte that tells whether
/// the account signs, and a byte that tells whether it is writable.
pub open spec fn rust_describes(
    ro: Window,
    head: Seq<u8>,
    list: Seq<u8>,
    instruction: InstructionView,
) -> bool {
    &&& head.len() == 80
    &&& ro.shows(u64_at(head, 0) as int, list)
    &&& u64_at(head, 16) == instruction.accounts.len()
    &&& ro.shows(u64_at(head, 24) as int, instruction.data)
    &&& u64_at(head, 40) == instruction.data.len()
    &&& instruction.program_id == head.subrange(48, 80)
    &&& list.len() == 34 * instruction.accounts.len()
    &&& forall|i: int|
        0 <= i < instruction.accounts.len() ==> {
            &&& (#[trigger] instruction.accounts[i]).key == list.subrange(34 * i, 34 * i + 32)
            &&& instruction.accounts[i].is_signer <==> list[34 * i + 32] != 0
            &&& instruction.accounts[i].is_writable <==> list[34 * i + 33] != 0
        }
}

/// Whether an instruction stands at a virtual address as Rust lays it out, and is small enough.
pub open spec fn shows_rust_instruction(
    ro: Window,
    addr: u64,
    max_size: u64,
    instruction: InstructionView,
) -> bool {
    &&& ro.is_aligned(addr as int, 8)
    &&& 34 * instruction.accounts.len() + instruction.data.len() <= max_size
    &&& exists|head: Seq<u8>, list: Seq<u8>| #[trigger]
        ro.shows(addr as int, head) && #[trigger] rust_describes(ro, head, list, instruction)
}

/// Accounts stand in memory as Rust lays them out if and only if they are those that are read.
proof fn lemma_rust_metas_shown(
    ro: Window,
    at: int,
    list: Seq<u8>,
    accounts: Seq<KeyPrivileges>,
)
    requires
        0 <= at,
        at + list.len() <= ro.memory.len(),
        ro.bytes(at, list.len() as int) == list,
        list.len() == 34 * accounts.len(),
    ensures
        rust_metas_at(ro.memory, at, accounts.len()) == accounts <==> forall|i: int|
            0 <= i < accounts.len() ==> {
                &&& (#[trigger] accounts[i]).key == list.subrange(34 * i, 34 * i + 32)
                &&& accounts[i].is_signer <==> list[34 * i + 32] != 0
                &&& accounts[i].is_writable <==> list[34 * i + 33] != 0
            },
{
    let read = rust_metas_at(ro.memory, at, accounts.len());
    assert forall|i: int| 0 <= i < accounts.len() implies {
        &&& (#[trigger] read[i]).key == list.subrange(34 * i, 34 * i + 32)
        &&& read[i].is_signer <==> list[34 * i + 32] != 0
        &&& read[i].is_writable <==> list[34 * i + 33] != 0
    } by {
        ro.lemma_shown_byte(at, list, 34 * i + 32);
        ro.lemma_shown_byte(at, list, 34 * i + 33);
        assert forall|k: int| 0 <= k < 32 implies ro.memory[at + 34 * i + k]
            == #[trigger] list.subrange(34 * i, 34 * i + 32)[k] by {
            ro.lemma_shown_byte(at, list, 34 * i + k);
        }
        assert(bytes_at(ro.memory, at + 34 * i, 32) =~= list.subrange(34 * i, 34 * i + 32));
    }
    if forall|i: int|
        0 <= i < accounts.len() ==> {
            &&& (#[trigger] accounts[i]).key == list.subrange(34 * i, 34 * i + 32)
            &&& accounts[i].is_signer <==> list[34 * i + 32] != 0
            &&& accounts[i].is_writable <==> list[34 * i + 33] != 0
        } {
        assert forall|i: int| 0 <= i < accounts.len() implies read[i] == accounts[i] by {
            assert(read[i].key == accounts[i].key);
        }
        assert(read =~= accounts);
    }
}

/// Law: an invocation from Rust sends the instruction that stands at its address, and sends one
/// only if one stands there: with the program, the data, and the accounts, each with its address,
/// as a signer where the byte behind the address says so and as writable where the next byte says
/// so.
pub proof fn law_rust_instruction_is_read_as_laid_out(
    ro: Window,
    addr: u64,
    max_size: u64,
    instruction: InstructionView,
)
    requires
        ro.is_valid(),
    ensures
        SyscallInvokeSignedRust::instruction_at(ro, addr, max_size) == Ok::<_, EbpfError>(
            instruction,
        ) <==> shows_rust_instruction(ro, addr, max_size, instruction),
{
    if shows_rust_instruction(ro, addr, max_size, instruction) {
        let (head, list) = choose|head: Seq<u8>, list: Seq<u8>| #[trigger]
            ro.shows(addr as int, head) && #[trigger] rust_describes(ro, head, list, instruction);
        let n = instruction.accounts.len();
        ro.lemma_shown_value(addr, head, 8);
        let at = ro.value(addr, 80, 8)->Ok_0 as int;
        ro.lemma_shown_word(at, head, 0);
        ro.lemma_shown_word(at, head, 16);
        ro.lemma_shown_word(at, head, 24);
        ro.lemma_shown_word(at, head, 40);
        lemma_inner_bytes(ro, at, head, 48);
        ro.lemma_shown_values(u64_at(head, 0), n as u64, 34, 1, list);
        ro.lemma_shown_values(
            u64_at(head, 24),
            instruction.data.len() as u64,
            1,
            1,
            instruction.data,
        );
        let metas = ro.values(u64_at(head, 0), n as u64, 34, 1)->Ok_0 as int;
        lemma_rust_metas_shown(ro, metas, list, instruction.accounts);
    }
    if SyscallInvokeSignedRust::instruction_at(ro, addr, max_size) == Ok::<_, EbpfError>(
        instruction,
    ) {
        let at = ro.value(addr, 80, 8)->Ok_0 as int;
        let head = ro.bytes(at, 80);
        ro.lemma_read_is_shown(addr, 80);
        ro.lemma_shown_word(at, head, 0);
        ro.lemma_shown_word(at, head, 16);
        ro.lemma_shown_word(at, head, 24);
        ro.lemma_shown_word(at, head, 40);
        lemma_inner_bytes(ro, at, head, 48);
        let n = ro.word(at + 16);
        ro.lemma_read_values_are_shown(ro.word(at), n, 34, 1);
        ro.lemma_read_values_are_shown(ro.word(at + 24), ro.word(at + 40), 1, 1);
        let metas = ro.values(ro.word(at), n, 34, 1)->Ok_0 as int;
        let list = ro.bytes(metas, n * 34);
        assert(instruction.accounts.len() == n);
        lemma_rust_metas_shown(ro, metas, list, instruction.accounts);
        assert(ro.shows(addr as int, head) && rust_describes(ro, head, list, instruction));
    }
}

/// Thirty-two bytes of what was read are bytes of the memory.
proof fn lemma_inner_bytes(ro: Window, at: int, bytes: Seq<u8>, offset: int)
    requires
        0 <= at,
        at + bytes.len() <= ro.memory.len(),
        ro.bytes(at, bytes.len() as int) == bytes,
        0 <= offset,
        offset + 32 <= bytes.len(),
    ensures
        ro.bytes(at + offset, 32) == bytes.subrange(offset, offset + 32),
{
    assert forall|k: int| 0 <= k < 32 implies ro.memory[at + offset + k]
        == #[trigger] bytes.subrange(offset, offset + 32)[k] by {
        ro.lemma_shown_byte(at, bytes, offset + k);
    }
    assert(ro.bytes(at + offset, 32) =~= bytes.subrange(offset, offset + 32));
}

/// Law: an instruction that is too large is rejected, whatever its accounts and its data are.
pub proof fn law_large_instructions_are_rejected(
    ro: Window,
    addr: u64,
    max_size: u64,
    c_head: Seq<u8>,
    rust_head: Seq<u8>,
)
    requires
        ro.is_valid(),
        ro.is_aligned(addr as int, 8),
        max_size < u64::MAX,
    ensures
        ro.shows(addr as int, c_head) && c_head.len() == 40 && 34 * u64_at(c_head, 16) + u64_at(
            c_head,
            32,
        ) > max_size ==> SyscallInvokeSignedC::instruction_at(ro, addr, max_size) == Err::<
            InstructionView,
            EbpfError,
        >(rejected(InstructionError::ComputationalBudgetExceeded)),
        ro.shows(addr as int, rust_head) && rust_head.len() == 80 && 34 * u64_at(rust_head, 16)
            + u64_at(rust_head, 40) > max_size ==> SyscallInvokeSignedRust::instruction_at(
            ro,
            addr,
            max_size,
        ) == Err::<InstructionView, EbpfError>(
            rejected(InstructionError::ComputationalBudgetExceeded),
        ),
{
    if ro.shows(addr as int, c_head) && c_head.len() == 40 {
        ro.lemma_shown_value(addr, c_head, 8);
        let at = ro.value(addr, 40, 8)->Ok_0 as int;
        ro.lemma_shown_word(at, c_head, 16);
        ro.lemma_shown_word(at, c_head, 32);
    }
    if ro.shows(addr as int, rust_head) && rust_head.len() == 80 {
        ro.lemma_shown_value(addr, rust_head, 8);
        let at = ro.value(addr, 80, 8)->Ok_0 as int;
        ro.lemma_shown_word(at, rust_head, 16);
        ro.lemma_shown_word(at, rust_head, 40);
    }
}

/// Whether a number of eight bytes stands at an aligned virtual address, behind which is a host
/// address.
pub open spec fn keeps_word(w: Window, vm_addr: int, x: u64, host: u64) -> bool {
    &&& w.is_aligned(vm_addr, 8)
    &&& w.shows(vm_addr, u64_bytes(x))
    &&& host_address(w.regions, vm_addr, 8) == Some(host as int)
}

/// Whether an address of thirty-two bytes stands at a virtual address, behind which is a host
/// address.
pub open spec fn keeps_key(w: Window, vm_addr: int, key: Seq<u8>, host: u64) -> bool {
    &&& key.len() == 32
    &&& w.shows(vm_addr, key)
    &&& host_address(w.regions, vm_addr, 32) == Some(host as int)
}

/// Whether the data of an account stand at a virtual address, with room for their length in front
/// of them, and what is referred to are the host addresses behind both.
pub open spec fn keeps_data(
    w: Window,
    vm_addr: int,
    len: int,
    data: Seq<u8>,
    refs: AccountReferences,
) -> bool {
    let len_addr = (vm_addr - 8) % 0x1_0000_0000_0000_0000;
    &&& data.len() == len
    &&& w.shows(vm_addr, data)
    &&& refs.vm_data_addr == vm_addr
    &&& refs.data_len == len
    &&& if len == 0 {
        refs.data == 0
    } else {
        host_address(w.regions, vm_addr, len) == Some(refs.data as int)
    }
    &&& w.is_aligned(len_addr, 8)
    &&& host_address(w.regions, len_addr, 8) == Some(refs.serialized_len_ptr as int)
}

/// Whether an account is laid out in C at a position of a list that stands at a virtual and at a
/// host address: pointers to its address and its lamports, length of the data and pointer to them,
/// pointer to the owner, and the epoch, of eight bytes each; behind them bytes that tell whether
/// it signs, whether it is writable and whether it is executable. The length of the data in the
/// list must be writable.
pub open spec fn c_account(
    rw: Window,
    list: Seq<u8>,
    at: int,
    vm_addr: int,
    host: int,
    account: AccountView,
    refs: AccountReferences,
) -> bool {
    &&& keeps_word(rw, u64_at(list, at + 8) as int, account.lamports, refs.lamports)
    &&& keeps_key(rw, u64_at(list, at + 32) as int, account.owner, refs.owner)
    &&& keeps_data(
        rw,
        u64_at(list, at + 24) as int,
        u64_at(list, at + 16) as int,
        account.data,
        refs,
    )
    &&& rw.holds(vm_addr + at + 16, 8)
    &&& refs.ref_to_len_in_vm == host + at + 16
    &&& account.rent_epoch == u64_at(list, at + 40)
    &&& account.executable <==> list[at + 50] != 0
}

/// A number is read at an aligned virtual address if and only if it stands there.
proof fn lemma_keeps_word(w: Window, vm_addr: u64, x: u64, host: u64)
    requires
        w.is_valid(),
    ensures
        keeps_word(w, vm_addr as int, x, host) <==> w.value(vm_addr, 8, 8) == Ok::<u64, EbpfError>(
            host,
        ) && w.word(host as int) == x,
{
    reveal(crate::memory::translated);
    if w.value(vm_addr, 8, 8) == Ok::<u64, EbpfError>(host) {
        w.lemma_read_is_shown(vm_addr, 8);
        lemma_word_has_its_bytes(w.memory, host as int, x);
        lemma_host_address_in_memory(w.regions, vm_addr as int, 8, w.memory.len() as int);
        if keeps_word(w, vm_addr as int, x, host) {
            w.lemma_shown(vm_addr, u64_bytes(x));
        }
    }
    if keeps_word(w, vm_addr as int, x, host) {
        w.lemma_shown_value(vm_addr, u64_bytes(x), 8);
        lemma_word_has_its_bytes(w.memory, host as int, x);
    }
}

/// An address is read at a virtual address if and only if it stands there.
proof fn lemma_keeps_key(w: Window, vm_addr: u64, key: Seq<u8>, host: u64)
    requires
        w.is_valid(),
    ensures
        keeps_key(w, vm_addr as int, key, host) <==> w.value(vm_addr, 32, 1) == Ok::<
            u64,
            EbpfError,
        >(host) && w.bytes(host as int, 32) == key,
{
    reveal(crate::memory::translated);
    if w.value(vm_addr, 32, 1) == Ok::<u64, EbpfError>(host) {
        w.lemma_read_is_shown(vm_addr, 32);
        lemma_host_address_in_memory(w.regions, vm_addr as int, 32, w.memory.len() as int);
    }
    if keeps_key(w, vm_addr as int, key, host) {
        w.lemma_shown_value(vm_addr, key, 1);
    }
}

/// Data are read at a virtual address if and only if they stand there.
proof fn lemma_keeps_data(
    w: Window,
    vm_addr: u64,
    len: u64,
    data: Seq<u8>,
    refs: AccountReferences,
)
    requires
        w.is_valid(),
    ensures
        keeps_data(w, vm_addr as int, len as int, data, refs) <==> w.values(vm_addr, len, 1, 1)
            == Ok::<u64, EbpfError>(refs.data) && w.value(displaced(vm_addr, -8), 8, 8) == Ok::<
            u64,
            EbpfError,
        >(refs.serialized_len_ptr) && data == w.bytes(refs.data as int, len as int)
            && refs.vm_data_addr == vm_addr && refs.data_len == len,
{
    reveal(crate::memory::translated);
    let len_addr = displaced(vm_addr, -8);
    lemma_host_address_in_memory(w.regions, vm_addr as int, len as int, w.memory.len() as int);
    lemma_host_address_in_memory(w.regions, len_addr as int, 8, w.memory.len() as int);
    if w.values(vm_addr, len, 1, 1) == Ok::<u64, EbpfError>(refs.data) {
        w.lemma_read_values_are_shown(vm_addr, len, 1, 1);
    }
    if keeps_data(w, vm_addr as int, len as int, data, refs) {
        w.lemma_shown_values(vm_addr, len, 1, 1, data);
    }
}

/// Law: an invocation from C passes the accounts that stand in its list as they are, with the
/// places where the caller keeps them, and passes one only if it stands there.
pub proof fn law_c_account_is_read_as_laid_out(
    ro: Window,
    rw: Window,
    addr: u64,
    len: u64,
    list: Seq<u8>,
    i: int,
    account: AccountView,
    refs: AccountReferences,
)
    requires
        ro.is_valid(),
        rw.is_valid(),
        ro.is_aligned(addr as int, 8),
        list.len() == 56 * len,
        ro.shows(addr as int, list),
        0 <= i < len,
    ensures
        SyscallInvokeSignedC::infos_at(ro, addr, len) is Ok,
        ({
            let infos = SyscallInvokeSignedC::infos_at(ro, addr, len)->Ok_0;
            let host = host_address(ro.regions, addr as int, list.len() as int)->0;
            &&& SyscallInvokeSignedC::info_key_at(ro.memory, infos, i) == u64_at(list, 56 * i)
            &&& SyscallInvokeSignedC::account_at(ro, rw, addr, infos, i) == Ok::<_, EbpfError>(
                (account, refs),
            ) <==> c_account(rw, list, 56 * i, addr as int, host, account, refs)
        }),
{
    ro.lemma_shown_values(addr, len, 56, 8, list);
    let infos = SyscallInvokeSignedC::infos_at(ro, addr, len)->Ok_0;
    let at = infos as int;
    let o = 56 * i;
    ro.lemma_shown_word(at, list, o);
    ro.lemma_shown_word(at, list, o + 8);
    ro.lemma_shown_word(at, list, o + 16);
    ro.lemma_shown_word(at, list, o + 24);
    ro.lemma_shown_word(at, list, o + 32);
    ro.lemma_shown_word(at, list, o + 40);
    ro.lemma_shown_byte(at, list, o + 50);
    lemma_keeps_word(rw, u64_at(list, o + 8), account.lamports, refs.lamports);
    lemma_keeps_key(rw, u64_at(list, o + 32), account.owner, refs.owner);
    lemma_keeps_data(rw, u64_at(list, o + 24), u64_at(list, o + 16), account.data, refs);
    lemma_host_address_in_memory(
        ro.regions,
        addr as int,
        list.len() as int,
        ro.memory.len() as int,
    );
    assert(rw.span((addr + 56 * i + 16) as u64, 8) is Ok <==> rw.holds(addr + o + 16, 8)) by {
        reveal(crate::memory::translated);
    }
}

/// Whether an account is laid out in Rust at a position of a list: pointers to its address, to the
/// cell of its lamports, to the cell of its data and to its owner, and the epoch, of eight bytes
/// each; behind them bytes that tell whether it signs, whether it is writable and whether it is
/// executable. The value of a cell stands twenty-four bytes behind its start: of lamports a
/// pointer, of data a pointer and a length, which must be writable.
pub open spec fn rust_account(
    ro: Window,
    rw: Window,
    list: Seq<u8>,
    at: int,
    lamports_cell: Seq<u8>,
    data_cell: Seq<u8>,
    account: AccountView,
    refs: AccountReferences,
) -> bool {
    let lamports_cell_addr = (u64_at(list, at + 8) + 24) % 0x1_0000_0000_0000_0000;
    let data_cell_addr = (u64_at(list, at + 16) + 24) % 0x1_0000_0000_0000_0000;
    &&& lamports_cell.len() == 8
    &&& ro.is_aligned(lamports_cell_addr, 8)
    &&& ro.shows(lamports_cell_addr, lamports_cell)
    &&& keeps_word(rw, u64_at(lamports_cell, 0) as int, account.lamports, refs.lamports)
    &&& keeps_key(rw, u64_at(list, at + 24) as int, account.owner, refs.owner)
    &&& data_cell.len() == 16
    &&& ro.is_aligned(data_cell_addr, 8)
    &&& ro.shows(data_cell_addr, data_cell)
    &&& host_address(rw.regions, (data_cell_addr + 8) % 0x1_0000_0000_0000_0000, 8) == Some(
        refs.ref_to_len_in_vm as int,
    )
    &&& keeps_data(
        rw,
        u64_at(data_cell, 0) as int,
        u64_at(data_cell, 8) as int,
        account.data,
        refs,
    )
    &&& account.rent_epoch == u64_at(list, at + 32)
    &&& account.executable <==> list[at + 42] != 0
}

/// Law: an invocation from Rust passes the accounts that stand in its list as they are, with the
/// places where the caller keeps them, and passes one only if it stands there.
pub proof fn law_rust_account_is_read_as_laid_out(
    ro: Window,
    rw: Window,
    addr: u64,
    len: u64,
    list: Seq<u8>,
    i: int,
    account: AccountView,
    refs: AccountReferences,
)
    requires
        ro.is_valid(),
        rw.is_valid(),
        ro.is_aligned(addr as int, 8),
        list.len() == 48 * len,
        ro.shows(addr as int, list),
        0 <= i < len,
    ensures
        SyscallInvokeSignedRust::infos_at(ro, addr, len) is Ok,
        ({
            let infos = SyscallInvokeSignedRust::infos_at(ro, addr, len)->Ok_0;
            &&& SyscallInvokeSignedRust::info_key_at(ro.memory, infos, i) == u64_at(list, 48 * i)
            &&& SyscallInvokeSignedRust::account_at(ro, rw, addr, infos, i) == Ok::<_, EbpfError>(
                (account, refs),
            ) <==> exists|lamports_cell: Seq<u8>, data_cell: Seq<u8>| #[trigger]
                rust_account(ro, rw, list, 48 * i, lamports_cell, data_cell, account, refs)
        }),
{
    ro.lemma_shown_values(addr, len, 48, 8, list);
    let infos = SyscallInvokeSignedRust::infos_at(ro, addr, len)->Ok_0;
    let at = infos as int;
    let o = 48 * i;
    ro.lemma_shown_word(at, list, o);
    ro.lemma_shown_word(at, list, o + 8);
    ro.lemma_shown_word(at, list, o + 16);
    ro.lemma_shown_word(at, list, o + 24);
    ro.lemma_shown_word(at, list, o + 32);
    ro.lemma_shown_byte(at, list, o + 42);
    let lamports_cell_addr = displaced(u64_at(list, o + 8), 24);
    let data_cell_addr = displaced(u64_at(list, o + 16), 24);
    let read = SyscallInvokeSignedRust::account_at(ro, rw, addr, infos, i);
    lemma_keeps_key(rw, u64_at(list, o + 24), account.owner, refs.owner);
    lemma_host_address_in_memory(
        rw.regions,
        displaced(data_cell_addr, 8) as int,
        8,
        rw.memory.len() as int,
    );
    assert(rw.span(displaced(data_cell_addr, 8), 8) == Ok::<u64, EbpfError>(refs.ref_to_len_in_vm)
        <==> host_address(rw.regions, displaced(data_cell_addr, 8) as int, 8) == Some(
        refs.ref_to_len_in_vm as int,
    )) by {
        reveal(crate::memory::translated);
    }
    if read == Ok::<_, EbpfError>((account, refs)) {
        let lamports_at = ro.value(lamports_cell_addr, 8, 8)->Ok_0 as int;
        let slice_at = ro.value(data_cell_addr, 16, 8)->Ok_0 as int;
        let lamports_cell = ro.bytes(lamports_at, 8);
        let data_cell = ro.bytes(slice_at, 16);
        ro.lemma_read_is_shown(lamports_cell_addr, 8);
        ro.lemma_read_is_shown(data_cell_addr, 16);
        ro.lemma_shown_word(lamports_at, lamports_cell, 0);
        ro.lemma_shown_word(slice_at, data_cell, 0);
        ro.lemma_shown_word(slice_at, data_cell, 8);
        lemma_keeps_word(rw, u64_at(lamports_cell, 0), account.lamports, refs.lamports);
        lemma_keeps_data(rw, u64_at(data_cell, 0), u64_at(data_cell, 8), account.data, refs);
        assert(rust_account(ro, rw, list, o, lamports_cell, data_cell, account, refs));
    }
    if exists|lamports_cell: Seq<u8>, data_cell: Seq<u8>| #[trigger]
        rust_account(ro, rw, list, o, lamports_cell, data_cell, account, refs) {
        let (lamports_cell, data_cell) = choose|lamports_cell: Seq<u8>, data_cell: Seq<u8>|
         #[trigger] rust_account(ro, rw, list, o, lamports_cell, data_cell, account, refs);
        ro.lemma_shown_value(lamports_cell_addr, lamports_cell, 8);
        ro.lemma_shown_value(data_cell_addr, data_cell, 8);
        let lamports_at = ro.value(lamports_cell_addr, 8, 8)->Ok_0 as int;
        let slice_at = ro.value(data_cell_addr, 16, 8)->Ok_0 as int;
        ro.lemma_shown_word(lamports_at, lamports_cell, 0);
        ro.lemma_shown_word(slice_at, data_cell, 0);
        ro.lemma_shown_word(slice_at, data_cell, 8);
        lemma_keeps_word(rw, u64_at(lamports_cell, 0), account.lamports, refs.lamports);
        lemma_keeps_data(rw, u64_at(data_cell, 0), u64_at(data_cell, 8), account.data, refs);
    }
}

/// Whether the addresses of the first accounts of a list are known: each stands where the pointer
/// in the list leads.
pub open spec fn lists_keys<S: SyscallInvokeSigned>(
    ro: Window,
    infos: u64,
    listed: Seq<Seq<u8>>,
) -> bool {
    forall|j: int|
        0 <= j < listed.len() ==> (#[trigger] listed[j]).len() == 32 && ro.shows(
            S::info_key_at(ro.memory, infos, j) as int,
            listed[j],
        )
}

/// Law: of the accounts in a caller's list the first with an address is taken, whatever follows
/// it; an address that none of them has is a missing account.
pub proof fn law_first_account_with_an_address_is_taken<S: SyscallInvokeSigned>(
    ro: Window,
    rw: Window,
    list: AccountList,
    listed: Seq<Seq<u8>>,
    key: Seq<u8>,
    from: int,
)
    requires
        ro.is_valid(),
        0 <= from <= listed.len() <= list.len,
        lists_keys::<S>(ro, list.infos, listed),
    ensures
        forall|i: int|
            from <= i < listed.len() && #[trigger] listed[i] == key && (forall|j: int|
                from <= j < i ==> listed[j] != key) ==> account_with_key::<S>(
                ro,
                rw,
                list,
                key,
                from,
            ) == S::account_at(ro, rw, list.addr, list.infos, i),
        listed.len() == list.len && (forall|j: int|
            from <= j < listed.len() ==> listed[j] != key) ==> account_with_key::<S>(
            ro,
            rw,
            list,
            key,
            from,
        ) == Err::<(AccountView, AccountReferences), EbpfError>(
            rejected(InstructionError::MissingAccount),
        ),
    decreases list.len - from,
{
    if from < listed.len() {
        assert(listed[from].len() == 32);
        ro.lemma_shown_value(S::info_key_at(ro.memory, list.infos, from), listed[from], 1);
        if listed[from] != key {
            law_first_account_with_an_address_is_taken::<S>(
                ro,
                rw,
                list,
                listed,
                key,
                from + 1,
            );
            assert forall|i: int|
                from <= i < listed.len() && #[trigger] listed[i] == key && (forall|j: int|
                    from <= j < i ==> listed[j] != key) implies account_with_key::<S>(
                ro,
                rw,
                list,
                key,
                from,
            ) == S::account_at(ro, rw, list.addr, list.infos, i) by {
                assert(i != from);
            }
        } else {
            assert forall|i: int|
                from <= i < listed.len() && #[trigger] listed[i] == key && (forall|j: int|
                    from <= j < i ==> listed[j] != key) implies account_with_key::<S>(
                ro,
                rw,
                list,
                key,
                from,
            ) == S::account_at(ro, rw, list.addr, list.infos, i) by {
                if i > from {
                    assert(listed[from] != key);
                }
            }
        }
    }
}

/// Law: the accounts for a callee are found if each of them is, and then they are those of the
/// keys, in their order, without a key that is left out.
pub proof fn law_accounts_are_found<S: SyscallInvokeSigned>(
    ro: Window,
    rw: Window,
    keys: Seq<Seq<u8>>,
    skip: Option<u64>,
    addr: u64,
    len: u64,
    infos: u64,
)
    requires
        S::infos_at(ro, addr, len) == Ok::<u64, EbpfError>(infos),
        forall|i: int|
            0 <= i < keys.len() && skip != Some(i as u64) ==> account_with_key::<S>(
                ro,
                rw,
                AccountList { addr, infos, len },
                #[trigger] keys[i],
                0,
            ) is Ok,
        keys.len() <= u64::MAX,
    ensures
        translated_accounts::<S>(ro, rw, keys, skip, addr, len) is Ok,
        ({
            let t = translated_accounts::<S>(ro, rw, keys, skip, addr, len)->Ok_0;
            forall|i: int|
                0 <= i < keys.len() && skip != Some(i as u64) ==> {
                    let at = if skip is Some && skip->0 < i {
                        i - 1
                    } else {
                        i
                    };
                    &&& 0 <= at < t.accounts.len()
                    &&& at < t.refs.len()
                    &&& t.refs[at] is Some
                    &&& account_with_key::<S>(
                        ro,
                        rw,
                        AccountList { addr, infos, len },
                        #[trigger] keys[i],
                        0,
                    ) == Ok::<_, EbpfError>((t.accounts[at], t.refs[at]->0))
                }
        }),
{
    let list = AccountList { addr, infos, len };
    lemma_first_accounts_are_found::<S>(ro, rw, list, keys, skip, keys.len());
    assert forall|i: int| 0 <= i < keys.len() && skip != Some(i as u64) implies {
        let t = translated_accounts::<S>(ro, rw, keys, skip, addr, len)->Ok_0;
        let at = if skip is Some && skip->0 < i {
            i - 1
        } else {
            i
        };
        &&& 0 <= at < t.accounts.len()
        &&& at < t.refs.len()
        &&& t.refs[at] is Some
        &&& account_with_key::<S>(ro, rw, list, #[trigger] keys[i], 0) == Ok::<_, EbpfError>(
            (t.accounts[at], t.refs[at]->0),
        )
    } by {
        law_accounts_match_keys::<S>(ro, rw, list, keys, skip, keys.len(), i as nat);
    }
}

/// Whether lists of seeds are described at a virtual address: by a list of pairs of eight bytes
/// each, a pointer and a length, of which each leads to a list of byte strings.
pub open spec fn shows_seeds(ro: Window, vm_addr: int, seeds: Seq<Seq<Seq<u8>>>) -> bool {
    exists|list: Seq<u8>| #[trigger]
        ro.shows(vm_addr, list) && describes_seeds(ro, list, seeds)
}

/// Whether pairs of a pointer and a length describe lists of seeds.
pub open spec fn describes_seeds(ro: Window, list: Seq<u8>, seeds: Seq<Seq<Seq<u8>>>) -> bool {
    &&& list.len() == 16 * seeds.len()
    &&& forall|i: int|
        0 <= i < seeds.len() ==> {
            &&& u64_at(list, 16 * i + 8) == (#[trigger] seeds[i]).len()
            &&& ro.is_aligned(u64_at(list, 16 * i) as int, 8)
            &&& ro.shows_strings(u64_at(list, 16 * i) as int, seeds[i])
        }
}

/// One list of seeds that is described leads to the address that is derived from it.
proof fn lemma_described_signer(
    ro: Window,
    program_id: Seq<u8>,
    addr: u64,
    seeds: Seq<Seq<u8>>,
)
    requires
        ro.is_valid(),
        seeds.len() <= u64::MAX / 16,
        ro.is_aligned(addr as int, 8),
        ro.shows_strings(addr as int, seeds),
    ensures
        derives(seeds, program_id) ==> signer_at(ro, program_id, addr, seeds.len() as u64) == Ok::<
            _,
            EbpfError,
        >(derived_address(seeds, program_id)->0@),
        seeds.len() > 16 ==> signer_at(ro, program_id, addr, seeds.len() as u64) == Err::<
            Seq<u8>,
            EbpfError,
        >(rejected(InstructionError::MaxSeedLengthExceeded)),
        seeds.len() <= 16 && (exists|j: int|
            0 <= j < seeds.len() && (#[trigger] seeds[j]).len() > 32) ==> signer_at(
            ro,
            program_id,
            addr,
            seeds.len() as u64,
        ) == Err::<Seq<u8>, EbpfError>(
            refused(SyscallError::BadSeeds(PubkeyError::MaxSeedLengthExceeded)),
        ),
        seeds.len() <= 16 && (forall|j: int|
            0 <= j < seeds.len() ==> (#[trigger] seeds[j]).len() <= 32) && derived_address(
            seeds,
            program_id,
        ) is None ==> signer_at(ro, program_id, addr, seeds.len() as u64) == Err::<
            Seq<u8>,
            EbpfError,
        >(refused(SyscallError::BadSeeds(PubkeyError::InvalidSeeds))),
{
    ro.law_described_strings_are_read(addr, seeds);
}

/// Law: a program signs for the addresses that it derives from its lists of seeds, in their order,
/// if it derives all of them.
pub proof fn law_signers_are_derived_from_their_seeds(
    ro: Window,
    program_id: Seq<u8>,
    addr: u64,
    seeds: Seq<Seq<Seq<u8>>>,
)
    requires
        ro.is_valid(),
        seeds.len() <= 16,
        ro.is_aligned(addr as int, 8),
        shows_seeds(ro, addr as int, seeds),
        forall|i: int| 0 <= i < seeds.len() ==> derives(#[trigger] seeds[i], program_id),
    ensures
        translated_signers(ro, program_id, addr, seeds.len() as u64) is Ok,
        ({
            let signers = translated_signers(ro, program_id, addr, seeds.len() as u64)->Ok_0;
            &&& signers.len() == seeds.len()
            &&& forall|i: int|
                0 <= i < seeds.len() ==> signers[i] == derived_address(
                    #[trigger] seeds[i],
                    program_id,
                )->0@
        }),
{
    let list = choose|list: Seq<u8>| #[trigger]
        ro.shows(addr as int, list) && describes_seeds(ro, list, seeds);
    ro.lemma_shown_values(addr, seeds.len() as u64, 16, 8, list);
    let at = ro.values(addr, seeds.len() as u64, 16, 8)->Ok_0 as int;
    lemma_described_signers(ro, program_id, at, list, seeds, seeds.len());
}

/// The first lists of seeds lead to the addresses that are derived from them.
proof fn lemma_described_signers(
    ro: Window,
    program_id: Seq<u8>,
    at: int,
    list: Seq<u8>,
    seeds: Seq<Seq<Seq<u8>>>,
    n: nat,
)
    requires
        ro.is_valid(),
        0 <= at,
        at + list.len() <= ro.memory.len(),
        ro.bytes(at, list.len() as int) == list,
        describes_seeds(ro, list, seeds),
        n <= seeds.len(),
        forall|i: int| 0 <= i < n ==> derives(#[trigger] seeds[i], program_id),
    ensures
        signers_at(ro, program_id, at, n) is Ok,
        signers_at(ro, program_id, at, n)->Ok_0.len() == n,
        forall|i: int|
            0 <= i < n ==> signers_at(ro, program_id, at, n)->Ok_0[i] == derived_address(
                #[trigger] seeds[i],
                program_id,
            )->0@,
    decreases n,
{
    if n > 0 {
        let i = n - 1;
        lemma_described_signers(ro, program_id, at, list, seeds, (n - 1) as nat);
        ro.lemma_shown_word(at, list, 16 * i);
        ro.lemma_shown_word(at, list, 16 * i + 8);
        assert(derives(seeds[i], program_id));
        lemma_described_signer(ro, program_id, u64_at(list, 16 * i), seeds[i]);
    }
}

/// Law: a program that cannot derive an address from one of its lists of seeds is refused, for the
/// first such list: it has too many seeds, or one of them is too long, or they lead to a point of
/// the curve. A program with too many lists is refused in any case; one without lists signs for
/// nothing.
pub proof fn law_bad_signers_are_refused(
    ro: Window,
    program_id: Seq<u8>,
    addr: u64,
    len: u64,
    seeds: Seq<Seq<Seq<u8>>>,
    bad: int,
)
    requires
        ro.is_valid(),
        ro.is_aligned(addr as int, 8),
    ensures
        len == 0 ==> translated_signers(ro, program_id, addr, len) == Ok::<_, EbpfError>(
            Seq::<Seq<u8>>::empty(),
        ),
        len > 16 && ro.holds(addr as int, 16 * len) ==> translated_signers(
            ro,
            program_id,
            addr,
            len,
        ) == Err::<Seq<Seq<u8>>, EbpfError>(refused(SyscallError::TooManySigners)),
        len == seeds.len() && len <= 16 && shows_seeds(ro, addr as int, seeds) && 0 <= bad < len
            && (forall|i: int| 0 <= i < bad ==> derives(#[trigger] seeds[i], program_id)) ==> {
            let r = translated_signers(ro, program_id, addr, len);
            let list = seeds[bad];
            let is_long = exists|j: int| 0 <= j < list.len() && (#[trigger] list[j]).len() > 32;
            &&& list.len() > 16 ==> r == Err::<Seq<Seq<u8>>, EbpfError>(
                rejected(InstructionError::MaxSeedLengthExceeded),
            )
            &&& list.len() <= 16 && is_long ==> r == Err::<Seq<Seq<u8>>, EbpfError>(
                refused(SyscallError::BadSeeds(PubkeyError::MaxSeedLengthExceeded)),
            )
            &&& list.len() <= 16 && !is_long && derived_address(list, program_id) is None ==> r
                == Err::<Seq<Seq<u8>>, EbpfError>(
                refused(SyscallError::BadSeeds(PubkeyError::InvalidSeeds)),
            )
        },
{
    if len > 16 && ro.holds(addr as int, 16 * len) {
        reveal(crate::memory::translated);
        lemma_host_address_in_memory(ro.regions, addr as int, 16 * len, ro.memory.len() as int);
    }
    if len == seeds.len() && len <= 16 && shows_seeds(ro, addr as int, seeds) && 0 <= bad < len && (
    forall|i: int| 0 <= i < bad ==> derives(#[trigger] seeds[i], program_id)) {
        let list = choose|list: Seq<u8>| #[trigger]
            ro.shows(addr as int, list) && describes_seeds(ro, list, seeds);
        ro.lemma_shown_values(addr, len, 16, 8, list);
        let at = ro.values(addr, len, 16, 8)->Ok_0 as int;
        lemma_described_signers(ro, program_id, at, list, seeds, bad as nat);
        ro.lemma_shown_word(at, list, 16 * bad);
        ro.lemma_shown_word(at, list, 16 * bad + 8);
        assert(u64_at(list, 16 * bad + 8) == seeds[bad].len());
        if ro.shows_strings(u64_at(list, 16 * bad) as int, seeds[bad]) && seeds[bad].len()
            <= u64::MAX / 16 {
            lemma_described_signer(ro, program_id, u64_at(list, 16 * bad), seeds[bad]);
        } else {
            let inner = choose|inner: Seq<u8>| #[trigger]
                ro.shows(u64_at(list, 16 * bad) as int, inner) && ro.describes(inner, seeds[bad]);
            lemma_host_address_in_memory(
                ro.regions,
                u64_at(list, 16 * bad) as int,
                inner.len() as int,
                ro.memory.len() as int,
            );
        }
        if signers_at(ro, program_id, at, (bad + 1) as nat) is Err {
            lemma_signers_error(ro, program_id, at, (bad + 1) as nat, len as nat);
        }
    }
}

/// Law: a program signs for nothing unless all its lists of seeds, and their seeds, are described
/// where it may read, and it derives an address from each list.
pub proof fn law_signers_come_from_described_seeds(
    ro: Window,
    program_id: Seq<u8>,
    addr: u64,
    len: u64,
) -> (seeds: Seq<Seq<Seq<u8>>>)
    requires
        ro.is_valid(),
        len > 0,
        translated_signers(ro, program_id, addr, len) is Ok,
    ensures
        len <= 16,
        seeds.len() == len,
        ro.is_aligned(addr as int, 8),
        shows_seeds(ro, addr as int, seeds),
        forall|i: int| 0 <= i < len ==> derives(#[trigger] seeds[i], program_id),
{
    let at = ro.values(addr, len, 16, 8)->Ok_0 as int;
    ro.lemma_read_values_are_shown(addr, len, 16, 8);
    let list = ro.bytes(at, len * 16);
    let seeds = lemma_read_seeds(ro, program_id, at, len as nat, len as nat);
    assert(ro.shows(addr as int, list) && describes_seeds(ro, list, seeds));
    seeds
}

/// Seeds of the first signers that are derived stand where a list describes them.
#[verifier::spinoff_prover]
proof fn lemma_read_seeds(ro: Window, program_id: Seq<u8>, at: int, n: nat, m: nat) -> (seeds: Seq<
    Seq<Seq<u8>>,
>)
    requires
        ro.is_valid(),
        0 <= at,
        n <= m,
        at + 16 * m <= ro.memory.len(),
        signers_at(ro, program_id, at, n) is Ok,
    ensures
        seeds.len() == n,
        forall|i: int|
            0 <= i < n ==> {
                let list = ro.bytes(at, 16 * m as int);
                &&& u64_at(list, 16 * i + 8) == (#[trigger] seeds[i]).len()
                &&& ro.is_aligned(u64_at(list, 16 * i) as int, 8)
                &&& ro.shows_strings(u64_at(list, 16 * i) as int, seeds[i])
                &&& derives(seeds[i], program_id)
            },
    decreases n,
{
    if n == 0 {
        Seq::empty()
    } else {
        let i = n - 1;
        let list = ro.bytes(at, 16 * m as int);
        let before = lemma_read_seeds(ro, program_id, at, (n - 1) as nat, m);
        ro.lemma_shown_word(at, list, 16 * i);
        ro.lemma_shown_word(at, list, 16 * i + 8);
        let addr = ro.word(at + 16 * i);
        let len = ro.word(at + 16 * i + 8);
        let strings = ro.byte_strings(
            ro.values(addr, len, 16, 8)->Ok_0 as int,
            len as nat,
        )->Ok_0;
        ro.law_strings_are_read_where_described(addr, len, strings);
        law_addresses_are_derived(strings, program_id);
        assert(signer_at(ro, program_id, addr, len) is Ok);
        assert(program_address(strings, program_id) is Ok);
        let seeds = before.push(strings);
        assert forall|k: int| 0 <= k < n implies {
            &&& u64_at(list, 16 * k + 8) == (#[trigger] seeds[k]).len()
            &&& ro.is_aligned(u64_at(list, 16 * k) as int, 8)
            &&& ro.shows_strings(u64_at(list, 16 * k) as int, seeds[k])
            &&& derives(seeds[k], program_id)
        } by {
            if k < i {
                assert(seeds[k] == before[k]);
            } else {
                assert(seeds[k] == strings);
            }
        }
        seeds
    }
}

/// Law: what a caller holds, and the loader whose rules it follows, are those of the syscall, in
/// both languages. A list without accounts needs no memory; in C its address must be aligned.
pub proof fn law_callers_are_those_of_the_syscall(
    c: SyscallInvokeSignedC,
    rust: SyscallInvokeSignedRust,
    ro: Window,
    addr: u64,
)
    ensures
        c.callers().len() == c.callers_keyed_accounts@.len(),
        forall|i: int|
            0 <= i < c.callers().len() ==> {
                let held = c.callers_keyed_accounts@[i];
                (#[trigger] c.callers()[i]) == KeyPrivileges {
                    key: held.key.bytes@,
                    is_signer: held.is_signer,
                    is_writable: held.is_writable,
                }
            },
        c.loader() == *c.loader_id,
        rust.callers().len() == rust.callers_keyed_accounts@.len(),
        forall|i: int|
            0 <= i < rust.callers().len() ==> {
                let held = rust.callers_keyed_accounts@[i];
                (#[trigger] rust.callers()[i]) == KeyPrivileges {
                    key: held.key.bytes@,
                    is_signer: held.is_signer,
                    is_writable: held.is_writable,
                }
            },
        rust.loader() == *rust.loader_id,
        SyscallInvokeSignedRust::infos_at(ro, addr, 0) is Ok,
        SyscallInvokeSignedC::infos_at(ro, addr, 0) is Ok <==> ro.is_aligned(addr as int, 8),
{
}

/// Law: of the pointers of an account in C the first that is refused decides: those to the
/// lamports, to the owner and to the data, the length in the list, and the length in front of the
/// data.
pub proof fn law_first_bad_pointer_of_a_c_account_decides(
    ro: Window,
    rw: Window,
    addr: u64,
    len: u64,
    list: Seq<u8>,
    i: int,
)
    requires
        ro.is_valid(),
        rw.is_valid(),
        ro.is_aligned(addr as int, 8),
        list.len() == 56 * len,
        ro.shows(addr as int, list),
        0 <= i < len,
    ensures
        ({
            let infos = SyscallInvokeSignedC::infos_at(ro, addr, len)->Ok_0;
            let read = SyscallInvokeSignedC::account_at(ro, rw, addr, infos, i);
            let o = 56 * i;
            let data_addr = u64_at(list, o + 24) as int;
            let error = first_error(
                seq![
                    pointer_error(rw, u64_at(list, o + 8) as int, 8, 8),
                    pointer_error(rw, u64_at(list, o + 32) as int, 32, 1),
                    list_error(rw, data_addr, u64_at(list, o + 16) as int, 1, 1),
                    pointer_error(rw, addr + o + 16, 8, 1),
                    pointer_error(rw, (data_addr - 8) % 0x1_0000_0000_0000_0000, 8, 8),
                ],
            );
            match error {
                Some(e) => read == Err::<(AccountView, AccountReferences), EbpfError>(e),
                None => read is Ok,
            }
        }),
{
    ro.lemma_shown_values(addr, len, 56, 8, list);
    let infos = SyscallInvokeSignedC::infos_at(ro, addr, len)->Ok_0;
    let at = infos as int;
    let o = 56 * i;
    ro.lemma_shown_word(at, list, o + 8);
    ro.lemma_shown_word(at, list, o + 16);
    ro.lemma_shown_word(at, list, o + 24);
    ro.lemma_shown_word(at, list, o + 32);
    let data_addr = u64_at(list, o + 24);
    lemma_host_address_in_memory(
        ro.regions,
        addr as int,
        list.len() as int,
        ro.memory.len() as int,
    );
    rw.lemma_pointer_error(u64_at(list, o + 8), 8, 8);
    rw.lemma_pointer_error(u64_at(list, o + 32), 32, 1);
    rw.lemma_list_error(data_addr, u64_at(list, o + 16), 1, 1);
    rw.lemma_pointer_error((addr + o + 16) as u64, 8, 1);
    rw.lemma_pointer_error(displaced(data_addr, -8), 8, 8);
    reveal_with_fuel(first_error, 6);
}

/// Law: of the pointers of an account in Rust the first that is refused decides: those to the cell
/// of the lamports, to the lamports, to the owner, to the cell of the data, the length in it, the
/// length in front of the data, and the data.
pub proof fn law_first_bad_pointer_of_a_rust_account_decides(
    ro: Window,
    rw: Window,
    addr: u64,
    len: u64,
    list: Seq<u8>,
    i: int,
    lamports_cell: Seq<u8>,
    data_cell: Seq<u8>,
)
    requires
        ro.is_valid(),
        rw.is_valid(),
        ro.is_aligned(addr as int, 8),
        list.len() == 48 * len,
        ro.shows(addr as int, list),
        0 <= i < len,
    ensures
        ({
            let infos = SyscallInvokeSignedRust::infos_at(ro, addr, len)->Ok_0;
            let read = SyscallInvokeSignedRust::account_at(ro, rw, addr, infos, i);
            let lamports_cell_addr = (u64_at(list, 48 * i + 8) + 24) % 0x1_0000_0000_0000_0000;
            let data_cell_addr = (u64_at(list, 48 * i + 16) + 24) % 0x1_0000_0000_0000_0000;
            let first = pointer_error(ro, lamports_cell_addr, 8, 8);
            let before_data = first_error(
                seq![
                    pointer_error(rw, u64_at(lamports_cell, 0) as int, 8, 8),
                    pointer_error(rw, u64_at(list, 48 * i + 24) as int, 32, 1),
                    pointer_error(ro, data_cell_addr, 16, 8),
                ],
            );
            let data_addr = u64_at(data_cell, 0) as int;
            let of_data = first_error(
                seq![
                    pointer_error(rw, (data_cell_addr + 8) % 0x1_0000_0000_0000_0000, 8, 1),
                    pointer_error(rw, (data_addr - 8) % 0x1_0000_0000_0000_0000, 8, 8),
                    list_error(rw, data_addr, u64_at(data_cell, 8) as int, 1, 1),
                ],
            );
            let found_lamports = first is None && lamports_cell.len() == 8 && ro.shows(
                lamports_cell_addr,
                lamports_cell,
            );
            let found_data = found_lamports && before_data is None && data_cell.len() == 16
                && ro.shows(data_cell_addr, data_cell);
            &&& first is Some ==> read == Err::<(AccountView, AccountReferences), EbpfError>(
                first->0,
            )
            &&& found_lamports && before_data is Some ==> read == Err::<
                (AccountView, AccountReferences),
                EbpfError,
            >(before_data->0)
            &&& found_data && of_data is Some ==> read == Err::<
                (AccountView, AccountReferences),
                EbpfError,
            >(of_data->0)
            &&& found_data && of_data is None ==> read is Ok
        }),
{
    ro.lemma_shown_values(addr, len, 48, 8, list);
    let infos = SyscallInvokeSignedRust::infos_at(ro, addr, len)->Ok_0;
    let at = infos as int;
    let o = 48 * i;
    ro.lemma_shown_word(at, list, o + 8);
    ro.lemma_shown_word(at, list, o + 16);
    ro.lemma_shown_word(at, list, o + 24);
    let lamports_cell_addr = displaced(u64_at(list, o + 8), 24);
    let data_cell_addr = displaced(u64_at(list, o + 16), 24);
    ro.lemma_pointer_error(lamports_cell_addr, 8, 8);
    rw.lemma_pointer_error(u64_at(list, o + 24), 32, 1);
    ro.lemma_pointer_error(data_cell_addr, 16, 8);
    rw.lemma_pointer_error(displaced(data_cell_addr, 8), 8, 1);
    rw.lemma_pointer_error(u64_at(lamports_cell, 0), 8, 8);
    rw.lemma_pointer_error(displaced(u64_at(data_cell, 0), -8), 8, 8);
    rw.lemma_list_error(u64_at(data_cell, 0), u64_at(data_cell, 8), 1, 1);
    reveal_with_fuel(first_error, 4);
    if pointer_error(ro, lamports_cell_addr as int, 8, 8) is None && lamports_cell.len() == 8
        && ro.shows(lamports_cell_addr as int, lamports_cell) {
        ro.lemma_shown_value(lamports_cell_addr, lamports_cell, 8);
        ro.lemma_shown_word(
            ro.value(lamports_cell_addr, 8, 8)->Ok_0 as int,
            lamports_cell,
            0,
        );
    }
    if pointer_error(ro, data_cell_addr as int, 16, 8) is None && data_cell.len() == 16 && ro.shows(
        data_cell_addr as int,
        data_cell,
    ) {
        ro.lemma_shown_value(data_cell_addr, data_cell, 8);
        let slice = ro.value(data_cell_addr, 16, 8)->Ok_0 as int;
        ro.lemma_shown_word(slice, data_cell, 0);
        ro.lemma_shown_word(slice, data_cell, 8);
    }
}

/// Law: of the pointers of an instruction the first that is refused decides, before and after its
/// size is checked.
pub proof fn law_first_bad_pointer_of_an_instruction_decides(
    ro: Window,
    addr: u64,
    max_size: u64,
    c_head: Seq<u8>,
    rust_head: Seq<u8>,
)
    requires
        ro.is_valid(),
    ensures
        ({
            let c = SyscallInvokeSignedC::instruction_at(ro, addr, max_size);
            let first = pointer_error(ro, addr as int, 40, 8);
            let others = first_error(
                seq![
                    pointer_error(ro, u64_at(c_head, 0) as int, 32, 1),
                    list_error(ro, u64_at(c_head, 8) as int, u64_at(c_head, 16) as int, 16, 8),
                    list_error(ro, u64_at(c_head, 24) as int, u64_at(c_head, 32) as int, 1, 1),
                ],
            );
            &&& first is Some ==> c == Err::<InstructionView, EbpfError>(first->0)
            &&& first is None && c_head.len() == 40 && ro.shows(addr as int, c_head) && 34 * u64_at(
                c_head,
                16,
            ) + u64_at(c_head, 32) <= max_size && others is Some ==> c == Err::<
                InstructionView,
                EbpfError,
            >(others->0)
        }),
        ({
            let rust = SyscallInvokeSignedRust::instruction_at(ro, addr, max_size);
            let first = pointer_error(ro, addr as int, 80, 8);
            let others = first_error(
                seq![
                    list_error(
                        ro,
                        u64_at(rust_head, 0) as int,
                        u64_at(rust_head, 16) as int,
                        34,
                        1,
                    ),
                    list_error(
                        ro,
                        u64_at(rust_head, 24) as int,
                        u64_at(rust_head, 40) as int,
                        1,
                        1,
                    ),
                ],
            );
            &&& first is Some ==> rust == Err::<InstructionView, EbpfError>(first->0)
            &&& first is None && rust_head.len() == 80 && ro.shows(addr as int, rust_head) && 34
                * u64_at(rust_head, 16) + u64_at(rust_head, 40) <= max_size ==> match others {
                Some(e) => rust == Err::<InstructionView, EbpfError>(e),
                None => rust is Ok,
            }
        }),
{
    ro.lemma_pointer_error(addr, 40, 8);
    ro.lemma_pointer_error(addr, 80, 8);
    reveal_with_fuel(first_error, 4);
    if pointer_error(ro, addr as int, 40, 8) is None && c_head.len() == 40 && ro.shows(
        addr as int,
        c_head,
    ) {
        ro.lemma_shown_value(addr, c_head, 8);
        let at = ro.value(addr, 40, 8)->Ok_0 as int;
        ro.lemma_shown_word(at, c_head, 0);
        ro.lemma_shown_word(at, c_head, 8);
        ro.lemma_shown_word(at, c_head, 16);
        ro.lemma_shown_word(at, c_head, 24);
        ro.lemma_shown_word(at, c_head, 32);
        ro.lemma_pointer_error(u64_at(c_head, 0), 32, 1);
        ro.lemma_list_error(u64_at(c_head, 8), u64_at(c_head, 16), 16, 8);
        ro.lemma_list_error(u64_at(c_head, 24), u64_at(c_head, 32), 1, 1);
    }
    if pointer_error(ro, addr as int, 80, 8) is None && rust_head.len() == 80 && ro.shows(
        addr as int,
        rust_head,
    ) {
        ro.lemma_shown_value(addr, rust_head, 8);
        let at = ro.value(addr, 80, 8)->Ok_0 as int;
        ro.lemma_shown_word(at, rust_head, 0);
        ro.lemma_shown_word(at, rust_head, 16);
        ro.lemma_shown_word(at, rust_head, 24);
        ro.lemma_shown_word(at, rust_head, 40);
        ro.lemma_list_error(u64_at(rust_head, 0), u64_at(rust_head, 16), 34, 1);
        ro.lemma_list_error(u64_at(rust_head, 24), u64_at(rust_head, 40), 1, 1);
    }
}

/// Law: the first account for a callee that is not found decides, and a list of accounts that
/// cannot be accessed decides before all of them. An address that cannot be read in the list, in
/// front of the one that is looked for, is a violation of the access.
pub proof fn law_first_missing_account_decides<S: SyscallInvokeSigned>(
    ro: Window,
    rw: Window,
    keys: Seq<Seq<u8>>,
    skip: Option<u64>,
    addr: u64,
    len: u64,
    infos: u64,
    bad: int,
    listed: Seq<Seq<u8>>,
    key: Seq<u8>,
)
    requires
        ro.is_valid(),
        keys.len() <= u64::MAX,
    ensures
        S::infos_at(ro, addr, len) is Err ==> translated_accounts::<S>(
            ro,
            rw,
            keys,
            skip,
            addr,
            len,
        ) == Err::<TranslatedAccountsView, EbpfError>(S::infos_at(ro, addr, len)->Err_0),
        S::infos_at(ro, addr, len) == Ok::<u64, EbpfError>(infos) && 0 <= bad < keys.len() && skip
            != Some(bad as u64) && (forall|i: int|
            0 <= i < bad && skip != Some(i as u64) ==> account_with_key::<S>(
                ro,
                rw,
                AccountList { addr, infos, len },
                #[trigger] keys[i],
                0,
            ) is Ok) && account_with_key::<S>(
            ro,
            rw,
            AccountList { addr, infos, len },
            keys[bad],
            0,
        ) is Err ==> translated_accounts::<S>(ro, rw, keys, skip, addr, len) == Err::<
            TranslatedAccountsView,
            EbpfError,
        >(
            account_with_key::<S>(
                ro,
                rw,
                AccountList { addr, infos, len },
                keys[bad],
                0,
            )->Err_0,
        ),
        listed.len() < len && lists_keys::<S>(ro, infos, listed) && !listed.contains(key)
            && !ro.holds(S::info_key_at(ro.memory, infos, listed.len() as int) as int, 32)
            ==> account_with_key::<S>(ro, rw, AccountList { addr, infos, len }, key, 0) == Err::<
            (AccountView, AccountReferences),
            EbpfError,
        >(
            EbpfError::AccessViolation(
                S::info_key_at(ro.memory, infos, listed.len() as int),
                32,
            ),
        ),
{
    let list = AccountList { addr, infos, len };
    if S::infos_at(ro, addr, len) == Ok::<u64, EbpfError>(infos) && 0 <= bad < keys.len() && skip
        != Some(bad as u64) && (forall|i: int|
        0 <= i < bad && skip != Some(i as u64) ==> account_with_key::<S>(
            ro,
            rw,
            list,
            #[trigger] keys[i],
            0,
        ) is Ok) && account_with_key::<S>(ro, rw, list, keys[bad], 0) is Err {
        lemma_first_accounts_are_found::<S>(ro, rw, list, keys, skip, bad as nat);
        lemma_accounts_error::<S>(ro, rw, list, keys, skip, (bad + 1) as nat, keys.len());
    }
    if listed.len() < len && lists_keys::<S>(ro, infos, listed) && !listed.contains(key)
        && !ro.holds(S::info_key_at(ro.memory, infos, listed.len() as int) as int, 32) {
        lemma_unreadable_key::<S>(ro, rw, list, listed, key, 0);
    }
}

/// The accounts of the first keys are found if each of them is.
proof fn lemma_first_accounts_are_found<S: SyscallInvokeSigned>(
    ro: Window,
    rw: Window,
    list: AccountList,
    keys: Seq<Seq<u8>>,
    skip: Option<u64>,
    n: nat,
)
    requires
        n <= keys.len() <= u64::MAX,
        forall|i: int|
            0 <= i < n && skip != Some(i as u64) ==> account_with_key::<S>(
                ro,
                rw,
                list,
                #[trigger] keys[i],
                0,
            ) is Ok,
    ensures
        accounts_with_keys::<S>(ro, rw, list, keys, skip, n) is Ok,
    decreases n,
{
    if n > 0 {
        lemma_first_accounts_are_found::<S>(ro, rw, list, keys, skip, (n - 1) as nat);
        assert(keys[n - 1] == keys[n - 1]);
    }
}

/// An address that cannot be read ends the search for another one.
proof fn lemma_unreadable_key<S: SyscallInvokeSigned>(
    ro: Window,
    rw: Window,
    list: AccountList,
    listed: Seq<Seq<u8>>,
    key: Seq<u8>,
    from: int,
)
    requires
        ro.is_valid(),
        0 <= from <= listed.len() < list.len,
        lists_keys::<S>(ro, list.infos, listed),
        !listed.contains(key),
        !ro.holds(S::info_key_at(ro.memory, list.infos, listed.len() as int) as int, 32),
    ensures
        account_with_key::<S>(ro, rw, list, key, from) == Err::<
            (AccountView, AccountReferences),
            EbpfError,
        >(
            EbpfError::AccessViolation(
                S::info_key_at(ro.memory, list.infos, listed.len() as int),
                32,
            ),
        ),
    decreases listed.len() - from,
{
    ro.lemma_pointer_error(S::info_key_at(ro.memory, list.infos, from), 32, 1);
    if from < listed.len() {
        assert(listed[from].len() == 32);
        assert(listed.contains(listed[from]));
        ro.lemma_shown_value(S::info_key_at(ro.memory, list.infos, from), listed[from], 1);
        lemma_unreadable_key::<S>(ro, rw, list, listed, key, from + 1);
    }
}

/// Law: the contents of an account, and of accounts for a callee, are those of their fields.
pub proof fn law_contents_of_accounts_are_those_of_the_fields(
    account: Account,
    one: TranslatedAccount,
    many: TranslatedAccounts,
)
    ensures
        account@.lamports == account.lamports,
        account@.data == account.data@,
        account@.owner == account.owner.bytes@,
        account@.executable == account.executable,
        account@.rent_epoch == account.rent_epoch,
        one@.0 == one.account@,
        one@.1 == one.refs,
        many@.refs == many.refs@,
        many@.accounts.len() == many.accounts@.len(),
        forall|i: int|
            0 <= i < many.accounts@.len() ==> #[trigger] many@.accounts[i] == many.accounts@[i]@,
{
}

} // verus!
