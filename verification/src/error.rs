//! Errors that a syscall reports to the virtual machine.
use vstd::prelude::*;

verus! {

/// Why an instruction was rejected.
#[derive(Debug, Clone, Copy, PartialEq, Eq, Structural)]
pub enum InstructionError {
    GenericError,
    InvalidArgument,
    InvalidInstructionData,
    InvalidAccountData,
    AccountDataTooSmall,
    InsufficientFunds,
    IncorrectProgramId,
    MissingRequiredSignature,
    AccountAlreadyInitialized,
    UninitializedAccount,
    UnbalancedInstruction,
    ModifiedProgramId,
    ExternalAccountLamportSpend,
    ExternalAccountDataModified,
    ReadonlyLamportChange,
    ReadonlyDataModified,
    DuplicateAccountIndex,
    ExecutableModified,
    RentEpochModified,
    NotEnoughAccountKeys,
    AccountDataSizeChanged,
    AccountNotExecutable,
    AccountBorrowFailed,
    AccountBorrowOutstanding,
    DuplicateAccountOutOfSync,
    Custom(u32),
    InvalidError,
    ExecutableDataModified,
    ExecutableLamportChange,
    ExecutableAccountNotRentExempt,
    UnsupportedProgramId,
    CallDepth,
    MissingAccount,
    ReentrancyNotAllowed,
    MaxSeedLengthExceeded,
    InvalidSeeds,
    InvalidRealloc,
    ComputationalBudgetExceeded,
    PrivilegeEscalation,
    ProgramEnvironmentSetupFailure,
    ProgramFailedToComplete,
    ProgramFailedToCompile,
    Immutable,
    IncorrectAuthority,
}

/// Why no address could be derived from a list of seeds.
#[derive(Debug, Clone, Copy, PartialEq, Eq, Structural)]
pub enum PubkeyError {
    /// There are too many seeds, or one of them is too long.
    MaxSeedLengthExceeded,
    /// The derived bytes are a point on the curve.
    InvalidSeeds,
}

/// Where a byte string stops being UTF-8.
#[derive(Debug, Clone, Copy, PartialEq, Eq, Structural)]
pub struct Utf8Error {
    /// Length of the longest prefix that is UTF-8.
    pub valid_up_to: usize,
    /// Length of the invalid sequence that follows, `None` if the input ends inside a character.
    pub error_len: Option<usize>,
}

/// What a syscall can refuse.
#[derive(Debug, PartialEq)]
pub enum SyscallError {
    InvalidString(Utf8Error, Vec<u8>),
    Abort,
    Panic(String, u64, u64),
    InvokeContextBorrowFailed,
    MalformedSignerSeed(Utf8Error, Vec<u8>),
    BadSeeds(PubkeyError),
    ProgramNotSupported,
    InstructionError(InstructionError),
    UnalignedPointer,
    TooManySigners,
}

/// Errors of the loader.
#[derive(Debug, PartialEq)]
pub enum BPFError {
    SyscallError(SyscallError),
}

/// What a syscall hands to the virtual machine when it fails.
#[derive(Debug, PartialEq)]
pub enum EbpfError {
    UserError(BPFError),
    /// No region holds the access: its virtual address and its length in bytes.
    AccessViolation(u64, u64),
}

impl From<SyscallError> for EbpfError {
    fn from(error: SyscallError) -> (r: EbpfError) {
        EbpfError::UserError(BPFError::SyscallError(error))
    }
}

impl vstd::std_specs::convert::FromSpecImpl<SyscallError> for EbpfError {
    open spec fn obeys_from_spec() -> bool {
        true
    }

    open spec fn from_spec(error: SyscallError) -> EbpfError {
        EbpfError::UserError(BPFError::SyscallError(error))
    }
}

/// A refused syscall, as the virtual machine sees it.
pub open spec fn refused(error: SyscallError) -> EbpfError {
    EbpfError::UserError(BPFError::SyscallError(error))
}

/// A rejected instruction, as the virtual machine sees it.
pub open spec fn rejected(error: InstructionError) -> EbpfError {
    refused(SyscallError::InstructionError(error))
}

/// A rejected instruction, as the virtual machine sees it.
pub fn reject(error: InstructionError) -> (r: EbpfError)
    ensures
        r == rejected(error),
{
    EbpfError::from(SyscallError::InstructionError(error))
}

/// The return value of the `k`-th builtin program error: they occupy the upper 32 bits.
pub open spec fn builtin_code(k: int) -> int {
    k * 0x1_0000_0000
}

/// The return value by which a program reports `error`, if it can report it at all.
pub open spec fn program_error_code(error: InstructionError) -> Option<int> {
    match error {
        InstructionError::Custom(code) => Some(
            if code == 0 {
                builtin_code(1)
            } else {
                code as int
            },
        ),
        InstructionError::InvalidArgument => Some(builtin_code(2)),
        InstructionError::InvalidInstructionData => Some(builtin_code(3)),
        InstructionError::InvalidAccountData => Some(builtin_code(4)),
        InstructionError::AccountDataTooSmall => Some(builtin_code(5)),
        InstructionError::InsufficientFunds => Some(builtin_code(6)),
        InstructionError::IncorrectProgramId => Some(builtin_code(7)),
        InstructionError::MissingRequiredSignature => Some(builtin_code(8)),
        InstructionError::AccountAlreadyInitialized => Some(builtin_code(9)),
        InstructionError::UninitializedAccount => Some(builtin_code(10)),
        InstructionError::NotEnoughAccountKeys => Some(builtin_code(11)),
        InstructionError::AccountBorrowFailed => Some(builtin_code(12)),
        InstructionError::MaxSeedLengthExceeded => Some(builtin_code(13)),
        _ => None,
    }
}

/// Number of instruction errors.
pub const INSTRUCTION_ERRORS: u32 = 44;

/// The return value by which a program reports the error of a tag, with the code of a custom one.
/// Tags count the errors in the order of their declaration.
pub open spec fn tagged_code(tag: u32, code: u32) -> Option<int> {
    if tag == 25 {
        Some(
            if code == 0 {
                builtin_code(1)
            } else {
                code as int
            },
        )
    } else if 1 <= tag <= 9 {
        Some(builtin_code(tag + 1))
    } else if tag == 19 {
        Some(builtin_code(11))
    } else if tag == 22 {
        Some(builtin_code(12))
    } else if tag == 34 {
        Some(builtin_code(13))
    } else {
        None
    }
}

/// Calls `solana_sdk::program_error::ProgramError::try_from` for the instruction error that has a
/// tag, and `u64::from` for what that gives. Most errors are none of a program; the others have
/// return values in the upper half, but for custom codes other than zero.
#[verifier::external_body]
fn tagged_program_code(tag: u32, code: u32) -> (r: Option<u64>)
    requires
        tag < INSTRUCTION_ERRORS,
    ensures
        match r {
            Some(value) => tagged_code(tag, code) == Some(value as int),
            None => tagged_code(tag, code) is None,
        },
{
    let data = [tag.to_le_bytes(), code.to_le_bytes()].concat();
    let account = solana_sdk::account::Account { data, ..Default::default() };
    let error = account.deserialize_data::<solana_sdk::instruction::InstructionError>().ok()?;
    solana_sdk::program_error::ProgramError::try_from(error).ok().map(u64::from)
}

impl InstructionError {
    /// Position of this error in the order of declaration.
    pub open spec fn tag_spec(self) -> u32 {
        match self {
            InstructionError::GenericError => 0,
            InstructionError::InvalidArgument => 1,
            InstructionError::InvalidInstructionData => 2,
            InstructionError::InvalidAccountData => 3,
            InstructionError::AccountDataTooSmall => 4,
            InstructionError::InsufficientFunds => 5,
            InstructionError::IncorrectProgramId => 6,
            InstructionError::MissingRequiredSignature => 7,
            InstructionError::AccountAlreadyInitialized => 8,
            InstructionError::UninitializedAccount => 9,
            InstructionError::UnbalancedInstruction => 10,
            InstructionError::ModifiedProgramId => 11,
            InstructionError::ExternalAccountLamportSpend => 12,
            InstructionError::ExternalAccountDataModified => 13,
            InstructionError::ReadonlyLamportChange => 14,
            InstructionError::ReadonlyDataModified => 15,
            InstructionError::DuplicateAccountIndex => 16,
            InstructionError::ExecutableModified => 17,
            InstructionError::RentEpochModified => 18,
            InstructionError::NotEnoughAccountKeys => 19,
            InstructionError::AccountDataSizeChanged => 20,
            InstructionError::AccountNotExecutable => 21,
            InstructionError::AccountBorrowFailed => 22,
            InstructionError::AccountBorrowOutstanding => 23,
            InstructionError::DuplicateAccountOutOfSync => 24,
            InstructionError::Custom(_) => 25,
            InstructionError::InvalidError => 26,
            InstructionError::ExecutableDataModified => 27,
            InstructionError::ExecutableLamportChange => 28,
            InstructionError::ExecutableAccountNotRentExempt => 29,
            InstructionError::UnsupportedProgramId => 30,
            InstructionError::CallDepth => 31,
            InstructionError::MissingAccount => 32,
            InstructionError::ReentrancyNotAllowed => 33,
            InstructionError::MaxSeedLengthExceeded => 34,
            InstructionError::InvalidSeeds => 35,
            InstructionError::InvalidRealloc => 36,
            InstructionError::ComputationalBudgetExceeded => 37,
            InstructionError::PrivilegeEscalation => 38,
            InstructionError::ProgramEnvironmentSetupFailure => 39,
            InstructionError::ProgramFailedToComplete => 40,
            InstructionError::ProgramFailedToCompile => 41,
            InstructionError::Immutable => 42,
            InstructionError::IncorrectAuthority => 43,
        }
    }

    /// Position of this error in the order of declaration.
    pub fn tag(self) -> (r: u32)
        ensures
            r == self.tag_spec(),
            r < INSTRUCTION_ERRORS,
    {
        match self {
            InstructionError::GenericError => 0,
            InstructionError::InvalidArgument => 1,
            InstructionError::InvalidInstructionData => 2,
            InstructionError::InvalidAccountData => 3,
            InstructionError::AccountDataTooSmall => 4,
            InstructionError::InsufficientFunds => 5,
            InstructionError::IncorrectProgramId => 6,
            InstructionError::MissingRequiredSignature => 7,
            InstructionError::AccountAlreadyInitialized => 8,
            InstructionError::UninitializedAccount => 9,
            InstructionError::UnbalancedInstruction => 10,
            InstructionError::ModifiedProgramId => 11,
            InstructionError::ExternalAccountLamportSpend => 12,
            InstructionError::ExternalAccountDataModified => 13,
            InstructionError::ReadonlyLamportChange => 14,
            InstructionError::ReadonlyDataModified => 15,
            InstructionError::DuplicateAccountIndex => 16,
            InstructionError::ExecutableModified => 17,
            InstructionError::RentEpochModified => 18,
            InstructionError::NotEnoughAccountKeys => 19,
            InstructionError::AccountDataSizeChanged => 20,
            InstructionError::AccountNotExecutable => 21,
            InstructionError::AccountBorrowFailed => 22,
            InstructionError::AccountBorrowOutstanding => 23,
            InstructionError::DuplicateAccountOutOfSync => 24,
            InstructionError::Custom(_) => 25,
            InstructionError::InvalidError => 26,
            InstructionError::ExecutableDataModified => 27,
            InstructionError::ExecutableLamportChange => 28,
            InstructionError::ExecutableAccountNotRentExempt => 29,
            InstructionError::UnsupportedProgramId => 30,
            InstructionError::CallDepth => 31,
            InstructionError::MissingAccount => 32,
            InstructionError::ReentrancyNotAllowed => 33,
            InstructionError::MaxSeedLengthExceeded => 34,
            InstructionError::InvalidSeeds => 35,
            InstructionError::InvalidRealloc => 36,
            InstructionError::ComputationalBudgetExceeded => 37,
            InstructionError::PrivilegeEscalation => 38,
            InstructionError::ProgramEnvironmentSetupFailure => 39,
            InstructionError::ProgramFailedToComplete => 40,
            InstructionError::ProgramFailedToCompile => 41,
            InstructionError::Immutable => 42,
            InstructionError::IncorrectAuthority => 43,
        }
    }

    /// The return value by which a program reports this error, `None` for an error that only
    /// the runtime reports.
    pub fn program_code(self) -> (r: Option<u64>)
        ensures
            match r {
                Some(code) => program_error_code(self) == Some(code as int),
                None => program_error_code(self) is None,
            },
    {
        let code: u32 = match self {
            InstructionError::Custom(code) => code,
            _ => 0,
        };
        tagged_program_code(self.tag(), code)
    }
}

/// Law: a program can report two different errors by the same return value only if they are
/// the same error.
pub proof fn law_program_codes_are_distinct(a: InstructionError, b: InstructionError)
    requires
        program_error_code(a) is Some,
        program_error_code(a) == program_error_code(b),
    ensures
        a == b,
{
}

/// Law: no error that a program reports reads as success.
pub proof fn law_program_code_is_never_success(error: InstructionError)
    ensures
        program_error_code(error) != Some(0int),
{
}

} // verus!
