//! What an invocation gives to its syscalls: compute units, a log, and prices.
use crate::error::{refused, rejected, EbpfError, InstructionError, SyscallError};
use crate::text::push_digits;
use vstd::prelude::*;
use vstd::string::StringExecFns;

verus! {

/// The compute units of an invocation.
#[derive(Debug, Clone, Copy, PartialEq, Eq, Structural)]
pub struct ComputeMeter {
    /// Units that are left.
    pub remaining: u64,
    /// Whether another holder has borrowed the meter, so that it cannot be charged.
    pub is_borrowed: bool,
}

/// The meter after a charge. A charge that exceeds what is left takes all of it.
pub open spec fn charged(meter: ComputeMeter, amount: u64) -> ComputeMeter {
    if meter.is_borrowed {
        meter
    } else if meter.remaining < amount {
        ComputeMeter { remaining: 0, ..meter }
    } else {
        ComputeMeter { remaining: (meter.remaining - amount) as u64, ..meter }
    }
}

/// What a charge comes to.
pub open spec fn charge_result(meter: ComputeMeter, amount: u64) -> Result<(), EbpfError> {
    if meter.is_borrowed {
        Err(refused(SyscallError::InvokeContextBorrowFailed))
    } else if meter.remaining < amount {
        Err(rejected(InstructionError::ComputationalBudgetExceeded))
    } else {
        Ok(())
    }
}

impl ComputeMeter {
    /// Charges `amount` units.
    pub fn consume(&mut self, amount: u64) -> (r: Result<(), EbpfError>)
        ensures
            *final(self) == charged(*old(self), amount),
            r == charge_result(*old(self), amount),
    {
        if self.is_borrowed {
            return Err(EbpfError::from(SyscallError::InvokeContextBorrowFailed));
        }
        let exceeded = self.remaining < amount;
        self.remaining = self.remaining.saturating_sub(amount);
        if exceeded {
            return Err(
                EbpfError::from(
                    SyscallError::InstructionError(InstructionError::ComputationalBudgetExceeded),
                ),
            );
        }
        Ok(())
    }
}

/// Law: a meter never gains units, and a charge that succeeds takes exactly its amount.
pub proof fn law_meter_only_falls(meter: ComputeMeter, amount: u64)
    ensures
        charged(meter, amount).remaining <= meter.remaining,
        charge_result(meter, amount) is Ok ==> meter.remaining - charged(meter, amount).remaining
            == amount,
{
}

/// Law: a charge succeeds if and only if the meter can be charged and has the units, and takes
/// exactly them. One that exceeds what is left takes all of it; one on a meter that another holder
/// has borrowed takes nothing.
pub proof fn law_charges_are_exact(meter: ComputeMeter, amount: u64)
    ensures
        charged(meter, amount).is_borrowed == meter.is_borrowed,
        meter.is_borrowed ==> charge_result(meter, amount) == Err::<(), EbpfError>(
            refused(SyscallError::InvokeContextBorrowFailed),
        ) && charged(meter, amount).remaining == meter.remaining,
        !meter.is_borrowed && amount <= meter.remaining ==> charge_result(meter, amount) == Ok::<
            (),
            EbpfError,
        >(()) && charged(meter, amount).remaining + amount == meter.remaining,
        !meter.is_borrowed && amount > meter.remaining ==> charge_result(meter, amount) == Err::<
            (),
            EbpfError,
        >(rejected(InstructionError::ComputationalBudgetExceeded)) && charged(
            meter,
            amount,
        ).remaining == 0,
{
}

/// The log of an invocation.
#[derive(Debug)]
pub struct Logger {
    /// What was logged, oldest first.
    pub lines: Vec<String>,
    /// Whether messages are recorded at all.
    pub is_enabled: bool,
    /// Whether another holder has borrowed the log, so that nothing can be added.
    pub is_borrowed: bool,
}

/// Contents of a log.
pub struct LoggerView {
    pub lines: Seq<Seq<char>>,
    pub is_enabled: bool,
    pub is_borrowed: bool,
}

impl View for Logger {
    type V = LoggerView;

    open spec fn view(&self) -> LoggerView {
        LoggerView {
            lines: Seq::new(self.lines@.len(), |i: int| self.lines@[i]@),
            is_enabled: self.is_enabled,
            is_borrowed: self.is_borrowed,
        }
    }
}

/// Whether a log is `before` with one more line.
pub open spec fn logged(before: Logger, after: Logger, line: Seq<char>) -> bool {
    after@ == (LoggerView { lines: before@.lines.push(line), ..before@ })
}

/// Whether a log is `before` with one more line of the program, which is dropped if the log
/// does not take it.
pub open spec fn program_logged(before: Logger, after: Logger, message: Seq<char>) -> bool {
    if before.is_enabled && !before.is_borrowed {
        logged(before, after, "Program log: "@ + message)
    } else {
        after == before
    }
}

impl Logger {
    /// Adds a line.
    fn push_line(&mut self, line: String)
        ensures
            logged(*old(self), *final(self), line@),
    {
        self.lines.push(line);
        assert(self@.lines =~= old(self)@.lines.push(line@));
    }

    /// Adds a message of the program, behind the prefix that marks it as such.
    pub fn program_log(&mut self, message: &str)
        ensures
            program_logged(*old(self), *final(self), message@),
    {
        if self.is_enabled && !self.is_borrowed {
            let mut line = String::from_str("Program log: ");
            line.append(message);
            self.push_line(line);
        }
    }

    /// Adds the line that tells how many compute units are left, if messages are recorded.
    pub fn log_remaining(&mut self, remaining: u64)
        ensures
            if old(self).is_enabled {
                logged(*old(self), *final(self), remaining_text(remaining))
            } else {
                *final(self) == *old(self)
            },
    {
        if self.is_enabled {
            let mut line = String::from_str("Program consumption: ");
            push_digits(&mut line, remaining, 10);
            line.append(" units remaining");
            self.push_line(line);
        }
    }
}

/// The line that tells how many compute units are left.
pub open spec fn remaining_text(remaining: u64) -> Seq<char> {
    "Program consumption: "@ + crate::text::digits(remaining as int, 10) + " units remaining"@
}

/// Law: a message of a program adds one line behind those that are there, its text behind the
/// prefix, if the log takes it; otherwise the log stays as it is.
pub proof fn law_messages_are_added_to_the_log(before: Logger, after: Logger, message: Seq<char>)
    requires
        program_logged(before, after, message),
    ensures
        after@.is_enabled == before@.is_enabled,
        after@.is_borrowed == before@.is_borrowed,
        before.is_enabled && !before.is_borrowed ==> after@.lines.len() == before@.lines.len() + 1
            && after@.lines.last() == "Program log: "@ + message,
        !before.is_enabled || before.is_borrowed ==> after@.lines.len() == before@.lines.len(),
        forall|i: int|
            0 <= i < before@.lines.len() ==> after@.lines[i] == #[trigger] before@.lines[i],
{
}

/// Law: the line that tells how many compute units are left tells it in decimal digits, from which
/// the number can be read back.
pub proof fn law_remaining_units_are_told(remaining: u64)
    ensures
        exists|digits: Seq<char>|
            remaining_text(remaining) == "Program consumption: "@ + digits + " units remaining"@
                && #[trigger] crate::text::digits_value(digits, 10) == remaining,
{
    crate::text::law_digits_denote_the_number(remaining as int, 10);
}

/// Prices and limits of an invocation.
#[derive(Debug, Clone, Copy, PartialEq, Eq, Structural)]
pub struct BpfComputeBudget {
    /// Units of a log call.
    pub log_units: u64,
    /// Units of a call that logs numbers.
    pub log_64_units: u64,
    /// Units of deriving a program address.
    pub create_program_address_units: u64,
    /// Units of a cross-program invocation, without those of the callee.
    pub invoke_units: u64,
    /// Units of a hash, whatever its input.
    pub sha256_base_cost: u64,
    /// Units of a hash per two bytes of input.
    pub sha256_byte_cost: u64,
    /// Units of a call that logs an address.
    pub log_pubkey_units: u64,
    /// Largest size of the instruction of a cross-program invocation.
    pub max_cpi_instruction_size: u64,
}

/// The features that are active in an invocation.
#[derive(Debug, Clone, Copy, PartialEq, Eq, Structural)]
pub struct FeatureSet {
    pub sol_log_compute_units_syscall: bool,
    pub pubkey_log_syscall_enabled: bool,
    pub sha256_syscall_enabled: bool,
    pub ristretto_mul_syscall_enabled: bool,
    pub try_find_program_address_syscall_enabled: bool,
    pub use_loaded_program_accounts: bool,
    pub limit_cpi_loader_invoke: bool,
    pub abort_on_all_cpi_failures: bool,
}

/// Law: the contents of a log are its lines, in their order, and its flags.
pub proof fn law_contents_of_a_log_are_its_lines(log: Logger)
    ensures
        log@.is_enabled == log.is_enabled,
        log@.is_borrowed == log.is_borrowed,
        log@.lines.len() == log.lines@.len(),
        forall|i: int| 0 <= i < log.lines@.len() ==> #[trigger] log@.lines[i] == log.lines@[i]@,
{
}

} // verus!
