//! Syscalls that end a program, and those that write to its log.
use crate::context::{charge_result, charged, program_logged, ComputeMeter, Logger};
use crate::context::{logged, remaining_text};
use crate::error::{refused, rejected, EbpfError, InstructionError, SyscallError};
use crate::guest::{
    refuses_string, translate_string, translate_string_and_do, window, Text, Window,
};
use crate::memory::{translate_type, HostMemory, MemoryRegion};
use crate::pubkey::{pubkey_text, pubkey_to_string, Pubkey};
use crate::text::{
    digits, digits_value, hex_text, law_digits_are_the_shortest, law_digits_denote_the_number,
    push_hex,
};
use vstd::prelude::*;
use vstd::string::StringExecFns;
use vstd::utf8::encode_utf8;

verus! {

/// Abort syscall functions, called when the BPF program calls `abort()`
/// LLVM will insert calls to `abort()` if it detects an untenable situation,
/// `abort()` is not intended to be called explicitly by the program.
/// Causes the BPF program to be halted immediately
pub fn syscall_abort(
    _arg1: u64,
    _arg2: u64,
    _arg3: u64,
    _arg4: u64,
    _arg5: u64,
    _ro_regions: &[MemoryRegion],
    _rw_regions: &[MemoryRegion],
) -> (r: Result<u64, EbpfError>)
    ensures
        r == Err::<u64, EbpfError>(refused(SyscallError::Abort)),
{
    Err(EbpfError::from(SyscallError::Abort))
}

/// Panic syscall function, called when the BPF program calls 'sol_panic_()`
/// Causes the BPF program to be halted immediately
#[derive(Debug, Clone, Copy)]
pub struct SyscallPanic<'a> {
    pub loader_id: &'a Pubkey,
}

/// Whether `error` reports a panic in a file.
pub open spec fn reports_panic(error: EbpfError, file: Seq<char>, line: u64, column: u64) -> bool {
    &&& error matches EbpfError::UserError(
        crate::error::BPFError::SyscallError(SyscallError::Panic(name, at_line, at_column)),
    )
    &&& name@ == file
    &&& at_line == line
    &&& at_column == column
}

/// Whether a panic came to a result.
pub open spec fn panicked(
    ro: Window,
    file: u64,
    len: u64,
    line: u64,
    column: u64,
    r: Result<u64, EbpfError>,
) -> bool {
    r is Err && match ro.text(file, len) {
        Text::Valid(name) => reports_panic(r->Err_0, name, line, column),
        Text::Invalid(bytes) => refuses_string(r->Err_0, bytes),
        Text::Unreadable(e) => r->Err_0 == e,
    }
}

/// Law: a panic ends the program with the name of the file that stands in its memory up to the
/// first zero byte, the line, and the column. A name that is no text ends it, too.
pub proof fn law_panics_tell_where_they_were(
    ro: Window,
    file: u64,
    len: u64,
    line: u64,
    column: u64,
    r: Result<u64, EbpfError>,
    name: Seq<char>,
    rest: Seq<u8>,
)
    requires
        ro.is_valid(),
        panicked(ro, file, len, line, column, r),
    ensures
        r is Err,
        stands_as_text(ro, file, len, name, rest) ==> {
            &&& r->Err_0 is UserError
            &&& r->Err_0->UserError_0 is SyscallError
            &&& r->Err_0->UserError_0->SyscallError_0 matches SyscallError::Panic(
                shown,
                at_line,
                at_column,
            )
            &&& shown@ == name
            &&& at_line == line
            &&& at_column == column
        },
{
    ro.law_text_is_read_up_to_a_zero_byte(file, len, encode_utf8(name), rest, name);
}

/// Whether a text stands at a virtual address, without a zero byte, and behind it nothing, or a
/// zero byte and anything.
pub open spec fn stands_as_text(
    ro: Window,
    addr: u64,
    len: u64,
    text: Seq<char>,
    rest: Seq<u8>,
) -> bool {
    &&& len == encode_utf8(text).len() + rest.len()
    &&& ro.shows(addr as int, encode_utf8(text) + rest)
    &&& !encode_utf8(text).contains(0)
    &&& rest.len() > 0 ==> rest[0] == 0
}

/// Whether a log is another one with a line of the program behind it, if the log takes lines, and
/// the same one if not.
pub open spec fn has_new_line(before: Logger, after: Logger, line: Seq<char>) -> bool {
    if before@.is_enabled && !before@.is_borrowed {
        &&& after@.lines == before@.lines.push("Program log: "@ + line)
        &&& after@.is_enabled
        &&& !after@.is_borrowed
    } else {
        after == before
    }
}

/// Whether a price was paid.
pub open spec fn is_paid(cost: u64, before: ComputeMeter, after: ComputeMeter) -> bool {
    &&& !before.is_borrowed
    &&& !after.is_borrowed
    &&& after.remaining + cost == before.remaining
}

/// Whether a call that cannot be paid was refused, and left the log as it was.
pub open spec fn is_refused_unpaid(
    cost: u64,
    before: ComputeMeter,
    after: ComputeMeter,
    log_before: Logger,
    log_after: Logger,
    r: Result<u64, EbpfError>,
) -> bool {
    &&& log_after == log_before
    &&& before.is_borrowed ==> after == before && r == Err::<u64, EbpfError>(
        refused(SyscallError::InvokeContextBorrowFailed),
    )
    &&& !before.is_borrowed ==> after.remaining == 0 && r == Err::<u64, EbpfError>(
        rejected(InstructionError::ComputationalBudgetExceeded),
    )
}

impl<'a> SyscallPanic<'a> {
    /// Fails with the name of the file that panicked, the line and the column.
    pub fn call(
        &self,
        file: u64,
        len: u64,
        line: u64,
        column: u64,
        _arg5: u64,
        ro_regions: &[MemoryRegion],
        _rw_regions: &[MemoryRegion],
        memory: &HostMemory,
    ) -> (r: Result<u64, EbpfError>)
        requires
            window(ro_regions, self.loader_id, memory).is_valid(),
        ensures
            r is Err,
            match window(ro_regions, self.loader_id, memory).text(file, len) {
                Text::Valid(name) => reports_panic(r->Err_0, name, line, column),
                Text::Invalid(bytes) => refuses_string(r->Err_0, bytes),
                Text::Unreadable(e) => r->Err_0 == e,
            },
            panicked(window(ro_regions, self.loader_id, memory), file, len, line, column, r),
    {
        let work = |string: &str| -> (r: Result<u64, EbpfError>)
            ensures
                r is Err,
                reports_panic(r->Err_0, string@, line, column),
        {
            Err(EbpfError::from(SyscallError::Panic(string.to_owned(), line, column)))
        };
        translate_string_and_do(file, len, ro_regions, self.loader_id, memory, work)
    }
}

/// Log a user's info message
#[derive(Debug, Clone, Copy)]
pub struct SyscallLog<'a> {
    pub cost: u64,
    pub loader_id: &'a Pubkey,
}

/// Whether logging a message came to a result, a meter and a log.
pub open spec fn message_logged(
    ro: Window,
    cost: u64,
    addr: u64,
    len: u64,
    meter: ComputeMeter,
    meter_after: ComputeMeter,
    log: Logger,
    log_after: Logger,
    r: Result<u64, EbpfError>,
) -> bool {
    &&& meter_after == charged(meter, cost)
    &&& match charge_result(meter, cost) {
        Err(e) => r == Err::<u64, EbpfError>(e) && log_after == log,
        Ok(_) => match ro.text(addr, len) {
            Text::Valid(message) => r == Ok::<u64, EbpfError>(0) && program_logged(
                log,
                log_after,
                message,
            ),
            Text::Invalid(bytes) => r is Err && refuses_string(r->Err_0, bytes) && log_after == log,
            Text::Unreadable(e) => r == Err::<u64, EbpfError>(e) && log_after == log,
        },
    }
}

/// Law: a message that stands in a program's memory is logged up to the first zero byte, for its
/// price, and the call is answered by zero. What is no text is not logged; nor is what is not paid.
pub proof fn law_messages_are_logged(
    ro: Window,
    cost: u64,
    addr: u64,
    len: u64,
    meter: ComputeMeter,
    meter_after: ComputeMeter,
    log: Logger,
    log_after: Logger,
    r: Result<u64, EbpfError>,
    message: Seq<char>,
    rest: Seq<u8>,
)
    requires
        ro.is_valid(),
        message_logged(ro, cost, addr, len, meter, meter_after, log, log_after, r),
    ensures
        meter.is_borrowed || cost > meter.remaining ==> is_refused_unpaid(
            cost,
            meter,
            meter_after,
            log,
            log_after,
            r,
        ),
        !meter.is_borrowed && cost <= meter.remaining ==> is_paid(cost, meter, meter_after),
        !meter.is_borrowed && cost <= meter.remaining && stands_as_text(
            ro,
            addr,
            len,
            message,
            rest,
        ) ==> r == Ok::<u64, EbpfError>(0) && has_new_line(log, log_after, message),
        r is Err ==> log_after == log,
        len > 0 && !ro.holds(addr as int, len as int) ==> r is Err,
{
    ro.law_text_is_read_up_to_a_zero_byte(addr, len, encode_utf8(message), rest, message);
}

impl<'a> SyscallLog<'a> {
    /// Logs the message at a virtual address.
    pub fn call(
        &self,
        addr: u64,
        len: u64,
        _arg3: u64,
        _arg4: u64,
        _arg5: u64,
        ro_regions: &[MemoryRegion],
        _rw_regions: &[MemoryRegion],
        memory: &HostMemory,
        compute_meter: &mut ComputeMeter,
        logger: &mut Logger,
    ) -> (r: Result<u64, EbpfError>)
        requires
            window(ro_regions, self.loader_id, memory).is_valid(),
        ensures
            *final(compute_meter) == charged(*old(compute_meter), self.cost),
            match charge_result(*old(compute_meter), self.cost) {
                Err(e) => r == Err::<u64, EbpfError>(e) && *final(logger) == *old(logger),
                Ok(_) => match window(ro_regions, self.loader_id, memory).text(addr, len) {
                    Text::Valid(message) => r == Ok::<u64, EbpfError>(0) && program_logged(
                        *old(logger),
                        *final(logger),
                        message,
                    ),
                    Text::Invalid(bytes) => r is Err && refuses_string(r->Err_0, bytes)
                        && *final(logger) == *old(logger),
                    Text::Unreadable(e) => r == Err::<u64, EbpfError>(e) && *final(logger) == *old(
                        logger,
                    ),
                },
            },
            message_logged(
                window(ro_regions, self.loader_id, memory),
                self.cost,
                addr,
                len,
                *old(compute_meter),
                *final(compute_meter),
                *old(logger),
                *final(logger),
                r,
            ),
    {
        compute_meter.consume(self.cost)?;
        let message = translate_string(addr, len, ro_regions, self.loader_id, memory)?;
        logger.program_log(message.as_str());
        Ok(0)
    }
}

/// Log 5 64-bit values
#[derive(Debug, Clone, Copy)]
pub struct SyscallLogU64 {
    pub cost: u64,
}

/// Five numbers in hexadecimal.
pub open spec fn numbers_text(a: u64, b: u64, c: u64, d: u64, e: u64) -> Seq<char> {
    hex_text(a) + ", "@ + hex_text(b) + ", "@ + hex_text(c) + ", "@ + hex_text(d) + ", "@
        + hex_text(e)
}

/// Whether logging five numbers came to a result, a meter and a log.
pub open spec fn numbers_logged(
    cost: u64,
    numbers: Seq<u64>,
    meter: ComputeMeter,
    meter_after: ComputeMeter,
    log: Logger,
    log_after: Logger,
    r: Result<u64, EbpfError>,
) -> bool {
    &&& meter_after == charged(meter, cost)
    &&& match charge_result(meter, cost) {
        Err(e) => r == Err::<u64, EbpfError>(e) && log_after == log,
        Ok(_) => r == Ok::<u64, EbpfError>(0) && program_logged(
            log,
            log_after,
            numbers_text(numbers[0], numbers[1], numbers[2], numbers[3], numbers[4]),
        ),
    }
}

/// Whether characters are a number in hexadecimal, behind its prefix and without leading zeros.
pub open spec fn is_hex_of(text: Seq<char>, n: u64) -> bool {
    &&& text.len() > 2
    &&& text.take(2) == "0x"@
    &&& digits_value(text.skip(2), 16) == n
    &&& text[2] == '0' ==> n == 0 && text.len() == 3
}

/// A number in hexadecimal is one.
proof fn lemma_hex_text(n: u64)
    ensures
        is_hex_of(hex_text(n), n),
{
    reveal_strlit("0x");
    law_digits_denote_the_number(n as int, 16);
    law_digits_are_the_shortest(n as int, 16);
    assert(hex_text(n).skip(2) =~= digits(n as int, 16));
    assert(hex_text(n).take(2) =~= "0x"@);
}

/// Law: five numbers are logged in their order, in hexadecimal and with commas between them, for
/// their price, and the call is answered by zero. Numbers that are not paid are not logged.
pub proof fn law_numbers_are_logged(
    cost: u64,
    numbers: Seq<u64>,
    meter: ComputeMeter,
    meter_after: ComputeMeter,
    log: Logger,
    log_after: Logger,
    r: Result<u64, EbpfError>,
) -> (texts: Seq<Seq<char>>)
    requires
        numbers.len() == 5,
        numbers_logged(cost, numbers, meter, meter_after, log, log_after, r),
    ensures
        texts.len() == 5,
        forall|i: int| 0 <= i < 5 ==> is_hex_of(#[trigger] texts[i], numbers[i]),
        meter.is_borrowed || cost > meter.remaining ==> is_refused_unpaid(
            cost,
            meter,
            meter_after,
            log,
            log_after,
            r,
        ),
        !meter.is_borrowed && cost <= meter.remaining ==> {
            &&& is_paid(cost, meter, meter_after)
            &&& r == Ok::<u64, EbpfError>(0)
            &&& has_new_line(
                log,
                log_after,
                texts[0] + ", "@ + texts[1] + ", "@ + texts[2] + ", "@ + texts[3] + ", "@
                    + texts[4],
            )
        },
{
    let texts = Seq::new(5, |i: int| hex_text(numbers[i]));
    assert forall|i: int| 0 <= i < 5 implies is_hex_of(#[trigger] texts[i], numbers[i]) by {
        lemma_hex_text(numbers[i]);
    }
    texts
}

impl SyscallLogU64 {
    /// Logs five numbers in hexadecimal.
    pub fn call(
        &self,
        arg1: u64,
        arg2: u64,
        arg3: u64,
        arg4: u64,
        arg5: u64,
        _ro_regions: &[MemoryRegion],
        _rw_regions: &[MemoryRegion],
        compute_meter: &mut ComputeMeter,
        logger: &mut Logger,
    ) -> (r: Result<u64, EbpfError>)
        ensures
            *final(compute_meter) == charged(*old(compute_meter), self.cost),
            match charge_result(*old(compute_meter), self.cost) {
                Err(e) => r == Err::<u64, EbpfError>(e) && *final(logger) == *old(logger),
                Ok(_) => r == Ok::<u64, EbpfError>(0) && program_logged(
                    *old(logger),
                    *final(logger),
                    numbers_text(arg1, arg2, arg3, arg4, arg5),
                ),
            },
            numbers_logged(
                self.cost,
                seq![arg1, arg2, arg3, arg4, arg5],
                *old(compute_meter),
                *final(compute_meter),
                *old(logger),
                *final(logger),
                r,
            ),
    {
        compute_meter.consume(self.cost)?;
        let mut message: String = String::new();
        push_hex(&mut message, arg1);
        message.append(", ");
        push_hex(&mut message, arg2);
        message.append(", ");
        push_hex(&mut message, arg3);
        message.append(", ");
        push_hex(&mut message, arg4);
        message.append(", ");
        push_hex(&mut message, arg5);
        assert(message@ =~= numbers_text(arg1, arg2, arg3, arg4, arg5));
        logger.program_log(message.as_str());
        Ok(0)
    }
}

/// Log current compute consumption
#[derive(Debug, Clone, Copy)]
pub struct SyscallLogBpfComputeUnits {
    pub cost: u64,
}

/// Whether logging how many compute units are left came to a result, a meter and a log.
pub open spec fn units_logged(
    cost: u64,
    meter: ComputeMeter,
    meter_after: ComputeMeter,
    log: Logger,
    log_after: Logger,
    r: Result<u64, EbpfError>,
) -> bool {
    &&& meter_after == charged(meter, cost)
    &&& match charge_result(meter, cost) {
        Err(e) => r == Err::<u64, EbpfError>(e) && log_after == log,
        Ok(_) => if log.is_borrowed {
            r == Err::<u64, EbpfError>(refused(SyscallError::InvokeContextBorrowFailed))
                && log_after == log
        } else if log.is_enabled {
            r == Ok::<u64, EbpfError>(0) && logged(
                log,
                log_after,
                remaining_text(meter_after.remaining),
            )
        } else {
            r == Ok::<u64, EbpfError>(0) && log_after == log
        },
    }
}

/// Law: the units that are left once the call itself was paid are logged in decimal digits, if the
/// log records messages; a log that another holder has borrowed fails the call.
pub proof fn law_remaining_units_are_logged(
    cost: u64,
    meter: ComputeMeter,
    meter_after: ComputeMeter,
    log: Logger,
    log_after: Logger,
    r: Result<u64, EbpfError>,
) -> (told: Seq<char>)
    requires
        units_logged(cost, meter, meter_after, log, log_after, r),
    ensures
        digits_value(told, 10) == meter_after.remaining,
        meter.is_borrowed || cost > meter.remaining ==> is_refused_unpaid(
            cost,
            meter,
            meter_after,
            log,
            log_after,
            r,
        ),
        !meter.is_borrowed && cost <= meter.remaining ==> {
            &&& is_paid(cost, meter, meter_after)
            &&& log@.is_borrowed ==> log_after == log && r == Err::<u64, EbpfError>(
                refused(SyscallError::InvokeContextBorrowFailed),
            )
            &&& !log@.is_borrowed ==> r == Ok::<u64, EbpfError>(0)
            &&& !log@.is_borrowed && !log@.is_enabled ==> log_after == log
            &&& !log@.is_borrowed && log@.is_enabled ==> log_after@.lines == log@.lines.push(
                "Program consumption: "@ + told + " units remaining"@,
            )
        },
{
    law_digits_denote_the_number(meter_after.remaining as int, 10);
    digits(meter_after.remaining as int, 10)
}

impl SyscallLogBpfComputeUnits {
    /// Logs how many compute units are left, if messages are recorded.
    pub fn call(
        &self,
        _arg1: u64,
        _arg2: u64,
        _arg3: u64,
        _arg4: u64,
        _arg5: u64,
        _ro_regions: &[MemoryRegion],
        _rw_regions: &[MemoryRegion],
        compute_meter: &mut ComputeMeter,
        logger: &mut Logger,
    ) -> (r: Result<u64, EbpfError>)
        ensures
            *final(compute_meter) == charged(*old(compute_meter), self.cost),
            match charge_result(*old(compute_meter), self.cost) {
                Err(e) => r == Err::<u64, EbpfError>(e) && *final(logger) == *old(logger),
                Ok(_) => if old(logger).is_borrowed {
                    r == Err::<u64, EbpfError>(refused(SyscallError::InvokeContextBorrowFailed))
                        && *final(logger) == *old(logger)
                } else if old(logger).is_enabled {
                    r == Ok::<u64, EbpfError>(0) && logged(
                        *old(logger),
                        *final(logger),
                        remaining_text(final(compute_meter).remaining),
                    )
                } else {
                    r == Ok::<u64, EbpfError>(0) && *final(logger) == *old(logger)
                },
            },
            units_logged(
                self.cost,
                *old(compute_meter),
                *final(compute_meter),
                *old(logger),
                *final(logger),
                r,
            ),
    {
        compute_meter.consume(self.cost)?;
        if logger.is_borrowed {
            return Err(EbpfError::from(SyscallError::InvokeContextBorrowFailed));
        }
        logger.log_remaining(compute_meter.remaining);
        Ok(0)
    }
}

/// Log an address
#[derive(Debug, Clone, Copy)]
pub struct SyscallLogPubkey<'a> {
    pub cost: u64,
    pub loader_id: &'a Pubkey,
}

/// Whether logging an address came to a result, a meter and a log.
pub open spec fn address_logged(
    ro: Window,
    cost: u64,
    pubkey_addr: u64,
    meter: ComputeMeter,
    meter_after: ComputeMeter,
    log: Logger,
    log_after: Logger,
    r: Result<u64, EbpfError>,
) -> bool {
    &&& meter_after == charged(meter, cost)
    &&& match charge_result(meter, cost) {
        Err(e) => r == Err::<u64, EbpfError>(e) && log_after == log,
        Ok(_) => match ro.value(pubkey_addr, 32, 1) {
            Err(e) => r == Err::<u64, EbpfError>(e) && log_after == log,
            Ok(at) => r == Ok::<u64, EbpfError>(0) && program_logged(
                log,
                log_after,
                pubkey_text(ro.bytes(at as int, 32)),
            ),
        },
    }
}

/// Law: the address that stands in a program's memory is logged in its text form, for its price,
/// and the call is answered by zero. An address that cannot be accessed is not logged; nor is one
/// that is not paid.
pub proof fn law_addresses_are_logged(
    ro: Window,
    cost: u64,
    pubkey_addr: u64,
    meter: ComputeMeter,
    meter_after: ComputeMeter,
    log: Logger,
    log_after: Logger,
    r: Result<u64, EbpfError>,
    key: Seq<u8>,
)
    requires
        ro.is_valid(),
        address_logged(ro, cost, pubkey_addr, meter, meter_after, log, log_after, r),
    ensures
        meter.is_borrowed || cost > meter.remaining ==> is_refused_unpaid(
            cost,
            meter,
            meter_after,
            log,
            log_after,
            r,
        ),
        !meter.is_borrowed && cost <= meter.remaining ==> is_paid(cost, meter, meter_after),
        !meter.is_borrowed && cost <= meter.remaining && key.len() == 32 && ro.shows(
            pubkey_addr as int,
            key,
        ) ==> r == Ok::<u64, EbpfError>(0) && has_new_line(log, log_after, pubkey_text(key)),
        !meter.is_borrowed && cost <= meter.remaining && !ro.holds(pubkey_addr as int, 32) ==> r
            == Err::<u64, EbpfError>(EbpfError::AccessViolation(pubkey_addr, 32)) && log_after
            == log,
{
    reveal(crate::memory::translated);
    if key.len() == 32 && ro.shows(pubkey_addr as int, key) {
        ro.lemma_shown_value(pubkey_addr, key, 1);
    }
}

impl<'a> SyscallLogPubkey<'a> {
    /// Logs the text form of the address at a virtual address.
    pub fn call(
        &self,
        pubkey_addr: u64,
        _arg2: u64,
        _arg3: u64,
        _arg4: u64,
        _arg5: u64,
        ro_regions: &[MemoryRegion],
        _rw_regions: &[MemoryRegion],
        memory: &HostMemory,
        compute_meter: &mut ComputeMeter,
        logger: &mut Logger,
    ) -> (r: Result<u64, EbpfError>)
        requires
            window(ro_regions, self.loader_id, memory).is_valid(),
        ensures
            *final(compute_meter) == charged(*old(compute_meter), self.cost),
            match charge_result(*old(compute_meter), self.cost) {
                Err(e) => r == Err::<u64, EbpfError>(e) && *final(logger) == *old(logger),
                Ok(_) => match window(ro_regions, self.loader_id, memory).value(
                    pubkey_addr,
                    32,
                    1,
                ) {
                    Err(e) => r == Err::<u64, EbpfError>(e) && *final(logger) == *old(logger),
                    Ok(at) => r == Ok::<u64, EbpfError>(0) && program_logged(
                        *old(logger),
                        *final(logger),
                        pubkey_text(
                            window(ro_regions, self.loader_id, memory).bytes(at as int, 32),
                        ),
                    ),
                },
            },
            address_logged(
                window(ro_regions, self.loader_id, memory),
                self.cost,
                pubkey_addr,
                *old(compute_meter),
                *final(compute_meter),
                *old(logger),
                *final(logger),
                r,
            ),
    {
        compute_meter.consume(self.cost)?;
        let at: u64 = translate_type(
            pubkey_addr,
            32,
            1,
            ro_regions,
            self.loader_id,
            memory,
        )?;
        let text = pubkey_to_string(&memory.read_pubkey(at));
        logger.program_log(text.as_str());
        Ok(0)
    }
}

} // verus!
