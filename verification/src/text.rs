//! Text: numbers written as digits, and byte strings read as characters.
use crate::error::Utf8Error;
use vstd::prelude::*;
use vstd::string::StringExecFns;

verus! {

/// Specifies `String::push` of the standard library, which appends one character.
pub assume_specification[ String::push ](s: &mut String, c: char)
    ensures
        final(s)@ == old(s)@.push(c),
;

/// The character of one digit, in lower case.
pub open spec fn digit(d: int) -> char {
    if d == 0 {
        '0'
    } else if d == 1 {
        '1'
    } else if d == 2 {
        '2'
    } else if d == 3 {
        '3'
    } else if d == 4 {
        '4'
    } else if d == 5 {
        '5'
    } else if d == 6 {
        '6'
    } else if d == 7 {
        '7'
    } else if d == 8 {
        '8'
    } else if d == 9 {
        '9'
    } else if d == 10 {
        'a'
    } else if d == 11 {
        'b'
    } else if d == 12 {
        'c'
    } else if d == 13 {
        'd'
    } else if d == 14 {
        'e'
    } else {
        'f'
    }
}

/// The digits of a number in a base from two on, without leading zeros.
pub open spec fn digits(n: int, base: int) -> Seq<char>
    decreases n,
{
    if n < base || base < 2 {
        seq![digit(n)]
    } else {
        proof {
            assert(0 <= n / base < n) by (nonlinear_arith)
                requires
                    n >= base >= 2,
            ;
        }
        digits(n / base, base).push(digit(n % base))
    }
}

/// The last `width` decimal digits of a number, with leading zeros.
pub open spec fn padded_digits(n: int, width: nat) -> Seq<char>
    decreases width,
{
    if width == 0 {
        seq![]
    } else {
        padded_digits(n / 10, (width - 1) as nat).push(digit(n % 10))
    }
}

/// A number in hexadecimal, behind its prefix.
pub open spec fn hex_text(n: u64) -> Seq<char> {
    "0x"@ + digits(n as int, 16)
}

/// The character of one digit.
fn digit_char(d: u64) -> (c: char)
    requires
        d < 16,
    ensures
        c == digit(d as int),
{
    match d {
        0 => '0',
        1 => '1',
        2 => '2',
        3 => '3',
        4 => '4',
        5 => '5',
        6 => '6',
        7 => '7',
        8 => '8',
        9 => '9',
        10 => 'a',
        11 => 'b',
        12 => 'c',
        13 => 'd',
        14 => 'e',
        _ => 'f',
    }
}

/// Appends the digits of a number.
pub fn push_digits(s: &mut String, n: u64, base: u64)
    requires
        2 <= base <= 16,
    ensures
        final(s)@ == old(s)@ + digits(n as int, base as int),
    decreases n,
{
    if n < base {
        s.push(digit_char(n));
    } else {
        assert(0 <= n / base < n) by (nonlinear_arith)
            requires
                n >= base >= 2,
        ;
        push_digits(s, n / base, base);
        assert(n % base < base) by (nonlinear_arith)
            requires
                base >= 2,
        ;
        s.push(digit_char(n % base));
    }
    assert(s@ =~= old(s)@ + digits(n as int, base as int));
}

/// Appends the last `width` decimal digits of a number.
pub fn push_padded_digits(s: &mut String, n: u64, width: u64)
    ensures
        final(s)@ == old(s)@ + padded_digits(n as int, width as nat),
    decreases width,
{
    if width > 0 {
        push_padded_digits(s, n / 10, width - 1);
        s.push(digit_char(n % 10));
    }
    assert(s@ =~= old(s)@ + padded_digits(n as int, width as nat));
}

/// Appends a number in hexadecimal, behind its prefix.
pub fn push_hex(s: &mut String, n: u64)
    ensures
        final(s)@ == old(s)@ + hex_text(n),
{
    s.append("0x");
    push_digits(s, n, 16);
    assert(s@ =~= old(s)@ + hex_text(n));
}

/// The value of a text of digits in a base.
pub open spec fn digits_value(s: Seq<char>, base: int) -> int
    decreases s.len(),
{
    if s.len() == 0 {
        0
    } else {
        digits_value(s.drop_last(), base) * base + digit_value(s.last())
    }
}

/// The value of one digit.
pub open spec fn digit_value(c: char) -> int {
    if '0' <= c <= '9' {
        c as int - '0' as int
    } else {
        c as int - 'a' as int + 10
    }
}

/// Law: a number can be read back from its digits.
pub proof fn law_digits_denote_the_number(n: int, base: int)
    requires
        0 <= n,
        2 <= base <= 16,
    ensures
        digits_value(digits(n, base), base) == n,
    decreases n,
{
    if n < base {
        assert(seq![digit(n)].drop_last() =~= Seq::<char>::empty());
        assert(digits_value(Seq::<char>::empty(), base) == 0);
        assert(digits_value(seq![digit(n)], base) == 0 * base + digit_value(digit(n)));
        assert(0 * base == 0) by (nonlinear_arith);
    } else {
        assert(0 <= n / base < n && n == (n / base) * base + n % base && 0 <= n % base < base)
            by (nonlinear_arith)
            requires
                n >= base >= 2,
        ;
        law_digits_denote_the_number(n / base, base);
        assert(digits(n, base).drop_last() =~= digits(n / base, base));
    }
}

/// Law: a number is written without leading zeros, and in digits of its base only.
pub proof fn law_digits_are_the_shortest(n: int, base: int)
    requires
        0 <= n,
        2 <= base <= 16,
    ensures
        digits(n, base).len() > 0,
        digits(n, base)[0] == '0' <==> n == 0,
        n == 0 ==> digits(n, base).len() == 1,
        forall|i: int|
            0 <= i < digits(n, base).len() ==> 0 <= digit_value(#[trigger] digits(n, base)[i])
                < base && ('0' <= digits(n, base)[i] <= '9' || 'a' <= digits(n, base)[i] <= 'f'),
    decreases n,
{
    if n >= base {
        assert(0 < n / base < n && 0 <= n % base < base) by (nonlinear_arith)
            requires
                n >= base >= 2,
        ;
        law_digits_are_the_shortest(n / base, base);
        assert(digits(n, base).drop_last() =~= digits(n / base, base));
        assert forall|i: int| 0 <= i < digits(n, base).len() implies 0 <= digit_value(
            #[trigger] digits(n, base)[i],
        ) < base && ('0' <= digits(n, base)[i] <= '9' || 'a' <= digits(n, base)[i] <= 'f') by {
            if i < digits(n / base, base).len() {
                assert(digits(n, base)[i] == digits(n / base, base)[i]);
            }
        }
    }
}

/// Length of the longest prefix of a byte string that has no zero byte.
pub open spec fn text_len(s: Seq<u8>, from: int) -> int
    decreases s.len() - from,
{
    if from >= s.len() || s[from] == 0 {
        from
    } else {
        text_len(s, from + 1)
    }
}

/// The bytes before the first zero byte, all of them if there is none.
pub open spec fn before_zero(s: Seq<u8>) -> Seq<u8> {
    s.take(text_len(s, 0))
}

/// Law: what stands before the first zero byte holds no zero byte, and is all unless a zero byte
/// follows it.
pub proof fn law_before_zero(s: Seq<u8>)
    ensures
        before_zero(s).len() <= s.len(),
        before_zero(s) == s.take(before_zero(s).len() as int),
        !before_zero(s).contains(0),
        before_zero(s).len() < s.len() ==> s[before_zero(s).len() as int] == 0,
{
    lemma_text_len(s, 0);
}

/// The text ends at the first zero byte, or with the byte string.
proof fn lemma_text_len(s: Seq<u8>, from: int)
    requires
        0 <= from <= s.len(),
    ensures
        from <= text_len(s, from) <= s.len(),
        forall|i: int| from <= i < text_len(s, from) ==> s[i] != 0,
        text_len(s, from) < s.len() ==> s[text_len(s, from)] == 0,
    decreases s.len() - from,
{
    if from < s.len() && s[from] != 0 {
        lemma_text_len(s, from + 1);
    }
}

/// Removes the first zero byte and what follows it.
pub fn cut_at_zero(bytes: &mut Vec<u8>)
    ensures
        final(bytes)@ == before_zero(old(bytes)@),
{
    let mut i: usize = 0;
    while i < bytes.len() && bytes[i] != 0
        invariant
            i <= bytes@.len(),
            bytes@ == old(bytes)@,
            text_len(bytes@, 0) == text_len(bytes@, i as int),
        decreases bytes@.len() - i,
    {
        i = i + 1;
    }
    bytes.truncate(i);
    assert(bytes@ =~= before_zero(old(bytes)@));
}

/// Length of the invalid sequence behind the longest UTF-8 prefix of a byte string.
pub uninterp spec fn utf8_error_len(bytes: Seq<u8>) -> Option<usize>;

/// Whether an error says where a byte string stops being UTF-8.
pub open spec fn explains(error: Utf8Error, bytes: Seq<u8>) -> bool {
    &&& error.valid_up_to <= bytes.len()
    &&& vstd::utf8::valid_utf8(bytes.take(error.valid_up_to as int))
    &&& forall|k: int|
        error.valid_up_to < k <= bytes.len() ==> !vstd::utf8::valid_utf8(#[trigger] bytes.take(k))
}

/// Calls `std::str::from_utf8`, which decodes bytes that are UTF-8. Of other bytes it reports
/// the greatest index up to which they are; the length of what is invalid there goes by the
/// name `utf8_error_len`.
#[verifier::external_body]
pub(crate) fn from_utf8(bytes: &[u8]) -> (r: Result<String, Utf8Error>)
    ensures
        match r {
            Ok(text) => vstd::utf8::valid_utf8(bytes@) && text@ == vstd::utf8::decode_utf8(bytes@),
            Err(error) => !vstd::utf8::valid_utf8(bytes@) && explains(error, bytes@)
                && error.error_len == utf8_error_len(bytes@),
        },
{
    match std::str::from_utf8(bytes) {
        Ok(text) => Ok(text.to_string()),
        Err(e) => Err(Utf8Error { valid_up_to: e.valid_up_to(), error_len: e.error_len() }),
    }
}

} // verus!
