//! Amounts of the native token.
use crate::text::{digits, digits_value, law_digits_denote_the_number, padded_digits};
use crate::text::{push_digits, push_padded_digits};
use vstd::arithmetic::power::pow;
use vstd::prelude::*;

verus! {

/// There are 10^9 lamports in one PANO
pub const LAMPORTS_PER_PANO: u64 = 1_000_000_000;

/// An amount in lamports that is shown in PANO, without rounding.
pub struct Safe(pub u64);

/// An amount in PANO: the whole tokens, a point, and nine digits.
pub open spec fn amount_text(lamports: u64) -> Seq<char> {
    seq!['◎'] + digits(lamports as int / LAMPORTS_PER_PANO as int, 10) + seq!['.']
        + padded_digits(lamports as int % LAMPORTS_PER_PANO as int, 9)
}

impl Safe {
    /// Appends the amount in PANO.
    pub fn write_in_sol(&self, f: &mut String)
        ensures
            final(f)@ == old(f)@ + amount_text(self.0),
    {
        f.push('◎');
        push_digits(f, self.0 / LAMPORTS_PER_PANO, 10);
        f.push('.');
        push_padded_digits(f, self.0 % LAMPORTS_PER_PANO, 9);
        assert(f@ =~= old(f)@ + amount_text(self.0));
    }
}

/// Digits with leading zeros denote a number that they have room for.
proof fn lemma_padded_digits_value(n: int, width: nat)
    requires
        0 <= n < pow(10, width),
    ensures
        padded_digits(n, width).len() == width,
        digits_value(padded_digits(n, width), 10) == n,
    decreases width,
{
    if width == 0 {
        vstd::arithmetic::power::lemma_pow0(10);
    } else {
        let before = (width - 1) as nat;
        assert(pow(10, width) == 10 * pow(10, before)) by {
            reveal(pow);
        }
        lemma_padded_digits_value(n / 10, before);
        let s = padded_digits(n, width);
        assert(s.drop_last() =~= padded_digits(n / 10, before));
    }
}

/// Law: the amount that is shown is exact. Whole tokens and lamports can be read back from the
/// text, and a token has nine digits behind the point.
pub proof fn law_amount_is_exact(lamports: u64)
    ensures
        ({
            let whole = digits(lamports as int / LAMPORTS_PER_PANO as int, 10);
            let part = padded_digits(lamports as int % LAMPORTS_PER_PANO as int, 9);
            &&& amount_text(lamports) == seq!['◎'] + whole + seq!['.'] + part
            &&& part.len() == 9
            &&& digits_value(whole, 10) * LAMPORTS_PER_PANO + digits_value(part, 10) == lamports
        }),
{
    law_digits_denote_the_number(lamports as int / LAMPORTS_PER_PANO as int, 10);
    assert(pow(10, 9) == 1_000_000_000) by {
        reveal(pow);
        reveal_with_fuel(pow, 10);
    }
    lemma_padded_digits_value(lamports as int % LAMPORTS_PER_PANO as int, 9);
}

/// Law: an amount is shown as whole tokens, of a thousand million lamports each, without leading
/// zeros, and behind a point the other lamports, in nine digits.
pub proof fn law_tokens_are_whole_in_front_of_the_point(lamports: u64) -> (parts: (
    Seq<char>,
    Seq<char>,
))
    ensures
        amount_text(lamports) == seq!['◎'] + parts.0 + seq!['.'] + parts.1,
        digits_value(parts.0, 10) == lamports as int / 1_000_000_000,
        parts.0.len() > 1 ==> parts.0[0] != '0',
        parts.1.len() == 9,
        digits_value(parts.1, 10) == lamports as int % 1_000_000_000,
{
    law_amount_is_exact(lamports);
    law_digits_denote_the_number(lamports as int / 1_000_000_000, 10);
    crate::text::law_digits_are_the_shortest(lamports as int / 1_000_000_000, 10);
    (
        digits(lamports as int / 1_000_000_000, 10),
        padded_digits(lamports as int % 1_000_000_000, 9),
    )
}

/// Law: digits with leading zeros are as many as were asked for, and denote the number if they have
/// room for it.
pub proof fn law_padded_digits_denote_the_number(n: int, width: nat)
    requires
        0 <= n < pow(10, width),
    ensures
        padded_digits(n, width).len() == width,
        digits_value(padded_digits(n, width), 10) == n,
{
    lemma_padded_digits_value(n, width);
}

} // verus!
