//! Whole numbers in decimal notation.

use crate::chars::from_chars;
use vstd::prelude::*;

verus! {

/// The character of the decimal digit `d`.
pub open spec fn digit(d: nat) -> char
    recommends
        d < 10,
{
    (48 + d) as u8 as char
}

/// The decimal notation of `n`: its digits from the most significant to the
/// least, without leading zeros; a single zero for 0.
pub open spec fn decimal(n: nat) -> Seq<char>
    decreases n,
{
    if n < 10 {
        seq![digit(n)]
    } else {
        decimal(n / 10).push(digit(n % 10))
    }
}

/// The decimal notation of `n`, with a minus sign in front where `n` is
/// negative.
pub open spec fn signed_decimal(n: int) -> Seq<char> {
    if n < 0 {
        seq!['-'] + decimal((-n) as nat)
    } else {
        decimal(n as nat)
    }
}

/// Appends the decimal notation of `n` to `out`.
pub fn push_decimal(out: &mut Vec<char>, n: u128)
    ensures
        final(out)@ == old(out)@ + decimal(n as nat),
    decreases n,
{
    if n >= 10 {
        push_decimal(out, n / 10);
    }
    let d: u8 = (n % 10) as u8;
    out.push((48u8 + d) as char);
    assert(final(out)@ =~= old(out)@ + decimal(n as nat));
}

/// The decimal notation of `n`.
pub fn decimal_string(n: i128) -> (s: String)
    ensures
        s@ == signed_decimal(n as int),
{
    let mut out: Vec<char> = Vec::new();
    if n < 0 {
        out.push('-');
        let magnitude: u128 = ((-(n + 1)) as u128) + 1;
        push_decimal(&mut out, magnitude);
    } else {
        push_decimal(&mut out, n as u128);
        assert(out@ =~= decimal(n as nat));
    }
    from_chars(&out)
}

} // verus!
