//! Decimal rendering and parsing of the unsigned integers that appear in
//! the configuration source and in the serialized public projection.

use vstd::prelude::*;
use crate::text::push_char;

verus! {

/// True for the ten ASCII digit characters.
pub open spec fn is_digit(c: char) -> bool {
    48 <= c as u32 && c as u32 <= 57
}

/// Numeric value of one ASCII digit character.
pub open spec fn digit_val(c: char) -> nat
    recommends
        is_digit(c),
{
    (c as u32 - 48) as nat
}

/// The ASCII digit character for one value below ten.
pub open spec fn digit_char(d: nat) -> char
    recommends
        d < 10,
{
    ((48 + d) as u8) as char
}

/// The usual decimal rendering of `n`, most significant digit first,
/// without a sign and without leading zeros (`0` is rendered as `"0"`).
pub open spec fn dec_rep(n: nat) -> Seq<char>
    decreases n,
{
    if n < 10 {
        seq![digit_char(n)]
    } else {
        dec_rep(n / 10).push(digit_char(n % 10))
    }
}

/// True when every character of `s` is an ASCII digit.
pub open spec fn all_digits(s: Seq<char>) -> bool {
    forall|i: int| 0 <= i < s.len() ==> is_digit(#[trigger] s[i])
}

/// Value of a digit string read in base ten.
pub open spec fn digits_val(s: Seq<char>) -> nat
    decreases s.len(),
{
    if s.len() == 0 {
        0
    } else {
        digits_val(s.drop_last()) * 10 + digit_val(s.last())
    }
}

/// The number denoted by `s`: defined exactly when `s` is a nonempty string
/// of ASCII digits (the integer grammar of the configuration source).
pub open spec fn parse_uint(s: Seq<char>) -> Option<nat> {
    if s.len() > 0 && all_digits(s) {
        Some(digits_val(s))
    } else {
        None
    }
}

/// Every character of a decimal rendering is an ASCII digit, and the
/// rendering is never empty.
pub proof fn lemma_dec_rep_digits(n: nat)
    ensures
        all_digits(dec_rep(n)),
        dec_rep(n).len() >= 1,
    decreases n,
{
    if n < 10 {
        assert(dec_rep(n) =~= seq![digit_char(n)]);
    } else {
        lemma_dec_rep_digits(n / 10);
        assert forall|i: int| 0 <= i < dec_rep(n).len() implies is_digit(
            #[trigger] dec_rep(n)[i],
        ) by {
            if i < dec_rep(n / 10).len() {
                assert(dec_rep(n)[i] == dec_rep(n / 10)[i]);
            }
        }
    }
}

/// A longer digit string never denotes a smaller number: the value of a
/// prefix is at most the value of the whole string.
pub proof fn lemma_digits_val_prefix_le(s: Seq<char>, j: int)
    requires
        0 <= j <= s.len(),
    ensures
        digits_val(s.subrange(0, j)) <= digits_val(s),
    decreases s.len() - j,
{
    if j < s.len() {
        lemma_digits_val_prefix_le(s, j + 1);
        assert(s.subrange(0, j + 1).drop_last() =~= s.subrange(0, j));
        assert(digits_val(s.subrange(0, j + 1)) == digits_val(s.subrange(0, j)) * 10 + digit_val(
            s.subrange(0, j + 1).last(),
        ));
    } else {
        assert(s.subrange(0, j) =~= s);
    }
}

/// Appends the decimal rendering of `n` to `out`.
pub fn push_dec_u64(out: &mut String, n: u64)
    ensures
        final(out)@ == old(out)@ + dec_rep(n as nat),
    decreases n,
{
    if n < 10 {
        push_char(out, (48 + n as u8) as char);
        proof {
            assert(final(out)@ =~= old(out)@ + dec_rep(n as nat));
        }
    } else {
        push_dec_u64(out, n / 10);
        push_char(out, (48 + (n % 10) as u8) as char);
        proof {
            assert(final(out)@ =~= old(out)@ + dec_rep(n as nat));
        }
    }
}

/// Reads a slice of characters as an unsigned decimal number. Returns the
/// value exactly when the slice is a nonempty digit string whose value fits
/// in a `u64`; rejects everything else.
pub fn parse_u64_chars(v: &[char]) -> (r: Option<u64>)
    ensures
        r matches Some(x) ==> parse_uint(v@) == Some(x as nat),
        r is Some <==> (parse_uint(v@) matches Some(m) && m <= u64::MAX),
{
    if v.len() == 0 {
        return None;
    }
    let mut acc: u64 = 0;
    let mut i: usize = 0;
    while i < v.len()
        invariant
            0 < v@.len(),
            i <= v@.len(),
            all_digits(v@.subrange(0, i as int)),
            acc == digits_val(v@.subrange(0, i as int)),
        decreases v@.len() - i,
    {
        let c: char = v[i];
        let u: u32 = c as u32;
        if u < 48 || u > 57 {
            proof {
                assert(!is_digit(v@[i as int]));
            }
            return None;
        }
        let d: u64 = (u - 48) as u64;
        if acc > (u64::MAX - d) / 10 {
            proof {
                lemma_acc_overflow(acc, d);
                assert(v@.subrange(0, i as int + 1).drop_last() =~= v@.subrange(0, i as int));
                assert(digits_val(v@.subrange(0, i as int + 1)) > u64::MAX);
                if parse_uint(v@) is Some {
                    lemma_digits_val_prefix_le(v@, i as int + 1);
                }
            }
            return None;
        }
        proof {
            lemma_acc_no_overflow(acc, d);
            assert(v@.subrange(0, i as int + 1).drop_last() =~= v@.subrange(0, i as int));
        }
        acc = acc * 10 + d;
        i = i + 1;
    }
    proof {
        assert(v@.subrange(0, i as int) =~= v@);
    }
    Some(acc)
}

/// When the running value passes the guard, one more digit still fits.
proof fn lemma_acc_no_overflow(acc: u64, d: u64)
    requires
        d < 10,
        acc <= (u64::MAX - d) / 10,
    ensures
        acc * 10 + d <= u64::MAX,
{
    vstd::arithmetic::div_mod::lemma_fundamental_div_mod((u64::MAX - d) as int, 10);
}

/// When the running value fails the guard, appending any digit overflows.
proof fn lemma_acc_overflow(acc: u64, d: u64)
    requires
        d < 10,
        acc > (u64::MAX - d) / 10,
    ensures
        acc * 10 + d > u64::MAX,
{
    vstd::arithmetic::div_mod::lemma_fundamental_div_mod((u64::MAX - d) as int, 10);
}

/// Reads a slice of characters as an unsigned decimal number that must fit
/// in a `u32`.
pub fn parse_u32_chars(v: &[char]) -> (r: Option<u32>)
    ensures
        r matches Some(x) ==> parse_uint(v@) == Some(x as nat),
        r is Some <==> (parse_uint(v@) matches Some(m) && m <= u32::MAX),
{
    match parse_u64_chars(v) {
        Some(x) => if x <= u32::MAX as u64 {
            Some(x as u32)
        } else {
            None
        },
        None => None,
    }
}

/// Reads a slice of characters as an unsigned decimal number that must fit
/// in a `usize`.
pub fn parse_usize_chars(v: &[char]) -> (r: Option<usize>)
    ensures
        r matches Some(x) ==> parse_uint(v@) == Some(x as nat),
        r is Some <==> (parse_uint(v@) matches Some(m) && m <= usize::MAX),
{
    match parse_u64_chars(v) {
        Some(x) => if x <= usize::MAX as u64 {
            Some(x as usize)
        } else {
            None
        },
        None => None,
    }
}

} // verus!
