//! Numbers as text: the recovery id in decimal, and 256-bit scalars as `0x`
//! and their hexadecimal digits without leading zeros.

use vstd::prelude::*;
use crate::hexfmt::{
    all_hex, from_hex, hex_encode, hex_text, is_hex_digit, lemma_unhex_hex_text, unhex, zero_digits,
    CHAR_X, CHAR_ZERO,
};
use crate::types::{array32, U256};

verus! {

/// Number of hexadecimal digits in a 256-bit scalar written in full.
pub const SCALAR_DIGITS: usize = 64;

/// Whether `c` is one of `0`-`9`.
pub open spec fn is_decimal_digit(c: u8) -> bool {
    48 <= c <= 57
}

/// Whether every byte of `text` is a decimal digit.
pub open spec fn all_decimal(text: Seq<u8>) -> bool {
    forall|i: int| 0 <= i < text.len() ==> is_decimal_digit(#[trigger] text[i])
}

/// The decimal text of `n`, without leading zeros; `0` for zero.
pub open spec fn decimal_text(n: nat) -> Seq<u8>
    decreases n,
{
    if n < 10 {
        seq![(48 + n) as u8]
    } else {
        decimal_text(n / 10).push((48 + n % 10) as u8)
    }
}

/// The number that a run of decimal digits stands for.
pub open spec fn decimal_value(text: Seq<u8>) -> nat
    decreases text.len(),
{
    if text.len() == 0 {
        0
    } else {
        (10 * decimal_value(text.drop_last()) + (text.last() - 48)) as nat
    }
}

/// Reading undoes writing, and writing yields at least one digit and
/// nothing but digits.
pub proof fn lemma_decimal_value_text(n: nat)
    ensures
        decimal_text(n).len() >= 1,
        all_decimal(decimal_text(n)),
        decimal_value(decimal_text(n)) == n,
    decreases n,
{
    if n < 10 {
        let text = decimal_text(n);
        assert(text.drop_last() =~= Seq::<u8>::empty());
        assert(decimal_value(text.drop_last()) == 0);
    } else {
        lemma_decimal_value_text(n / 10);
        let text = decimal_text(n);
        assert(text.drop_last() =~= decimal_text(n / 10));
        assert(text.last() == (48 + n % 10) as u8);
    }
}

/// A run of digits stands for at least as much as any of its beginnings.
pub proof fn lemma_decimal_value_grows(text: Seq<u8>, k: int)
    requires
        all_decimal(text),
        0 <= k <= text.len(),
    ensures
        decimal_value(text.subrange(0, k)) <= decimal_value(text),
    decreases text.len() - k,
{
    if k == text.len() {
        assert(text.subrange(0, k) =~= text);
    } else {
        lemma_decimal_value_grows(text, k + 1);
        let longer = text.subrange(0, k + 1);
        assert(longer.drop_last() =~= text.subrange(0, k));
        assert(is_decimal_digit(text[k]));
        assert(longer.last() == text[k]);
    }
}

/// The decimal text of `value`.
pub fn to_decimal(value: u64) -> (text: Vec<u8>)
    ensures
        text@ == decimal_text(value as nat),
{
    let mut low: Vec<u8> = Vec::new();
    let mut rest: u64 = value;
    while rest >= 10
        invariant
            decimal_text(value as nat) == decimal_text(rest as nat) + low@.reverse(),
        decreases rest,
    {
        let digit: u8 = 48 + (rest % 10) as u8;
        proof {
            let before = low@;
            let after = low@.push(digit);
            assert(after.reverse() =~= seq![digit] + before.reverse());
            assert(decimal_text(rest as nat) == decimal_text((rest / 10) as nat).push(digit));
            assert(decimal_text((rest / 10) as nat).push(digit) + before.reverse()
                =~= decimal_text((rest / 10) as nat) + after.reverse());
        }
        low.push(digit);
        rest = rest / 10;
    }
    let mut text: Vec<u8> = Vec::new();
    text.push(48 + rest as u8);
    let mut i: usize = low.len();
    while i > 0
        invariant
            i <= low@.len(),
            rest < 10,
            text@ == seq![(48 + rest) as u8] + low@.reverse().subrange(0, low@.len() - i),
        decreases i,
    {
        i -= 1;
        proof {
            let rev = low@.reverse();
            let at = low@.len() - i - 1;
            assert(rev[at] == low@[i as int]);
            assert(rev.subrange(0, at + 1) =~= rev.subrange(0, at).push(rev[at]));
        }
        text.push(low[i]);
    }
    proof {
        let rev = low@.reverse();
        assert(rev.subrange(0, low@.len() as int) =~= rev);
    }
    text
}

/// The number that `text` stands for in decimal. `None` where a byte is no
/// digit, or where the number does not fit 64 bits.
pub fn from_decimal(text: &[u8]) -> (value: Option<u64>)
    ensures
        value is Some <==> all_decimal(text@) && decimal_value(text@) <= u64::MAX,
        value matches Some(n) ==> n == decimal_value(text@),
{
    let mut acc: u64 = 0;
    let mut i: usize = 0;
    while i < text.len()
        invariant
            i <= text@.len(),
            all_decimal(text@.subrange(0, i as int)),
            acc == decimal_value(text@.subrange(0, i as int)),
        decreases text@.len() - i,
    {
        let c: u8 = text[i];
        if c < 48 || c > 57 {
            return None;
        }
        proof {
            let longer = text@.subrange(0, i + 1);
            assert(longer.drop_last() =~= text@.subrange(0, i as int));
            assert(longer.last() == c);
            assert forall|k: int| 0 <= k < longer.len() implies is_decimal_digit(
                #[trigger] longer[k],
            ) by {
                if k < i {
                    assert(longer[k] == text@.subrange(0, i as int)[k]);
                }
            }
        }
        let digit: u64 = (c - 48) as u64;
        if acc > (u64::MAX - digit) / 10 {
            proof {
                if all_decimal(text@) {
                    lemma_decimal_value_grows(text@, i + 1);
                }
            }
            return None;
        }
        acc = acc * 10 + digit;
        i += 1;
    }
    assert(text@.subrange(0, i as int) =~= text@);
    Some(acc)
}

/// Where the digits of `digits` that are written start: at the first digit
/// that is not zero, or at the last digit where all are zero.
pub open spec fn trim_point(digits: Seq<u8>, from: int) -> int
    decreases digits.len() - from,
{
    if from + 1 >= digits.len() || digits[from] != CHAR_ZERO {
        from
    } else {
        trim_point(digits, from + 1)
    }
}

/// `digits` without its leading zeros, but for the last digit.
pub open spec fn trimmed(digits: Seq<u8>) -> Seq<u8> {
    digits.subrange(trim_point(digits, 0), digits.len() as int)
}

/// `digits` with zeros put before it, up to `width` digits.
pub open spec fn widened(digits: Seq<u8>, width: nat) -> Seq<u8> {
    zero_digits((width - digits.len()) as nat) + digits
}

/// The text of a 256-bit scalar: `0x` and its hexadecimal digits without
/// leading zeros, `0x0` for zero.
pub open spec fn quantity_text(value: Seq<u8>) -> Seq<u8> {
    seq![CHAR_ZERO, CHAR_X] + trimmed(hex_text(value))
}

/// Whatever comes before the point where writing starts is zero, and the
/// point lies inside the digits.
pub proof fn lemma_trim_point(digits: Seq<u8>, from: int)
    requires
        0 <= from < digits.len(),
        forall|k: int| 0 <= k < from ==> digits[k] == CHAR_ZERO,
    ensures
        from <= trim_point(digits, from) < digits.len(),
        forall|k: int| 0 <= k < trim_point(digits, from) ==> digits[k] == CHAR_ZERO,
    decreases digits.len() - from,
{
    if from + 1 >= digits.len() || digits[from] != CHAR_ZERO {
    } else {
        lemma_trim_point(digits, from + 1);
    }
}

/// Putting the zeros back undoes taking them away.
pub proof fn lemma_widened_trimmed(digits: Seq<u8>)
    requires
        digits.len() > 0,
    ensures
        1 <= trimmed(digits).len() <= digits.len(),
        widened(trimmed(digits), digits.len()) == digits,
{
    lemma_trim_point(digits, 0);
    assert(widened(trimmed(digits), digits.len()) =~= digits);
}

/// The text of `value`: see [`quantity_text`].
pub fn to_quantity(value: &U256) -> (text: Vec<u8>)
    ensures
        text@ == quantity_text(value@),
{
    let digits = hex_encode(value.0.as_slice());
    let mut start: usize = 0;
    while start + 1 < digits.len() && digits[start] == CHAR_ZERO
        invariant
            digits@.len() == SCALAR_DIGITS,
            start < digits@.len(),
            trim_point(digits@, 0) == trim_point(digits@, start as int),
        decreases digits@.len() - start,
    {
        start += 1;
    }
    let mut text: Vec<u8> = Vec::new();
    text.push(CHAR_ZERO);
    text.push(CHAR_X);
    let mut i: usize = start;
    while i < digits.len()
        invariant
            start <= i <= digits@.len(),
            text@ == seq![CHAR_ZERO, CHAR_X] + digits@.subrange(start as int, i as int),
        decreases digits@.len() - i,
    {
        text.push(digits[i]);
        i += 1;
    }
    text
}

/// The 256-bit scalar that the hexadecimal digits `digits` stand for, where
/// they are between one and 64 digits, and `None` where they are not.
pub fn from_quantity_digits(digits: &[u8]) -> (value: Option<U256>)
    ensures
        value is Some <==> all_hex(digits@) && 1 <= digits@.len() <= SCALAR_DIGITS,
        value matches Some(n) ==> n@ == unhex(widened(digits@, SCALAR_DIGITS as nat)),
{
    if digits.len() < 1 || digits.len() > SCALAR_DIGITS {
        return None;
    }
    let mut full: Vec<u8> = Vec::new();
    let missing: usize = SCALAR_DIGITS - digits.len();
    let mut i: usize = 0;
    while i < missing
        invariant
            i <= missing,
            full@ == zero_digits(i as nat),
        decreases missing - i,
    {
        full.push(CHAR_ZERO);
        i += 1;
        assert(full@ =~= zero_digits(i as nat));
    }
    let mut k: usize = 0;
    while k < digits.len()
        invariant
            k <= digits@.len(),
            missing + digits@.len() == SCALAR_DIGITS,
            full@ == zero_digits(missing as nat) + digits@.subrange(0, k as int),
        decreases digits@.len() - k,
    {
        full.push(digits[k]);
        k += 1;
        assert(full@ =~= zero_digits(missing as nat) + digits@.subrange(0, k as int));
    }
    assert(digits@.subrange(0, k as int) =~= digits@);
    assert(full@ == widened(digits@, SCALAR_DIGITS as nat));
    proof {
        if all_hex(digits@) {
            assert forall|j: int| 0 <= j < full@.len() implies is_hex_digit(#[trigger] full@[j]) by {
                if j >= missing {
                    assert(full@[j] == digits@[j - missing]);
                }
            }
        } else {
            let bad = choose|j: int| 0 <= j < digits@.len() && !is_hex_digit(#[trigger] digits@[j]);
            assert(full@[bad + missing] == digits@[bad]);
        }
    }
    match from_hex(full.as_slice()) {
        Some(bytes) => Some(U256(array32(bytes.as_slice()))),
        None => None,
    }
}

/// Reading the written digits of a scalar gives the scalar back.
pub proof fn lemma_quantity_round_trip(value: Seq<u8>)
    requires
        value.len() == 32,
    ensures
        all_hex(trimmed(hex_text(value))),
        1 <= trimmed(hex_text(value)).len() <= SCALAR_DIGITS,
        unhex(widened(trimmed(hex_text(value)), SCALAR_DIGITS as nat)) == value,
{
    let digits = hex_text(value);
    lemma_unhex_hex_text(value);
    lemma_widened_trimmed(digits);
    lemma_trim_point(digits, 0);
    let short = trimmed(digits);
    assert forall|j: int| 0 <= j < short.len() implies is_hex_digit(#[trigger] short[j]) by {
        assert(short[j] == digits[j + trim_point(digits, 0)]);
    }
}

} // verus!
