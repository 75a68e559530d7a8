//! Lowercase hexadecimal text, as ASCII bytes.
//!
//! Every identifier that appears in a signed message is rendered here: two
//! digits per byte, and, for the fields of a puzzle, a `0x` prefix and zero
//! padding up to a fixed width.

use vstd::prelude::*;

verus! {

/// ASCII `0`.
pub const CHAR_ZERO: u8 = 48;

/// ASCII `x`.
pub const CHAR_X: u8 = 120;

/// The least number of digits that follow `0x` in a field of a puzzle.
pub const FIELD_WIDTH: usize = 32;

/// Whether `c` is one of `0`-`9`, `a`-`f`.
pub open spec fn is_hex_digit(c: u8) -> bool {
    (48 <= c <= 57) || (97 <= c <= 102)
}

/// The digit that stands for `n`, for `n` below sixteen.
pub open spec fn hex_digit(n: int) -> u8 {
    if n < 10 {
        (48 + n) as u8
    } else {
        (87 + n) as u8
    }
}

/// The number that the digit `c` stands for.
pub open spec fn hex_value(c: u8) -> int {
    if c <= 57 {
        c - 48
    } else {
        c - 87
    }
}

/// The `i`-th half byte of `data`, the high half of each byte first.
pub open spec fn nibble(data: Seq<u8>, i: int) -> int {
    if i % 2 == 0 {
        data[i / 2] as int / 16
    } else {
        data[i / 2] as int % 16
    }
}

/// The hexadecimal text of `data`: two lowercase digits per byte.
pub open spec fn hex_text(data: Seq<u8>) -> Seq<u8> {
    Seq::new((2 * data.len()) as nat, |i: int| hex_digit(nibble(data, i)))
}

/// Whether every byte of `text` is a hexadecimal digit.
pub open spec fn all_hex(text: Seq<u8>) -> bool {
    forall|i: int| 0 <= i < text.len() ==> is_hex_digit(#[trigger] text[i])
}

/// The bytes that an even number of digits stand for.
pub open spec fn unhex(text: Seq<u8>) -> Seq<u8> {
    Seq::new(
        text.len() / 2,
        |i: int| (16 * hex_value(text[2 * i]) + hex_value(text[2 * i + 1])) as u8,
    )
}

/// `count` zero digits.
pub open spec fn zero_digits(count: nat) -> Seq<u8> {
    Seq::new(count, |i: int| CHAR_ZERO)
}

/// The field that holds the digits `body`: `0x`, the digits, and then as many
/// zero digits as it takes to reach [`FIELD_WIDTH`] digits. A body that is
/// that wide already is kept as it is.
pub open spec fn fixed_width(body: Seq<u8>) -> Seq<u8> {
    seq![CHAR_ZERO, CHAR_X] + body + zero_digits(
        if body.len() < FIELD_WIDTH {
            (FIELD_WIDTH - body.len()) as nat
        } else {
            0
        },
    )
}

/// Whether `text` has the shape of a field of a puzzle: `0x` and then at
/// least [`FIELD_WIDTH`] hexadecimal digits.
pub open spec fn is_fixed_width_hex(text: Seq<u8>) -> bool {
    &&& text.len() >= FIELD_WIDTH + 2
    &&& text[0] == CHAR_ZERO
    &&& text[1] == CHAR_X
    &&& all_hex(text.subrange(2, text.len() as int))
}

/// Decoding undoes encoding, and encoding yields digits only.
pub proof fn lemma_unhex_hex_text(data: Seq<u8>)
    ensures
        hex_text(data).len() == 2 * data.len(),
        all_hex(hex_text(data)),
        unhex(hex_text(data)) == data,
{
    let text = hex_text(data);
    assert forall|i: int| 0 <= i < text.len() implies is_hex_digit(#[trigger] text[i]) by {
        let n = nibble(data, i);
        assert(0 <= n < 16);
    }
    assert forall|i: int| 0 <= i < data.len() implies unhex(text)[i] == data[i] by {
        assert(text[2 * i] == hex_digit(nibble(data, 2 * i)));
        assert(text[2 * i + 1] == hex_digit(nibble(data, 2 * i + 1)));
        assert(nibble(data, 2 * i) == data[i] as int / 16);
        assert(nibble(data, 2 * i + 1) == data[i] as int % 16);
    }
    assert(unhex(text) =~= data);
}

/// Encoding undoes decoding on an even number of digits.
pub proof fn lemma_hex_text_unhex(text: Seq<u8>)
    requires
        all_hex(text),
        text.len() % 2 == 0,
    ensures
        hex_text(unhex(text)) == text,
{
    let data = unhex(text);
    assert forall|i: int| 0 <= i < text.len() implies hex_text(data)[i] == text[i] by {
        let k = i / 2;
        assert(is_hex_digit(text[2 * k]));
        assert(is_hex_digit(text[2 * k + 1]));
        assert(data[k] == (16 * hex_value(text[2 * k]) + hex_value(text[2 * k + 1])) as u8);
    }
    assert(hex_text(data) =~= text);
}

/// A padded body is a well-shaped field whenever the body is made of digits.
pub proof fn lemma_fixed_width_shape(body: Seq<u8>)
    requires
        all_hex(body),
    ensures
        is_fixed_width_hex(fixed_width(body)),
        fixed_width(body).len() == 2 + if body.len() < FIELD_WIDTH {
            FIELD_WIDTH as int
        } else {
            body.len() as int
        },
{
    let field = fixed_width(body);
    let tail = field.subrange(2, field.len() as int);
    assert forall|i: int| 0 <= i < tail.len() implies is_hex_digit(#[trigger] tail[i]) by {
        if i < body.len() {
            assert(tail[i] == body[i]);
        } else {
            assert(tail[i] == CHAR_ZERO);
        }
    }
}

/// `hex::encode`, with its text taken as bytes: two lowercase digits for
/// each byte of `data`, the high half first, from the table
/// `0123456789abcdef`. The text is twice as long as `data`, so `data` must
/// leave room for that.
#[verifier::external_body]
pub(crate) fn hex_encode(data: &[u8]) -> (text: Vec<u8>)
    requires
        data@.len() * 2 <= isize::MAX,
    ensures
        text@ == hex_text(data@),
{
    hex::encode(data).into_bytes()
}

/// The field of a puzzle that holds `data`: see [`fixed_width`].
pub fn to_field(data: &[u8]) -> (field: Vec<u8>)
    requires
        data@.len() * 2 <= isize::MAX,
    ensures
        field@ == fixed_width(hex_text(data@)),
        is_fixed_width_hex(field@),
{
    let body = hex_encode(data);
    let mut field: Vec<u8> = Vec::new();
    field.push(CHAR_ZERO);
    field.push(CHAR_X);
    append(&mut field, body.as_slice());
    let mut width: usize = body.len();
    while width < FIELD_WIDTH
        invariant
            body@.len() <= width,
            width <= FIELD_WIDTH || width == body@.len(),
            field@ == seq![CHAR_ZERO, CHAR_X] + body@ + zero_digits((width - body@.len()) as nat),
        decreases FIELD_WIDTH - width,
    {
        field.push(CHAR_ZERO);
        width += 1;
    }
    proof {
        lemma_unhex_hex_text(data@);
        lemma_fixed_width_shape(body@);
    }
    field
}

/// The value of one hexadecimal digit, or `None` for any other byte.
pub fn digit_value(c: u8) -> (value: Option<u8>)
    ensures
        value is Some <==> is_hex_digit(c),
        value matches Some(n) ==> n == hex_value(c) && n < 16,
{
    if 48 <= c && c <= 57 {
        Some(c - 48)
    } else if 97 <= c && c <= 102 {
        Some(c - 87)
    } else {
        None
    }
}

/// Whether `text` has the shape of a field of a puzzle.
pub fn check_field(text: &[u8]) -> (ok: bool)
    ensures
        ok == is_fixed_width_hex(text@),
{
    if text.len() < FIELD_WIDTH + 2 {
        return false;
    }
    if text[0] != CHAR_ZERO || text[1] != CHAR_X {
        return false;
    }
    let mut i: usize = 2;
    while i < text.len()
        invariant
            2 <= i <= text@.len(),
            forall|k: int| 2 <= k < i ==> is_hex_digit(#[trigger] text@[k]),
        decreases text@.len() - i,
    {
        if digit_value(text[i]).is_none() {
            proof {
                let tail = text@.subrange(2, text@.len() as int);
                assert(tail[i - 2] == text@[i as int]);
            }
            return false;
        }
        i += 1;
    }
    proof {
        let tail = text@.subrange(2, text@.len() as int);
        assert forall|k: int| 0 <= k < tail.len() implies is_hex_digit(#[trigger] tail[k]) by {
            assert(tail[k] == text@[k + 2]);
        }
    }
    true
}

/// The bytes that `text` stands for, where it is an even number of
/// hexadecimal digits, and `None` where it is not.
pub fn from_hex(text: &[u8]) -> (data: Option<Vec<u8>>)
    ensures
        data is Some <==> all_hex(text@) && text@.len() % 2 == 0,
        data matches Some(d) ==> d@ == unhex(text@) && hex_text(d@) == text@,
{
    if text.len() % 2 != 0 {
        return None;
    }
    let mut out: Vec<u8> = Vec::new();
    let mut i: usize = 0;
    while i < text.len()
        invariant
            i <= text@.len(),
            i % 2 == 0,
            text@.len() % 2 == 0,
            out@.len() == i / 2,
            forall|k: int| 0 <= k < i ==> is_hex_digit(#[trigger] text@[k]),
            forall|k: int| 0 <= k < out@.len() ==> out@[k] == unhex(text@)[k],
        decreases text@.len() - i,
    {
        let high = digit_value(text[i]);
        let low = digit_value(text[i + 1]);
        match (high, low) {
            (Some(h), Some(l)) => {
                out.push(h * 16 + l);
            },
            _ => {
                return None;
            },
        }
        i += 2;
    }
    proof {
        assert(out@ =~= unhex(text@));
        lemma_hex_text_unhex(text@);
    }
    Some(out)
}

/// Whether two byte strings are the same.
pub(crate) fn same_bytes(a: &[u8], b: &[u8]) -> (same: bool)
    ensures
        same == (a@ == b@),
{
    if a.len() != b.len() {
        return false;
    }
    let mut i: usize = 0;
    while i < a.len()
        invariant
            i <= a@.len(),
            a@.len() == b@.len(),
            forall|k: int| 0 <= k < i ==> a@[k] == b@[k],
        decreases a@.len() - i,
    {
        if a[i] != b[i] {
            return false;
        }
        i += 1;
    }
    assert(a@ =~= b@);
    true
}

/// A copy of `bytes`.
pub(crate) fn copy_of(bytes: &[u8]) -> (copy: Vec<u8>)
    ensures
        copy@ == bytes@,
{
    let mut copy: Vec<u8> = Vec::new();
    append(&mut copy, bytes);
    copy
}

/// Puts `part` at the end of `out`.
pub(crate) fn append(out: &mut Vec<u8>, part: &[u8])
    ensures
        final(out)@ == old(out)@ + part@,
{
    let mut i: usize = 0;
    while i < part.len()
        invariant
            i <= part@.len(),
            out@ == old(out)@ + part@.subrange(0, i as int),
        decreases part@.len() - i,
    {
        out.push(part[i]);
        i += 1;
    }
    assert(part@.subrange(0, i as int) == part@);
}

} // verus!
