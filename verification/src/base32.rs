//! Project identifiers, which are written in z-base-32.

use vstd::prelude::*;
use vstd::string::StringSliceAdditionalSpecFns;
use vstd::utf8::encode_utf8;
use crate::error::{Error, ErrorView};

verus! {

/// Number of bits that one digit of base-32 text holds.
pub const BITS_PER_DIGIT: u64 = 5;

/// What `zbase32::decode_str` gives for `text` and `bits`: the bytes, or
/// `None` where it finds a byte that is no digit of its alphabet.
pub uninterp spec fn zbase32_decoded(text: Seq<char>, bits: u64) -> Option<Seq<u8>>;

/// `zbase32::decode_str`, with its error dropped. It reads the first `bits`
/// bits that the digits of `text` hold, five to a digit, and refuses a
/// demand for more bits than there are: here every bit is asked for, and
/// no more.
#[verifier::external_body]
fn zbase32_decode(text: &str, bits: u64) -> (bytes: Option<Vec<u8>>)
    requires
        bits == text.spec_bytes().len() * BITS_PER_DIGIT,
    ensures
        bytes is Some <==> zbase32_decoded(text@, bits) is Some,
        bytes matches Some(b) ==> zbase32_decoded(text@, bits) == Some(b@),
{
    zbase32::decode_str(text, bits).ok()
}

/// The bytes that the project identifier `text` stands for: all the bits of
/// its digits, the last byte filled up with zero bits. `None` where the text
/// is not base-32, or where it holds more bits than can be counted.
pub open spec fn project_bytes(text: Seq<char>) -> Option<Seq<u8>> {
    let bits = encode_utf8(text).len() * BITS_PER_DIGIT;
    if bits <= u64::MAX {
        zbase32_decoded(text, bits as u64)
    } else {
        None
    }
}

/// Decodes a project identifier from its base-32 text.
pub fn decode_project(text: &str) -> (decoded: Result<Vec<u8>, Error>)
    ensures
        match decoded {
            Ok(bytes) => project_bytes(text@) == Some(bytes@),
            Err(e) => project_bytes(text@) is None && e@ == ErrorView::NotValidEncoding(
                "project id"@,
            ),
        },
{
    let digits: u64 = text.as_bytes().len() as u64;
    if digits > u64::MAX / BITS_PER_DIGIT {
        return Err(Error::not_valid("project id"));
    }
    let bits: u64 = digits * BITS_PER_DIGIT;
    match zbase32_decode(text, bits) {
        Some(bytes) => Ok(bytes),
        None => Err(Error::not_valid("project id")),
    }
}

} // verus!
