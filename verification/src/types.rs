//! The plain values that claims are made of: account addresses, commit and
//! note identifiers, 256-bit scalars and signatures.

use vstd::prelude::*;
use vstd::slice::slice_subrange;
use crate::hexfmt::{hex_encode, hex_text, same_bytes};

verus! {

/// Number of hexadecimal digits in the short form of a commit identifier.
pub const SHORT_ID_LEN: usize = 7;

/// A 20-byte account address.
#[derive(Clone, Copy, Debug, PartialEq, Eq, Hash)]
pub struct Address(pub [u8; 20]);

/// The identifier of a commit: the 20 bytes of its hash.
#[derive(Clone, Copy, Debug, PartialEq, Eq, Hash)]
pub struct CommitId(pub [u8; 20]);

/// The identifier of a note: the 20-byte hash of its content.
#[derive(Clone, Copy, Debug, PartialEq, Eq, Hash)]
pub struct NoteId(pub [u8; 20]);

/// A 256-bit unsigned integer, as 32 bytes with the most significant first.
#[derive(Clone, Copy, Debug, PartialEq, Eq, Hash)]
pub struct U256(pub [u8; 32]);

/// A signature over a message: the recovery id and the two scalars.
#[derive(Clone, Copy, Debug, PartialEq, Eq, Hash)]
pub struct Signature {
    pub v: u64,
    pub r: U256,
    pub s: U256,
}

/// What a [`Signature`] holds.
pub ghost struct SignatureView {
    pub v: u64,
    pub r: Seq<u8>,
    pub s: Seq<u8>,
}

impl SignatureView {
    /// Both scalars are 32 bytes long.
    pub open spec fn wf(self) -> bool {
        self.r.len() == 32 && self.s.len() == 32
    }
}

impl View for Address {
    type V = Seq<u8>;

    open spec fn view(&self) -> Seq<u8> {
        self.0@
    }
}

impl View for CommitId {
    type V = Seq<u8>;

    open spec fn view(&self) -> Seq<u8> {
        self.0@
    }
}

impl View for NoteId {
    type V = Seq<u8>;

    open spec fn view(&self) -> Seq<u8> {
        self.0@
    }
}

impl View for U256 {
    type V = Seq<u8>;

    open spec fn view(&self) -> Seq<u8> {
        self.0@
    }
}

impl View for Signature {
    type V = SignatureView;

    open spec fn view(&self) -> SignatureView {
        SignatureView { v: self.v, r: self.r@, s: self.s@ }
    }
}

impl Address {
    /// Whether the two addresses are the same.
    pub fn same(&self, other: &Address) -> (same: bool)
        ensures
            same == (self@ == other@),
            same == (*self == *other),
    {
        let same = same_bytes(self.0.as_slice(), other.0.as_slice());
        proof {
            if same {
                assert(self.0 =~= other.0);
            }
        }
        same
    }
}

impl CommitId {
    /// Whether the two identifiers are the same.
    pub fn same(&self, other: &CommitId) -> (same: bool)
        ensures
            same == (self@ == other@),
            same == (*self == *other),
    {
        let same = same_bytes(self.0.as_slice(), other.0.as_slice());
        proof {
            if same {
                assert(self.0 =~= other.0);
            }
        }
        same
    }

    /// The identifier in full, as 40 hexadecimal digits.
    pub fn to_hex(&self) -> (text: Vec<u8>)
        ensures
            text@ == hex_text(self@),
            text@.len() == 40,
    {
        hex_encode(self.0.as_slice())
    }

    /// The short form of the identifier: the first seven digits of its
    /// hexadecimal text.
    pub fn short_id(&self) -> (text: Vec<u8>)
        ensures
            text@ == short_id_text(self@),
    {
        let full = hex_encode(self.0.as_slice());
        let part = slice_subrange(full.as_slice(), 0, SHORT_ID_LEN);
        let mut text: Vec<u8> = Vec::new();
        let mut i: usize = 0;
        while i < SHORT_ID_LEN
            invariant
                i <= SHORT_ID_LEN,
                part@.len() == SHORT_ID_LEN,
                text@ == part@.subrange(0, i as int),
            decreases SHORT_ID_LEN - i,
        {
            text.push(part[i]);
            i += 1;
        }
        assert(part@.subrange(0, SHORT_ID_LEN as int) == part@);
        text
    }
}

/// The short form of a commit identifier: the first seven digits of its
/// hexadecimal text.
pub open spec fn short_id_text(commit: Seq<u8>) -> Seq<u8> {
    hex_text(commit).subrange(0, SHORT_ID_LEN as int)
}

impl NoteId {
    /// Whether the two identifiers are the same.
    pub fn same(&self, other: &NoteId) -> (same: bool)
        ensures
            same == (self@ == other@),
            same == (*self == *other),
    {
        let same = same_bytes(self.0.as_slice(), other.0.as_slice());
        proof {
            if same {
                assert(self.0 =~= other.0);
            }
        }
        same
    }
}

impl U256 {
    /// Whether the two numbers are the same.
    pub fn same(&self, other: &U256) -> (same: bool)
        ensures
            same == (self@ == other@),
            same == (*self == *other),
    {
        let same = same_bytes(self.0.as_slice(), other.0.as_slice());
        proof {
            if same {
                assert(self.0 =~= other.0);
            }
        }
        same
    }
}

impl Signature {
    /// Whether the two signatures are the same.
    pub fn same(&self, other: &Signature) -> (same: bool)
        ensures
            same == (self@ == other@),
    {
        self.v == other.v && self.r.same(&other.r) && self.s.same(&other.s)
    }
}

/// Twenty bytes of `bytes`, starting at `from`, as an array.
pub(crate) fn array20(bytes: &[u8], from: usize) -> (out: [u8; 20])
    requires
        from + 20 <= bytes@.len(),
    ensures
        out@ == bytes@.subrange(from as int, from + 20),
{
    let mut out: [u8; 20] = [0u8; 20];
    let len: usize = bytes.len();
    let mut i: usize = 0;
    while i < 20
        invariant
            i <= 20,
            from + 20 <= len == bytes@.len(),
            forall|k: int| 0 <= k < i ==> out@[k] == bytes@[from + k],
        decreases 20 - i,
    {
        out[i] = bytes[from + i];
        i += 1;
    }
    assert(out@ =~= bytes@.subrange(from as int, from + 20));
    out
}

/// Thirty-two bytes of `bytes`, from its start, as an array.
pub(crate) fn array32(bytes: &[u8]) -> (out: [u8; 32])
    requires
        bytes@.len() == 32,
    ensures
        out@ == bytes@,
{
    let mut out: [u8; 32] = [0u8; 32];
    let mut i: usize = 0;
    while i < 32
        invariant
            i <= 32,
            bytes@.len() == 32,
            forall|k: int| 0 <= k < i ==> out@[k] == bytes@[k],
        decreases 32 - i,
    {
        out[i] = bytes[i];
        i += 1;
    }
    assert(out@ =~= bytes@);
    out
}

} // verus!
