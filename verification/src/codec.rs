//! The canonical text of puzzles and proofs.
//!
//! A puzzle is written as one object of four members, in a fixed order and
//! without any white space:
//!
//! ```text
//! {"org":"0x…","contributor":"0x…","commit":"0x…","project":"0x…"}
//! ```
//!
//! A proof has three members more: `"v"`, a decimal number, and `"r"` and
//! `"s"`, each `0x` and the digits of the scalar without leading zeros. The
//! text of a puzzle is what gets signed, so there is exactly one text for
//! each puzzle, and reading accepts that text and no other.

use vstd::prelude::*;
use vstd::slice::slice_subrange;
use crate::error::{Error, ErrorView};
use crate::hexfmt::{
    all_hex, append, check_field, copy_of, from_hex, hex_encode, hex_text, is_fixed_width_hex,
    is_hex_digit, lemma_unhex_hex_text, same_bytes, unhex, CHAR_X, CHAR_ZERO,
};
use crate::numfmt::{
    all_decimal, decimal_text, decimal_value, from_decimal, from_quantity_digits,
    is_decimal_digit, lemma_decimal_value_text, lemma_quantity_round_trip, quantity_text,
    to_decimal, to_quantity, trimmed, widened, SCALAR_DIGITS,
};
use crate::puzzle::{assemble_proof, Proof, ProofView, Puzzle, PuzzleView};
use crate::types::{array20, Address, Signature, SignatureView};

verus! {

/// ASCII `"`.
pub const CHAR_QUOTE: u8 = 34;

/// ASCII `,`.
pub const CHAR_COMMA: u8 = 44;

/// `{"org":"`
pub open spec fn head_org() -> Seq<u8> {
    seq![123u8, 34, 111, 114, 103, 34, 58, 34]
}

/// `","contributor":"`
pub open spec fn head_contributor() -> Seq<u8> {
    seq![34u8, 44, 34, 99, 111, 110, 116, 114, 105, 98, 117, 116, 111, 114, 34, 58, 34]
}

/// `","commit":"`
pub open spec fn head_commit() -> Seq<u8> {
    seq![34u8, 44, 34, 99, 111, 109, 109, 105, 116, 34, 58, 34]
}

/// `","project":"`
pub open spec fn head_project() -> Seq<u8> {
    seq![34u8, 44, 34, 112, 114, 111, 106, 101, 99, 116, 34, 58, 34]
}

/// `","v":`
pub open spec fn head_v() -> Seq<u8> {
    seq![34u8, 44, 34, 118, 34, 58]
}

/// `,"r":"`
pub open spec fn head_r() -> Seq<u8> {
    seq![44u8, 34, 114, 34, 58, 34]
}

/// `","s":"`
pub open spec fn head_s() -> Seq<u8> {
    seq![34u8, 44, 34, 115, 34, 58, 34]
}

/// `"}`
pub open spec fn tail() -> Seq<u8> {
    seq![34u8, 125]
}

/// The text of an address: `0x` and its 40 hexadecimal digits.
pub open spec fn address_text(address: Seq<u8>) -> Seq<u8> {
    seq![CHAR_ZERO, CHAR_X] + hex_text(address)
}

/// The four members that a puzzle and a proof share, up to the end of the
/// project.
pub open spec fn fields_text(p: PuzzleView) -> Seq<u8> {
    head_org() + address_text(p.org) + head_contributor() + address_text(p.contributor)
        + head_commit() + p.commit + head_project() + p.project
}

/// The three members of a signature, and the end of the object.
pub open spec fn signature_text(s: SignatureView) -> Seq<u8> {
    head_v() + decimal_text(s.v as nat) + head_r() + quantity_text(s.r) + head_s()
        + quantity_text(s.s) + tail()
}

/// The canonical text of a puzzle: the bytes that are signed.
pub open spec fn puzzle_text(p: PuzzleView) -> Seq<u8> {
    fields_text(p) + tail()
}

/// The canonical text of a proof.
pub open spec fn proof_text(p: ProofView) -> Seq<u8> {
    fields_text(p.puzzle) + signature_text(p.signature)
}

/// Whether `p` is a puzzle that `bytes` holds: they are its own text, or
/// the text of a proof over it.
pub open spec fn holds_puzzle(bytes: Seq<u8>, p: PuzzleView) -> bool {
    &&& p.wf()
    &&& (puzzle_text(p) == bytes || exists|s: SignatureView|
        s.wf() && #[trigger] proof_text(ProofView { puzzle: p, signature: s }) == bytes)
}

/// Whether `bytes` are the text of the proof `p`.
pub open spec fn holds_proof(bytes: Seq<u8>, p: ProofView) -> bool {
    p.wf() && proof_text(p) == bytes
}

/// The puzzle that `bytes` hold, if they hold one.
pub open spec fn decoded_puzzle(bytes: Seq<u8>) -> Option<PuzzleView> {
    if exists|p: PuzzleView| holds_puzzle(bytes, p) {
        Some(choose|p: PuzzleView| holds_puzzle(bytes, p))
    } else {
        None
    }
}

/// The proof that `bytes` hold, if they hold one.
pub open spec fn decoded_proof(bytes: Seq<u8>) -> Option<ProofView> {
    if exists|p: ProofView| holds_proof(bytes, p) {
        Some(choose|p: ProofView| holds_proof(bytes, p))
    } else {
        None
    }
}

/// The first place at or after `from` where `s` holds `stop`, and the
/// length of `s` where there is none.
spec fn first_index(s: Seq<u8>, from: int, stop: u8) -> int
    decreases s.len() - from,
{
    if from < 0 || from >= s.len() {
        s.len() as int
    } else if s[from] == stop {
        from
    } else {
        first_index(s, from + 1, stop)
    }
}

/// Where the digits of the organization's address start.
const ORG_AT: usize = 10;

/// Where the digits of the contributor's address start.
const CONTRIBUTOR_AT: usize = 69;

/// Where the commit starts.
const COMMIT_AT: usize = 121;

/// Where the commit ends.
spec fn commit_end(b: Seq<u8>) -> int {
    first_index(b, COMMIT_AT as int, CHAR_QUOTE)
}

/// Where the project starts.
spec fn project_at(b: Seq<u8>) -> int {
    commit_end(b) + 13
}

/// Where the project ends.
spec fn project_end(b: Seq<u8>) -> int {
    first_index(b, project_at(b), CHAR_QUOTE)
}

/// Whether the four shared members can be read from `b`.
spec fn fields_readable(b: Seq<u8>) -> bool {
    &&& b.len() >= COMMIT_AT
    &&& all_hex(b.subrange(ORG_AT as int, ORG_AT + 40))
    &&& all_hex(b.subrange(CONTRIBUTOR_AT as int, CONTRIBUTOR_AT + 40))
    &&& project_at(b) <= b.len()
    &&& is_fixed_width_hex(b.subrange(COMMIT_AT as int, commit_end(b)))
    &&& is_fixed_width_hex(b.subrange(project_at(b), project_end(b)))
}

/// The puzzle that is read from `b`.
spec fn fields_of(b: Seq<u8>) -> PuzzleView {
    PuzzleView {
        org: unhex(b.subrange(ORG_AT as int, ORG_AT + 40)),
        contributor: unhex(b.subrange(CONTRIBUTOR_AT as int, CONTRIBUTOR_AT + 40)),
        commit: b.subrange(COMMIT_AT as int, commit_end(b)),
        project: b.subrange(project_at(b), project_end(b)),
    }
}

/// Where the recovery id starts, in a signature that starts at `at`.
spec fn v_at(at: int) -> int {
    at + 6
}

/// Where the recovery id ends.
spec fn v_end(b: Seq<u8>, at: int) -> int {
    first_index(b, v_at(at), CHAR_COMMA)
}

/// Where the digits of the first scalar start.
spec fn r_at(b: Seq<u8>, at: int) -> int {
    v_end(b, at) + 8
}

/// Where the digits of the first scalar end.
spec fn r_end(b: Seq<u8>, at: int) -> int {
    first_index(b, r_at(b, at), CHAR_QUOTE)
}

/// Where the digits of the second scalar start.
spec fn s_at(b: Seq<u8>, at: int) -> int {
    r_end(b, at) + 9
}

/// Where the digits of the second scalar end.
spec fn s_end(b: Seq<u8>, at: int) -> int {
    first_index(b, s_at(b, at), CHAR_QUOTE)
}

/// Whether the digits from `from` to `to` can be read as a scalar.
spec fn scalar_readable(b: Seq<u8>, from: int, to: int) -> bool {
    all_hex(b.subrange(from, to)) && 1 <= to - from <= SCALAR_DIGITS
}

/// Whether a signature can be read from `b`, where it starts at `at`.
spec fn signature_readable(b: Seq<u8>, at: int) -> bool {
    &&& 0 <= at
    &&& v_at(at) <= b.len()
    &&& all_decimal(b.subrange(v_at(at), v_end(b, at)))
    &&& decimal_value(b.subrange(v_at(at), v_end(b, at))) <= u64::MAX
    &&& r_at(b, at) <= b.len()
    &&& scalar_readable(b, r_at(b, at), r_end(b, at))
    &&& s_at(b, at) <= b.len()
    &&& scalar_readable(b, s_at(b, at), s_end(b, at))
}

/// The signature that is read from `b`, where it starts at `at`.
spec fn signature_of(b: Seq<u8>, at: int) -> SignatureView {
    SignatureView {
        v: decimal_value(b.subrange(v_at(at), v_end(b, at))) as u64,
        r: unhex(widened(b.subrange(r_at(b, at), r_end(b, at)), SCALAR_DIGITS as nat)),
        s: unhex(widened(b.subrange(s_at(b, at), s_end(b, at)), SCALAR_DIGITS as nat)),
    }
}

/// Where `stop` stands first is where it stands with nothing like it before.
proof fn lemma_first_index(s: Seq<u8>, from: int, stop: u8, at: int)
    requires
        0 <= from <= at < s.len(),
        s[at] == stop,
        forall|k: int| from <= k < at ==> s[k] != stop,
    ensures
        first_index(s, from, stop) == at,
    decreases at - from,
{
    if from < at {
        lemma_first_index(s, from + 1, stop, at);
    }
}

/// A field of a puzzle holds no `"`.
proof fn lemma_field_has_no_quote(field: Seq<u8>)
    requires
        is_fixed_width_hex(field),
    ensures
        forall|k: int| 0 <= k < field.len() ==> field[k] != CHAR_QUOTE,
{
    let digits = field.subrange(2, field.len() as int);
    assert forall|k: int| 0 <= k < field.len() implies field[k] != CHAR_QUOTE by {
        if k >= 2 {
            assert(is_hex_digit(digits[k - 2]));
        }
    }
}

/// The text of the shared members, followed by anything that starts with
/// `"`, reads back as the puzzle it was written from.
proof fn lemma_fields_layout(p: PuzzleView, rest: Seq<u8>)
    requires
        p.wf(),
        rest.len() > 0,
        rest[0] == CHAR_QUOTE,
    ensures
        fields_text(p).len() == 134 + p.commit.len() + p.project.len(),
        fields_readable(fields_text(p) + rest),
        fields_of(fields_text(p) + rest) == p,
        project_end(fields_text(p) + rest) == fields_text(p).len(),
{
    let b = fields_text(p) + rest;
    let c = p.commit.len() as int;
    let j = p.project.len() as int;
    lemma_unhex_hex_text(p.org);
    lemma_unhex_hex_text(p.contributor);
    lemma_field_has_no_quote(p.commit);
    lemma_field_has_no_quote(p.project);
    let t1 = head_org() + address_text(p.org);
    let t2 = t1 + head_contributor() + address_text(p.contributor);
    let t3 = t2 + head_commit();
    let t4 = t3 + p.commit;
    let t5 = t4 + head_project();
    let t6 = t5 + p.project;
    assert(t1.len() == 50);
    assert(t2.len() == 109);
    assert(t3.len() == 121);
    assert(t4.len() == 121 + c);
    assert(t5.len() == 134 + c);
    assert(t6 == fields_text(p));
    assert(b.subrange(ORG_AT as int, ORG_AT + 40) =~= hex_text(p.org));
    assert(b.subrange(CONTRIBUTOR_AT as int, CONTRIBUTOR_AT + 40) =~= hex_text(p.contributor));
    assert forall|k: int| COMMIT_AT <= k < COMMIT_AT + c implies b[k] != CHAR_QUOTE by {
        assert(b[k] == p.commit[k - COMMIT_AT]);
    }
    assert(b[COMMIT_AT + c] == head_project()[0]);
    lemma_first_index(b, COMMIT_AT as int, CHAR_QUOTE, COMMIT_AT + c);
    assert(commit_end(b) == COMMIT_AT + c);
    assert(b.subrange(COMMIT_AT as int, commit_end(b)) =~= p.commit);
    assert forall|k: int| 134 + c <= k < 134 + c + j implies b[k] != CHAR_QUOTE by {
        assert(b[k] == p.project[k - (134 + c)]);
    }
    assert(b[134 + c + j] == rest[0]);
    lemma_first_index(b, 134 + c, CHAR_QUOTE, 134 + c + j);
    assert(project_end(b) == 134 + c + j);
    assert(b.subrange(project_at(b), project_end(b)) =~= p.project);
}

/// The text of a signature, after anything at all, reads back as the
/// signature it was written from.
proof fn lemma_signature_layout(before: Seq<u8>, s: SignatureView)
    requires
        s.wf(),
    ensures
        signature_readable(before + signature_text(s), before.len() as int),
        signature_of(before + signature_text(s), before.len() as int) == s,
{
    let b = before + signature_text(s);
    let at = before.len() as int;
    let d = decimal_text(s.v as nat);
    let qr = trimmed(hex_text(s.r));
    let qs = trimmed(hex_text(s.s));
    lemma_decimal_value_text(s.v as nat);
    lemma_quantity_round_trip(s.r);
    lemma_quantity_round_trip(s.s);
    let t1 = head_v() + d;
    let t2 = t1 + head_r() + quantity_text(s.r);
    let t3 = t2 + head_s() + quantity_text(s.s);
    assert(t1.len() == 6 + d.len());
    assert(quantity_text(s.r).len() == 2 + qr.len());
    assert(quantity_text(s.s).len() == 2 + qs.len());
    assert(t2.len() == 14 + d.len() + qr.len());
    assert(t3.len() == 23 + d.len() + qr.len() + qs.len());
    assert(signature_text(s) == t3 + tail());
    let v0 = at + 6;
    let v1 = v0 + d.len();
    assert forall|k: int| v0 <= k < v1 implies b[k] != CHAR_COMMA by {
        assert(b[k] == d[k - v0]);
        assert(is_decimal_digit(d[k - v0]));
    }
    assert(b[v1] == head_r()[0]);
    lemma_first_index(b, v0, CHAR_COMMA, v1);
    assert(v_end(b, at) == v1);
    assert(b.subrange(v0, v1) =~= d);
    let r0 = v1 + 8;
    let r1 = r0 + qr.len();
    assert forall|k: int| r0 <= k < r1 implies b[k] != CHAR_QUOTE by {
        assert(b[k] == qr[k - r0]);
        assert(is_hex_digit(qr[k - r0]));
    }
    assert(b[r1] == head_s()[0]);
    lemma_first_index(b, r0, CHAR_QUOTE, r1);
    assert(r_end(b, at) == r1);
    assert(b.subrange(r0, r1) =~= qr);
    let s0 = r1 + 9;
    let s1 = s0 + qs.len();
    assert forall|k: int| s0 <= k < s1 implies b[k] != CHAR_QUOTE by {
        assert(b[k] == qs[k - s0]);
        assert(is_hex_digit(qs[k - s0]));
    }
    assert(b[s1] == tail()[0]);
    lemma_first_index(b, s0, CHAR_QUOTE, s1);
    assert(s_end(b, at) == s1);
    assert(b.subrange(s0, s1) =~= qs);
    assert(signature_of(b, at).r =~= s.r);
    assert(signature_of(b, at).s =~= s.s);
}

/// A proof's text reads back as the proof.
proof fn lemma_proof_reads_back(q: ProofView)
    requires
        q.wf(),
    ensures
        fields_readable(proof_text(q)),
        fields_of(proof_text(q)) == q.puzzle,
        signature_readable(proof_text(q), project_end(proof_text(q))),
        signature_of(proof_text(q), project_end(proof_text(q))) == q.signature,
{
    let rest = signature_text(q.signature);
    assert(rest[0] == CHAR_QUOTE);
    lemma_fields_layout(q.puzzle, rest);
    lemma_signature_layout(fields_text(q.puzzle), q.signature);
}

/// A puzzle's text reads back as the puzzle, and nothing in it reads as a
/// signature.
proof fn lemma_puzzle_reads_back(p: PuzzleView)
    requires
        p.wf(),
    ensures
        fields_readable(puzzle_text(p)),
        fields_of(puzzle_text(p)) == p,
        project_end(puzzle_text(p)) + 2 == puzzle_text(p).len(),
{
    lemma_fields_layout(p, tail());
}

/// Two well-formed puzzles with the same canonical text are the same
/// puzzle.
pub proof fn lemma_puzzle_text_injective(a: PuzzleView, b: PuzzleView)
    requires
        a.wf(),
        b.wf(),
        puzzle_text(a) == puzzle_text(b),
    ensures
        a == b,
{
    lemma_puzzle_reads_back(a);
    lemma_puzzle_reads_back(b);
}

/// Two well-formed proofs with the same canonical text are the same proof.
pub proof fn lemma_proof_text_injective(a: ProofView, b: ProofView)
    requires
        a.wf(),
        b.wf(),
        proof_text(a) == proof_text(b),
    ensures
        a == b,
{
    lemma_proof_reads_back(a);
    lemma_proof_reads_back(b);
}

/// Bytes hold at most one puzzle.
pub proof fn lemma_holds_one_puzzle(bytes: Seq<u8>, a: PuzzleView, b: PuzzleView)
    requires
        holds_puzzle(bytes, a),
        holds_puzzle(bytes, b),
    ensures
        a == b,
{
    lemma_puzzle_held_is_read(bytes, a);
    lemma_puzzle_held_is_read(bytes, b);
}

/// A puzzle that bytes hold is the one that is read from them.
proof fn lemma_puzzle_held_is_read(bytes: Seq<u8>, p: PuzzleView)
    requires
        holds_puzzle(bytes, p),
    ensures
        fields_readable(bytes),
        fields_of(bytes) == p,
{
    if puzzle_text(p) == bytes {
        lemma_puzzle_reads_back(p);
    } else {
        let s = choose|s: SignatureView|
            s.wf() && #[trigger] proof_text(ProofView { puzzle: p, signature: s }) == bytes;
        lemma_proof_reads_back(ProofView { puzzle: p, signature: s });
    }
}

/// Bytes hold no puzzle where they are neither the text of the puzzle that
/// is read from them nor the text of the proof that is read from them.
proof fn lemma_holds_no_puzzle(bytes: Seq<u8>)
    requires
        puzzle_text(fields_of(bytes)) != bytes,
        !signature_readable(bytes, project_end(bytes)) || proof_text(
            ProofView {
                puzzle: fields_of(bytes),
                signature: signature_of(bytes, project_end(bytes)),
            },
        ) != bytes,
    ensures
        forall|p: PuzzleView| !holds_puzzle(bytes, p),
{
    assert forall|p: PuzzleView| !holds_puzzle(bytes, p) by {
        if holds_puzzle(bytes, p) {
            lemma_puzzle_held_is_read(bytes, p);
            let s = choose|s: SignatureView|
                s.wf() && #[trigger] proof_text(ProofView { puzzle: p, signature: s }) == bytes;
            lemma_proof_reads_back(ProofView { puzzle: p, signature: s });
        }
    }
}

/// Reading undoes writing, for puzzles: the canonical text of a well-formed
/// puzzle decodes, and it decodes to that puzzle.
pub proof fn lemma_puzzle_round_trip(p: PuzzleView)
    requires
        p.wf(),
    ensures
        decoded_puzzle(puzzle_text(p)) == Some(p),
{
    let bytes = puzzle_text(p);
    assert(holds_puzzle(bytes, p));
    let found = choose|q: PuzzleView| holds_puzzle(bytes, q);
    lemma_holds_one_puzzle(bytes, p, found);
}

/// Reading undoes writing, for proofs: the canonical text of a well-formed
/// proof decodes, and it decodes to that proof.
pub proof fn lemma_proof_round_trip(p: ProofView)
    requires
        p.wf(),
    ensures
        decoded_proof(proof_text(p)) == Some(p),
{
    let bytes = proof_text(p);
    assert(holds_proof(bytes, p));
    let found = choose|q: ProofView| holds_proof(bytes, q);
    lemma_proof_text_injective(p, found);
}

/// The text of a proof also decodes as a puzzle, and then to the puzzle that
/// the proof is over: the members of the signature are passed over.
pub proof fn lemma_puzzle_of_proof_text(p: ProofView)
    requires
        p.wf(),
    ensures
        decoded_puzzle(proof_text(p)) == Some(p.puzzle),
{
    let bytes = proof_text(p);
    assert(proof_text(ProofView { puzzle: p.puzzle, signature: p.signature }) == bytes);
    assert(holds_puzzle(bytes, p.puzzle));
    let found = choose|q: PuzzleView| holds_puzzle(bytes, q);
    lemma_holds_one_puzzle(bytes, p.puzzle, found);
}

/// Puts the text of `address` at the end of `out`.
fn put_address(out: &mut Vec<u8>, address: &Address)
    ensures
        final(out)@ == old(out)@ + address_text(address@),
{
    out.push(CHAR_ZERO);
    out.push(CHAR_X);
    let digits = hex_encode(address.0.as_slice());
    append(out, digits.as_slice());
    assert(out@ =~= old(out)@ + address_text(address@));
}

/// Puts the text of the four shared members at the end of `out`.
fn put_fields(out: &mut Vec<u8>, puzzle: &Puzzle)
    ensures
        final(out)@ == old(out)@ + fields_text(puzzle@),
{
    let h_org: [u8; 8] = [123, 34, 111, 114, 103, 34, 58, 34];
    let h_contributor: [u8; 17] = [
        34, 44, 34, 99, 111, 110, 116, 114, 105, 98, 117, 116, 111, 114, 34, 58, 34,
    ];
    let h_commit: [u8; 12] = [34, 44, 34, 99, 111, 109, 109, 105, 116, 34, 58, 34];
    let h_project: [u8; 13] = [34, 44, 34, 112, 114, 111, 106, 101, 99, 116, 34, 58, 34];
    assert(h_org@ =~= head_org());
    assert(h_contributor@ =~= head_contributor());
    assert(h_commit@ =~= head_commit());
    assert(h_project@ =~= head_project());
    append(out, h_org.as_slice());
    put_address(out, &puzzle.org);
    append(out, h_contributor.as_slice());
    put_address(out, &puzzle.contributor);
    append(out, h_commit.as_slice());
    append(out, puzzle.commit.as_slice());
    append(out, h_project.as_slice());
    append(out, puzzle.project.as_slice());
    assert(out@ =~= old(out)@ + fields_text(puzzle@));
}

/// Puts the text of the signature, and the end of the object, at the end of
/// `out`.
fn put_signature(out: &mut Vec<u8>, signature: &Signature)
    ensures
        final(out)@ == old(out)@ + signature_text(signature@),
{
    let h_v: [u8; 6] = [34, 44, 34, 118, 34, 58];
    let h_r: [u8; 6] = [44, 34, 114, 34, 58, 34];
    let h_s: [u8; 7] = [34, 44, 34, 115, 34, 58, 34];
    let end: [u8; 2] = [34, 125];
    assert(h_v@ =~= head_v());
    assert(h_r@ =~= head_r());
    assert(h_s@ =~= head_s());
    assert(end@ =~= tail());
    append(out, h_v.as_slice());
    let v = to_decimal(signature.v);
    append(out, v.as_slice());
    append(out, h_r.as_slice());
    let r = to_quantity(&signature.r);
    append(out, r.as_slice());
    append(out, h_s.as_slice());
    let s = to_quantity(&signature.s);
    append(out, s.as_slice());
    append(out, end.as_slice());
    assert(out@ =~= old(out)@ + signature_text(signature@));
}

/// The first place at or after `from` where `bytes` holds `stop`.
fn find(bytes: &[u8], from: usize, stop: u8) -> (at: usize)
    requires
        from <= bytes@.len(),
    ensures
        at == first_index(bytes@, from as int, stop),
        from <= at <= bytes@.len(),
{
    let mut at: usize = from;
    while at < bytes.len() && bytes[at] != stop
        invariant
            from <= at <= bytes@.len(),
            first_index(bytes@, from as int, stop) == first_index(bytes@, at as int, stop),
        decreases bytes@.len() - at,
    {
        at += 1;
    }
    at
}

/// Reads the four shared members from the start of `bytes`.
fn read_fields(bytes: &[u8]) -> (read: Option<(Puzzle, usize)>)
    ensures
        read is Some <==> fields_readable(bytes@),
        read matches Some((puzzle, end)) ==> puzzle@ == fields_of(bytes@) && end == project_end(
            bytes@,
        ) && end <= bytes@.len(),
{
    if bytes.len() < COMMIT_AT {
        return None;
    }
    let org = match from_hex(slice_subrange(bytes, ORG_AT, ORG_AT + 40)) {
        Some(org) => org,
        None => {
            return None;
        },
    };
    let contributor = match from_hex(slice_subrange(bytes, CONTRIBUTOR_AT, CONTRIBUTOR_AT + 40)) {
        Some(contributor) => contributor,
        None => {
            return None;
        },
    };
    let commit_to = find(bytes, COMMIT_AT, CHAR_QUOTE);
    if bytes.len() - commit_to < 13 {
        return None;
    }
    let project_from = commit_to + 13;
    let project_to = find(bytes, project_from, CHAR_QUOTE);
    let commit = slice_subrange(bytes, COMMIT_AT, commit_to);
    let project = slice_subrange(bytes, project_from, project_to);
    if !check_field(commit) || !check_field(project) {
        return None;
    }
    let puzzle = Puzzle::from_parts(
        Address(array20(org.as_slice(), 0)),
        Address(array20(contributor.as_slice(), 0)),
        copy_of(commit),
        copy_of(project),
    );
    proof {
        assert(org@.subrange(0, 20) =~= org@);
        assert(contributor@.subrange(0, 20) =~= contributor@);
    }
    Some((puzzle, project_to))
}

/// Reads the signature that starts at `at`.
fn read_signature(bytes: &[u8], at: usize) -> (read: Option<Signature>)
    requires
        at <= bytes@.len(),
    ensures
        read is Some <==> signature_readable(bytes@, at as int),
        read matches Some(signature) ==> signature@ == signature_of(bytes@, at as int),
{
    if bytes.len() - at < 6 {
        return None;
    }
    let v_from = at + 6;
    let v_to = find(bytes, v_from, CHAR_COMMA);
    let v = match from_decimal(slice_subrange(bytes, v_from, v_to)) {
        Some(v) => v,
        None => {
            return None;
        },
    };
    if bytes.len() - v_to < 8 {
        return None;
    }
    let r_from = v_to + 8;
    let r_to = find(bytes, r_from, CHAR_QUOTE);
    let r = match from_quantity_digits(slice_subrange(bytes, r_from, r_to)) {
        Some(r) => r,
        None => {
            return None;
        },
    };
    if bytes.len() - r_to < 9 {
        return None;
    }
    let s_from = r_to + 9;
    let s_to = find(bytes, s_from, CHAR_QUOTE);
    let s = match from_quantity_digits(slice_subrange(bytes, s_from, s_to)) {
        Some(s) => s,
        None => {
            return None;
        },
    };
    Some(Signature { v, r, s })
}

impl Puzzle {
    /// The canonical text of the puzzle: the bytes that are signed. The same
    /// puzzle always gives the same bytes.
    pub fn serialize(&self) -> (bytes: Vec<u8>)
        ensures
            bytes@ == puzzle_text(self@),
    {
        let mut bytes: Vec<u8> = Vec::new();
        put_fields(&mut bytes, self);
        let end: [u8; 2] = [34, 125];
        assert(end@ =~= tail());
        append(&mut bytes, end.as_slice());
        assert(bytes@ =~= puzzle_text(self@));
        bytes
    }

    /// The puzzle that `bytes` hold. They hold one where they are the
    /// canonical text of a puzzle, or that of a proof, whose further members
    /// are passed over. Any other bytes are not valid.
    pub fn decode(bytes: &[u8]) -> (decoded: Result<Puzzle, Error>)
        ensures
            match decoded {
                Ok(puzzle) => Some(puzzle@) == decoded_puzzle(bytes@) && holds_puzzle(
                    bytes@,
                    puzzle@,
                ),
                Err(e) => decoded_puzzle(bytes@) is None && e@ == ErrorView::NotValidEncoding(
                    "puzzle"@,
                ),
            },
    {
        proof {
            assert forall|p: PuzzleView| holds_puzzle(bytes@, p) implies fields_readable(bytes@)
                && fields_of(bytes@) == p by {
                lemma_puzzle_held_is_read(bytes@, p);
            }
        }
        let (puzzle, end) = match read_fields(bytes) {
            Some(read) => read,
            None => {
                return Err(Error::not_valid("puzzle"));
            },
        };
        let alone = puzzle.serialize();
        if same_bytes(alone.as_slice(), bytes) {
            proof {
                use_type_invariant(&puzzle);
                assert(holds_puzzle(bytes@, puzzle@));
            }
            return Ok(puzzle);
        }
        let signature = match read_signature(bytes, end) {
            Some(signature) => signature,
            None => {
                proof {
                    lemma_holds_no_puzzle(bytes@);
                }
                return Err(Error::not_valid("puzzle"));
            },
        };
        let signed = assemble_proof(puzzle.clone(), signature);
        let whole = signed.serialize();
        if same_bytes(whole.as_slice(), bytes) {
            proof {
                use_type_invariant(&puzzle);
                assert(proof_text(ProofView { puzzle: puzzle@, signature: signature@ }) == bytes@);
                assert(holds_puzzle(bytes@, puzzle@));
            }
            return Ok(puzzle);
        }
        proof {
            lemma_holds_no_puzzle(bytes@);
        }
        Err(Error::not_valid("puzzle"))
    }
}

impl Proof {
    /// The canonical text of the proof.
    pub fn serialize(&self) -> (bytes: Vec<u8>)
        ensures
            bytes@ == proof_text(self@),
    {
        let mut bytes: Vec<u8> = Vec::new();
        put_fields(&mut bytes, &self.puzzle);
        put_signature(&mut bytes, &self.signature);
        assert(bytes@ =~= proof_text(self@));
        bytes
    }

    /// The proof that `bytes` hold. They hold one where they are the
    /// canonical text of a proof. Any other bytes are not valid.
    pub fn decode(bytes: &[u8]) -> (decoded: Result<Proof, Error>)
        ensures
            match decoded {
                Ok(read) => Some(read@) == decoded_proof(bytes@) && holds_proof(bytes@, read@),
                Err(e) => decoded_proof(bytes@) is None && e@ == ErrorView::NotValidEncoding(
                    "proof"@,
                ),
            },
    {
        proof {
            assert forall|q: ProofView| holds_proof(bytes@, q) implies fields_readable(bytes@)
                && fields_of(bytes@) == q.puzzle && signature_readable(
                bytes@,
                project_end(bytes@),
            ) && signature_of(bytes@, project_end(bytes@)) == q.signature by {
                lemma_proof_reads_back(q);
            }
        }
        let (puzzle, end) = match read_fields(bytes) {
            Some(read) => read,
            None => {
                return Err(Error::not_valid("proof"));
            },
        };
        let signature = match read_signature(bytes, end) {
            Some(signature) => signature,
            None => {
                return Err(Error::not_valid("proof"));
            },
        };
        let read = assemble_proof(puzzle, signature);
        let again = read.serialize();
        if same_bytes(again.as_slice(), bytes) {
            proof {
                assert(holds_proof(bytes@, read@));
            }
            Ok(read)
        } else {
            Err(Error::not_valid("proof"))
        }
    }
}

} // verus!
