//! Claims: which proofs a signer can claim, and the one that is chosen.
//!
//! A signer can claim the notes whose puzzle names the signer's address as
//! the contributor. That is a comparison of addresses and nothing more: the
//! signature in the note is not verified here, which is left to whoever is
//! handed the proof.

use vstd::prelude::*;
use crate::codec::{
    decoded_proof, decoded_puzzle, holds_proof, holds_puzzle, lemma_holds_one_puzzle, proof_text,
};
use crate::error::{Error, ErrorView};
use crate::puzzle::{Proof, ProofView, Puzzle, PuzzleView};
use crate::store::{AnnotationStore, NoteView};
use crate::types::{Address, CommitId};

verus! {

/// Whether a note holds a puzzle whose contributor is `signer`.
pub open spec fn claimed_by(signer: Seq<u8>) -> spec_fn(NoteView) -> bool {
    |note: NoteView|
        decoded_puzzle(note.payload) matches Some(puzzle) && puzzle.contributor == signer
}

/// Whether every note holds a puzzle.
pub open spec fn all_decodable(notes: Seq<NoteView>) -> bool {
    forall|i: int| 0 <= i < notes.len() ==> decoded_puzzle((#[trigger] notes[i]).payload) is Some
}

/// The notes that `signer` can claim, in the order of the store.
pub open spec fn claimable_notes(notes: Seq<NoteView>, signer: Seq<u8>) -> Seq<NoteView> {
    notes.filter(claimed_by(signer))
}

/// The note that is chosen among those that `signer` can claim: the one at
/// the place `choice`, and none where nothing is chosen or the place lies
/// beyond the last of them.
pub open spec fn chosen_note(notes: Seq<NoteView>, signer: Seq<u8>, choice: Option<usize>) -> Option<
    NoteView,
> {
    match choice {
        Some(at) => if at < claimable_notes(notes, signer).len() {
            Some(claimable_notes(notes, signer)[at as int])
        } else {
            None
        },
        None => None,
    }
}

/// A proof that bytes hold is a proof over the puzzle that they hold.
pub proof fn lemma_proof_is_over_held_puzzle(bytes: Seq<u8>, held: ProofView)
    requires
        holds_proof(bytes, held),
    ensures
        decoded_puzzle(bytes) == Some(held.puzzle),
{
    assert(proof_text(ProofView { puzzle: held.puzzle, signature: held.signature }) == bytes);
    assert(holds_puzzle(bytes, held.puzzle));
    let found = choose|p: PuzzleView| holds_puzzle(bytes, p);
    lemma_holds_one_puzzle(bytes, held.puzzle, found);
}

/// The places in the store of the notes that `signer` can claim, in the
/// order of the store.
fn claimable_places(store: &AnnotationStore, signer: &Address) -> (places: Result<Vec<usize>, Error>)
    ensures
        match places {
            Ok(places) => all_decodable(store@) && places@.len() == claimable_notes(
                store@,
                signer@,
            ).len() && forall|i: int|
                0 <= i < places@.len() ==> (#[trigger] places@[i]) < store@.len()
                    && store@[places@[i] as int] == claimable_notes(store@, signer@)[i],
            Err(e) => !all_decodable(store@) && e@ == ErrorView::NotValidEncoding("puzzle"@),
        },
{
    let ghost mine = claimed_by(signer@);
    let count = store.len();
    let mut places: Vec<usize> = Vec::new();
    let mut i: usize = 0;
    assert(store@.take(0) =~= Seq::<NoteView>::empty());
    proof {
        reveal(Seq::filter);
    }
    while i < count
        invariant
            i <= count == store@.len(),
            mine == claimed_by(signer@),
            forall|k: int| 0 <= k < i ==> decoded_puzzle((#[trigger] store@[k]).payload) is Some,
            places@.len() == store@.take(i as int).filter(mine).len(),
            forall|k: int|
                0 <= k < places@.len() ==> (#[trigger] places@[k]) < i && store@[places@[k] as int]
                    == store@.take(i as int).filter(mine)[k],
        decreases count - i,
    {
        let note = store.get(i);
        proof {
            let before = store@.take(i as int);
            assert(store@.take(i + 1) =~= before.push(store@[i as int]));
            before.lemma_filter_push(store@[i as int], mine);
        }
        let puzzle = match Puzzle::decode(note.payload.as_slice()) {
            Ok(puzzle) => puzzle,
            Err(e) => {
                return Err(e);
            },
        };
        if puzzle.contributor().same(signer) {
            places.push(i);
        }
        i += 1;
    }
    assert(store@.take(i as int) =~= store@);
    Ok(places)
}

/// The commits whose notes `signer` can claim, in the order of the store.
///
/// Every note is decoded as a puzzle, and the commits are kept whose puzzle
/// names `signer` as its contributor. One note that holds no puzzle fails
/// the whole: it is not left out.
pub fn claimable(store: &AnnotationStore, signer: &Address) -> (commits: Result<
    Vec<CommitId>,
    Error,
>)
    ensures
        match commits {
            Ok(commits) => all_decodable(store@) && commits@.len() == claimable_notes(
                store@,
                signer@,
            ).len() && forall|i: int|
                0 <= i < commits@.len() ==> (#[trigger] commits@[i])@ == claimable_notes(
                    store@,
                    signer@,
                )[i].commit,
            Err(e) => !all_decodable(store@) && e@ == ErrorView::NotValidEncoding("puzzle"@),
        },
{
    let places = match claimable_places(store, signer) {
        Ok(places) => places,
        Err(e) => {
            return Err(e);
        },
    };
    let mut commits: Vec<CommitId> = Vec::new();
    let mut i: usize = 0;
    while i < places.len()
        invariant
            i <= places@.len(),
            places@.len() == claimable_notes(store@, signer@).len(),
            forall|k: int|
                0 <= k < places@.len() ==> (#[trigger] places@[k]) < store@.len()
                    && store@[places@[k] as int] == claimable_notes(store@, signer@)[k],
            commits@.len() == i,
            forall|k: int|
                0 <= k < i ==> (#[trigger] commits@[k])@ == claimable_notes(
                    store@,
                    signer@,
                )[k].commit,
        decreases places@.len() - i,
    {
        commits.push(store.get(places[i]).commit);
        i += 1;
    }
    Ok(commits)
}

/// The proof that `signer` claims by the choice `choice` among the commits
/// that [`claimable`] gives.
///
/// Nothing is claimed where nothing is chosen, or where the choice lies
/// beyond the last of them, as it does whenever there are none: that is no
/// failure. Otherwise the note of the chosen commit is decoded as a proof.
/// The proof that comes back names `signer` as its contributor.
pub fn claim(store: &AnnotationStore, signer: &Address, choice: Option<usize>) -> (claimed: Result<
    Option<Proof>,
    Error,
>)
    ensures
        match claimed {
            Ok(Some(found)) => {
                &&& all_decodable(store@)
                &&& chosen_note(store@, signer@, choice) matches Some(note)
                &&& decoded_proof(note.payload) == Some(found@)
                &&& found@.puzzle.contributor == signer@
            },
            Ok(None) => all_decodable(store@) && chosen_note(store@, signer@, choice) is None,
            Err(e) => if all_decodable(store@) {
                chosen_note(store@, signer@, choice) matches Some(note) && decoded_proof(
                    note.payload,
                ) is None && e@ == ErrorView::NotValidEncoding("proof"@)
            } else {
                e@ == ErrorView::NotValidEncoding("puzzle"@)
            },
        },
{
    let places = match claimable_places(store, signer) {
        Ok(places) => places,
        Err(e) => {
            return Err(e);
        },
    };
    let at = match choice {
        Some(at) => at,
        None => {
            return Ok(None);
        },
    };
    if at >= places.len() {
        return Ok(None);
    }
    let note = store.get(places[at]);
    proof {
        store@.lemma_filter_pred(claimed_by(signer@), at as int);
    }
    match Proof::decode(note.payload.as_slice()) {
        Ok(found) => {
            proof {
                lemma_proof_is_over_held_puzzle(note.payload@, found@);
            }
            Ok(Some(found))
        },
        Err(e) => Err(e),
    }
}

} // verus!
