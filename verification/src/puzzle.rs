//! Puzzles and proofs.
//!
//! A puzzle is the claim before it is signed: who rewards whom, for which
//! commit of which project. A proof is a puzzle with the signature over its
//! canonical text.

use vstd::prelude::*;
use crate::base32::{decode_project, project_bytes};
use crate::codec::puzzle_text;
use crate::error::{Error, ErrorView};
use crate::hexfmt::{copy_of, fixed_width, hex_text, is_fixed_width_hex, same_bytes, to_field};
use crate::types::{Address, CommitId, Signature, SignatureView};

verus! {

/// A claim before it is signed.
#[derive(Debug, PartialEq, Eq)]
pub struct Puzzle {
    pub(crate) org: Address,
    pub(crate) contributor: Address,
    pub(crate) commit: Vec<u8>,
    pub(crate) project: Vec<u8>,
}

/// What a [`Puzzle`] holds.
pub ghost struct PuzzleView {
    /// The address of the organization that rewards.
    pub org: Seq<u8>,
    /// The address of the one who is rewarded.
    pub contributor: Seq<u8>,
    /// The commit, as a fixed-width hexadecimal field.
    pub commit: Seq<u8>,
    /// The project, as a fixed-width hexadecimal field.
    pub project: Seq<u8>,
}

impl PuzzleView {
    /// Both addresses are 20 bytes long, and both fields are `0x` followed
    /// by hexadecimal digits of at least the fixed width.
    pub open spec fn wf(self) -> bool {
        &&& self.org.len() == 20
        &&& self.contributor.len() == 20
        &&& is_fixed_width_hex(self.commit)
        &&& is_fixed_width_hex(self.project)
    }
}

impl View for Puzzle {
    type V = PuzzleView;

    open(crate) spec fn view(&self) -> PuzzleView {
        PuzzleView {
            org: self.org@,
            contributor: self.contributor@,
            commit: self.commit@,
            project: self.project@,
        }
    }
}

impl Puzzle {
    #[verifier::type_invariant]
    pub(crate) open spec fn well_formed(&self) -> bool {
        self@.wf()
    }

    /// The puzzle with these fields, where both texts have the shape of a
    /// field.
    pub(crate) fn from_parts(
        org: Address,
        contributor: Address,
        commit: Vec<u8>,
        project: Vec<u8>,
    ) -> (puzzle: Puzzle)
        requires
            is_fixed_width_hex(commit@),
            is_fixed_width_hex(project@),
        ensures
            puzzle@ == (PuzzleView {
                org: org@,
                contributor: contributor@,
                commit: commit@,
                project: project@,
            }),
            puzzle@.wf(),
    {
        Puzzle { org, contributor, commit, project }
    }

    /// The address of the organization that rewards.
    pub fn org(&self) -> (org: Address)
        ensures
            org@ == self@.org,
            self@.wf(),
    {
        proof {
            use_type_invariant(self);
        }
        self.org
    }

    /// The address of the one who is rewarded.
    pub fn contributor(&self) -> (contributor: Address)
        ensures
            contributor@ == self@.contributor,
            self@.wf(),
    {
        proof {
            use_type_invariant(self);
        }
        self.contributor
    }

    /// The commit, as a fixed-width hexadecimal field.
    pub fn commit(&self) -> (commit: &[u8])
        ensures
            commit@ == self@.commit,
            self@.wf(),
    {
        proof {
            use_type_invariant(self);
        }
        self.commit.as_slice()
    }

    /// The project, as a fixed-width hexadecimal field.
    pub fn project(&self) -> (project: &[u8])
        ensures
            project@ == self@.project,
            self@.wf(),
    {
        proof {
            use_type_invariant(self);
        }
        self.project.as_slice()
    }

    /// Whether the two puzzles are the same.
    pub fn same(&self, other: &Puzzle) -> (same: bool)
        ensures
            same == (self@ == other@),
    {
        let same = self.org.same(&other.org) && self.contributor.same(&other.contributor)
            && same_bytes(self.commit.as_slice(), other.commit.as_slice())
            && same_bytes(self.project.as_slice(), other.project.as_slice());
        same
    }
}

impl Clone for Puzzle {
    fn clone(&self) -> (copy: Puzzle)
        ensures
            copy@ == self@,
    {
        proof {
            use_type_invariant(self);
        }
        let commit = copy_of(self.commit.as_slice());
        let project = copy_of(self.project.as_slice());
        Puzzle { org: self.org, contributor: self.contributor, commit, project }
    }
}

/// A claim with the signature over it.
#[derive(Debug, PartialEq, Eq)]
pub struct Proof {
    pub(crate) puzzle: Puzzle,
    pub(crate) signature: Signature,
}

/// What a [`Proof`] holds.
pub ghost struct ProofView {
    pub puzzle: PuzzleView,
    pub signature: SignatureView,
}

impl ProofView {
    /// The puzzle is well formed and both scalars are 32 bytes long.
    pub open spec fn wf(self) -> bool {
        self.puzzle.wf() && self.signature.wf()
    }
}

impl View for Proof {
    type V = ProofView;

    open(crate) spec fn view(&self) -> ProofView {
        ProofView { puzzle: self.puzzle@, signature: self.signature@ }
    }
}

impl Proof {
    /// The claim that was signed.
    pub fn puzzle(&self) -> (puzzle: &Puzzle)
        ensures
            puzzle@ == self@.puzzle,
            self@.wf(),
    {
        proof {
            use_type_invariant(&self.puzzle);
        }
        &self.puzzle
    }

    /// The signature over the claim.
    pub fn signature(&self) -> (signature: Signature)
        ensures
            signature@ == self@.signature,
    {
        self.signature
    }

    /// The address of the one who is rewarded.
    pub fn contributor(&self) -> (contributor: Address)
        ensures
            contributor@ == self@.puzzle.contributor,
    {
        self.puzzle.contributor
    }

    /// Whether the two proofs are the same.
    pub fn same(&self, other: &Proof) -> (same: bool)
        ensures
            same == (self@ == other@),
    {
        self.puzzle.same(&other.puzzle) && self.signature.same(&other.signature)
    }
}

impl Clone for Proof {
    fn clone(&self) -> (copy: Proof)
        ensures
            copy@ == self@,
    {
        Proof { puzzle: self.puzzle.clone(), signature: self.signature }
    }
}

/// The proof that is `puzzle` with `signature`: nothing is encoded anew.
pub fn assemble_proof(puzzle: Puzzle, signature: Signature) -> (assembled: Proof)
    ensures
        assembled@ == (ProofView { puzzle: puzzle@, signature: signature@ }),
        assembled@.wf(),
{
    proof {
        use_type_invariant(&puzzle);
    }
    Proof { puzzle, signature }
}

/// The puzzle over these four values: the commit and the project are
/// written in hexadecimal and brought to the fixed width.
pub open spec fn built_puzzle(
    org: Seq<u8>,
    contributor: Seq<u8>,
    commit: Seq<u8>,
    project: Seq<u8>,
) -> PuzzleView {
    PuzzleView {
        org,
        contributor,
        commit: fixed_width(hex_text(commit)),
        project: fixed_width(hex_text(project)),
    }
}

/// The bytes of the project that a puzzle is built over: what the
/// identifier decodes to, where that is short enough to be written in
/// hexadecimal.
pub open spec fn puzzle_project(project_id: Seq<char>) -> Option<Seq<u8>> {
    match project_bytes(project_id) {
        Some(bytes) => if bytes.len() * 2 <= isize::MAX {
            Some(bytes)
        } else {
            None
        },
        None => None,
    }
}

/// The puzzle over an organization, a contributor, a commit and the bytes of
/// a project.
pub fn puzzle_of(org: Address, contributor: Address, commit: &CommitId, project: &[u8]) -> (puzzle:
    Puzzle)
    requires
        project@.len() * 2 <= isize::MAX,
    ensures
        puzzle@ == built_puzzle(org@, contributor@, commit@, project@),
        puzzle@.wf(),
{
    let commit_field = to_field(commit.0.as_slice());
    let project_field = to_field(project);
    Puzzle::from_parts(org, contributor, commit_field, project_field)
}

/// The puzzle over an organization, a contributor, a commit and a project
/// that is named by its base-32 identifier. An identifier that does not
/// decode is not valid, and no puzzle is built.
pub fn build_puzzle(org: Address, contributor: Address, commit: &CommitId, project_id: &str) -> (built:
    Result<Puzzle, Error>)
    ensures
        match built {
            Ok(puzzle) => {
                &&& puzzle_project(project_id@) matches Some(project)
                &&& puzzle@ == built_puzzle(org@, contributor@, commit@, project)
                &&& puzzle@.wf()
            },
            Err(e) => puzzle_project(project_id@) is None && e@ == ErrorView::NotValidEncoding(
                "project id"@,
            ),
        },
{
    let project = match decode_project(project_id) {
        Ok(project) => project,
        Err(e) => {
            return Err(e);
        },
    };
    if project.len() > (isize::MAX as usize) / 2 {
        return Err(Error::not_valid("project id"));
    }
    Ok(puzzle_of(org, contributor, commit, project.as_slice()))
}

/// The bytes that are signed for a claim over these four inputs: the
/// canonical text of the puzzle that is built from them. `None` where the
/// project identifier does not decode, and no puzzle is built.
pub open spec fn signed_text(
    org: Seq<u8>,
    contributor: Seq<u8>,
    commit: Seq<u8>,
    project_id: Seq<char>,
) -> Option<Seq<u8>> {
    match puzzle_project(project_id) {
        Some(project) => Some(puzzle_text(built_puzzle(org, contributor, commit, project))),
        None => None,
    }
}

/// The bytes to sign for a claim over these four inputs: the puzzle is
/// built and written in one go.
pub fn canonical_message(
    org: Address,
    contributor: Address,
    commit: &CommitId,
    project_id: &str,
) -> (message: Result<Vec<u8>, Error>)
    ensures
        match message {
            Ok(bytes) => signed_text(org@, contributor@, commit@, project_id@) == Some(bytes@),
            Err(e) => signed_text(org@, contributor@, commit@, project_id@) is None && e@
                == ErrorView::NotValidEncoding("project id"@),
        },
{
    match build_puzzle(org, contributor, commit, project_id) {
        Ok(puzzle) => Ok(puzzle.serialize()),
        Err(e) => Err(e),
    }
}

/// The bytes that are signed depend on the four inputs alone: building a
/// puzzle twice from the same organization, contributor, commit and project
/// identifier, and writing each, gives the same bytes, byte for byte.
pub proof fn lemma_signed_text_is_determined(
    org: Seq<u8>,
    contributor: Seq<u8>,
    commit: Seq<u8>,
    project_id: Seq<char>,
    org_again: Seq<u8>,
    contributor_again: Seq<u8>,
    commit_again: Seq<u8>,
    project_id_again: Seq<char>,
)
    requires
        org == org_again,
        contributor == contributor_again,
        commit == commit_again,
        project_id == project_id_again,
    ensures
        signed_text(org, contributor, commit, project_id) == signed_text(
            org_again,
            contributor_again,
            commit_again,
            project_id_again,
        ),
{
}

} // verus!
