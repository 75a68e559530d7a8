//! The notes of a repository, as far as claims go.
//!
//! All claims live under one namespace of notes, and a commit has at most
//! one note there. An [`AnnotationStore`] holds what that namespace holds:
//! for each annotated commit the payload of its note and the note's
//! identifier, in the order in which the commits were first annotated.

use vstd::prelude::*;
use crate::codec::{decoded_proof, lemma_proof_round_trip, proof_text};
use crate::error::{Error, ErrorView};
use crate::hexfmt::copy_of;
use crate::puzzle::ProofView;
use crate::types::{CommitId, NoteId};

verus! {

/// The reference under which the notes of claims are kept. Whoever reads or
/// writes claims in a repository uses this name and no other.
pub const NOTES_REF: &'static str = "refs/notes/radicle/rewards";

/// A note: the commit it is attached to, its identifier and its payload.
#[derive(Debug, PartialEq, Eq)]
pub struct Note {
    pub commit: CommitId,
    pub id: NoteId,
    pub payload: Vec<u8>,
}

/// What a [`Note`] holds.
pub ghost struct NoteView {
    pub commit: Seq<u8>,
    pub id: Seq<u8>,
    pub payload: Seq<u8>,
}

impl View for Note {
    type V = NoteView;

    open spec fn view(&self) -> NoteView {
        NoteView { commit: self.commit@, id: self.id@, payload: self.payload@ }
    }
}

/// What git gives as the identifier of a blob with this content, as
/// `git2::Oid::hash_object` computes it; `None` where it reports an error.
pub uninterp spec fn git_blob_id(content: Seq<u8>) -> Option<Seq<u8>>;

/// `git2::Oid::hash_object` for a blob: the identifier that git gives to
/// `content`, which is a hash of the content alone. Nothing is stored
/// anywhere. An error of the library is given as `None`.
#[verifier::external_body]
fn hash_blob(content: &[u8]) -> (id: Option<NoteId>)
    ensures
        id is Some <==> git_blob_id(content@) is Some,
        id matches Some(n) ==> git_blob_id(content@) == Some(n@),
{
    match git2::Oid::hash_object(git2::ObjectType::Blob, content) {
        Ok(oid) => {
            let mut bytes = [0u8; 20];
            bytes.copy_from_slice(oid.as_bytes());
            Some(NoteId(bytes))
        },
        Err(_) => None,
    }
}

/// The first place at or after `from` where `notes` has a note of `commit`,
/// and the length of `notes` where it has none.
pub open spec fn position(notes: Seq<NoteView>, commit: Seq<u8>, from: int) -> int
    decreases notes.len() - from,
{
    if from < 0 || from >= notes.len() {
        notes.len() as int
    } else if notes[from].commit == commit {
        from
    } else {
        position(notes, commit, from + 1)
    }
}

/// The note of `commit`, if it has one.
pub open spec fn note_of(notes: Seq<NoteView>, commit: Seq<u8>) -> Option<NoteView> {
    let at = position(notes, commit, 0);
    if at < notes.len() {
        Some(notes[at])
    } else {
        None
    }
}

/// Whether `commit` has a note.
pub open spec fn has_note(notes: Seq<NoteView>, commit: Seq<u8>) -> bool {
    note_of(notes, commit) is Some
}

/// The payload of the note of `commit`, if it has one.
pub open spec fn payload_of(notes: Seq<NoteView>, commit: Seq<u8>) -> Option<Seq<u8>> {
    match note_of(notes, commit) {
        Some(note) => Some(note.payload),
        None => None,
    }
}

/// The notes after `note` is attached: it takes the place of the note that
/// its commit had, or comes last where the commit had none.
pub open spec fn attached(notes: Seq<NoteView>, note: NoteView) -> Seq<NoteView> {
    let at = position(notes, note.commit, 0);
    if at < notes.len() {
        notes.update(at, note)
    } else {
        notes.push(note)
    }
}

/// No two notes are attached to the same commit.
pub open spec fn distinct_commits(notes: Seq<NoteView>) -> bool {
    forall|i: int, j: int|
        0 <= i < j < notes.len() ==> (#[trigger] notes[i]).commit != (#[trigger] notes[j]).commit
}

/// What `position` finds lies between `from` and the end, is a note of the
/// commit, and is the first one.
pub proof fn lemma_position(notes: Seq<NoteView>, commit: Seq<u8>, from: int)
    requires
        0 <= from <= notes.len(),
    ensures
        from <= position(notes, commit, from) <= notes.len(),
        position(notes, commit, from) < notes.len() ==> notes[position(
            notes,
            commit,
            from,
        )].commit == commit,
        forall|k: int| from <= k < position(notes, commit, from) ==> notes[k].commit != commit,
    decreases notes.len() - from,
{
    if from < notes.len() && notes[from].commit != commit {
        lemma_position(notes, commit, from + 1);
    }
}

/// Where a note of the commit stands with none before it is what `position`
/// finds.
pub proof fn lemma_position_is(notes: Seq<NoteView>, commit: Seq<u8>, from: int, at: int)
    requires
        0 <= from <= at <= notes.len(),
        at < notes.len() ==> notes[at].commit == commit,
        forall|k: int| from <= k < at ==> notes[k].commit != commit,
    ensures
        position(notes, commit, from) == at,
    decreases at - from,
{
    if from < at {
        lemma_position_is(notes, commit, from + 1, at);
    }
}

/// After a note is attached, its commit has that note.
pub proof fn lemma_read_after_attach(notes: Seq<NoteView>, note: NoteView)
    ensures
        note_of(attached(notes, note), note.commit) == Some(note),
        payload_of(attached(notes, note), note.commit) == Some(note.payload),
{
    let at = position(notes, note.commit, 0);
    lemma_position(notes, note.commit, 0);
    lemma_position_is(attached(notes, note), note.commit, 0, at);
}

/// Attaching a note changes the note of no other commit.
pub proof fn lemma_attach_keeps_others(notes: Seq<NoteView>, note: NoteView, commit: Seq<u8>)
    requires
        commit != note.commit,
    ensures
        note_of(attached(notes, note), commit) == note_of(notes, commit),
{
    let after = attached(notes, note);
    let at = position(notes, commit, 0);
    lemma_position(notes, note.commit, 0);
    lemma_position(notes, commit, 0);
    lemma_position_is(after, commit, 0, if at < notes.len() {
        at
    } else {
        after.len() as int
    });
}

/// Attaching deletes nothing: a commit that had a note has one afterwards.
pub proof fn lemma_attach_deletes_nothing(notes: Seq<NoteView>, note: NoteView, commit: Seq<u8>)
    requires
        has_note(notes, commit),
    ensures
        has_note(attached(notes, note), commit),
{
    if commit == note.commit {
        lemma_read_after_attach(notes, note);
    } else {
        lemma_attach_keeps_others(notes, note, commit);
    }
}

/// Attaching the same note a second time changes nothing.
pub proof fn lemma_attach_twice(notes: Seq<NoteView>, note: NoteView)
    ensures
        attached(attached(notes, note), note) == attached(notes, note),
{
    let once = attached(notes, note);
    let at = position(notes, note.commit, 0);
    lemma_position(notes, note.commit, 0);
    lemma_position_is(once, note.commit, 0, at);
    assert(attached(once, note) =~= once);
}

/// Attaching a note leaves every commit with at most one note: the number
/// of notes grows by one where the commit had none, and stays where it had.
pub proof fn lemma_attach_keeps_distinct(notes: Seq<NoteView>, note: NoteView)
    requires
        distinct_commits(notes),
    ensures
        distinct_commits(attached(notes, note)),
        attached(notes, note).len() == if has_note(notes, note.commit) {
            notes.len()
        } else {
            notes.len() + 1
        },
{
    lemma_position(notes, note.commit, 0);
    let after = attached(notes, note);
    let at = position(notes, note.commit, 0);
    assert forall|i: int, j: int| 0 <= i < j < after.len() implies (#[trigger] after[i]).commit != (
    #[trigger] after[j]).commit by {
        if at < notes.len() {
            assert(after[i].commit == notes[i].commit);
            assert(after[j].commit == notes[j].commit);
        } else if j < notes.len() {
            assert(after[i] == notes[i]);
            assert(after[j] == notes[j]);
        } else {
            assert(after[i] == notes[i]);
        }
    }
}

/// A proof that is attached and then read is the proof that was attached:
/// the payload read for the commit decodes, and decodes to that proof.
pub proof fn lemma_attached_proof_reads_back(
    notes: Seq<NoteView>,
    commit: Seq<u8>,
    id: Seq<u8>,
    sealed: ProofView,
)
    requires
        sealed.wf(),
    ensures
        payload_of(attached(notes, NoteView { commit, id, payload: proof_text(sealed) }), commit)
            == Some(proof_text(sealed)),
        decoded_proof(proof_text(sealed)) == Some(sealed),
{
    lemma_read_after_attach(notes, NoteView { commit, id, payload: proof_text(sealed) });
    lemma_proof_round_trip(sealed);
}

/// The notes of one namespace.
#[derive(Debug)]
pub struct AnnotationStore {
    pub(crate) notes: Vec<Note>,
}

impl View for AnnotationStore {
    type V = Seq<NoteView>;

    open(crate) spec fn view(&self) -> Seq<NoteView> {
        self.notes@.map_values(|note: Note| note@)
    }
}

impl AnnotationStore {
    #[verifier::type_invariant]
    pub(crate) open spec fn well_formed(&self) -> bool {
        distinct_commits(self@)
    }

    /// A store without notes.
    pub fn new() -> (store: AnnotationStore)
        ensures
            store@ == Seq::<NoteView>::empty(),
    {
        let store = AnnotationStore { notes: Vec::new() };
        assert(store@ =~= Seq::<NoteView>::empty());
        store
    }

    /// The number of notes, which is the number of annotated commits.
    pub fn len(&self) -> (count: usize)
        ensures
            count == self@.len(),
            distinct_commits(self@),
    {
        proof {
            use_type_invariant(self);
        }
        self.notes.len()
    }

    /// The note at the place `at`, in the order of the store.
    pub fn get(&self, at: usize) -> (note: &Note)
        requires
            at < self@.len(),
        ensures
            note@ == self@[at as int],
    {
        &self.notes[at]
    }

    /// Where the note of `commit` stands, or the number of notes where it has
    /// none.
    fn locate(&self, commit: &CommitId) -> (at: usize)
        ensures
            at == position(self@, commit@, 0),
            at <= self@.len(),
            at < self@.len() ==> self@[at as int].commit == commit@,
    {
        let mut at: usize = 0;
        while at < self.notes.len()
            invariant
                at <= self.notes@.len(),
                self@.len() == self.notes@.len(),
                forall|k: int| 0 <= k < at ==> self@[k].commit != commit@,
            decreases self.notes@.len() - at,
        {
            if self.notes[at].commit.same(commit) {
                proof {
                    lemma_position_is(self@, commit@, 0, at as int);
                }
                return at;
            }
            at += 1;
        }
        proof {
            lemma_position_is(self@, commit@, 0, at as int);
        }
        at
    }

    /// Whether `commit` has a note.
    pub fn has_note(&self, commit: &CommitId) -> (yes: bool)
        ensures
            yes == has_note(self@, commit@),
    {
        self.locate(commit) < self.notes.len()
    }

    /// The payload of the note of `commit`, and `None` where it has no note:
    /// that is no failure, the commit has no claim yet.
    pub fn read(&self, commit: &CommitId) -> (payload: Option<&[u8]>)
        ensures
            payload is Some <==> has_note(self@, commit@),
            payload matches Some(bytes) ==> payload_of(self@, commit@) == Some(bytes@),
    {
        let at = self.locate(commit);
        if at < self.notes.len() {
            Some(self.notes[at].payload.as_slice())
        } else {
            None
        }
    }

    /// The identifier of the note of `commit`, and `None` where it has no
    /// note.
    pub fn note_id(&self, commit: &CommitId) -> (id: Option<NoteId>)
        ensures
            id is Some <==> has_note(self@, commit@),
            id matches Some(n) ==> note_of(self@, commit@) matches Some(note) && note.id == n@,
    {
        let at = self.locate(commit);
        if at < self.notes.len() {
            Some(self.notes[at].id)
        } else {
            None
        }
    }

    /// Every annotated commit with the identifier of its note, in the order
    /// of the store.
    pub fn list(&self) -> (entries: Vec<(CommitId, NoteId)>)
        ensures
            entries@.len() == self@.len(),
            forall|i: int|
                0 <= i < self@.len() ==> (#[trigger] entries@[i]).0@ == self@[i].commit
                    && entries@[i].1@ == self@[i].id,
            distinct_commits(self@),
    {
        proof {
            use_type_invariant(self);
        }
        let mut entries: Vec<(CommitId, NoteId)> = Vec::new();
        let mut i: usize = 0;
        while i < self.notes.len()
            invariant
                i <= self.notes@.len(),
                self@.len() == self.notes@.len(),
                entries@.len() == i,
                forall|k: int|
                    0 <= k < i ==> (#[trigger] entries@[k]).0@ == self@[k].commit
                        && entries@[k].1@ == self@[k].id,
            decreases self.notes@.len() - i,
        {
            entries.push((self.notes[i].commit, self.notes[i].id));
            i += 1;
        }
        entries
    }

    /// Puts a note with the identifier `id` and the payload `payload` on
    /// `commit`, in place of the note that the commit had, if it had one.
    pub fn put(&mut self, commit: CommitId, id: NoteId, payload: &[u8])
        ensures
            final(self)@ == attached(
                old(self)@,
                NoteView { commit: commit@, id: id@, payload: payload@ },
            ),
            payload_of(final(self)@, commit@) == Some(payload@),
    {
        proof {
            use_type_invariant(&*self);
            lemma_read_after_attach(
                self@,
                NoteView { commit: commit@, id: id@, payload: payload@ },
            );
        }
        let at = self.locate(&commit);
        let note = Note { commit, id, payload: copy_of(payload) };
        let ghost before = self@;
        proof {
            lemma_attach_keeps_distinct(before, note@);
        }
        let mut taken = AnnotationStore { notes: Vec::new() };
        assert(taken@ =~= Seq::<NoteView>::empty());
        core::mem::swap(self, &mut taken);
        let AnnotationStore { notes } = taken;
        let mut notes = notes;
        if at < notes.len() {
            notes[at] = note;
            assert(notes@.map_values(|n: Note| n@) =~= before.update(at as int, note@));
        } else {
            notes.push(note);
            assert(notes@.map_values(|n: Note| n@) =~= before.push(note@));
        }
        *self = AnnotationStore { notes };
    }

    /// Writes `payload` as the note of `commit`, in place of the note that
    /// the commit had, if it had one. Gives the identifier of the new note,
    /// which is the one that git gives to the payload. Where git cannot name
    /// the payload, the store is unavailable and nothing changes.
    pub fn attach(&mut self, commit: CommitId, payload: &[u8]) -> (written: Result<NoteId, Error>)
        ensures
            match written {
                Ok(id) => {
                    &&& git_blob_id(payload@) == Some(id@)
                    &&& final(self)@ == attached(
                        old(self)@,
                        NoteView { commit: commit@, id: id@, payload: payload@ },
                    )
                    &&& payload_of(final(self)@, commit@) == Some(payload@)
                },
                Err(e) => git_blob_id(payload@) is None && e@ == ErrorView::RepositoryUnavailable
                    && final(self)@ == old(self)@,
            },
    {
        match hash_blob(payload) {
            Some(id) => {
                self.put(commit, id, payload);
                Ok(id)
            },
            None => Err(Error::RepositoryUnavailable),
        }
    }
}

} // verus!
