//! Discovery: which commits of a history have no claim yet.

use vstd::prelude::*;
use crate::error::{Error, ErrorView};
use crate::store::{has_note, AnnotationStore, NoteView};
use crate::types::{short_id_text, CommitId};

verus! {

/// A commit of the history, as far as discovery reads it.
#[derive(Debug, PartialEq, Eq)]
pub struct Commit {
    /// The identifier of the commit.
    pub id: CommitId,
    /// The first line of its message; `None` where it has none that can be
    /// read as text.
    pub summary: Option<String>,
}

/// What a [`Commit`] holds.
pub ghost struct CommitView {
    pub id: Seq<u8>,
    pub summary: Option<Seq<char>>,
}

impl View for Commit {
    type V = CommitView;

    open spec fn view(&self) -> CommitView {
        CommitView {
            id: self.id@,
            summary: match self.summary {
                Some(summary) => Some(summary@),
                None => None,
            },
        }
    }
}

/// One line of what discovery lists.
#[derive(Debug, PartialEq, Eq)]
pub struct Listing {
    /// The identifier of the commit.
    pub commit: CommitId,
    /// Its short form: the first seven digits.
    pub short_id: Vec<u8>,
    /// The first line of the commit's message.
    pub summary: String,
}

/// What a [`Listing`] holds.
pub ghost struct ListingView {
    pub commit: Seq<u8>,
    pub short_id: Seq<u8>,
    pub summary: Seq<char>,
}

impl View for Listing {
    type V = ListingView;

    open spec fn view(&self) -> ListingView {
        ListingView { commit: self.commit@, short_id: self.short_id@, summary: self.summary@ }
    }
}

/// What an entry of a discovery holds: a line, or a failure.
pub open spec fn entry_view(entry: Result<Listing, Error>) -> Result<ListingView, ErrorView> {
    match entry {
        Ok(line) => Ok(line@),
        Err(e) => Err(e@),
    }
}

/// What the entries of a discovery hold, one by one.
pub open spec fn entries_view(entries: Seq<Result<Listing, Error>>) -> Seq<
    Result<ListingView, ErrorView>,
> {
    entries.map_values(|entry: Result<Listing, Error>| entry_view(entry))
}

/// What the commits of a history hold, one by one.
pub open spec fn history_view(history: Seq<Commit>) -> Seq<CommitView> {
    history.map_values(|commit: Commit| commit@)
}

/// What is reported for a commit: its line, where the commit has a summary,
/// and that the summary is not valid, where it has none.
pub open spec fn reported(commit: CommitView) -> Result<ListingView, ErrorView> {
    match commit.summary {
        Some(summary) => Ok(
            ListingView { commit: commit.id, short_id: short_id_text(commit.id), summary },
        ),
        None => Err(ErrorView::NotValidEncoding("commit summary"@)),
    }
}

/// Whether a commit has no note among `notes`.
pub open spec fn lacks_note(notes: Seq<NoteView>) -> spec_fn(CommitView) -> bool {
    |commit: CommitView| !has_note(notes, commit.id)
}

/// The commits of `history` that have no note among `notes`, in the order
/// of `history`.
pub open spec fn bare_commits(history: Seq<CommitView>, notes: Seq<NoteView>) -> Seq<CommitView> {
    history.filter(lacks_note(notes))
}

/// What discovery lists for `history` and `notes`: what is reported for each
/// commit that has no note, in the order of `history`.
pub open spec fn discovered(history: Seq<CommitView>, notes: Seq<NoteView>) -> Seq<
    Result<ListingView, ErrorView>,
> {
    bare_commits(history, notes).map_values(|commit: CommitView| reported(commit))
}

/// Discovery lists no commit that has a note, and it lists every commit of
/// the history that has none.
pub proof fn lemma_discovered_is_exact(history: Seq<CommitView>, notes: Seq<NoteView>)
    ensures
        discovered(history, notes).len() == bare_commits(history, notes).len(),
        forall|i: int|
            0 <= i < bare_commits(history, notes).len() ==> !has_note(
                notes,
                (#[trigger] bare_commits(history, notes)[i]).id,
            ) && history.contains(bare_commits(history, notes)[i]),
        forall|k: int|
            0 <= k < history.len() && !has_note(notes, (#[trigger] history[k]).id)
                ==> bare_commits(history, notes).contains(history[k]),
{
    let bare = lacks_note(notes);
    let listed = bare_commits(history, notes);
    assert forall|i: int| 0 <= i < listed.len() implies !has_note(notes, (#[trigger] listed[i]).id)
        && history.contains(listed[i]) by {
        history.lemma_filter_pred(bare, i);
        assert(listed.contains(listed[i]));
        history.lemma_filter_contains_rev(bare, listed[i]);
    }
    assert forall|k: int|
        0 <= k < history.len() && !has_note(
            notes,
            (#[trigger] history[k]).id,
        ) implies listed.contains(history[k]) by {
        history.lemma_filter_contains(bare, k);
    }
}

/// The line that is listed for `commit`. A commit without a summary is
/// reported as not valid: it is never passed over.
pub fn format_commit(commit: &Commit) -> (entry: Result<Listing, Error>)
    ensures
        entry_view(entry) == reported(commit@),
{
    match &commit.summary {
        Some(summary) => Ok(
            Listing { commit: commit.id, short_id: commit.id.short_id(), summary: summary.clone() },
        ),
        None => Err(Error::not_valid("commit summary")),
    }
}

/// What discovery makes of one commit: nothing, where the commit has a note
/// in `store`, and what [`format_commit`] gives for it where it has none.
/// A walk over a history can list its commits one by one with this, as it
/// comes by them.
pub fn examine(commit: &Commit, store: &AnnotationStore) -> (entry: Option<Result<Listing, Error>>)
    ensures
        entry is None <==> has_note(store@, commit@.id),
        entry matches Some(found) ==> entry_view(found) == reported(commit@),
{
    if store.has_note(&commit.id) {
        None
    } else {
        Some(format_commit(commit))
    }
}

/// Lists the commits of `history` that have no note in `store`.
///
/// `history` is every commit that can be reached from the head, in the
/// order in which the walk from the head gave them. What comes back has one
/// entry for each of them that has no note, in that order, and none for any
/// commit that has a note. A commit without a summary is reported in its
/// place, and the commits after it are listed all the same.
pub fn discover(history: &[Commit], store: &AnnotationStore) -> (found: Vec<Result<Listing, Error>>)
    ensures
        entries_view(found@) == discovered(history_view(history@), store@),
        found@.len() == bare_commits(history_view(history@), store@).len(),
        forall|i: int|
            0 <= i < found@.len() ==> !has_note(
                store@,
                (#[trigger] bare_commits(history_view(history@), store@)[i]).id,
            ),
        forall|k: int|
            0 <= k < history@.len() && !has_note(store@, (#[trigger] history@[k])@.id)
                ==> bare_commits(history_view(history@), store@).contains(history@[k]@),
{
    let ghost bare = lacks_note(store@);
    let ghost walked = history_view(history@);
    let mut found: Vec<Result<Listing, Error>> = Vec::new();
    let mut i: usize = 0;
    proof {
        reveal(Seq::filter);
        assert(walked.take(0) =~= Seq::<CommitView>::empty());
        assert(entries_view(found@) =~= discovered(walked.take(0), store@));
    }
    while i < history.len()
        invariant
            i <= history@.len(),
            bare == lacks_note(store@),
            walked == history_view(history@),
            entries_view(found@) == discovered(walked.take(i as int), store@),
        decreases history@.len() - i,
    {
        let commit = &history[i];
        let ghost before = walked.take(i as int);
        let ghost listed = found@;
        proof {
            assert(walked.take(i + 1) =~= before.push(commit@));
            before.lemma_filter_push(commit@, bare);
        }
        match examine(commit, store) {
            Some(entry) => {
                found.push(entry);
                proof {
                    assert(entries_view(found@) =~= entries_view(listed).push(entry_view(entry)));
                    assert(discovered(before.push(commit@), store@) =~= discovered(
                        before,
                        store@,
                    ).push(reported(commit@)));
                }
            },
            None => {},
        }
        i += 1;
    }
    proof {
        assert(walked.take(i as int) =~= walked);
        lemma_discovered_is_exact(walked, store@);
        assert forall|k: int|
            0 <= k < history@.len() && !has_note(
                store@,
                (#[trigger] history@[k])@.id,
            ) implies bare_commits(walked, store@).contains(history@[k]@) by {
            assert(walked[k] == history@[k]@);
        }
    }
    found
}

} // verus!
