//! The three operations on claims, as far as they decide anything.
//!
//! Creating a claim touches the repository, the credential source and the
//! notes, in that order, and each of them can fail. None of that work is
//! done here. [`create`] checks what was asked for and says what to look
//! for; each later step takes what the outside reported and says what comes
//! next, until the proof is attached. A step that fails ends the operation:
//! nothing is tried twice.

use vstd::prelude::*;
use crate::codec::{decoded_proof, lemma_proof_round_trip, proof_text, puzzle_text};
use crate::error::{Error, ErrorView};
use crate::puzzle::{
    assemble_proof, build_puzzle, built_puzzle, puzzle_project, ProofView, Puzzle, PuzzleView,
};
use crate::signing::{
    accept_signature, select_backend, selected_backend, signed_by, signer_address, text_of,
    Backend, BackendView, SignOutcome, WalletOutcome,
};
use crate::store::{attached, git_blob_id, payload_of, AnnotationStore, NoteView};
use crate::types::{Address, CommitId, NoteId};

verus! {

/// What an operation is asked to work on. Every part may be missing; each
/// operation says which parts it needs.
#[derive(Debug)]
pub struct Options {
    /// Address of the organization.
    pub org: Option<Address>,
    /// Address of the contributor.
    pub contributor: Option<Address>,
    /// Path of the repository.
    pub repo: Option<String>,
    /// Identifier of the project, in base-32.
    pub project: Option<String>,
    /// Derivation path of the account on a hardware wallet.
    pub ledger_hdpath: Option<String>,
    /// Path of the file that holds the encrypted key.
    pub keystore: Option<String>,
    /// The commit to reward.
    pub commit: Option<CommitId>,
}

/// What [`Options`] hold.
pub ghost struct OptionsView {
    pub org: Option<Seq<u8>>,
    pub contributor: Option<Seq<u8>>,
    pub repo: Option<Seq<char>>,
    pub project: Option<Seq<char>>,
    pub ledger_hdpath: Option<Seq<char>>,
    pub keystore: Option<Seq<char>>,
    pub commit: Option<Seq<u8>>,
}

impl View for Options {
    type V = OptionsView;

    open spec fn view(&self) -> OptionsView {
        OptionsView {
            org: match self.org {
                Some(org) => Some(org@),
                None => None,
            },
            contributor: match self.contributor {
                Some(contributor) => Some(contributor@),
                None => None,
            },
            repo: text_of(self.repo),
            project: text_of(self.project),
            ledger_hdpath: text_of(self.ledger_hdpath),
            keystore: text_of(self.keystore),
            commit: match self.commit {
                Some(commit) => Some(commit@),
                None => None,
            },
        }
    }
}

impl Clone for Options {
    fn clone(&self) -> (copy: Options)
        ensures
            copy@ == self@,
    {
        Options {
            org: self.org,
            contributor: self.contributor,
            repo: copy_text(&self.repo),
            project: copy_text(&self.project),
            ledger_hdpath: copy_text(&self.ledger_hdpath),
            keystore: copy_text(&self.keystore),
            commit: self.commit,
        }
    }
}

/// A copy of a text that may be missing.
fn copy_text(text: &Option<String>) -> (copy: Option<String>)
    ensures
        copy == *text,
{
    match text {
        Some(text) => Some(text.clone()),
        None => None,
    }
}

/// What a claim is created from, once everything that was asked for has
/// been checked.
#[derive(Debug)]
pub struct Request {
    pub(crate) repo: String,
    pub(crate) commit: CommitId,
    pub(crate) backend: Backend,
    pub(crate) puzzle: Puzzle,
}

/// What a [`Request`] holds.
pub ghost struct RequestView {
    /// Path of the repository.
    pub repo: Seq<char>,
    /// The commit to reward.
    pub commit: Seq<u8>,
    /// Where the signature is to come from.
    pub backend: BackendView,
    /// The claim to sign.
    pub puzzle: PuzzleView,
}

impl View for Request {
    type V = RequestView;

    open(crate) spec fn view(&self) -> RequestView {
        RequestView {
            repo: self.repo@,
            commit: self.commit@,
            backend: self.backend@,
            puzzle: self.puzzle@,
        }
    }
}

/// The first step of creating a claim: the commit has to be looked for in
/// the repository.
#[derive(Debug)]
pub struct AwaitingCommit {
    pub(crate) request: Request,
}

/// The second step: the credential source has to be opened.
#[derive(Debug)]
pub struct AwaitingWallet {
    pub(crate) request: Request,
}

/// The third step: the message has to be signed, once.
#[derive(Debug)]
pub struct AwaitingSignature {
    pub(crate) request: Request,
    pub(crate) signer: Address,
}

/// What an [`AwaitingSignature`] holds.
pub ghost struct SigningView {
    pub request: RequestView,
    /// The address that the opened credential source signs for.
    pub signer: Seq<u8>,
}

impl View for AwaitingCommit {
    type V = RequestView;

    open(crate) spec fn view(&self) -> RequestView {
        self.request@
    }
}

impl View for AwaitingWallet {
    type V = RequestView;

    open(crate) spec fn view(&self) -> RequestView {
        self.request@
    }
}

impl View for AwaitingSignature {
    type V = SigningView;

    open(crate) spec fn view(&self) -> SigningView {
        SigningView { request: self.request@, signer: self.signer@ }
    }
}

/// What looking for the commit in the repository gave.
#[derive(Clone, Copy, Debug, PartialEq, Eq)]
pub enum Lookup {
    /// The commit is in the repository.
    Found,
    /// The repository was opened, and the commit is not in it.
    CommitMissing,
    /// The repository could not be opened or read.
    RepositoryUnavailable,
}

/// Why [`create`] refuses `options`, if it does: the first that holds of
/// no commit, no contributor, no organization, no project, no repository,
/// no credential source, and a project identifier that does not decode.
pub open spec fn create_refusal(options: OptionsView) -> Option<ErrorView> {
    if options.commit is None {
        Some(ErrorView::ArgMissing("No commit specified"@))
    } else if options.contributor is None {
        Some(ErrorView::ArgMissing("No contributor address specified"@))
    } else if options.org is None {
        Some(ErrorView::ArgMissing("No org address specified"@))
    } else if options.project is None {
        Some(ErrorView::ArgMissing("No project id specified"@))
    } else if options.repo is None {
        Some(ErrorView::ArgMissing("No repo path specified"@))
    } else if selected_backend(options.keystore, options.ledger_hdpath) is None {
        Some(
            ErrorView::ArgMissing(
                "no wallet specified: either '--ledger-hdpath' or '--keystore' must be specified"@,
            ),
        )
    } else if puzzle_project(options.project.unwrap()) is None {
        Some(ErrorView::NotValidEncoding("project id"@))
    } else {
        None
    }
}

/// What [`create`] makes of `options` that it does not refuse.
pub open spec fn create_request(options: OptionsView) -> RequestView {
    RequestView {
        repo: options.repo.unwrap(),
        commit: options.commit.unwrap(),
        backend: selected_backend(options.keystore, options.ledger_hdpath).unwrap(),
        puzzle: built_puzzle(
            options.org.unwrap(),
            options.contributor.unwrap(),
            options.commit.unwrap(),
            puzzle_project(options.project.unwrap()).unwrap(),
        ),
    }
}

/// Why [`claim_setup`] refuses `options`, if it does: no repository, or no
/// credential source.
pub open spec fn claim_refusal(options: OptionsView) -> Option<ErrorView> {
    if options.repo is None {
        Some(ErrorView::ArgMissing("No repo path specified"@))
    } else if selected_backend(options.keystore, options.ledger_hdpath) is None {
        Some(
            ErrorView::ArgMissing(
                "no wallet specified: either '--ledger-hdpath' or '--keystore' must be specified"@,
            ),
        )
    } else {
        None
    }
}

/// The path of the repository to work on. Without one, an input is missing.
pub fn repository_path(options: &Options) -> (path: Result<String, Error>)
    ensures
        match path {
            Ok(path) => options@.repo == Some(path@),
            Err(e) => options@.repo is None && e@ == ErrorView::ArgMissing(
                "No repo path specified"@,
            ),
        },
{
    match &options.repo {
        Some(path) => Ok(path.clone()),
        None => Err(Error::missing("No repo path specified")),
    }
}

/// What claiming needs before anything is opened: the path of the
/// repository and the credential source whose address claims. Where either
/// is missing, an input is missing, and nothing has been touched yet.
pub fn claim_setup(options: &Options) -> (setup: Result<(String, Backend), Error>)
    ensures
        match setup {
            Ok((repo, backend)) => {
                &&& claim_refusal(options@) is None
                &&& options@.repo == Some(repo@)
                &&& selected_backend(options@.keystore, options@.ledger_hdpath) == Some(backend@)
            },
            Err(e) => claim_refusal(options@) == Some(e@),
        },
        options@.keystore is None && options@.ledger_hdpath is None ==> (setup matches Err(e)
            && e@.is_missing_input()),
{
    let repo = match repository_path(options) {
        Ok(repo) => repo,
        Err(e) => {
            return Err(e);
        },
    };
    match select_backend(&options.keystore, &options.ledger_hdpath) {
        Ok(backend) => Ok((repo, backend)),
        Err(e) => Err(e),
    }
}

/// Starts the creation of a claim.
///
/// Everything that can be checked without touching the repository or the
/// credential source is checked here, in this order: that a commit, a
/// contributor, an organization, a project and a repository are named; that
/// a credential source is selected; that the project identifier decodes.
/// The first check that fails is the failure. Otherwise the puzzle is
/// built, and the commit has to be looked for next.
pub fn create(options: &Options) -> (started: Result<AwaitingCommit, Error>)
    ensures
        match started {
            Ok(state) => create_refusal(options@) is None && state@ == create_request(options@)
                && state@.puzzle.wf(),
            Err(e) => create_refusal(options@) == Some(e@),
        },
        options@.keystore is None && options@.ledger_hdpath is None ==> (started matches Err(e)
            && e@.is_missing_input()),
{
    let commit = match options.commit {
        Some(commit) => commit,
        None => {
            return Err(Error::missing("No commit specified"));
        },
    };
    let contributor = match options.contributor {
        Some(contributor) => contributor,
        None => {
            return Err(Error::missing("No contributor address specified"));
        },
    };
    let org = match options.org {
        Some(org) => org,
        None => {
            return Err(Error::missing("No org address specified"));
        },
    };
    let project = match &options.project {
        Some(project) => project,
        None => {
            return Err(Error::missing("No project id specified"));
        },
    };
    let repo = match repository_path(options) {
        Ok(repo) => repo,
        Err(e) => {
            return Err(e);
        },
    };
    let backend = match select_backend(&options.keystore, &options.ledger_hdpath) {
        Ok(backend) => backend,
        Err(e) => {
            return Err(e);
        },
    };
    let puzzle = match build_puzzle(org, contributor, &commit, project.as_str()) {
        Ok(puzzle) => puzzle,
        Err(e) => {
            return Err(e);
        },
    };
    Ok(AwaitingCommit { request: Request { repo, commit, backend, puzzle } })
}

impl AwaitingCommit {
    /// Path of the repository to open.
    pub fn repo(&self) -> (repo: &String)
        ensures
            repo@ == self@.repo,
    {
        &self.request.repo
    }

    /// The commit to look for.
    pub fn commit(&self) -> (commit: CommitId)
        ensures
            commit@ == self@.commit,
    {
        self.request.commit
    }

    /// Takes what looking for the commit gave. Where it was found, the
    /// credential source has to be opened next, and nothing else changes.
    /// Where it was not, that is the failure.
    pub fn located(self, lookup: Lookup) -> (next: Result<AwaitingWallet, Error>)
        ensures
            match lookup {
                Lookup::Found => next matches Ok(state) && state@ == self@,
                Lookup::CommitMissing => next matches Err(e) && e@ == ErrorView::CommitNotExisting,
                Lookup::RepositoryUnavailable => next matches Err(e) && e@
                    == ErrorView::RepositoryUnavailable,
            },
    {
        match lookup {
            Lookup::Found => Ok(AwaitingWallet { request: self.request }),
            Lookup::CommitMissing => Err(Error::CommitNotExisting),
            Lookup::RepositoryUnavailable => Err(Error::RepositoryUnavailable),
        }
    }
}

impl AwaitingWallet {
    /// The credential source to open.
    pub fn backend(&self) -> (backend: &Backend)
        ensures
            backend@ == self@.backend,
    {
        &self.request.backend
    }

    /// Takes what opening the credential source gave. Where it is open, the
    /// message has to be signed next, for the address that it signs for.
    /// A key that was not decrypted and a device that was not reached are
    /// failures of their own.
    pub fn opened(self, outcome: WalletOutcome) -> (next: Result<AwaitingSignature, Error>)
        ensures
            match outcome {
                WalletOutcome::Opened(signer) => next matches Ok(state) && state@ == (SigningView {
                    request: self@,
                    signer: signer@,
                }),
                WalletOutcome::DecryptionFailed => next matches Err(e) && e@
                    == ErrorView::DecryptionFailed,
                WalletOutcome::DeviceUnavailable => next matches Err(e) && e@
                    == ErrorView::DeviceUnavailable,
            },
    {
        match signer_address(outcome) {
            Ok(signer) => Ok(AwaitingSignature { request: self.request, signer }),
            Err(e) => Err(e),
        }
    }
}

/// What [`AwaitingSignature::signed`] gives, and the notes it leaves, for
/// each outcome: the failure, with the notes as they were, or the
/// identifier of the note that now holds the proof.
pub open spec fn conclusion(
    state: SigningView,
    outcome: SignOutcome,
    before: Seq<NoteView>,
) -> Result<(Seq<u8>, Seq<NoteView>), ErrorView> {
    match outcome {
        SignOutcome::Failed => Err(ErrorView::SignFailure),
        SignOutcome::Signed(signature) => {
            let payload = proof_text(
                ProofView { puzzle: state.request.puzzle, signature: signature@ },
            );
            if !signed_by(puzzle_text(state.request.puzzle), signature, state.signer) {
                Err(ErrorView::ETHSigFailed)
            } else {
                match git_blob_id(payload) {
                    None => Err(ErrorView::RepositoryUnavailable),
                    Some(id) => Ok(
                        (
                            id,
                            attached(
                                before,
                                NoteView { commit: state.request.commit, id, payload },
                            ),
                        ),
                    ),
                }
            }
        },
    }
}

impl AwaitingSignature {
    /// The address that the credential source signs for.
    pub fn signer(&self) -> (signer: Address)
        ensures
            signer@ == self@.signer,
    {
        self.signer
    }

    /// The message to sign: the canonical text of the puzzle.
    pub fn message(&self) -> (message: Vec<u8>)
        ensures
            message@ == puzzle_text(self@.request.puzzle),
            self@.request.puzzle.wf(),
    {
        proof {
            use_type_invariant(&self.request.puzzle);
        }
        self.request.puzzle.serialize()
    }

    /// Takes what the one attempt to sign gave, and attaches the proof.
    ///
    /// A signature that is the signer's over the message makes the proof,
    /// which becomes the note of the commit in `store`, in place of any
    /// note the commit had. Whatever else comes back is a failure, and
    /// `store` stays as it was.
    pub fn signed(self, outcome: SignOutcome, store: &mut AnnotationStore) -> (written: Result<
        NoteId,
        Error,
    >)
        ensures
            match written {
                Ok(id) => conclusion(self@, outcome, old(store)@) == Ok::<
                    (Seq<u8>, Seq<NoteView>),
                    ErrorView,
                >((id@, final(store)@)),
                Err(e) => conclusion(self@, outcome, old(store)@) == Err::<
                    (Seq<u8>, Seq<NoteView>),
                    ErrorView,
                >(e@) && final(store)@ == old(store)@,
            },
            written is Ok ==> ({
                &&& outcome matches SignOutcome::Signed(signature)
                &&& payload_of(final(store)@, self@.request.commit) matches Some(payload)
                &&& decoded_proof(payload) == Some(
                    ProofView { puzzle: self@.request.puzzle, signature: signature@ },
                )
            }),
    {
        let message = self.message();
        let signature = match accept_signature(message.as_slice(), &self.signer, outcome) {
            Ok(signature) => signature,
            Err(e) => {
                return Err(e);
            },
        };
        let commit = self.request.commit;
        let sealed = assemble_proof(self.request.puzzle, signature);
        let payload = sealed.serialize();
        proof {
            lemma_proof_round_trip(sealed@);
        }
        store.attach(commit, payload.as_slice())
    }
}

} // verus!
