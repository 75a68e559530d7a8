//! Reward claims on git commits.
//!
//! A claim says that a contributor is to be rewarded for a commit, in the
//! name of an organization and a project. Before it is signed it is a
//! [`Puzzle`]; with the signature over its canonical text it is a
//! [`Proof`], which is attached to the commit as a note. Commits without a
//! note are found by [`discover`], a claim is made by [`create`] and the
//! steps after it, and a contributor picks up a proof by [`claim`].
//!
//! Nothing here opens a repository, a key file or a device. The caller does
//! that, hands over what it read, and writes back what is decided.

pub mod base32;
pub mod claims;
pub mod codec;
pub mod discovery;
pub mod error;
pub mod hexfmt;
pub mod numfmt;
pub mod puzzle;
pub mod signing;
pub mod store;
pub mod types;
pub mod workflow;

pub use claims::{claim, claimable};
pub use discovery::{discover, examine, format_commit, Commit, Listing};
pub use error::Error;
pub use puzzle::{assemble_proof, build_puzzle, Proof, Puzzle};
pub use signing::{select_backend, Backend, SignOutcome, WalletOutcome};
pub use store::{AnnotationStore, Note, NOTES_REF};
pub use types::{Address, CommitId, NoteId, Signature, U256};
pub use workflow::{
    claim_setup, create, repository_path, AwaitingCommit, AwaitingSignature, AwaitingWallet,
    Lookup, Options,
};
