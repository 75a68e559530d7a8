//! The ways in which an operation on claims can fail.

use vstd::prelude::*;
use vstd::string::StringExecFns;

verus! {

/// Why an operation failed.
#[derive(Debug, PartialEq, Eq)]
pub enum Error {
    /// A required input was not supplied; the text says which.
    ArgMissing(String),
    /// The repository could not be opened or read.
    RepositoryUnavailable,
    /// The commit is not in the repository's history.
    CommitNotExisting,
    /// A text does not have the encoding it should have; the text names it.
    NotValidEncoding(String),
    /// The keystore could not be decrypted with the given passphrase.
    DecryptionFailed,
    /// The hardware wallet could not be reached.
    DeviceUnavailable,
    /// The credential backend did not produce a signature.
    SignFailure,
    /// The signature is not one of the signer over the message.
    ETHSigFailed,
}

/// What an [`Error`] holds.
pub ghost enum ErrorView {
    ArgMissing(Seq<char>),
    RepositoryUnavailable,
    CommitNotExisting,
    NotValidEncoding(Seq<char>),
    DecryptionFailed,
    DeviceUnavailable,
    SignFailure,
    ETHSigFailed,
}

impl View for Error {
    type V = ErrorView;

    open spec fn view(&self) -> ErrorView {
        match self {
            Error::ArgMissing(what) => ErrorView::ArgMissing(what@),
            Error::RepositoryUnavailable => ErrorView::RepositoryUnavailable,
            Error::CommitNotExisting => ErrorView::CommitNotExisting,
            Error::NotValidEncoding(what) => ErrorView::NotValidEncoding(what@),
            Error::DecryptionFailed => ErrorView::DecryptionFailed,
            Error::DeviceUnavailable => ErrorView::DeviceUnavailable,
            Error::SignFailure => ErrorView::SignFailure,
            Error::ETHSigFailed => ErrorView::ETHSigFailed,
        }
    }
}

impl ErrorView {
    /// The text that tells the failure to a person.
    pub open spec fn message(self) -> Seq<char> {
        match self {
            ErrorView::ArgMissing(what) => "Missing Argument: "@ + what,
            ErrorView::RepositoryUnavailable => "not able to open repository"@,
            ErrorView::CommitNotExisting => "not able to retrieve commit"@,
            ErrorView::NotValidEncoding(what) => what + " not valid"@,
            ErrorView::DecryptionFailed => "keystore decryption failed"@,
            ErrorView::DeviceUnavailable => "not able to reach hardware wallet"@,
            ErrorView::SignFailure => "not able to sign message"@,
            ErrorView::ETHSigFailed => "eth signature failed"@,
        }
    }

    /// Whether the failure is that an input was not supplied.
    pub open spec fn is_missing_input(self) -> bool {
        self is ArgMissing
    }

    /// Whether the failure came from the credential backend.
    pub open spec fn is_signing_failure(self) -> bool {
        self is DecryptionFailed || self is DeviceUnavailable || self is SignFailure
    }
}

impl Clone for Error {
    fn clone(&self) -> (copy: Error)
        ensures
            copy@ == self@,
    {
        match self {
            Error::ArgMissing(what) => Error::ArgMissing(what.clone()),
            Error::RepositoryUnavailable => Error::RepositoryUnavailable,
            Error::CommitNotExisting => Error::CommitNotExisting,
            Error::NotValidEncoding(what) => Error::NotValidEncoding(what.clone()),
            Error::DecryptionFailed => Error::DecryptionFailed,
            Error::DeviceUnavailable => Error::DeviceUnavailable,
            Error::SignFailure => Error::SignFailure,
            Error::ETHSigFailed => Error::ETHSigFailed,
        }
    }
}

impl Error {
    /// A missing input, named by `what`.
    pub fn missing(what: &str) -> (e: Error)
        ensures
            e@ == ErrorView::ArgMissing(what@),
    {
        Error::ArgMissing(what.to_owned())
    }

    /// A text, named by `what`, that does not have its encoding.
    pub fn not_valid(what: &str) -> (e: Error)
        ensures
            e@ == ErrorView::NotValidEncoding(what@),
    {
        Error::NotValidEncoding(what.to_owned())
    }

    /// The text that tells the failure to a person.
    pub fn message(&self) -> (text: String)
        ensures
            text@ == self@.message(),
    {
        match self {
            Error::ArgMissing(what) => String::from_str("Missing Argument: ").concat(what.as_str()),
            Error::RepositoryUnavailable => String::from_str("not able to open repository"),
            Error::CommitNotExisting => String::from_str("not able to retrieve commit"),
            Error::NotValidEncoding(what) => what.clone().concat(" not valid"),
            Error::DecryptionFailed => String::from_str("keystore decryption failed"),
            Error::DeviceUnavailable => String::from_str("not able to reach hardware wallet"),
            Error::SignFailure => String::from_str("not able to sign message"),
            Error::ETHSigFailed => String::from_str("eth signature failed"),
        }
    }

    /// Whether the failure is that an input was not supplied.
    pub fn is_missing_input(&self) -> (yes: bool)
        ensures
            yes == self@.is_missing_input(),
    {
        match self {
            Error::ArgMissing(_) => true,
            _ => false,
        }
    }

    /// Whether the failure came from the credential backend.
    pub fn is_signing_failure(&self) -> (yes: bool)
        ensures
            yes == self@.is_signing_failure(),
    {
        match self {
            Error::DecryptionFailed => true,
            Error::DeviceUnavailable => true,
            Error::SignFailure => true,
            _ => false,
        }
    }
}

} // verus!
