//! The credential backend: which one is used, what it reports, and whether
//! a signature is the signer's.
//!
//! A signature comes from one of two sources: a key file that is decrypted
//! with a passphrase, or a hardware wallet that is addressed by a
//! derivation path. Opening either and signing with it is the caller's
//! work; what is decided here is which source is used, what each of its
//! failures means, and whether what came back is a signature of the signer
//! over the message.

use vstd::prelude::*;
use crate::error::{Error, ErrorView};
use crate::types::{Address, Signature};

verus! {

/// Where the signature comes from.
#[derive(Debug, PartialEq, Eq)]
pub enum Backend {
    /// An encrypted key file, at this path.
    Keystore(String),
    /// A hardware wallet, with this derivation path.
    Ledger(String),
}

/// What a [`Backend`] holds.
pub ghost enum BackendView {
    Keystore(Seq<char>),
    Ledger(Seq<char>),
}

impl View for Backend {
    type V = BackendView;

    open spec fn view(&self) -> BackendView {
        match self {
            Backend::Keystore(path) => BackendView::Keystore(path@),
            Backend::Ledger(path) => BackendView::Ledger(path@),
        }
    }
}

impl Clone for Backend {
    fn clone(&self) -> (copy: Backend)
        ensures
            copy@ == self@,
    {
        match self {
            Backend::Keystore(path) => Backend::Keystore(path.clone()),
            Backend::Ledger(path) => Backend::Ledger(path.clone()),
        }
    }
}

/// What opening the credential source gave.
#[derive(Clone, Copy, Debug, PartialEq, Eq)]
pub enum WalletOutcome {
    /// It is open, and signs for this address.
    Opened(Address),
    /// The key file could not be decrypted with the passphrase.
    DecryptionFailed,
    /// The hardware wallet could not be reached.
    DeviceUnavailable,
}

/// What the one attempt to sign gave.
#[derive(Clone, Copy, Debug, PartialEq, Eq)]
pub enum SignOutcome {
    /// The message was signed.
    Signed(Signature),
    /// No signature was made: the device failed, or the request was declined
    /// on it.
    Failed,
}

/// The backend that a keystore path and a derivation path select: the
/// keystore where its path is given, whatever else is given, and the
/// hardware wallet where only its path is given.
pub open spec fn selected_backend(
    keystore: Option<Seq<char>>,
    ledger_hdpath: Option<Seq<char>>,
) -> Option<BackendView> {
    match (keystore, ledger_hdpath) {
        (Some(path), _) => Some(BackendView::Keystore(path)),
        (None, Some(path)) => Some(BackendView::Ledger(path)),
        (None, None) => None,
    }
}

/// The text of a `String` that may be missing.
pub open spec fn text_of(value: Option<String>) -> Option<Seq<char>> {
    match value {
        Some(text) => Some(text@),
        None => None,
    }
}

/// Selects the credential backend. Where both paths are given the keystore
/// is used. Where none is given, an input is missing.
pub fn select_backend(keystore: &Option<String>, ledger_hdpath: &Option<String>) -> (selected:
    Result<Backend, Error>)
    ensures
        match selected {
            Ok(backend) => selected_backend(text_of(*keystore), text_of(*ledger_hdpath)) == Some(
                backend@,
            ),
            Err(e) => selected_backend(text_of(*keystore), text_of(*ledger_hdpath)) is None && e@
                == ErrorView::ArgMissing(
                "no wallet specified: either '--ledger-hdpath' or '--keystore' must be specified"@,
            ),
        },
{
    match keystore {
        Some(path) => Ok(Backend::Keystore(path.clone())),
        None => match ledger_hdpath {
            Some(path) => Ok(Backend::Ledger(path.clone())),
            None => Err(
                Error::missing(
                    "no wallet specified: either '--ledger-hdpath' or '--keystore' must be specified",
                ),
            ),
        },
    }
}

/// The address that signs, where the credential source was opened, and the
/// failure that its outcome stands for where it was not.
pub fn signer_address(outcome: WalletOutcome) -> (signer: Result<Address, Error>)
    ensures
        match outcome {
            WalletOutcome::Opened(address) => signer == Ok::<Address, Error>(address),
            WalletOutcome::DecryptionFailed => signer matches Err(e) && e@
                == ErrorView::DecryptionFailed,
            WalletOutcome::DeviceUnavailable => signer matches Err(e) && e@
                == ErrorView::DeviceUnavailable,
        },
{
    match outcome {
        WalletOutcome::Opened(address) => Ok(address),
        WalletOutcome::DecryptionFailed => Err(Error::DecryptionFailed),
        WalletOutcome::DeviceUnavailable => Err(Error::DeviceUnavailable),
    }
}

/// Whether `ethers::types::Signature::verify` accepts the signature
/// `(v, r, s)` for `message` and `signer`: whether the address that it
/// recovers from the signature and the hash of the message is `signer`.
pub uninterp spec fn signature_verifies(
    message: Seq<u8>,
    v: u64,
    r: Seq<u8>,
    s: Seq<u8>,
    signer: Seq<u8>,
) -> bool;

/// `ethers::types::Signature::verify`, on a signature made of these three
/// values, with its error dropped: whether the signature is one of `signer`
/// over `message`.
#[verifier::external_body]
fn verify_signature(message: &[u8], signature: &Signature, signer: &Address) -> (ok: bool)
    ensures
        ok == signature_verifies(message@, signature.v, signature.r@, signature.s@, signer@),
{
    let outside = ethers::types::Signature {
        r: ethers::types::U256::from_big_endian(&signature.r.0),
        s: ethers::types::U256::from_big_endian(&signature.s.0),
        v: signature.v,
    };
    outside.verify(message, ethers::types::Address::from(signer.0)).is_ok()
}

/// Whether `signature` is one of `signer` over `message`.
pub open spec fn signed_by(message: Seq<u8>, signature: Signature, signer: Seq<u8>) -> bool {
    signature_verifies(message, signature.v, signature.r@, signature.s@, signer)
}

/// Checks that `signature` is one of `signer` over `message`.
pub fn check_signature(message: &[u8], signature: &Signature, signer: &Address) -> (checked: Result<
    (),
    Error,
>)
    ensures
        checked is Ok <==> signed_by(message@, *signature, signer@),
        checked matches Err(e) ==> e@ == ErrorView::ETHSigFailed,
{
    if verify_signature(message, signature, signer) {
        Ok(())
    } else {
        Err(Error::ETHSigFailed)
    }
}

/// What follows from the one attempt to sign `message` for `signer`: the
/// signature, where one was made and it is the signer's; otherwise the
/// failure.
pub fn accept_signature(message: &[u8], signer: &Address, outcome: SignOutcome) -> (accepted:
    Result<Signature, Error>)
    ensures
        match outcome {
            SignOutcome::Signed(signature) => if signed_by(message@, signature, signer@) {
                accepted == Ok::<Signature, Error>(signature)
            } else {
                accepted matches Err(e) && e@ == ErrorView::ETHSigFailed
            },
            SignOutcome::Failed => accepted matches Err(e) && e@ == ErrorView::SignFailure,
        },
{
    match outcome {
        SignOutcome::Signed(signature) => match check_signature(message, &signature, signer) {
            Ok(()) => Ok(signature),
            Err(e) => Err(e),
        },
        SignOutcome::Failed => Err(Error::SignFailure),
    }
}

} // verus!
