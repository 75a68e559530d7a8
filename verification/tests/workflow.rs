use ethers::signers::{LocalWallet, Signer};
use rad_reward::claims::{claim, claimable};
use rad_reward::puzzle::{assemble_proof, build_puzzle, Proof};
use rad_reward::signing::{Backend, SignOutcome, WalletOutcome};
use rad_reward::store::AnnotationStore;
use rad_reward::types::{Address, CommitId, Signature, U256};
use rad_reward::workflow::{
    claim_setup, create, repository_path, AwaitingSignature, Lookup, Options,
};
use rad_reward::Error;

const NO_WALLET: &str =
    "no wallet specified: either '--ledger-hdpath' or '--keystore' must be specified";

const ORG: Address = Address([0x0a; 20]);
const CONTRIBUTOR: Address = Address([0x0c; 20]);
const COMMIT: CommitId = CommitId([0x5e; 20]);

fn wallet() -> LocalWallet {
    "4c0883a69102937d6231471b5dbb6204fe5129617082792ae468d01a3f362318".parse().unwrap()
}

fn signer() -> Address {
    Address(wallet().address().0)
}

fn scalar(value: ethers::types::U256) -> U256 {
    let mut bytes = [0u8; 32];
    value.to_big_endian(&mut bytes);
    U256(bytes)
}

fn sign(message: &[u8]) -> Signature {
    let signed = wallet().sign_hash(ethers::utils::hash_message(message)).unwrap();
    Signature { v: signed.v, r: scalar(signed.r), s: scalar(signed.s) }
}

fn options() -> Options {
    Options {
        org: Some(ORG),
        contributor: Some(CONTRIBUTOR),
        repo: Some("/srv/project".to_string()),
        project: Some("qb1ze3m1".to_string()),
        ledger_hdpath: None,
        keystore: Some("key.json".to_string()),
        commit: Some(COMMIT),
    }
}

fn missing(what: &str) -> Error {
    Error::ArgMissing(what.to_string())
}

fn ready_to_sign() -> AwaitingSignature {
    create(&options())
        .unwrap()
        .located(Lookup::Found)
        .unwrap()
        .opened(WalletOutcome::Opened(signer()))
        .unwrap()
}

#[test]
fn create_says_what_to_look_for() {
    let step = create(&options()).unwrap();
    assert_eq!(step.repo(), "/srv/project");
    assert_eq!(step.commit(), COMMIT);
}

#[test]
fn create_names_the_first_missing_input() {
    let mut opts = options();
    opts.repo = None;
    assert_eq!(create(&opts).unwrap_err(), missing("No repo path specified"));
    opts.project = None;
    assert_eq!(create(&opts).unwrap_err(), missing("No project id specified"));
    opts.org = None;
    assert_eq!(create(&opts).unwrap_err(), missing("No org address specified"));
    opts.contributor = None;
    assert_eq!(create(&opts).unwrap_err(), missing("No contributor address specified"));
    opts.commit = None;
    assert_eq!(create(&opts).unwrap_err(), missing("No commit specified"));
}

#[test]
fn create_without_credential_source_is_missing_input() {
    let mut opts = options();
    opts.keystore = None;
    opts.ledger_hdpath = None;
    let refused = create(&opts).unwrap_err();
    assert_eq!(refused, missing(NO_WALLET));
    assert!(refused.is_missing_input());
    assert!(!refused.is_signing_failure());
}

#[test]
fn create_without_credential_source_fails_before_the_project_is_decoded() {
    let mut opts = options();
    opts.keystore = None;
    opts.project = Some("not base-32".to_string());
    assert_eq!(create(&opts).unwrap_err(), missing(NO_WALLET));
}

#[test]
fn create_with_invalid_project_fails_before_anything_is_signed() {
    let mut opts = options();
    opts.project = Some("l0v2".to_string());
    assert_eq!(create(&opts).unwrap_err(), Error::NotValidEncoding("project id".to_string()));
}

#[test]
fn claim_setup_wants_repository_and_credential_source() {
    assert_eq!(
        claim_setup(&options()),
        Ok(("/srv/project".to_string(), Backend::Keystore("key.json".to_string())))
    );
    let mut opts = options();
    opts.keystore = None;
    assert_eq!(claim_setup(&opts), Err(missing(NO_WALLET)));
    opts.ledger_hdpath = Some("m/44'/60'/0'/0/0".to_string());
    assert_eq!(
        claim_setup(&opts),
        Ok(("/srv/project".to_string(), Backend::Ledger("m/44'/60'/0'/0/0".to_string())))
    );
    opts.repo = None;
    assert_eq!(claim_setup(&opts), Err(missing("No repo path specified")));
}

#[test]
fn repository_path_is_required() {
    assert_eq!(repository_path(&options()), Ok("/srv/project".to_string()));
    let mut opts = options();
    opts.repo = None;
    assert_eq!(repository_path(&opts), Err(missing("No repo path specified")));
    assert_eq!(repository_path(&opts.clone()), Err(missing("No repo path specified")));
}

#[test]
fn missing_commit_ends_the_creation() {
    let step = create(&options()).unwrap();
    assert_eq!(step.located(Lookup::CommitMissing).unwrap_err(), Error::CommitNotExisting);
}

#[test]
fn unavailable_repository_ends_the_creation() {
    let step = create(&options()).unwrap();
    assert_eq!(
        step.located(Lookup::RepositoryUnavailable).unwrap_err(),
        Error::RepositoryUnavailable
    );
}

#[test]
fn found_commit_asks_for_the_selected_backend() {
    let step = create(&options()).unwrap().located(Lookup::Found).unwrap();
    assert_eq!(step.backend(), &Backend::Keystore("key.json".to_string()));
    assert_eq!(step.backend().clone(), Backend::Keystore("key.json".to_string()));
}

#[test]
fn wrong_passphrase_is_a_decryption_failure_and_writes_nothing() {
    let store = AnnotationStore::new();
    let step = create(&options()).unwrap().located(Lookup::Found).unwrap();
    let failed = step.opened(WalletOutcome::DecryptionFailed).unwrap_err();
    assert_eq!(failed, Error::DecryptionFailed);
    assert_ne!(failed, Error::SignFailure);
    assert!(failed.is_signing_failure());
    assert_eq!(store.len(), 0);
}

#[test]
fn unreachable_device_is_not_a_decryption_failure() {
    let step = create(&options()).unwrap().located(Lookup::Found).unwrap();
    let failed = step.opened(WalletOutcome::DeviceUnavailable).unwrap_err();
    assert_eq!(failed, Error::DeviceUnavailable);
    assert_ne!(failed, Error::DecryptionFailed);
}

#[test]
fn message_to_sign_is_the_canonical_text_of_the_puzzle() {
    let step = ready_to_sign();
    assert_eq!(step.signer(), signer());
    let puzzle = build_puzzle(ORG, CONTRIBUTOR, &COMMIT, "qb1ze3m1").unwrap();
    assert_eq!(step.message(), puzzle.serialize());
    assert_eq!(
        String::from_utf8(step.message()).unwrap(),
        "{\"org\":\"0x0a0a0a0a0a0a0a0a0a0a0a0a0a0a0a0a0a0a0a0a\",\
         \"contributor\":\"0x0c0c0c0c0c0c0c0c0c0c0c0c0c0c0c0c0c0c0c0c\",\
         \"commit\":\"0x5e5e5e5e5e5e5e5e5e5e5e5e5e5e5e5e5e5e5e5e\",\
         \"project\":\"0x70657465720000000000000000000000\"}"
    );
}

#[test]
fn signed_claim_is_attached_as_a_proof() {
    let step = ready_to_sign();
    let signature = sign(&step.message());
    let mut store = AnnotationStore::new();
    let id = step.signed(SignOutcome::Signed(signature), &mut store).unwrap();
    assert_eq!(store.list(), vec![(COMMIT, id)]);
    let expected =
        assemble_proof(build_puzzle(ORG, CONTRIBUTOR, &COMMIT, "qb1ze3m1").unwrap(), signature);
    assert_eq!(store.read(&COMMIT), Some(&expected.serialize()[..]));
    assert_eq!(Proof::decode(store.read(&COMMIT).unwrap()), Ok(expected));
}

#[test]
fn attached_claim_is_claimed_by_its_contributor() {
    let step = ready_to_sign();
    let signature = sign(&step.message());
    let mut store = AnnotationStore::new();
    step.signed(SignOutcome::Signed(signature), &mut store).unwrap();
    assert_eq!(claimable(&store, &CONTRIBUTOR), Ok(vec![COMMIT]));
    assert_eq!(claimable(&store, &signer()), Ok(vec![]));
    let proof = claim(&store, &CONTRIBUTOR, Some(0)).unwrap().unwrap();
    assert_eq!(proof.contributor(), CONTRIBUTOR);
    assert_eq!(proof.signature(), signature);
}

#[test]
fn creating_again_overwrites_the_note() {
    let mut store = AnnotationStore::new();
    store.attach(COMMIT, b"an earlier note").unwrap();
    let step = ready_to_sign();
    let signature = sign(&step.message());
    step.signed(SignOutcome::Signed(signature), &mut store).unwrap();
    assert_eq!(store.len(), 1);
    assert!(Proof::decode(store.read(&COMMIT).unwrap()).is_ok());
}

#[test]
fn failed_signing_writes_nothing() {
    let mut store = AnnotationStore::new();
    store.attach(COMMIT, b"an earlier note").unwrap();
    let failed = ready_to_sign().signed(SignOutcome::Failed, &mut store).unwrap_err();
    assert_eq!(failed, Error::SignFailure);
    assert_eq!(store.len(), 1);
    assert_eq!(store.read(&COMMIT), Some(&b"an earlier note"[..]));
}

#[test]
fn signature_of_someone_else_writes_nothing() {
    let mut store = AnnotationStore::new();
    let step = create(&options())
        .unwrap()
        .located(Lookup::Found)
        .unwrap()
        .opened(WalletOutcome::Opened(Address([0x77; 20])))
        .unwrap();
    let signature = sign(&step.message());
    let failed = step.signed(SignOutcome::Signed(signature), &mut store).unwrap_err();
    assert_eq!(failed, Error::ETHSigFailed);
    assert_eq!(store.len(), 0);
}

#[test]
fn signature_over_other_bytes_writes_nothing() {
    let mut store = AnnotationStore::new();
    let step = ready_to_sign();
    let signature = sign(b"something else");
    assert_eq!(
        step.signed(SignOutcome::Signed(signature), &mut store).unwrap_err(),
        Error::ETHSigFailed
    );
    assert_eq!(store.len(), 0);
}
