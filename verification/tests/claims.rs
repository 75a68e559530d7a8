use rad_reward::claims::{claim, claimable};
use rad_reward::puzzle::{assemble_proof, build_puzzle, Proof};
use rad_reward::store::AnnotationStore;
use rad_reward::types::{Address, CommitId, Signature, U256};
use rad_reward::Error;

const SIGNER: Address = Address([0xaa; 20]);
const OTHER: Address = Address([0xbb; 20]);

fn commit(n: u8) -> CommitId {
    CommitId([n; 20])
}

fn proof_for(contributor: Address, n: u8) -> Proof {
    let puzzle = build_puzzle(Address([0x01; 20]), contributor, &commit(n), "qb1ze3m1").unwrap();
    let mut r = [0u8; 32];
    r[31] = n;
    assemble_proof(puzzle, Signature { v: 28, r: U256(r), s: U256([n; 32]) })
}

fn store_with_three() -> AnnotationStore {
    let mut store = AnnotationStore::new();
    store.attach(commit(1), &proof_for(SIGNER, 1).serialize()).unwrap();
    store.attach(commit(2), &proof_for(OTHER, 2).serialize()).unwrap();
    store.attach(commit(3), &proof_for(SIGNER, 3).serialize()).unwrap();
    store
}

#[test]
fn two_of_three_notes_are_selectable_for_the_signer() {
    let store = store_with_three();
    assert_eq!(claimable(&store, &SIGNER), Ok(vec![commit(1), commit(3)]));
    assert_eq!(claimable(&store, &OTHER), Ok(vec![commit(2)]));
}

#[test]
fn nobody_else_can_claim() {
    let store = store_with_three();
    assert_eq!(claimable(&store, &Address([0xcc; 20])), Ok(vec![]));
    assert_eq!(claim(&store, &Address([0xcc; 20]), Some(0)), Ok(None));
    assert_eq!(claimable(&AnnotationStore::new(), &SIGNER), Ok(vec![]));
}

#[test]
fn chosen_proof_is_returned_in_full() {
    let store = store_with_three();
    assert_eq!(claim(&store, &SIGNER, Some(0)), Ok(Some(proof_for(SIGNER, 1))));
    assert_eq!(claim(&store, &SIGNER, Some(1)), Ok(Some(proof_for(SIGNER, 3))));
    assert_eq!(claim(&store, &OTHER, Some(0)), Ok(Some(proof_for(OTHER, 2))));
}

#[test]
fn claimed_proof_names_the_signer() {
    let store = store_with_three();
    for signer in [SIGNER, OTHER] {
        let count = claimable(&store, &signer).unwrap().len();
        for choice in 0..count {
            let proof = claim(&store, &signer, Some(choice)).unwrap().unwrap();
            assert_eq!(proof.contributor(), signer);
        }
    }
}

#[test]
fn declining_is_no_failure() {
    let store = store_with_three();
    assert_eq!(claim(&store, &SIGNER, None), Ok(None));
}

#[test]
fn choice_beyond_the_list_claims_nothing() {
    let store = store_with_three();
    assert_eq!(claim(&store, &SIGNER, Some(2)), Ok(None));
    assert_eq!(claim(&store, &SIGNER, Some(usize::MAX)), Ok(None));
}

#[test]
fn one_malformed_note_fails_the_whole_claim() {
    let mut store = store_with_three();
    store.attach(commit(4), b"{\"org\":\"nobody\"}").unwrap();
    let wrong = Error::NotValidEncoding("puzzle".to_string());
    assert_eq!(claimable(&store, &SIGNER), Err(wrong.clone()));
    assert_eq!(claimable(&store, &OTHER), Err(wrong.clone()));
    assert_eq!(claim(&store, &SIGNER, Some(0)), Err(wrong.clone()));
    assert_eq!(claim(&store, &SIGNER, None), Err(wrong));
}

#[test]
fn note_with_a_bare_puzzle_is_listed_but_is_no_proof() {
    let mut store = AnnotationStore::new();
    let puzzle = build_puzzle(Address([0x01; 20]), SIGNER, &commit(7), "b").unwrap();
    store.attach(commit(7), &puzzle.serialize()).unwrap();
    assert_eq!(claimable(&store, &SIGNER), Ok(vec![commit(7)]));
    assert_eq!(claim(&store, &SIGNER, Some(0)), Err(Error::NotValidEncoding("proof".to_string())));
}

#[test]
fn overwritten_note_is_claimed_as_it_now_is() {
    let mut store = store_with_three();
    store.attach(commit(1), &proof_for(OTHER, 1).serialize()).unwrap();
    assert_eq!(claimable(&store, &SIGNER), Ok(vec![commit(3)]));
    assert_eq!(claimable(&store, &OTHER), Ok(vec![commit(1), commit(2)]));
}

#[test]
fn attached_proof_reads_back_equal() {
    let mut store = AnnotationStore::new();
    let proof = proof_for(SIGNER, 5);
    store.attach(commit(5), &proof.serialize()).unwrap();
    let payload = store.read(&commit(5)).unwrap();
    assert_eq!(Proof::decode(payload), Ok(proof));
}
