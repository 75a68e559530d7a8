use rad_reward::store::{AnnotationStore, NOTES_REF};
use rad_reward::types::{CommitId, NoteId};

fn commit(n: u8) -> CommitId {
    CommitId([n; 20])
}

fn id_of(hex_text: &str) -> NoteId {
    let mut bytes = [0u8; 20];
    bytes.copy_from_slice(&hex::decode(hex_text).unwrap());
    NoteId(bytes)
}

#[test]
fn new_store_is_empty() {
    let store = AnnotationStore::new();
    assert_eq!(store.len(), 0);
    assert!(store.list().is_empty());
    assert_eq!(store.read(&commit(1)), None);
    assert!(!store.has_note(&commit(1)));
    assert_eq!(store.note_id(&commit(1)), None);
}

#[test]
fn note_identifier_is_the_blob_hash_of_git() {
    let mut store = AnnotationStore::new();
    assert_eq!(
        store.attach(commit(1), b"hello world\n"),
        Ok(id_of("3b18e512dba79e4c8300dd08aeb37f8e728b8dad"))
    );
    assert_eq!(store.attach(commit(2), b""), Ok(id_of("e69de29bb2d1d6434b8b29ae775ad8c2e48c5391")));
    assert_eq!(store.note_id(&commit(1)), Some(id_of("3b18e512dba79e4c8300dd08aeb37f8e728b8dad")));
}

#[test]
fn attached_payload_is_read_back() {
    let mut store = AnnotationStore::new();
    store.attach(commit(1), b"first").unwrap();
    store.attach(commit(2), b"second").unwrap();
    assert_eq!(store.read(&commit(1)), Some(&b"first"[..]));
    assert_eq!(store.read(&commit(2)), Some(&b"second"[..]));
    assert_eq!(store.read(&commit(3)), None);
    assert!(store.has_note(&commit(2)));
    assert_eq!(store.len(), 2);
}

#[test]
fn attaching_again_overwrites_in_place() {
    let mut store = AnnotationStore::new();
    let first = store.attach(commit(1), b"first").unwrap();
    let other = store.attach(commit(2), b"other").unwrap();
    let again = store.attach(commit(1), b"again").unwrap();
    assert_ne!(first, again);
    assert_eq!(store.len(), 2);
    assert_eq!(store.read(&commit(1)), Some(&b"again"[..]));
    assert_eq!(store.read(&commit(2)), Some(&b"other"[..]));
    assert_eq!(store.list(), vec![(commit(1), again), (commit(2), other)]);
}

#[test]
fn list_follows_the_order_of_first_attachment() {
    let mut store = AnnotationStore::new();
    let c = store.attach(commit(3), b"c").unwrap();
    let a = store.attach(commit(1), b"a").unwrap();
    let b = store.attach(commit(2), b"b").unwrap();
    assert_eq!(store.list(), vec![(commit(3), c), (commit(1), a), (commit(2), b)]);
    assert_eq!(store.get(1).commit, commit(1));
    assert_eq!(store.get(1).id, a);
    assert_eq!(store.get(1).payload, b"a");
}

#[test]
fn same_payload_on_two_commits_has_one_identifier() {
    let mut store = AnnotationStore::new();
    let one = store.attach(commit(1), b"same").unwrap();
    let two = store.attach(commit(2), b"same").unwrap();
    assert_eq!(one, two);
    assert!(one.same(&two));
    assert_eq!(store.len(), 2);
}

#[test]
fn put_keeps_the_identifier_it_is_given() {
    let mut store = AnnotationStore::new();
    store.put(commit(1), NoteId([0x0f; 20]), b"first");
    store.put(commit(2), NoteId([0x0e; 20]), b"second");
    store.put(commit(1), NoteId([0x0d; 20]), b"again");
    assert_eq!(store.list(), vec![(commit(1), NoteId([0x0d; 20])), (commit(2), NoteId([0x0e; 20]))]);
    assert_eq!(store.read(&commit(1)), Some(&b"again"[..]));
    assert_eq!(store.note_id(&commit(2)), Some(NoteId([0x0e; 20])));
}

#[test]
fn claims_have_one_namespace() {
    assert_eq!(NOTES_REF, "refs/notes/radicle/rewards");
}
