use rad_reward::puzzle::{assemble_proof, build_puzzle, Proof, Puzzle};
use rad_reward::types::{Address, CommitId, Signature, U256};
use serde::ser::{SerializeStruct, Serializer};

fn written_by_serde(puzzle: &Puzzle, signature: Option<&Signature>) -> Vec<u8> {
    let mut out = Vec::new();
    let mut serializer = serde_json::Serializer::new(&mut out);
    let members = if signature.is_some() { 7 } else { 4 };
    let mut object = serializer.serialize_struct("Claim", members).unwrap();
    object.serialize_field("org", &ethers::types::Address::from(puzzle.org().0)).unwrap();
    object
        .serialize_field("contributor", &ethers::types::Address::from(puzzle.contributor().0))
        .unwrap();
    object.serialize_field("commit", std::str::from_utf8(puzzle.commit()).unwrap()).unwrap();
    object.serialize_field("project", std::str::from_utf8(puzzle.project()).unwrap()).unwrap();
    if let Some(signature) = signature {
        object.serialize_field("v", &signature.v).unwrap();
        object.serialize_field("r", &ethers::types::U256::from_big_endian(&signature.r.0)).unwrap();
        object.serialize_field("s", &ethers::types::U256::from_big_endian(&signature.s.0)).unwrap();
    }
    object.end().unwrap();
    out
}

fn scalar(seed: u8, significant: usize) -> U256 {
    let mut bytes = [0u8; 32];
    for (at, byte) in bytes.iter_mut().enumerate().skip(32 - significant) {
        *byte = seed.wrapping_mul(at as u8 + 1).wrapping_add(seed >> 3);
    }
    U256(bytes)
}

fn puzzles() -> Vec<Puzzle> {
    let mut all = Vec::new();
    for (seed, project) in [(0x00u8, ""), (0x01, "b"), (0x7f, "qb1ze3m1"), (0xff, "yyyyyyyy")] {
        let mut org = [seed; 20];
        org[0] = 0x0a;
        let mut contributor = [seed.wrapping_add(1); 20];
        contributor[19] = 0xf0;
        let commit = CommitId([seed ^ 0x5a; 20]);
        all.push(build_puzzle(Address(org), Address(contributor), &commit, project).unwrap());
    }
    all.push(
        build_puzzle(
            Address([0xde; 20]),
            Address([0xad; 20]),
            &CommitId([0xbe; 20]),
            "hnrkyghsrokxzxpy9pww69xr11dr9q7edbxfo",
        )
        .unwrap(),
    );
    all
}

fn signatures() -> Vec<Signature> {
    vec![
        Signature { v: 0, r: scalar(0, 0), s: scalar(0, 0) },
        Signature { v: 27, r: scalar(0x11, 32), s: scalar(0x23, 32) },
        Signature { v: 28, r: scalar(0x0f, 31), s: scalar(0xf0, 1) },
        Signature { v: 37, r: scalar(0x01, 16), s: scalar(0x80, 17) },
        Signature { v: u64::MAX, r: U256([0xff; 32]), s: scalar(0x07, 2) },
    ]
}

#[test]
fn puzzle_is_written_as_serde_writes_the_four_members() {
    for puzzle in puzzles() {
        assert_eq!(puzzle.serialize(), written_by_serde(&puzzle, None));
    }
}

#[test]
fn proof_is_written_as_serde_writes_the_seven_members() {
    for puzzle in puzzles() {
        for signature in signatures() {
            let expected = written_by_serde(&puzzle, Some(&signature));
            let proof = assemble_proof(puzzle.clone(), signature);
            assert_eq!(proof.serialize(), expected);
        }
    }
}

#[test]
fn what_serde_writes_is_read_back() {
    for puzzle in puzzles() {
        assert_eq!(Puzzle::decode(&written_by_serde(&puzzle, None)), Ok(puzzle.clone()));
        for signature in signatures() {
            let text = written_by_serde(&puzzle, Some(&signature));
            assert_eq!(Proof::decode(&text), Ok(assemble_proof(puzzle.clone(), signature)));
            assert_eq!(Puzzle::decode(&text), Ok(puzzle.clone()));
        }
    }
}

#[test]
fn outside_reader_finds_the_members_of_a_proof() {
    let puzzle = puzzles().remove(2);
    let signature = signatures().remove(1);
    let text = assemble_proof(puzzle.clone(), signature).serialize();
    let value: serde_json::Value = serde_json::from_slice(&text).unwrap();
    let r: ethers::types::U256 = serde_json::from_value(value["r"].clone()).unwrap();
    let s: ethers::types::U256 = serde_json::from_value(value["s"].clone()).unwrap();
    let org: ethers::types::Address = serde_json::from_value(value["org"].clone()).unwrap();
    assert_eq!(r, ethers::types::U256::from_big_endian(&signature.r.0));
    assert_eq!(s, ethers::types::U256::from_big_endian(&signature.s.0));
    assert_eq!(org.0, puzzle.org().0);
    assert_eq!(value["v"].as_u64(), Some(signature.v));
}
