use rad_reward::hexfmt::{check_field, digit_value, from_hex, to_field};
use rad_reward::numfmt::{from_decimal, from_quantity_digits, to_decimal, to_quantity};
use rad_reward::types::{Address, CommitId, NoteId, Signature, U256};

fn scalar(low: &[u8]) -> U256 {
    let mut bytes = [0u8; 32];
    bytes[32 - low.len()..].copy_from_slice(low);
    U256(bytes)
}

#[test]
fn field_of_short_data_is_padded_on_the_right() {
    assert_eq!(to_field(&[0x08]), b"0x08000000000000000000000000000000");
    assert_eq!(to_field(&[]), b"0x00000000000000000000000000000000");
    assert_eq!(to_field(&[0xde, 0xad, 0xbe, 0xef]), b"0xdeadbeef000000000000000000000000");
}

#[test]
fn field_of_sixteen_bytes_is_exactly_the_width() {
    let data: Vec<u8> = (0u8..16).collect();
    assert_eq!(to_field(&data), b"0x000102030405060708090a0b0c0d0e0f");
}

#[test]
fn field_of_wider_data_is_not_cut() {
    let data: Vec<u8> = (0u8..20).collect();
    assert_eq!(to_field(&data), b"0x000102030405060708090a0b0c0d0e0f10111213");
}

#[test]
fn hex_digits_are_lowercase_only() {
    assert_eq!(digit_value(b'0'), Some(0));
    assert_eq!(digit_value(b'9'), Some(9));
    assert_eq!(digit_value(b'a'), Some(10));
    assert_eq!(digit_value(b'f'), Some(15));
    assert_eq!(digit_value(b'g'), None);
    assert_eq!(digit_value(b'A'), None);
    assert_eq!(digit_value(b'/'), None);
    assert_eq!(digit_value(b':'), None);
    assert_eq!(digit_value(b'`'), None);
}

#[test]
fn from_hex_reads_pairs_of_digits() {
    assert_eq!(from_hex(b"00ff10"), Some(vec![0x00, 0xff, 0x10]));
    assert_eq!(from_hex(b""), Some(vec![]));
    assert_eq!(from_hex(b"abc"), None);
    assert_eq!(from_hex(b"0g"), None);
    assert_eq!(from_hex(b"FF"), None);
}

#[test]
fn from_hex_undoes_the_outside_encoder() {
    let data: Vec<u8> = (0u8..=255).collect();
    let text = hex::encode(&data);
    assert_eq!(from_hex(text.as_bytes()), Some(data));
}

#[test]
fn check_field_wants_prefix_and_width() {
    assert!(check_field(b"0x00000000000000000000000000000000"));
    assert!(check_field(b"0x9f3a1102c45d66078899aabbccddeeff00010203"));
    assert!(!check_field(b"0x0000000000000000000000000000000"));
    assert!(!check_field(b"0X00000000000000000000000000000000"));
    assert!(!check_field(b"1x00000000000000000000000000000000"));
    assert!(!check_field(b"0x0000000000000000000000000000000G"));
    assert!(!check_field(b""));
}

#[test]
fn commit_identifier_in_full_and_short() {
    let commit = CommitId([
        0x9f, 0x3a, 0x11, 0x02, 0xc4, 0x5d, 0x66, 0x07, 0x88, 0x99, 0xaa, 0xbb, 0xcc, 0xdd, 0xee,
        0xff, 0x00, 0x01, 0x02, 0x03,
    ]);
    assert_eq!(commit.to_hex(), b"9f3a1102c45d66078899aabbccddeeff00010203");
    assert_eq!(commit.short_id(), b"9f3a110");
    assert!(commit.same(&commit));
    assert!(!commit.same(&CommitId([0; 20])));
}

#[test]
fn decimal_text_has_no_leading_zeros() {
    assert_eq!(to_decimal(0), b"0");
    assert_eq!(to_decimal(7), b"7");
    assert_eq!(to_decimal(27), b"27");
    assert_eq!(to_decimal(100), b"100");
    assert_eq!(to_decimal(u64::MAX), b"18446744073709551615");
}

#[test]
fn decimal_text_reads_back() {
    assert_eq!(from_decimal(b"0"), Some(0));
    assert_eq!(from_decimal(b"28"), Some(28));
    assert_eq!(from_decimal(b"18446744073709551615"), Some(u64::MAX));
    assert_eq!(from_decimal(b"18446744073709551616"), None);
    assert_eq!(from_decimal(b"99999999999999999999"), None);
    assert_eq!(from_decimal(b"2a"), None);
    assert_eq!(from_decimal(b"-1"), None);
    assert_eq!(from_decimal(b""), Some(0));
    assert_eq!(from_decimal(b"007"), Some(7));
}

#[test]
fn quantity_text_drops_leading_zeros() {
    assert_eq!(to_quantity(&scalar(&[])), b"0x0");
    assert_eq!(to_quantity(&scalar(&[0x01])), b"0x1");
    assert_eq!(to_quantity(&scalar(&[0x10])), b"0x10");
    assert_eq!(to_quantity(&scalar(&[0x0a, 0xbc])), b"0xabc");
    assert_eq!(
        to_quantity(&U256([0xff; 32])),
        b"0xffffffffffffffffffffffffffffffffffffffffffffffffffffffffffffffff"
    );
}

#[test]
fn quantity_text_is_what_the_outside_type_writes() {
    let values: [&[u8]; 5] = [&[], &[0x01], &[0x10], &[0x0a, 0xbc], &[0xff; 32]];
    for low in values {
        let ours = scalar(low);
        let theirs = ethers::types::U256::from_big_endian(&ours.0);
        let written = serde_json::to_string(&theirs).unwrap();
        let text = String::from_utf8(to_quantity(&ours)).unwrap();
        assert_eq!(format!("\"{}\"", text), written);
    }
}

#[test]
fn quantity_digits_read_back() {
    assert_eq!(from_quantity_digits(b"0"), Some(scalar(&[])));
    assert_eq!(from_quantity_digits(b"abc"), Some(scalar(&[0x0a, 0xbc])));
    assert_eq!(from_quantity_digits(b"00abc"), Some(scalar(&[0x0a, 0xbc])));
    assert_eq!(from_quantity_digits(&[b'f'; 64]), Some(U256([0xff; 32])));
    assert_eq!(from_quantity_digits(&[b'f'; 65]), None);
    assert_eq!(from_quantity_digits(b""), None);
    assert_eq!(from_quantity_digits(b"xyz"), None);
}

#[test]
fn values_are_the_same_exactly_when_their_bytes_are() {
    assert!(Address([0x11; 20]).same(&Address([0x11; 20])));
    assert!(!Address([0x11; 20]).same(&Address([0x12; 20])));
    let mut last = [0x11; 20];
    last[19] = 0x10;
    assert!(!Address([0x11; 20]).same(&Address(last)));
    assert!(NoteId([0x01; 20]).same(&NoteId([0x01; 20])));
    assert!(!NoteId([0x01; 20]).same(&NoteId(last)));
    assert!(scalar(&[0x01]).same(&scalar(&[0x00, 0x01])));
    assert!(!scalar(&[0x01]).same(&scalar(&[0x01, 0x00])));
    let signature = Signature { v: 27, r: scalar(&[0x01]), s: scalar(&[0x02]) };
    assert!(signature.same(&signature));
    assert!(!signature.same(&Signature { v: 28, ..signature }));
    assert!(!signature.same(&Signature { r: scalar(&[0x03]), ..signature }));
    assert!(!signature.same(&Signature { s: scalar(&[0x03]), ..signature }));
}
