use librcast::hex::{format_hex32, parse_hex32};
use uuid::Uuid;

#[test]
fn parse_valid_identifier() {
    let parsed = parse_hex32("bc7866b8d9b0a99263a2020cd11355f8").unwrap();
    assert_eq!(parsed, 0xbc7866b8d9b0a99263a2020cd11355f8u128);
    let reference = Uuid::parse_str("bc7866b8d9b0a99263a2020cd11355f8").unwrap();
    assert_eq!(parsed, reference.as_u128());
}

#[test]
fn parse_accepts_uppercase_digits() {
    let parsed = parse_hex32("F1D6D14A72EB22FC70176DB9D345FB2E").unwrap();
    let reference = Uuid::parse_str("F1D6D14A72EB22FC70176DB9D345FB2E").unwrap();
    assert_eq!(parsed, reference.as_u128());
}

#[test]
fn parse_rejects_wrong_length_and_digits() {
    assert_eq!(None, parse_hex32(""));
    assert_eq!(None, parse_hex32("bc7866b8d9b0a99263a2020cd11355f"));
    assert_eq!(None, parse_hex32("bc7866b8d9b0a99263a2020cd11355f8a"));
    assert_eq!(None, parse_hex32("bc7866b8d9b0a99263a2020cd1135iii"));
    assert_eq!(None, parse_hex32("bc7866b8-d9b0-a992-63a2-020cd113"));
}

#[test]
fn identity_round_trips() {
    let s = "ca2e93348ea78c867c5ee00e3e3b588d";
    let v = parse_hex32(s).unwrap();
    assert_eq!(format_hex32(v), s);
    assert_eq!(parse_hex32(&format_hex32(v)), Some(v));
    assert_eq!(format_hex32(0), "00000000000000000000000000000000");
    assert_eq!(
        format_hex32(u128::MAX),
        "ffffffffffffffffffffffffffffffff"
    );
    assert_eq!(parse_hex32(&format_hex32(u128::MAX)), Some(u128::MAX));
}

#[test]
fn format_lowercases() {
    let v = parse_hex32("F1D6D14A72EB22FC70176DB9D345FB2E").unwrap();
    assert_eq!(format_hex32(v), "f1d6d14a72eb22fc70176db9d345fb2e");
}
