use board_engine::lockfile::LockfileDigest;

#[test]
fn checksum_decodes_colour_and_coordinates() {
    let d = LockfileDigest::from_checksum("000000ff20").unwrap();
    assert_eq!(d.colour.red, "00");
    assert_eq!(d.colour.green, "00");
    assert_eq!(d.colour.blue, "00");
    assert_eq!(d.top, 255);
    assert_eq!(d.left, 32);
}

#[test]
fn checksum_longer_than_ten_digits_uses_its_head() {
    let d = LockfileDigest::from_checksum(
        "2c71d1cd3b03e2b1bf4efe8231cbcb9d6a08923bf9d67a26a4b6002f2ad7ffee",
    )
    .unwrap();
    assert_eq!(d.colour.red, "2c");
    assert_eq!(d.colour.green, "71");
    assert_eq!(d.colour.blue, "d1");
    assert_eq!(d.top, 0xcd);
    assert_eq!(d.left, 0x3b);
}

#[test]
fn checksum_with_mixed_case_digits_is_accepted() {
    let d = LockfileDigest::from_checksum("Ff00Aa10eF").unwrap();
    assert_eq!(d.colour.red, "Ff");
    assert_eq!(d.colour.green, "00");
    assert_eq!(d.colour.blue, "Aa");
    assert_eq!(d.top, 0x10);
    assert_eq!(d.left, 0xef);
}

#[test]
fn checksum_with_a_non_hexadecimal_character_is_rejected() {
    assert!(LockfileDigest::from_checksum("z123456789").is_none());
    assert!(LockfileDigest::from_checksum("0123456789abcdefg").is_none());
    assert!(LockfileDigest::from_checksum("01234567-9").is_none());
    assert!(LockfileDigest::from_checksum("0123456789\u{1f36a}").is_none());
}

#[test]
fn checksum_shorter_than_ten_digits_is_rejected() {
    assert!(LockfileDigest::from_checksum("").is_none());
    assert!(LockfileDigest::from_checksum("012345678").is_none());
    assert!(LockfileDigest::from_checksum("ff00aa").is_none());
}
