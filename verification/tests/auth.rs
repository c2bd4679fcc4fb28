use landgen::auth::{check_account, digest_hex, get_hash, to_decimal, Sha1Digest};

#[test]
fn decimal_rendering() {
    assert_eq!(to_decimal(0), "0");
    assert_eq!(to_decimal(7), "7");
    assert_eq!(to_decimal(32), "32");
    assert_eq!(to_decimal(65535), "65535");
}

#[test]
fn hex_rendering() {
    let mut bytes = [0u8; 20];
    bytes[0] = 0xda;
    bytes[1] = 0x39;
    bytes[19] = 0x0f;
    let d = Sha1Digest::new(bytes);
    assert_eq!(digest_hex(&d), "da3900000000000000000000000000000000000f");
}

#[test]
fn challenge_hash_matches_the_reference_digest() {
    // the digest of "saltAsaltBsecret32!hedgewars", computed independently
    let d = get_hash(32, "secret", "saltA", "saltB");
    assert_eq!(digest_hex(&d), "27d404f5665baeb95d1f71273788a5ed4c3f92e3");
    // swapping the salts changes the digest
    let d2 = get_hash(32, "secret", "saltB", "saltA");
    assert_eq!(digest_hex(&d2), "45e1db5b51417d39793ac49038508f587e8171f1");
}

#[test]
fn account_check_accepts_exactly_the_right_hash() {
    let accepted = check_account(
        "secret",
        1,
        0,
        32,
        "27d404f5665baeb95d1f71273788a5ed4c3f92e3",
        "saltA",
        "saltB",
    );
    let info = accepted.expect("the correct client hash is accepted");
    assert!(info.is_registered);
    assert!(info.is_admin);
    assert!(!info.is_contributor);
    assert_eq!(
        digest_hex(&info.server_hash),
        "45e1db5b51417d39793ac49038508f587e8171f1"
    );

    let rejected = check_account(
        "secret",
        1,
        0,
        32,
        "27d404f5665baeb95d1f71273788a5ed4c3f92e4",
        "saltA",
        "saltB",
    );
    assert!(rejected.is_none());
}
