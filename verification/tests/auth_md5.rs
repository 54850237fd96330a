//! MD5 authentication-helper tests against independently computed digests.

use gres::auth::{build_md5_hash, hex_lower};

#[test]
fn md5_hash_matches_known_value() {
    // md5("pu") = 534b9a3588bdd87bf7c3b9d650e43e46;
    // md5(that hex || AA BB CC DD) = 294fa294d81e899629510a5b0b4aee32
    let hash = build_md5_hash("u", "p", &[0xAA, 0xBB, 0xCC, 0xDD]);
    assert_eq!(hash, "md5294fa294d81e899629510a5b0b4aee32");
    assert_eq!(hash.len(), 35);
    assert!(hash.is_ascii());
}

#[test]
fn md5_hash_depends_on_salt() {
    let a = build_md5_hash("u", "p", &[0, 0, 0, 0]);
    let b = build_md5_hash("u", "p", &[0, 0, 0, 1]);
    assert_ne!(a, b);
    assert!(a.starts_with("md5"));
    assert!(b.starts_with("md5"));
}

#[test]
fn hex_encoding_is_lowercase_two_digits_per_byte() {
    assert_eq!(hex_lower(&[]), b"".to_vec());
    assert_eq!(hex_lower(&[0x00, 0x0F, 0xA5, 0xFF]), b"000fa5ff".to_vec());
}
