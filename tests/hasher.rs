use chat_auth::hasher::{
    check_digest, hash_password, verify_password, Credential, CryptoError, DIGEST_SIZE, SALT_SIZE,
};

const ZERO_SALT_ABC_DIGEST: [u8; 32] = [
    39, 126, 127, 246, 210, 50, 185, 118, 63, 74, 102, 232, 208, 93, 33, 13, 163, 45, 172, 156,
    109, 188, 225, 2, 106, 212, 204, 152, 172, 181, 254, 254,
];

#[test]
fn hash_then_verify_accepts_the_same_password() {
    let c = hash_password(b"pw1").unwrap();
    assert_eq!(c.salt.len(), SALT_SIZE);
    assert_eq!(c.digest.len(), DIGEST_SIZE);
    assert_eq!(verify_password(&c.salt, b"pw1", &c.digest), Ok(true));
}

#[test]
fn verify_rejects_another_password() {
    let c = hash_password(b"pw1").unwrap();
    assert_eq!(verify_password(&c.salt, b"pw2", &c.digest), Ok(false));
    assert_eq!(verify_password(&c.salt, b"", &c.digest), Ok(false));
}

#[test]
fn two_hashes_of_one_password_differ() {
    let a = hash_password(b"same").unwrap();
    let b = hash_password(b"same").unwrap();
    assert_ne!(a.salt, b.salt);
    assert_ne!(a.digest, b.digest);
}

#[test]
fn verify_uses_sha256_of_salt_then_password() {
    let salt = [0u8; 16];
    assert_eq!(verify_password(&salt, b"abc", &ZERO_SALT_ABC_DIGEST), Ok(true));
    assert_eq!(verify_password(&salt, b"abd", &ZERO_SALT_ABC_DIGEST), Ok(false));
}

#[test]
fn verify_reports_a_short_digest_as_internal_error() {
    let c = hash_password(b"pw").unwrap();
    assert_eq!(
        verify_password(&c.salt, b"pw", &c.digest[..31]),
        Err(CryptoError::InternalError)
    );
    assert_eq!(verify_password(&c.salt, b"pw", &[]), Err(CryptoError::InternalError));
}

#[test]
fn check_digest_compares_equal_lengths_only() {
    let a = [7u8; 32];
    let mut b = [7u8; 32];
    assert_eq!(check_digest(&a, &b), Ok(true));
    b[31] = 8;
    assert_eq!(check_digest(&a, &b), Ok(false));
    assert_eq!(check_digest(&a, &b[..16]), Err(CryptoError::InternalError));
}

#[test]
fn credential_bytes_round_trip() {
    let c = hash_password(b"pw").unwrap();
    let bytes = c.to_bytes();
    assert_eq!(bytes.len(), 48);
    assert_eq!(&bytes[..16], c.salt.as_slice());
    let back = Credential::from_bytes(&bytes).unwrap();
    assert_eq!(back, c);
}

#[test]
fn credential_from_bytes_rejects_wrong_length() {
    assert_eq!(Credential::from_bytes(&[0u8; 16]), Err(CryptoError::InternalError));
    assert_eq!(Credential::from_bytes(&[0u8; 49]), Err(CryptoError::InternalError));
}

#[test]
fn verify_reports_a_wrong_salt_length_as_internal_error() {
    let salt = [0u8; 16];
    assert_eq!(verify_password(&salt[..15], b"abc", &ZERO_SALT_ABC_DIGEST), Err(CryptoError::InternalError));
    assert_eq!(verify_password(&[0u8; 17], b"abc", &ZERO_SALT_ABC_DIGEST), Err(CryptoError::InternalError));
}
