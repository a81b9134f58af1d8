use chat_auth::models::permissions::Permissions;
use chat_auth::session::{
    generate_token, has_token_shape, hex_encode, issue_session, verify_login_token,
    verify_token_at, TokenGenerateError, TokenVerificationError, SESSION_LIFETIME,
};
use chat_auth::store::Store;

fn perms() -> Permissions {
    Permissions::new(false, true, true, true, true, true, true, true, true, true, true, true)
}

#[test]
fn hex_encode_writes_two_lowercase_digits_per_byte() {
    assert_eq!(hex_encode(&[0x00, 0x0f, 0xa5, 0xff]), b"000fa5ff".to_vec());
    assert_eq!(hex_encode(&[]), Vec::<u8>::new());
}

#[test]
fn token_shape_is_64_lowercase_hex_digits() {
    assert!(has_token_shape(&[b'a'; 64]));
    assert!(!has_token_shape(&[b'a'; 63]));
    assert!(!has_token_shape(&[b'A'; 64]));
    assert!(!has_token_shape(&[b'g'; 64]));
}

#[test]
fn issued_token_verifies_until_expiry() {
    let mut store = Store::new();
    let random = [0xabu8; 32];
    let token = issue_session(&mut store, 5, perms(), 1000, &random).unwrap();
    assert_eq!(token.access_token, "ab".repeat(32));
    let claims = verify_token_at(&mut store, &token.access_token, 1000).unwrap();
    assert_eq!(claims.sub, 5);
    assert_eq!(claims.exp, 1000 + SESSION_LIFETIME);
    assert!(claims.perms.identify());
    assert!(!claims.perms.developer());
    assert!(verify_token_at(&mut store, &token.access_token, 1000 + SESSION_LIFETIME - 1).is_ok());
    assert_eq!(
        verify_token_at(&mut store, &token.access_token, 1000 + SESSION_LIFETIME),
        Err(TokenVerificationError::Unauthorized)
    );
}

#[test]
fn expired_session_is_deleted() {
    let mut store = Store::new();
    let random = [1u8; 32];
    let token = issue_session(&mut store, 5, perms(), 0, &random).unwrap();
    assert_eq!(
        verify_token_at(&mut store, &token.access_token, SESSION_LIFETIME),
        Err(TokenVerificationError::Unauthorized)
    );
    assert_eq!(store.find_session(token.access_token.as_bytes()), None);
    assert_eq!(
        verify_token_at(&mut store, &token.access_token, 0),
        Err(TokenVerificationError::Unauthorized)
    );
}

#[test]
fn malformed_and_unknown_tokens_are_unauthorized() {
    let mut store = Store::new();
    issue_session(&mut store, 1, perms(), 0, &[2u8; 32]).unwrap();
    assert_eq!(
        verify_token_at(&mut store, "garbage", 0),
        Err(TokenVerificationError::Unauthorized)
    );
    let unknown = "03".repeat(32);
    assert_eq!(
        verify_token_at(&mut store, &unknown, 0),
        Err(TokenVerificationError::Unauthorized)
    );
}

#[test]
fn issuing_refuses_bad_randomness_and_reused_tokens() {
    let mut store = Store::new();
    assert_eq!(
        issue_session(&mut store, 1, perms(), 0, &[2u8; 31]),
        Err(TokenGenerateError::InternalServerError)
    );
    issue_session(&mut store, 1, perms(), 0, &[2u8; 32]).unwrap();
    assert_eq!(
        issue_session(&mut store, 2, perms(), 0, &[2u8; 32]),
        Err(TokenGenerateError::InternalServerError)
    );
    assert_eq!(
        issue_session(&mut store, 2, perms(), i64::MAX, &[3u8; 32]),
        Err(TokenGenerateError::InternalServerError)
    );
}

#[test]
fn generated_token_verifies_now() {
    let mut store = Store::new();
    let token = generate_token(&mut store, 9).unwrap();
    assert_eq!(token.access_token.len(), 64);
    let claims = verify_login_token(&mut store, &token.access_token).unwrap();
    assert_eq!(claims.sub, 9);
    let other = generate_token(&mut store, 9).unwrap();
    assert_ne!(token.access_token, other.access_token);
    assert_eq!(
        verify_login_token(&mut store, "garbage"),
        Err(TokenVerificationError::Unauthorized)
    );
}

#[test]
fn malformed_token_is_unauthorized_before_the_clock() {
    let mut store = Store::new();
    assert_eq!(
        verify_login_token(&mut store, "garbage"),
        Err(TokenVerificationError::Unauthorized)
    );
    let unknown = "0f".repeat(32);
    assert_eq!(
        verify_login_token(&mut store, &unknown),
        Err(TokenVerificationError::Unauthorized)
    );
    assert_eq!(
        verify_login_token(&mut store, &"é".repeat(64)),
        Err(TokenVerificationError::Unauthorized)
    );
}
