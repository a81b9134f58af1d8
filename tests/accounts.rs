use chat_auth::accounts::login_answer;
use chat_auth::hasher::CryptoError;
use chat_auth::models::error::{Error, LoginError, RegisterError, UserError};
use chat_auth::session::verify_login_token;
use chat_auth::store::Store;

#[test]
fn register_login_authenticate_end_to_end() {
    let mut store = Store::new();
    let first = store.register("alice", "pw1").unwrap();
    let alice = verify_login_token(&mut store, &first.access_token).unwrap().sub;
    let t = store.login("alice", "pw1").unwrap();
    let claims = verify_login_token(&mut store, &t.access_token).unwrap();
    assert_eq!(claims.sub, alice);
    assert!(verify_login_token(&mut store, "garbage").is_err());
    assert_eq!(store.login("alice", "wrong"), Err(LoginError::Unauthorized));
}

#[test]
fn registering_a_taken_name_conflicts() {
    let mut store = Store::new();
    assert!(store.register("bob", "a").is_ok());
    assert_eq!(store.register("bob", "b"), Err(RegisterError::Conflict));
    assert!(store.login("bob", "a").is_ok());
    assert_eq!(store.login("bob", "b"), Err(LoginError::Unauthorized));
}

#[test]
fn usernames_are_case_sensitive() {
    let mut store = Store::new();
    assert!(store.register("Carol", "x").is_ok());
    assert!(store.register("carol", "y").is_ok());
    assert!(store.login("carol", "y").is_ok());
    assert_eq!(store.login("carol", "x"), Err(LoginError::Unauthorized));
}

#[test]
fn unknown_user_is_unauthorized() {
    let mut store = Store::new();
    assert_eq!(store.login("nobody", "pw"), Err(LoginError::Unauthorized));
}

#[test]
fn registered_accounts_get_distinct_ids() {
    let mut store = Store::new();
    let a = store.register("a", "1").unwrap();
    let b = store.register("b", "1").unwrap();
    let ida = verify_login_token(&mut store, &a.access_token).unwrap().sub;
    let idb = verify_login_token(&mut store, &b.access_token).unwrap().sub;
    assert_ne!(ida, idb);
}

#[test]
fn error_messages_and_statuses() {
    assert_eq!(LoginError::Unauthorized.status(), 401);
    assert_eq!(LoginError::Unauthorized.message(), "Invalid credentials");
    assert_eq!(LoginError::InternalServerError.status(), 500);
    assert_eq!(RegisterError::Conflict.status(), 409);
    assert_eq!(RegisterError::Conflict.message(), "User already exists");
    assert_eq!(UserError::Unauthorized.message(), "Incorrect access token");
    assert_eq!(UserError::InternalServerError.status(), 500);
}

#[test]
fn usernames_longer_than_32_characters_are_refused() {
    let mut store = Store::new();
    let longest = "a".repeat(32);
    assert!(store.register(&longest, "pw").is_ok());
    let too_long = "b".repeat(33);
    assert_eq!(store.register(&too_long, "pw"), Err(RegisterError::InternalServerError));
    assert_eq!(store.login(&too_long, "pw"), Err(LoginError::Unauthorized));
    let wide = "é".repeat(32);
    assert!(store.register(&wide, "pw").is_ok());
}

#[test]
fn login_answer_maps_each_check_outcome() {
    assert_eq!(login_answer(Ok(true)), Ok(()));
    assert_eq!(login_answer(Ok(false)), Err(LoginError::Unauthorized));
    assert_eq!(login_answer(Err(CryptoError::InternalError)), Err(LoginError::InternalServerError));
}
