//! Plain data records exchanged with the request handlers and the store.
pub mod channel;
pub mod error;
pub mod login_request;
pub mod member;
pub mod message;
pub mod permissions;
pub mod token;
