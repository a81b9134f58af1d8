//! Authentication and authorization core of a chat backend: password
//! hashing, account registration and login, opaque session tokens with
//! expiry, and the role-based access decisions for channels.
pub mod accounts;
pub mod authz;
pub mod chat;
pub mod hasher;
pub mod models;
pub mod seqs;
pub mod session;
pub mod store;
