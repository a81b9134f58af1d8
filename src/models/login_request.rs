//! Credentials presented by a client.
use vstd::prelude::*;

verus! {

/// The body of a login request.
#[derive(Clone, Copy, Debug, PartialEq, Eq)]
pub struct LoginRequest<'a> {
    pub username: &'a str,
    pub password: &'a str,
}

/// The body of a registration request.
#[derive(Clone, Copy, Debug, PartialEq, Eq)]
pub struct RegisterRequest<'a> {
    pub username: &'a str,
    pub password: &'a str,
}

} // verus!
