//! The bearer token handed to a client after registration or login.
use vstd::prelude::*;

verus! {

/// A bearer token, presented verbatim on each request.
#[derive(Clone, Debug, PartialEq, Eq)]
pub struct Token {
    pub access_token: String,
}

impl Token {
    /// The scheme under which the token is presented.
    pub fn token_type(&self) -> (r: &'static str)
        ensures
            r@ == "BEARER"@,
    {
        "BEARER"
    }
}

} // verus!
