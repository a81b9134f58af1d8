//! Errors of registration, login and token authentication, with the
//! message and HTTP status that report each.
use vstd::prelude::*;

verus! {

/// An error that a request handler reports to the client.
pub trait Error {
    /// The human-readable message.
    fn message(&self) -> &'static str;

    /// The HTTP status code.
    fn status(&self) -> u16;
}

/// Why a login failed.
#[derive(Clone, Copy, Debug, PartialEq, Eq, Structural)]
pub enum LoginError {
    /// Storage or cryptographic failure unrelated to the request.
    InternalServerError,
    /// Unknown username or wrong password; the two are not told apart.
    Unauthorized,
}

/// Why a registration failed.
#[derive(Clone, Copy, Debug, PartialEq, Eq, Structural)]
pub enum RegisterError {
    /// Storage or cryptographic failure unrelated to the request.
    InternalServerError,
    /// The username is taken.
    Conflict,
}

/// Why a request carrying a token was refused.
#[derive(Clone, Copy, Debug, PartialEq, Eq, Structural)]
pub enum UserError {
    InternalServerError,
    Unauthorized,
}

/// Why a request could not be authenticated by its `Authorization` header.
#[derive(Clone, Copy, Debug, PartialEq, Eq, Structural)]
pub enum TokenLoginError {
    /// The header is absent.
    Missing,
    /// The header does not carry a live session's token.
    Invalid,
}

impl Error for LoginError {
    fn message(&self) -> (r: &'static str)
        ensures
            r@ == match self {
                LoginError::InternalServerError => "Internal Server Error"@,
                LoginError::Unauthorized => "Invalid credentials"@,
            },
    {
        match self {
            LoginError::InternalServerError => "Internal Server Error",
            LoginError::Unauthorized => "Invalid credentials",
        }
    }

    fn status(&self) -> (r: u16)
        ensures
            r == match self {
                LoginError::InternalServerError => 500u16,
                LoginError::Unauthorized => 401u16,
            },
    {
        match self {
            LoginError::InternalServerError => 500,
            LoginError::Unauthorized => 401,
        }
    }
}

impl Error for RegisterError {
    fn message(&self) -> (r: &'static str)
        ensures
            r@ == match self {
                RegisterError::InternalServerError => "Internal Server Error"@,
                RegisterError::Conflict => "User already exists"@,
            },
    {
        match self {
            RegisterError::InternalServerError => "Internal Server Error",
            RegisterError::Conflict => "User already exists",
        }
    }

    fn status(&self) -> (r: u16)
        ensures
            r == match self {
                RegisterError::InternalServerError => 500u16,
                RegisterError::Conflict => 409u16,
            },
    {
        match self {
            RegisterError::InternalServerError => 500,
            RegisterError::Conflict => 409,
        }
    }
}

impl Error for UserError {
    fn message(&self) -> (r: &'static str)
        ensures
            r@ == match self {
                UserError::InternalServerError => "Could not login"@,
                UserError::Unauthorized => "Incorrect access token"@,
            },
    {
        match self {
            UserError::InternalServerError => "Could not login",
            UserError::Unauthorized => "Incorrect access token",
        }
    }

    fn status(&self) -> (r: u16)
        ensures
            r == match self {
                UserError::InternalServerError => 500u16,
                UserError::Unauthorized => 401u16,
            },
    {
        match self {
            UserError::InternalServerError => 500,
            UserError::Unauthorized => 401,
        }
    }
}

} // verus!
