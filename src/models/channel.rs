//! Channels and the errors of channel operations.
use vstd::prelude::*;

verus! {

/// A chat channel.
#[derive(Clone, Debug, PartialEq, Eq)]
pub struct Channel {
    pub id: u64,
    pub name: String,
}

/// A change to a channel; `None` keeps the current name.
#[derive(Clone, Debug, PartialEq, Eq)]
pub struct Patch {
    pub name: Option<String>,
}

/// A channel to create.
#[derive(Clone, Debug, PartialEq, Eq)]
pub struct Insert {
    pub name: String,
}

/// Why a channel operation was refused.
#[derive(Clone, Copy, Debug, PartialEq, Eq, Structural)]
pub enum Error {
    /// The channel, or the caller's membership in it, does not exist.
    NotFound,
    /// The caller presented no valid session.
    Unauthorized,
    /// The caller is a member but its role does not allow the action.
    Forbidden,
    /// The record to create already exists.
    Conflict,
    /// The store failed for a reason unrelated to the request.
    InternalServerError,
}

impl Channel {
    /// The change that would give another channel this one's name.
    pub fn to_patch(&self) -> (r: Patch)
        ensures
            r.name == Some(self.name),
    {
        Patch { name: Some(self.name.clone()) }
    }

    /// The insertion that would recreate this channel.
    pub fn to_insert(&self) -> (r: Insert)
        ensures
            r.name == self.name,
    {
        Insert { name: self.name.clone() }
    }
}

impl Error {
    /// The HTTP status code that reports this error.
    pub fn status(&self) -> (r: u16)
        ensures
            r == match self {
                Error::NotFound => 404u16,
                Error::Unauthorized => 401u16,
                Error::Forbidden => 403u16,
                Error::Conflict => 409u16,
                Error::InternalServerError => 500u16,
            },
    {
        match self {
            Error::NotFound => 404,
            Error::Unauthorized => 401,
            Error::Forbidden => 403,
            Error::Conflict => 409,
            Error::InternalServerError => 500,
        }
    }
}

} // verus!
