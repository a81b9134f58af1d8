//! Channel memberships: the role-bearing relation between an account and a
//! channel.
use vstd::prelude::*;

verus! {

/// The role an account holds in a channel.
#[derive(Clone, Copy, Debug, PartialEq, Eq, Structural)]
pub enum UserRole {
    Admin,
    Member,
}

/// One membership row: `user_id` belongs to `channel_id` with `role`.
#[derive(Clone, Copy, Debug, PartialEq, Eq, Structural)]
pub struct Member {
    pub user_id: u64,
    pub channel_id: u64,
    pub role: UserRole,
}

/// A change to an existing membership; `None` keeps the current role.
#[derive(Clone, Copy, Debug, PartialEq, Eq, Structural)]
pub struct Patch {
    pub role: Option<UserRole>,
}

/// A membership to add to a channel.
#[derive(Clone, Copy, Debug, PartialEq, Eq, Structural)]
pub struct Insert {
    pub user_id: u64,
    pub role: UserRole,
}

impl Member {
    /// The change that would give another membership this one's role.
    pub fn to_patch(&self) -> (r: Patch)
        ensures
            r.role == Some(self.role),
    {
        Patch { role: Some(self.role) }
    }

    /// The insertion that would recreate this membership in its channel.
    pub fn to_insert(&self) -> (r: Insert)
        ensures
            r.user_id == self.user_id,
            r.role == self.role,
    {
        Insert { user_id: self.user_id, role: self.role }
    }
}

} // verus!
