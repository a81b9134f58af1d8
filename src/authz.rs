//! Authorization evaluator: the single decision table that says which
//! channel actions a membership role allows.
use vstd::prelude::*;

use crate::models::channel::Error;
use crate::models::member::UserRole;

verus! {

/// What a caller may attempt on a channel.
#[derive(Clone, Copy, Debug, PartialEq, Eq, Structural)]
pub enum Action {
    Read,
    Update,
    Delete,
    ManageMembers,
    Post,
}

/// Whether `role` allows `action`: an admin may do everything, a member may
/// only read and post.
pub open spec fn permits(role: UserRole, action: Action) -> bool {
    match role {
        UserRole::Admin => true,
        UserRole::Member => action == Action::Read || action == Action::Post,
    }
}

/// The decision for a caller whose membership in the channel is
/// `membership`: a non-member learns only that the channel is not found.
pub open spec fn decision(membership: Option<UserRole>, action: Action) -> Result<(), Error> {
    match membership {
        None => Err(Error::NotFound),
        Some(role) => if permits(role, action) {
            Ok(())
        } else {
            Err(Error::Forbidden)
        },
    }
}

/// Decides `action` for a caller with the given membership.
pub fn can(membership: Option<UserRole>, action: Action) -> (r: Result<(), Error>)
    ensures
        r == decision(membership, action),
{
    match membership {
        None => Err(Error::NotFound),
        Some(UserRole::Admin) => Ok(()),
        Some(UserRole::Member) => match action {
            Action::Read | Action::Post => Ok(()),
            _ => Err(Error::Forbidden),
        },
    }
}

/// The decision on removing `target`'s membership from a channel. Anyone
/// may leave, except the channel's last admin; removing someone else takes
/// the right to manage members.
pub open spec fn removal_decision(
    caller: Option<UserRole>,
    is_self: bool,
    target: Option<UserRole>,
    other_admin: bool,
) -> Result<(), Error> {
    match caller {
        None => Err(Error::NotFound),
        Some(role) => if is_self {
            if role == UserRole::Admin && !other_admin {
                Err(Error::Forbidden)
            } else {
                Ok(())
            }
        } else if !permits(role, Action::ManageMembers) {
            Err(Error::Forbidden)
        } else if target is None {
            Err(Error::NotFound)
        } else {
            Ok(())
        },
    }
}

/// Decides whether the caller may remove `target`'s membership. `is_self`
/// tells whether the target is the caller; `other_admin` whether the channel
/// has an admin besides the caller.
pub fn can_remove_member(
    caller: Option<UserRole>,
    is_self: bool,
    target: Option<UserRole>,
    other_admin: bool,
) -> (r: Result<(), Error>)
    ensures
        r == removal_decision(caller, is_self, target, other_admin),
{
    match caller {
        None => Err(Error::NotFound),
        Some(role) => {
            if is_self {
                if role == UserRole::Admin && !other_admin {
                    Err(Error::Forbidden)
                } else {
                    Ok(())
                }
            } else {
                match can(caller, Action::ManageMembers) {
                    Err(e) => Err(e),
                    Ok(()) => match target {
                        None => Err(Error::NotFound),
                        Some(_) => Ok(()),
                    },
                }
            }
        },
    }
}

/// The decision on changing `target`'s role to `new_role`. It takes the
/// right to manage members; the last admin of a channel cannot be demoted.
pub open spec fn role_change_decision(
    caller: Option<UserRole>,
    target: Option<UserRole>,
    new_role: Option<UserRole>,
    is_self: bool,
    other_admin: bool,
) -> Result<(), Error> {
    match decision(caller, Action::ManageMembers) {
        Err(e) => Err(e),
        Ok(()) => match target {
            None => Err(Error::NotFound),
            Some(t) => if t == UserRole::Admin && new_role == Some(UserRole::Member) && is_self
                && !other_admin {
                Err(Error::Forbidden)
            } else {
                Ok(())
            },
        },
    }
}

/// Decides whether the caller may change `target`'s role to `new_role`.
pub fn can_change_role(
    caller: Option<UserRole>,
    target: Option<UserRole>,
    new_role: Option<UserRole>,
    is_self: bool,
    other_admin: bool,
) -> (r: Result<(), Error>)
    ensures
        r == role_change_decision(caller, target, new_role, is_self, other_admin),
{
    match can(caller, Action::ManageMembers) {
        Err(e) => Err(e),
        Ok(()) => match target {
            None => Err(Error::NotFound),
            Some(t) => {
                if t == UserRole::Admin && new_role == Some(UserRole::Member) && is_self
                    && !other_admin {
                    Err(Error::Forbidden)
                } else {
                    Ok(())
                }
            },
        },
    }
}

/// A member may read and post in its channel, and is forbidden to delete it.
pub proof fn lemma_member_rights()
    ensures
        decision(Some(UserRole::Member), Action::Read) == Ok::<(), Error>(()),
        decision(Some(UserRole::Member), Action::Post) == Ok::<(), Error>(()),
        decision(Some(UserRole::Member), Action::Delete) == Err::<(), Error>(Error::Forbidden),
        decision(Some(UserRole::Member), Action::Update) == Err::<(), Error>(Error::Forbidden),
        decision(Some(UserRole::Member), Action::ManageMembers) == Err::<(), Error>(
            Error::Forbidden,
        ),
{
}

/// Whatever the action, a caller without a membership is told that the
/// channel is not found, never that it is forbidden.
pub proof fn lemma_non_member_not_found(action: Action)
    ensures
        decision(None, action) == Err::<(), Error>(Error::NotFound),
{
}

/// An admin may take every action on its channel.
pub proof fn lemma_admin_rights(action: Action)
    ensures
        decision(Some(UserRole::Admin), action) == Ok::<(), Error>(()),
{
}

} // verus!
