use chat_auth::authz::{can, can_change_role, can_remove_member, Action};
use chat_auth::models::channel::Error;
use chat_auth::models::member::UserRole;

#[test]
fn member_may_read_and_post_but_not_delete() {
    let m = Some(UserRole::Member);
    assert_eq!(can(m, Action::Read), Ok(()));
    assert_eq!(can(m, Action::Post), Ok(()));
    assert_eq!(can(m, Action::Delete), Err(Error::Forbidden));
    assert_eq!(can(m, Action::Update), Err(Error::Forbidden));
    assert_eq!(can(m, Action::ManageMembers), Err(Error::Forbidden));
}

#[test]
fn non_member_gets_not_found() {
    for a in [Action::Read, Action::Update, Action::Delete, Action::ManageMembers, Action::Post] {
        assert_eq!(can(None, a), Err(Error::NotFound));
    }
}

#[test]
fn admin_may_do_everything() {
    for a in [Action::Read, Action::Update, Action::Delete, Action::ManageMembers, Action::Post] {
        assert_eq!(can(Some(UserRole::Admin), a), Ok(()));
    }
}

#[test]
fn removal_rules() {
    let admin = Some(UserRole::Admin);
    let member = Some(UserRole::Member);
    assert_eq!(can_remove_member(member, true, member, false), Ok(()));
    assert_eq!(can_remove_member(admin, true, admin, false), Err(Error::Forbidden));
    assert_eq!(can_remove_member(admin, true, admin, true), Ok(()));
    assert_eq!(can_remove_member(member, false, member, true), Err(Error::Forbidden));
    assert_eq!(can_remove_member(admin, false, None, false), Err(Error::NotFound));
    assert_eq!(can_remove_member(None, false, member, true), Err(Error::NotFound));
}

#[test]
fn role_change_rules() {
    let admin = Some(UserRole::Admin);
    let member = Some(UserRole::Member);
    assert_eq!(can_change_role(member, member, admin, false, true), Err(Error::Forbidden));
    assert_eq!(can_change_role(admin, member, admin, false, false), Ok(()));
    assert_eq!(can_change_role(admin, admin, member, true, false), Err(Error::Forbidden));
    assert_eq!(can_change_role(admin, admin, member, true, true), Ok(()));
    assert_eq!(can_change_role(admin, None, member, false, true), Err(Error::NotFound));
}
