use chat_auth::authz::Action;
use chat_auth::models::channel::{self, Error};
use chat_auth::models::member::{self, UserRole};
use chat_auth::models::message;
use chat_auth::session::verify_login_token;
use chat_auth::store::Store;

fn account(store: &mut Store, name: &str) -> u64 {
    let t = store.register(name, "pw").unwrap();
    verify_login_token(store, &t.access_token).unwrap().sub
}

fn named(name: &str) -> channel::Insert {
    channel::Insert { name: name.to_string() }
}

#[test]
fn creator_admin_adds_member_who_cannot_manage() {
    let mut store = Store::new();
    let alice = account(&mut store, "alice");
    let bob = account(&mut store, "bob");
    let c = store.create_channel(alice, named("general")).unwrap();
    let added = store
        .add_channel_member(alice, c.id, member::Insert { user_id: bob, role: UserRole::Member })
        .unwrap();
    assert_eq!(added.role, UserRole::Member);
    assert_eq!(store.authorize(bob, c.id, Action::ManageMembers), Err(Error::Forbidden));
    assert_eq!(store.authorize(alice, c.id, Action::ManageMembers), Ok(()));
    assert_eq!(store.authorize(bob, c.id, Action::Read), Ok(()));
    assert_eq!(store.authorize(bob, c.id, Action::Post), Ok(()));
    assert_eq!(store.authorize(bob, c.id, Action::Delete), Err(Error::Forbidden));
}

#[test]
fn non_member_sees_not_found() {
    let mut store = Store::new();
    let alice = account(&mut store, "alice");
    let eve = account(&mut store, "eve");
    let c = store.create_channel(alice, named("secret")).unwrap();
    assert_eq!(store.authorize(eve, c.id, Action::Read), Err(Error::NotFound));
    assert_eq!(store.get_channel_by_id(eve, c.id), Err(Error::NotFound));
    assert_eq!(store.get_channel_by_id(eve, 12345), Err(Error::NotFound));
    assert_eq!(store.get_channel_by_id(alice, c.id), Ok(c.clone()));
}

#[test]
fn patch_and_remove_channel_need_admin() {
    let mut store = Store::new();
    let alice = account(&mut store, "alice");
    let bob = account(&mut store, "bob");
    let c = store.create_channel(alice, named("old")).unwrap();
    store
        .add_channel_member(alice, c.id, member::Insert { user_id: bob, role: UserRole::Member })
        .unwrap();
    let rename = channel::Patch { name: Some("new".to_string()) };
    assert_eq!(store.patch_channel_by_id(bob, c.id, rename.clone()), Err(Error::Forbidden));
    let renamed = store.patch_channel_by_id(alice, c.id, rename).unwrap();
    assert_eq!(renamed.name, "new");
    let kept = store.patch_channel_by_id(alice, c.id, channel::Patch { name: None }).unwrap();
    assert_eq!(kept.name, "new");
    assert_eq!(store.remove_channel_by_id(bob, c.id), Err(Error::Forbidden));
    assert_eq!(store.remove_channel_by_id(alice, c.id).unwrap().id, c.id);
    assert_eq!(store.get_channel_by_id(alice, c.id), Err(Error::NotFound));
    assert_eq!(store.authorize(bob, c.id, Action::Read), Err(Error::NotFound));
}

#[test]
fn membership_rules() {
    let mut store = Store::new();
    let alice = account(&mut store, "alice");
    let bob = account(&mut store, "bob");
    let carol = account(&mut store, "carol");
    let c = store.create_channel(alice, named("room")).unwrap();
    let as_member = |id| member::Insert { user_id: id, role: UserRole::Member };
    assert_eq!(
        store.add_channel_member(alice, c.id, member::Insert { user_id: 999, role: UserRole::Member }),
        Err(Error::NotFound)
    );
    store.add_channel_member(alice, c.id, as_member(bob)).unwrap();
    assert_eq!(store.add_channel_member(alice, c.id, as_member(bob)), Err(Error::Conflict));
    assert_eq!(store.add_channel_member(bob, c.id, as_member(carol)), Err(Error::Forbidden));
    let promote = member::Patch { role: Some(UserRole::Admin) };
    assert_eq!(store.update_channel_member(bob, c.id, bob, promote), Err(Error::Forbidden));
    assert_eq!(store.get_channel_members(bob, c.id).unwrap().len(), 2);
    assert_eq!(store.get_channel_member(bob, c.id, alice).unwrap().role, UserRole::Admin);
    assert_eq!(store.get_channel_member(bob, c.id, carol), Err(Error::NotFound));
    assert_eq!(store.remove_channel_member(bob, c.id, alice), Err(Error::Forbidden));
    assert_eq!(store.remove_channel_member(alice, c.id, alice), Err(Error::Forbidden));
    let demote = member::Patch { role: Some(UserRole::Member) };
    assert_eq!(store.update_channel_member(alice, c.id, alice, demote), Err(Error::Forbidden));
    assert_eq!(store.remove_channel_member(bob, c.id, bob).unwrap().user_id, bob);
    assert_eq!(store.authorize(bob, c.id, Action::Read), Err(Error::NotFound));
}

#[test]
fn admin_may_leave_once_another_admin_exists() {
    let mut store = Store::new();
    let alice = account(&mut store, "alice");
    let bob = account(&mut store, "bob");
    let c = store.create_channel(alice, named("room")).unwrap();
    store
        .add_channel_member(alice, c.id, member::Insert { user_id: bob, role: UserRole::Member })
        .unwrap();
    let promoted = store
        .update_channel_member(alice, c.id, bob, member::Patch { role: Some(UserRole::Admin) })
        .unwrap();
    assert_eq!(promoted.role, UserRole::Admin);
    assert_eq!(store.remove_channel_member(alice, c.id, alice).unwrap().role, UserRole::Admin);
    assert_eq!(store.authorize(bob, c.id, Action::ManageMembers), Ok(()));
    assert_eq!(store.remove_channel_member(bob, c.id, bob), Err(Error::Forbidden));
}

#[test]
fn messages_are_posted_and_listed_by_members() {
    let mut store = Store::new();
    let alice = account(&mut store, "alice");
    let eve = account(&mut store, "eve");
    let c = store.create_channel(alice, named("room")).unwrap();
    let m = store
        .create_channel_message(alice, c.id, message::Insert { content: "hi".to_string() })
        .unwrap();
    assert_eq!(m.content, "hi");
    assert_eq!(m.user_id, alice);
    assert_eq!(store.get_channel_message(alice, c.id, m.id), Ok(m.clone()));
    assert_eq!(store.get_channel_message(alice, c.id, m.id + 100), Err(Error::NotFound));
    assert_eq!(
        store.create_channel_message(eve, c.id, message::Insert { content: "x".to_string() }),
        Err(Error::NotFound)
    );
    assert_eq!(store.get_channel_messages(eve, c.id), Err(Error::NotFound));
    assert_eq!(store.get_channel_messages(alice, c.id).unwrap(), vec![m]);
}

#[test]
fn message_listing_stops_at_a_page() {
    let mut store = Store::new();
    let alice = account(&mut store, "alice");
    let c = store.create_channel(alice, named("busy")).unwrap();
    let other = store.create_channel(alice, named("quiet")).unwrap();
    for i in 0..60 {
        store
            .create_channel_message(alice, c.id, message::Insert { content: format!("{}", i) })
            .unwrap();
    }
    store
        .create_channel_message(alice, other.id, message::Insert { content: "o".to_string() })
        .unwrap();
    let page = store.get_channel_messages(alice, c.id).unwrap();
    assert_eq!(page.len(), 50);
    assert_eq!(page[0].content, "0");
    assert_eq!(page[49].content, "49");
    assert_eq!(store.get_channel_messages(alice, other.id).unwrap().len(), 1);
}

#[test]
fn errors_map_to_statuses() {
    assert_eq!(Error::NotFound.status(), 404);
    assert_eq!(Error::Forbidden.status(), 403);
    assert_eq!(Error::Unauthorized.status(), 401);
    assert_eq!(Error::Conflict.status(), 409);
    assert_eq!(Error::InternalServerError.status(), 500);
}
