use chat_auth::models::permissions::Permissions;

#[test]
fn new_sets_exactly_the_given_flags() {
    let p = Permissions::new(
        true, false, true, false, true, false, true, false, true, false, true, false,
    );
    assert!(p.developer());
    assert!(!p.identify());
    assert!(p.get_channels());
    assert!(!p.join_leave_channels());
    assert!(p.modify_create_delete_channels());
    assert!(!p.see_other_users());
    assert!(p.see_messages());
    assert!(!p.modify_create_delete_messages());
    assert!(p.add_members());
    assert!(!p.kick_members());
    assert!(p.ban_members());
    assert!(!p.modify_members());
}

#[test]
fn each_flag_is_independent() {
    let none = Permissions::new(
        false, false, false, false, false, false, false, false, false, false, false, false,
    );
    assert!(!none.developer() && !none.modify_members());
    let last = Permissions::new(
        false, false, false, false, false, false, false, false, false, false, false, true,
    );
    assert!(last.modify_members());
    assert!(!last.ban_members());
    assert!(!last.developer());
    assert_ne!(none, last);
}

#[test]
fn equal_flags_make_equal_masks() {
    let a = Permissions::new(false, true, true, true, true, true, true, true, true, true, true, true);
    let b = Permissions::new(false, true, true, true, true, true, true, true, true, true, true, true);
    assert_eq!(a, b);
}
