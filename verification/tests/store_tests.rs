use hel_core::error::DbError;
use hel_core::rows::NewUser;
use hel_core::store::Store;
use hel_core::types::UserGroup;

fn new_user(name: &str) -> NewUser {
    NewUser {
        username: name.to_string(),
        password: vec![1, 2, 3],
        salt: vec![4, 5, 6],
        group: UserGroup::User,
    }
}

#[test]
fn create_user_assigns_sequential_ids() {
    let mut s = Store::new();
    assert_eq!(s.create_user(new_user("alice")), Ok(0));
    assert_eq!(s.create_user(new_user("bob")), Ok(1));
    assert_eq!(s.users.len(), 2);
    assert_eq!(s.users[0].username, "alice");
    assert_eq!(s.users[1].id, 1);
}

#[test]
fn create_user_rejects_duplicate_up_to_case() {
    let mut s = Store::new();
    assert_eq!(s.create_user(new_user("Alice")), Ok(0));
    assert_eq!(s.create_user(new_user("ALICE")), Err(DbError::Conflict));
    assert_eq!(s.users.len(), 1);
}

#[test]
fn get_user_matches_case_insensitively() {
    // this fails if case folding were the identity: the stored and the
    // queried spelling differ in every character
    let mut s = Store::new();
    s.create_user(new_user("Alice")).unwrap();
    let u = s.get_user(&"aLICE".to_string()).unwrap();
    assert_eq!(u.username, "Alice");
    assert_eq!(u.group, UserGroup::User);
    assert_eq!(u.registered, 0);
}

#[test]
fn get_user_absent_is_not_found() {
    let s = Store::new();
    assert_eq!(s.get_user(&"nobody".to_string()), Err(DbError::NotFound));
}
