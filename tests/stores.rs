use postboard::auth::{default_admins, ConnectedAdministrator, ConnectedUser, ADMIN_ID};
use postboard::error::DbError;
use postboard::post::Post;
use postboard::session::decode_session;
use postboard::table::DbTable;
use postboard::user::UserDb;

fn user(id: u64, login: &str, name: Option<&str>) -> UserDb {
    UserDb {
        id,
        login: login.to_string(),
        avatar: None,
        name: name.map(|n| n.to_string()),
        liked_posts: Vec::new(),
    }
}

fn post(id: u64, likes: i32) -> Post {
    Post { id, author: 1, text: format!("post {id}"), image_path: None, likes }
}

fn author(id: u64) -> ConnectedUser {
    ConnectedUser::from_user(&user(id, "author", None))
}

fn admin() -> ConnectedAdministrator {
    let admins = default_admins();
    ConnectedAdministrator::escalate(author(ADMIN_ID), &admins).unwrap()
}

#[test]
fn create_twice_keeps_first_value() {
    let mut t: DbTable<u64> = DbTable::new("data/t.json".to_string());
    assert_eq!(t.create(5, 10), Ok(true));
    assert_eq!(t.create(5, 20), Ok(false));
    assert_eq!(t.get(5), Some(&10));
    assert_eq!(t.read().unwrap().len(), 1);
}

#[test]
fn contains_key_reports_presence() {
    let mut t: DbTable<u64> = DbTable::new("t.json".to_string());
    assert_eq!(t.contains_key(3), Ok(false));
    t.write(3, 9).unwrap();
    assert_eq!(t.contains_key(3), Ok(true));
    assert_eq!(t.get(4), None);
}

#[test]
fn write_replaces_value() {
    let mut t: DbTable<u64> = DbTable::new("t.json".to_string());
    t.write(1, 1).unwrap();
    t.write(1, 2).unwrap();
    assert_eq!(t.get(1), Some(&2));
    assert_eq!(t.read().unwrap().len(), 1);
}

#[test]
fn upsert_discards_earlier_fields() {
    let mut users: DbTable<UserDb> = DbTable::new("data/users.json".to_string());
    let mut first = user(7, "old", Some("Old Name"));
    first.avatar = Some("https://example.com/a.png".to_string());
    first.liked_posts = vec![1, 2];
    users.insert_user(first).unwrap();
    let second = user(7, "new", None);
    users.insert_user(second.clone()).unwrap();
    assert_eq!(users.get(7), Some(&second));
    assert_eq!(users.read().unwrap().len(), 1);
}

#[test]
fn save_then_load_reproduces_table() {
    let mut t: DbTable<UserDb> = DbTable::new("data/users.json".to_string());
    t.insert_user(user(1, "a", None)).unwrap();
    t.insert_user(user(2, "b", Some("Bee"))).unwrap();
    let saved = t.read().unwrap().clone();
    let loaded = DbTable::load("data/users.json".to_string(), Some(saved));
    assert_eq!(loaded.get(1), t.get(1));
    assert_eq!(loaded.get(2), t.get(2));
    assert_eq!(loaded.read().unwrap().len(), 2);
    assert_eq!(loaded.path(), "data/users.json");
}

#[test]
fn load_keeps_last_entry_for_a_key() {
    let t: DbTable<u64> = DbTable::load("t.json".to_string(), Some(vec![(1, 10), (2, 20), (1, 30)]));
    assert_eq!(t.get(1), Some(&30));
    assert_eq!(t.get(2), Some(&20));
    assert_eq!(t.read().unwrap().len(), 2);
}

#[test]
fn load_missing_or_malformed_is_empty() {
    let t: DbTable<Post> = DbTable::load("data/missing.json".to_string(), None);
    assert!(t.read().unwrap().is_empty());
    assert_eq!(t.contains_key(1), Ok(false));
    assert!(!t.is_poisoned());
}

#[test]
fn next_post_id_follows_maximum() {
    let mut posts: DbTable<Post> = DbTable::new("data/posts.json".to_string());
    assert_eq!(posts.next_post_id(), Ok(1));
    for id in [1, 3, 7] {
        posts.write(id, post(id, 0)).unwrap();
    }
    assert_eq!(posts.next_post_id(), Ok(8));
    let id = posts.create_post(&author(5), "hello".to_string(), None).unwrap();
    assert_eq!(id, 8);
    let stored = posts.get(8).unwrap();
    assert_eq!(stored.author, 5);
    assert_eq!(stored.text, "hello");
    assert_eq!(stored.likes, 0);
    assert_eq!(stored.image_path, None);
}

#[test]
fn create_post_in_empty_store_gets_one() {
    let mut posts: DbTable<Post> = DbTable::new("data/posts.json".to_string());
    let id = posts
        .create_post(&author(2), "first".to_string(), Some("image/1".to_string()))
        .unwrap();
    assert_eq!(id, 1);
    assert_eq!(posts.get(1).unwrap().image_path, Some("image/1".to_string()));
    assert_eq!(posts.get(1).unwrap().id, 1);
}

#[test]
fn like_counter_goes_below_zero() {
    let mut posts: DbTable<Post> = DbTable::new("data/posts.json".to_string());
    posts.write(4, post(4, 0)).unwrap();
    assert_eq!(posts.del_like(&author(1), 4), Ok(()));
    assert_eq!(posts.get(4).unwrap().likes, -1);
    assert_eq!(posts.add_like(&author(1), 4), Ok(()));
    assert_eq!(posts.add_like(&author(1), 4), Ok(()));
    assert_eq!(posts.get(4).unwrap().likes, 1);
}

#[test]
fn like_on_missing_post_does_nothing() {
    let mut posts: DbTable<Post> = DbTable::new("data/posts.json".to_string());
    posts.write(1, post(1, 3)).unwrap();
    assert_eq!(posts.add_like(&author(1), 2), Ok(()));
    assert_eq!(posts.get(1).unwrap().likes, 3);
    assert_eq!(posts.read().unwrap().len(), 1);
}

#[test]
fn upsert_then_resolve_falls_back_to_login() {
    let mut users: DbTable<UserDb> = DbTable::new("data/users.json".to_string());
    users.insert_user(user(42, "alice", None)).unwrap();
    let stored = users.get(42).unwrap();
    assert_eq!(stored.login, "alice");
    assert_eq!(stored.name, None);
    let principal = ConnectedUser::from_session(Some(42), &users).unwrap();
    assert_eq!(principal.id(), 42);
    assert_eq!(principal.name(), "alice");
    assert_eq!(principal.avatar(), None);
}

#[test]
fn resolve_prefers_display_name() {
    let mut users: DbTable<UserDb> = DbTable::new("data/users.json".to_string());
    let mut u = user(3, "bob", Some("Bob B."));
    u.avatar = Some("https://example.com/b.png".to_string());
    users.insert_user(u).unwrap();
    let principal = ConnectedUser::from_session(Some(3), &users).unwrap();
    assert_eq!(principal.name(), "Bob B.");
    assert_eq!(principal.avatar().map(|a| a.as_str()), Some("https://example.com/b.png"));
}

#[test]
fn resolve_fails_without_session_or_user() {
    let mut users: DbTable<UserDb> = DbTable::new("data/users.json".to_string());
    users.insert_user(user(42, "alice", None)).unwrap();
    assert!(ConnectedUser::from_session(None, &users).is_none());
    assert!(ConnectedUser::from_session(Some(43), &users).is_none());
}

#[test]
fn only_admin_id_escalates() {
    let admins = default_admins();
    let a = ConnectedAdministrator::escalate(author(ADMIN_ID), &admins).unwrap();
    assert_eq!(a.user().id(), 44269255);
    let other = ConnectedAdministrator::escalate(author(42), &admins).unwrap_err();
    assert_eq!(other.id(), 42);
    let custom = vec![1, 42];
    assert!(ConnectedAdministrator::escalate(author(42), &custom).is_ok());
    assert!(ConnectedAdministrator::escalate(author(ADMIN_ID), &custom).is_err());
}

#[test]
fn clear_empties_table() {
    let mut posts: DbTable<Post> = DbTable::new("data/posts.json".to_string());
    posts.write(1, post(1, 0)).unwrap();
    posts.write(2, post(2, 0)).unwrap();
    assert_eq!(posts.clear(&admin()), Ok(()));
    assert!(posts.read().unwrap().is_empty());
    assert_eq!(posts.next_post_id(), Ok(1));
}

#[test]
fn poisoned_table_refuses_access() {
    let mut posts: DbTable<Post> = DbTable::new("data/posts.json".to_string());
    posts.write(1, post(1, 0)).unwrap();
    posts.poison();
    assert!(posts.is_poisoned());
    assert_eq!(posts.read().err(), Some(DbError::Poisoned));
    assert_eq!(posts.get(1), None);
    assert_eq!(posts.contains_key(1), Err(DbError::Poisoned));
    assert_eq!(posts.create(2, post(2, 0)), Err(DbError::Poisoned));
    assert_eq!(posts.write(2, post(2, 0)), Err(DbError::Poisoned));
    assert_eq!(posts.add_like(&author(1), 1), Err(DbError::Poisoned));
    assert_eq!(posts.next_post_id(), Err(DbError::Poisoned));
    assert_eq!(posts.clear(&admin()), Err(DbError::Poisoned));
}

#[test]
fn session_tokens_decode_to_identifiers() {
    assert_eq!(decode_session("42"), Some(42));
    assert_eq!(decode_session("+7"), Some(7));
    assert_eq!(decode_session("0"), Some(0));
    assert_eq!(decode_session("007"), Some(7));
    assert_eq!(decode_session("18446744073709551615"), Some(u64::MAX));
    assert_eq!(decode_session("18446744073709551616"), None);
    assert_eq!(decode_session("99999999999999999999x"), None);
    assert_eq!(decode_session(""), None);
    assert_eq!(decode_session("+"), None);
    assert_eq!(decode_session("-1"), None);
    assert_eq!(decode_session("4a2"), None);
    assert_eq!(decode_session(" 42"), None);
}

#[test]
fn token_resolves_through_store() {
    let mut users: DbTable<UserDb> = DbTable::new("data/users.json".to_string());
    users.insert_user(user(42, "alice", None)).unwrap();
    let principal = ConnectedUser::from_token(Some("42"), &users).unwrap();
    assert_eq!(principal.id(), 42);
    assert_eq!(principal.name(), "alice");
    assert!(ConnectedUser::from_token(Some("forty-two"), &users).is_none());
    assert!(ConnectedUser::from_token(Some("41"), &users).is_none());
    assert!(ConnectedUser::from_token(None, &users).is_none());
}
