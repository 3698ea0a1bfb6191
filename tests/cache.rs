use vault_client::auth::Auth;
use vault_client::cache::{same_text, AuthCache};
use vault_client::error::Error;
use vault_client::lease::Duration;

#[test]
fn empty_cache_is_not_logged() {
    let cache = AuthCache::new();
    assert!(cache.get("app").is_none());
    assert!(!cache.is_logged("app"));
    assert_eq!(cache.token("app").unwrap_err(), Error::NotLogged);
}

#[test]
fn insert_replaces_the_role_entry() {
    let mut cache = AuthCache::new();
    cache.insert("app", Auth::new("t1", None));
    cache.insert("db", Auth::new("t2", None));
    cache.insert("app", Auth::new("t3", None));
    assert_eq!(cache.entries.len(), 2);
    assert_eq!(cache.token("app").unwrap(), "t3");
    assert_eq!(cache.token("db").unwrap(), "t2");
    assert!(cache.is_logged("app"));
}

#[test]
fn logged_only_while_usable() {
    let mut cache = AuthCache::new();
    cache.insert("app", Auth::new_at("t", Some(Duration::from_secs(3)), 0));
    cache.insert("empty", Auth::new("", None));
    assert!(cache.is_logged_at("app", 1));
    assert!(!cache.is_logged_at("app", 2_000_000_001));
    assert!(!cache.is_logged("empty"));
}

#[test]
fn same_text_compares_characters() {
    assert!(same_text("abc", "abc"));
    assert!(!same_text("abc", "abd"));
    assert!(!same_text("ab", "abc"));
}
