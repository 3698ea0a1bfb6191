use serde_json::Value;
use vault_client::lease::Duration;
use vault_client::secret::{secret_lease, Secret};

#[test]
fn without_lease_is_valid() {
    let secret = Secret::new(Value::String("secret".to_owned()), None);
    assert_eq!(secret.is_valid(), true)
}

#[test]
fn without_lease_needs_no_renew() {
    let secret = Secret::new(Value::String("secret".to_owned()), None);
    assert_eq!(secret.to_renew(), false)
}

#[test]
fn with_valid_lease_is_valid() {
    let secret = Secret::new(
        Value::String("secret".to_owned()),
        Some(Duration::from_secs(10)),
    );
    assert_eq!(secret.is_valid(), true)
}

#[test]
fn with_expired_lease_is_invalid() {
    let secret = Secret::new(
        Value::String("secret".to_owned()),
        Some(Duration::from_secs(0)),
    );
    assert_eq!(secret.is_valid(), false)
}

#[test]
fn has_lease_tells_zero_from_absent() {
    let none = Secret::new(Value::Null, None);
    let zero = Secret::new(Value::Null, Some(Duration::from_secs(0)));
    let some = Secret::new(Value::Null, Some(Duration::from_secs(3)));
    assert!(!none.has_lease());
    assert!(!zero.has_lease());
    assert!(some.has_lease());
    assert_eq!(some.duration(), Some(Duration::from_secs(3)));
    assert_eq!(some.renew_delay(), Some(Duration::from_secs(2)));
    assert_eq!(none.duration(), None);
}

#[test]
fn secrets_compare_by_value() {
    let a = Secret::new(Value::String("x".to_owned()), None);
    let b = Secret::new(Value::String("x".to_owned()), Some(Duration::from_secs(5)));
    let c = Secret::new(Value::String("y".to_owned()), None);
    assert!(a == b);
    assert!(a != c);
}

#[test]
fn secret_at_given_instants() {
    let s = Secret::new_at(Value::Bool(true), Some(Duration::from_secs(3)), 100);
    assert!(s.is_valid_at(100));
    assert!(!s.to_renew_at(100));
    assert!(s.to_renew_at(100 + 2_000_000_001));
    assert!(!s.is_valid_at(100 + 3_000_000_000));
}

#[test]
fn secret_lease_keeps_reported_duration() {
    assert_eq!(secret_lease(None), None);
    assert_eq!(secret_lease(Some(0)), None);
    assert_eq!(secret_lease(Some(3600)), Some(Duration::from_secs(3600)));
    assert_eq!(secret_lease(Some(1)), Some(Duration::from_secs(1)));
    let s = Secret::new(Value::Null, secret_lease(Some(1)));
    assert!(s.has_lease());
    assert!(s.is_valid());
    assert_eq!(s.renew_delay(), Some(Duration::from_nanos(666_666_666)));
}
