use vault_client::auth::{login_lease, Auth};
use vault_client::lease::{Duration, Lease};

#[test]
fn empty_token_is_invalid() {
    let auth = Auth::new("", None);
    assert_eq!(auth.is_valid(), false);
}

#[test]
fn empty_token_with_long_lease_is_invalid() {
    let auth = Auth::new("", Some(Duration::from_secs(1_000_000_000)));
    assert_eq!(auth.is_valid(), false);
    assert_eq!(auth.is_valid_at(0), false);
}

#[test]
fn token_without_lease_is_valid() {
    let auth = Auth::new("s.token", None);
    assert!(auth.is_valid());
    assert!(!auth.to_renew());
    assert!(auth.is_usable());
    assert_eq!(auth.client_token, "s.token");
    assert_eq!(auth.duration(), None);
    assert_eq!(auth.renew_delay(), None);
}

#[test]
fn token_with_lease_at_given_instants() {
    let auth = Auth::new_at("tok", Some(Duration::from_secs(30)), 1_000);
    assert_eq!(auth.duration(), Some(Duration::from_secs(30)));
    assert_eq!(auth.renew_delay(), Some(Duration::from_nanos(20_000_000_000)));
    assert!(auth.is_valid_at(1_000));
    assert!(!auth.to_renew_at(1_000));
    assert!(auth.is_usable_at(1_000));
    assert!(auth.to_renew_at(1_000 + 20_000_000_001));
    assert!(!auth.is_usable_at(1_000 + 20_000_000_001));
    assert!(auth.is_valid_at(1_000 + 29_999_999_999));
    assert!(!auth.is_valid_at(1_000 + 30_000_000_000));
}

#[test]
fn fresh_lease_is_valid_and_not_due() {
    let lease = Lease::new(Duration::from_secs(10));
    assert!(lease.is_valid());
    assert!(!lease.to_renew());
    assert_eq!(lease.renew_delay, Duration::from_nanos(6_666_666_666));
}

#[test]
fn zero_lease_is_never_valid() {
    let lease = Lease::new(Duration::from_secs(0));
    assert!(!lease.is_valid());
    assert!(!lease.to_renew());
    let old = Lease::new_at(5, Duration::from_nanos(0));
    assert!(!old.is_valid_at(0));
    assert!(!old.to_renew_at(u128::MAX));
}

#[test]
fn two_thirds_rounds_down() {
    assert_eq!(Duration::from_nanos(10).two_thirds(), Duration::from_nanos(6));
    assert_eq!(Duration::from_nanos(u128::MAX).two_thirds().as_nanos(), u128::MAX / 3 * 2);
    assert!(Duration::from_nanos(0).is_zero());
}

#[test]
fn login_lease_follows_renewable() {
    assert_eq!(login_lease(60, true), Some(Duration::from_secs(60)));
    assert_eq!(login_lease(60, false), None);
}
