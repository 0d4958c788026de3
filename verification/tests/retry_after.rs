use relay_limits::rate_limit::{RateLimitScope, RetryAfter};
use relay_limits::project::{OrganizationId, ProjectId, ProjectKey};
use relay_limits::quota::{QuotaScope, Scoping};
use relay_limits::time::{Duration, Instant, MAX_INSTANT_NANOS};

#[test]
fn remaining_time_from_a_fixed_instant() {
    let start = Instant::from_nanos(1_000);
    let r = RetryAfter::from_secs_at(2, start);
    assert_eq!(r.when(), Instant::from_nanos(2_000_001_000));
    assert_eq!(r.remaining_at(start), Some(Duration::from_nanos(2_000_000_000)));
    assert_eq!(r.remaining_seconds_at(start), 2);
    // Part of a second rounds up.
    assert_eq!(r.remaining_seconds_at(Instant::from_nanos(1_001)), 2);
    assert_eq!(r.remaining_seconds_at(Instant::from_nanos(1_000_001_000)), 1);
    assert_eq!(r.remaining_seconds_at(Instant::from_nanos(2_000_000_999)), 1);
    assert!(!r.expired_at(Instant::from_nanos(2_000_000_999)));
    // Expired exactly at the instant and afterwards.
    assert_eq!(r.remaining_at(Instant::from_nanos(2_000_001_000)), None);
    assert_eq!(r.remaining_seconds_at(Instant::from_nanos(2_000_001_000)), 0);
    assert!(r.expired_at(Instant::from_nanos(2_000_001_000)));
    assert!(r.expired_at(Instant::from_nanos(MAX_INSTANT_NANOS)));
}

#[test]
fn overflowing_delay_expires_at_once() {
    let start = Instant::from_nanos(5);
    let r = RetryAfter::from_secs_at(u64::MAX, start);
    assert_eq!(r.when(), start);
    assert!(r.expired_at(start));
    let r = RetryAfter::from_secs_at(0, start);
    assert!(r.expired_at(start));
}

#[test]
fn ordering_of_markers() {
    let a = RetryAfter::from_secs_at(1, Instant::from_nanos(0));
    let b = RetryAfter::from_secs_at(2, Instant::from_nanos(0));
    assert!(a.is_before(&b));
    assert!(!b.is_before(&a));
    assert!(!a.is_before(&a));
}

#[test]
fn clock_based_markers() {
    let r = RetryAfter::from_secs(30);
    assert!(!r.expired());
    let secs = r.remaining_seconds();
    assert!(secs == 30 || secs == 29);
    assert!(r.remaining().is_some());
    assert!(Instant::now().nanos > 0);
}

#[test]
fn scopes_for_quotas() {
    let scoping = Scoping {
        organization_id: OrganizationId::new(42),
        project_id: ProjectId::new(21),
        project_key: ProjectKey::parse("a94ae32be2584e0bbd7a4cbb95971fee").unwrap(),
        key_id: None,
    };
    assert_eq!(RateLimitScope::for_quota(&scoping, QuotaScope::Global), RateLimitScope::Global);
    assert_eq!(
        RateLimitScope::for_quota(&scoping, QuotaScope::Organization),
        RateLimitScope::Organization(OrganizationId::new(42))
    );
    assert_eq!(RateLimitScope::for_quota(&scoping, QuotaScope::Project), RateLimitScope::Project(ProjectId::new(21)));
    assert_eq!(RateLimitScope::for_quota(&scoping, QuotaScope::Key), RateLimitScope::Key(scoping.project_key));
    // An unknown scope is taken as the most specific one.
    assert_eq!(RateLimitScope::for_quota(&scoping, QuotaScope::Unknown), RateLimitScope::Key(scoping.project_key));
    assert_eq!(RateLimitScope::Global.name(), "global");
    assert_eq!(RateLimitScope::Organization(OrganizationId::new(1)).name(), "organization");
    assert_eq!(RateLimitScope::Project(ProjectId::new(1)).name(), "project");
    assert_eq!(RateLimitScope::Key(scoping.project_key).name(), "key");
}

#[test]
fn durations() {
    let d = Duration::from_nanos(3_500_000_000);
    assert_eq!(d.as_secs(), 3);
    assert_eq!(d.subsec_nanos(), 500_000_000);
    assert_eq!(Duration::from_secs(2), Duration::from_nanos(2_000_000_000));
    assert_eq!(Duration::from_secs(u64::MAX), Duration::from_nanos(u64::MAX as u128 * 1_000_000_000));
    assert_eq!(Instant::from_nanos(MAX_INSTANT_NANOS).checked_add(Duration::from_nanos(1)), None);
    assert_eq!(
        Instant::from_nanos(MAX_INSTANT_NANOS - 1).checked_add(Duration::from_nanos(1)),
        Some(Instant::from_nanos(MAX_INSTANT_NANOS))
    );
    assert_eq!(Instant::from_nanos(1).checked_add_secs(1), Some(Instant::from_nanos(1_000_000_001)));
}

#[test]
fn delays_of_centuries_are_kept() {
    // About 634 years after a reading in 2025.
    let now = Instant::from_nanos(1_750_000_000_000_000_000);
    let r = RetryAfter::from_secs_at(20_000_000_000, now);
    assert!(!r.expired_at(now));
    assert_eq!(r.remaining_seconds_at(now), 20_000_000_000);
    // The longest delay overflows the clock's range, as for `std::time::Instant`.
    assert!(RetryAfter::from_secs_at(u64::MAX, now).expired_at(now));
}
