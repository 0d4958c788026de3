use relay_limits::project::{OrganizationId, ProjectId, ProjectKey};
use relay_limits::quota::{
    DataCategories, DataCategory, MetricNamespaceScoping, MetricNamespaces, ItemScoping, ReasonCode,
    Scoping,
};
use relay_limits::rate_limit::{CachedRateLimits, RateLimit, RateLimitScope, RateLimits, RetryAfter};
use relay_limits::time::Instant;

fn limit(cats: &[DataCategory], scope: RateLimitScope, reason: &str, until: u64) -> RateLimit {
    RateLimit {
        categories: DataCategories::from_vec(cats.to_vec()),
        scope,
        reason_code: Some(ReasonCode::new(reason)),
        retry_after: RetryAfter::from_secs_at(until, Instant::from_nanos(0)),
        namespaces: MetricNamespaces::new(),
    }
}

fn reasons(limits: &RateLimits) -> Vec<String> {
    let mut it = limits.iter();
    let mut out = Vec::new();
    while let Some(l) = it.next() {
        out.push(l.reason_code.as_ref().unwrap().as_str().to_owned());
    }
    out
}

const ORG: RateLimitScope = RateLimitScope::Organization(OrganizationId { value: 42 });

#[test]
fn categories_are_stored_in_code_order() {
    let mut limits = RateLimits::new();
    limits.add(limit(
        &[DataCategory::Span, DataCategory::Error, DataCategory::Unknown, DataCategory::Error],
        ORG,
        "a",
        5,
    ));
    let stored = limits.longest().unwrap();
    assert_eq!(
        stored.categories.as_slice(),
        &[DataCategory::Unknown, DataCategory::Error, DataCategory::Error, DataCategory::Span]
    );
}

#[test]
fn adding_twice_is_adding_once() {
    let mut once = RateLimits::new();
    once.add(limit(&[DataCategory::Error], ORG, "a", 5));
    let mut twice = RateLimits::new();
    twice.add(limit(&[DataCategory::Error], ORG, "a", 5));
    twice.add(limit(&[DataCategory::Error], ORG, "a", 5));
    assert_eq!(reasons(&once), reasons(&twice));
    assert_eq!(reasons(&twice).len(), 1);
}

#[test]
fn merge_keeps_the_maximum() {
    let mut a = RateLimits::new();
    a.add(limit(&[DataCategory::Error], ORG, "a-error", 10));
    a.add(limit(&[DataCategory::Span], ORG, "a-span", 1));
    let mut b = RateLimits::new();
    b.add(limit(&[DataCategory::Error], ORG, "b-error", 5));
    b.add(limit(&[DataCategory::Span], ORG, "b-span", 20));
    b.add(limit(&[DataCategory::Transaction], ORG, "b-transaction", 3));
    a.merge(b);
    assert_eq!(reasons(&a), vec!["a-error", "b-span", "b-transaction"]);
}

#[test]
fn merging_nothing_changes_nothing() {
    let mut a = RateLimits::new();
    a.add(limit(&[DataCategory::Error], ORG, "a", 10));
    a.merge(RateLimits::new());
    assert_eq!(reasons(&a), vec!["a"]);
    assert!(!RateLimits::default().is_empty());
}

#[test]
fn check_returns_only_matching_limits() {
    let mut limits = RateLimits::new();
    limits.add(limit(&[DataCategory::Error], ORG, "org", 10));
    limits.add(limit(&[], RateLimitScope::Project(ProjectId::new(7)), "other project", 10));
    let scoping = Scoping {
        organization_id: OrganizationId::new(42),
        project_id: ProjectId::new(21),
        project_key: ProjectKey::parse("a94ae32be2584e0bbd7a4cbb95971fee").unwrap(),
        key_id: None,
    };
    let item = ItemScoping { category: DataCategory::Error, scoping: &scoping, namespace: MetricNamespaceScoping::NoNamespace };
    assert_eq!(reasons(&limits.check(item)), vec!["org"]);
    let none = limits.check(scoping.item(DataCategory::Span));
    assert!(!none.is_empty());
    assert!(none.is_ok());
}

#[test]
fn expired_limits_are_removed_in_order() {
    let mut limits = RateLimits::new();
    limits.add(limit(&[DataCategory::Error], ORG, "a", 10));
    limits.add(limit(&[DataCategory::Span], ORG, "b", 2));
    limits.add(limit(&[DataCategory::Transaction], ORG, "c", 30));
    assert!(limits.is_limited_at(Instant::from_nanos(5_000_000_000)));
    limits.clean_expired(Instant::from_nanos(5_000_000_000));
    assert_eq!(reasons(&limits), vec!["a", "c"]);
    assert!(limits.is_ok_at(Instant::from_nanos(30_000_000_000)));
    assert!(!limits.is_ok_at(Instant::from_nanos(29_999_999_999)));
}

#[test]
fn longest_takes_the_last_of_equals() {
    let mut limits = RateLimits::new();
    assert!(limits.longest().is_none());
    limits.add(limit(&[DataCategory::Error], ORG, "a", 10));
    limits.add(limit(&[DataCategory::Span], ORG, "b", 10));
    limits.add(limit(&[DataCategory::Transaction], ORG, "c", 3));
    assert_eq!(limits.longest().unwrap().reason_code.as_ref().unwrap().as_str(), "b");
}

#[test]
fn cached_limits_never_hand_out_expired_ones() {
    let mut cached = CachedRateLimits::default();
    cached.add(limit(&[DataCategory::Error], ORG, "a", 10));
    cached.add(limit(&[DataCategory::Span], ORG, "b", 2));
    let current = cached.current_limits_at(Instant::from_nanos(3_000_000_000));
    assert_eq!(reasons(&current), vec!["a"]);
    let mut more = RateLimits::new();
    more.add(limit(&[DataCategory::Span], ORG, "c", 20));
    cached.merge(more);
    assert_eq!(reasons(&cached.current_limits_at(Instant::from_nanos(15_000_000_000))), vec!["c"]);
}

#[test]
fn moving_out_yields_all_limits_in_order() {
    let mut limits = RateLimits::new();
    limits.add(limit(&[DataCategory::Error], ORG, "a", 10));
    limits.add(limit(&[DataCategory::Span], ORG, "b", 2));
    let copy = limits.clone();
    let mut it = limits.into_iter();
    assert_eq!(it.next().unwrap().reason_code.unwrap().as_str(), "a");
    assert_eq!(it.next().unwrap().reason_code.unwrap().as_str(), "b");
    assert!(it.next().is_none());
    assert_eq!(reasons(&copy), vec!["a", "b"]);
}

#[test]
fn is_empty_tells_whether_limits_are_contained() {
    let mut limits = RateLimits::new();
    assert!(!limits.is_empty());
    assert_eq!(limits.is_empty(), limits.longest().is_some());
    limits.add(limit(&[DataCategory::Error], ORG, "a", 10));
    assert!(limits.is_empty());
    assert_eq!(limits.is_empty(), limits.longest().is_some());
}

#[test]
fn check_keeps_matching_limits_in_order() {
    let mut limits = RateLimits::new();
    limits.add(limit(&[DataCategory::Error], ORG, "first", 10));
    limits.add(limit(&[], RateLimitScope::Project(ProjectId::new(7)), "other project", 10));
    limits.add(limit(&[DataCategory::Span], ORG, "span", 10));
    limits.add(limit(&[], ORG, "any category", 5));
    let scoping = Scoping {
        organization_id: OrganizationId::new(42),
        project_id: ProjectId::new(21),
        project_key: ProjectKey::parse("a94ae32be2584e0bbd7a4cbb95971fee").unwrap(),
        key_id: None,
    };
    let checked = limits.check(scoping.item(DataCategory::Error));
    assert_eq!(reasons(&checked), vec!["first", "any category"]);
    // The collection itself is unchanged.
    assert_eq!(reasons(&limits), vec!["first", "other project", "span", "any category"]);
}

#[test]
fn merge_keeps_positions_and_takes_the_latest_expiry() {
    let mut a = RateLimits::new();
    a.add(limit(&[DataCategory::Error], ORG, "a-error", 10));
    a.add(limit(&[DataCategory::Span], ORG, "a-span", 1));
    let mut b = RateLimits::new();
    b.add(limit(&[DataCategory::Transaction], ORG, "b-transaction", 3));
    b.add(limit(&[DataCategory::Span], ORG, "b-span", 20));
    b.add(limit(&[DataCategory::Error], ORG, "b-error", 10));
    a.merge(b);
    assert_eq!(reasons(&a), vec!["a-error", "b-span", "b-transaction"]);
}
