use relay_limits::project::{OrganizationId, ProjectId, ProjectKey};
use relay_limits::quota::{
    parse_u64, DataCategories, DataCategory, ItemScoping, MetricNamespace, MetricNamespaceScoping,
    MetricNamespaces, Quota, QuotaScope, ReasonCode, Scoping,
};

fn scoping() -> Scoping {
    Scoping {
        organization_id: OrganizationId::new(42),
        project_id: ProjectId::new(21),
        project_key: ProjectKey::parse("a94ae32be2584e0bbd7a4cbb95971fee").unwrap(),
        key_id: Some(17),
    }
}

fn quota(scope: QuotaScope, scope_id: Option<&str>, cats: &[DataCategory], ns: Option<MetricNamespace>) -> Quota {
    Quota {
        id: None,
        categories: DataCategories::from_vec(cats.to_vec()),
        scope,
        scope_id: scope_id.map(|s| s.to_owned()),
        limit: Some(0),
        window: None,
        reason_code: None,
        namespace: ns,
    }
}

#[test]
fn project_key_parsing() {
    let a = ProjectKey::parse("a94ae32be2584e0bbd7a4cbb95971fee").unwrap();
    let b = ProjectKey::parse("a94ae32be2584e0bbd7a4cbb95971fee").unwrap();
    let c = ProjectKey::parse("deadbeefdeadbeefdeadbeefdeadbeef").unwrap();
    assert_eq!(a, b);
    assert_ne!(a, c);
    // The first half holds "a94ae32be2584e0b" as a big-endian number.
    assert_eq!(a.high, u128::from_be_bytes(*b"a94ae32be2584e0b"));
    assert_eq!(a.low, u128::from_be_bytes(*b"bd7a4cbb95971fee"));
    assert!(ProjectKey::parse("").is_err());
    assert!(ProjectKey::parse("a94ae32be2584e0bbd7a4cbb95971fe").is_err());
    assert!(ProjectKey::parse("a94ae32be2584e0bbd7a4cbb95971feee").is_err());
    assert!(ProjectKey::parse("a94ae32be2584e0bbd7a4cbb95971fé").is_err());
}

#[test]
fn decimal_parsing() {
    assert_eq!(parse_u64(b"42"), Some(42));
    assert_eq!(parse_u64(b"+42"), Some(42));
    assert_eq!(parse_u64(b"0007"), Some(7));
    assert_eq!(parse_u64(b"18446744073709551615"), Some(u64::MAX));
    assert_eq!(parse_u64(b"18446744073709551616"), None);
    assert_eq!(parse_u64(b""), None);
    assert_eq!(parse_u64(b"+"), None);
    assert_eq!(parse_u64(b"-1"), None);
    assert_eq!(parse_u64(b"4 2"), None);
    assert_eq!(parse_u64(b"99999999999999999999x"), None);
    for s in ["0", "1", "123456789", "+5"] {
        assert_eq!(parse_u64(s.as_bytes()), s.parse::<u64>().ok());
    }
}

#[test]
fn scope_names_and_ids() {
    assert_eq!(QuotaScope::Global.name(), "global");
    assert_eq!(QuotaScope::Organization.name(), "organization");
    assert_eq!(QuotaScope::Project.name(), "project");
    assert_eq!(QuotaScope::Key.name(), "key");
    assert_eq!(QuotaScope::Unknown.name(), "unknown");
    let s = scoping();
    assert_eq!(s.scope_id(QuotaScope::Global), None);
    assert_eq!(s.scope_id(QuotaScope::Organization), Some(42));
    assert_eq!(s.scope_id(QuotaScope::Project), Some(21));
    assert_eq!(s.scope_id(QuotaScope::Key), Some(17));
    assert_eq!(s.scope_id(QuotaScope::Unknown), None);
    let item = s.item(DataCategory::Error);
    assert_eq!(item.category, DataCategory::Error);
    assert_eq!(item.namespace, MetricNamespaceScoping::NoNamespace);
}

#[test]
fn quota_matching() {
    let s = scoping();
    let item = s.item(DataCategory::Error);
    assert!(quota(QuotaScope::Global, Some("nonsense"), &[], None).matches(item));
    assert!(quota(QuotaScope::Organization, None, &[], None).matches(item));
    assert!(quota(QuotaScope::Organization, Some("42"), &[], None).matches(item));
    assert!(!quota(QuotaScope::Organization, Some("43"), &[], None).matches(item));
    assert!(!quota(QuotaScope::Organization, Some("x"), &[], None).matches(item));
    assert!(quota(QuotaScope::Project, Some("21"), &[], None).matches(item));
    assert!(quota(QuotaScope::Key, Some("17"), &[], None).matches(item));
    assert!(!quota(QuotaScope::Unknown, Some("17"), &[], None).matches(item));
    assert!(quota(QuotaScope::Organization, Some("42"), &[DataCategory::Error], None).matches(item));
    assert!(!quota(QuotaScope::Organization, Some("42"), &[DataCategory::Span], None).matches(item));
    // A namespace on the quota is not matched by an item without one, but by one for any.
    assert!(!quota(QuotaScope::Global, None, &[], Some(MetricNamespace::Custom)).matches(item));
    let any = ItemScoping { category: DataCategory::MetricBucket, scoping: &s, namespace: MetricNamespaceScoping::Any };
    assert!(quota(QuotaScope::Global, None, &[], Some(MetricNamespace::Custom)).matches(any));
}

#[test]
fn category_and_namespace_lists() {
    let cats = DataCategories::from_vec(vec![DataCategory::Error, DataCategory::Default]);
    assert_eq!(cats.len(), 2);
    assert!(!cats.is_empty());
    assert!(cats.contains(DataCategory::Default));
    assert!(!cats.contains(DataCategory::Span));
    let copy = cats.clone();
    assert!(copy.same_items(&cats));
    assert!(!copy.same_items(&DataCategories::from_vec(vec![DataCategory::Default, DataCategory::Error])));
    assert!(DataCategories::new().is_empty());
    assert_eq!(DataCategory::Unknown.code(), -1);
    assert_eq!(DataCategory::Error.code(), 1);

    let ns = MetricNamespaces::from_vec(vec![MetricNamespace::Spans]);
    assert_eq!(ns.clone().as_slice(), &[MetricNamespace::Spans]);
    assert!(ns.same_items(&ns.clone()));
    assert!(!ns.same_items(&MetricNamespaces::new()));

    let reason = ReasonCode::new("zero");
    assert_eq!(reason.clone().as_str(), "zero");
}
