use relay_limits::metrics::{
    add_some, to_counts, Bucket, BucketMetadata, BucketSummary, BucketValue, EntityCounts,
    MetricsLimiter,
};
use relay_limits::project::{OrganizationId, ProjectId, ProjectKey};
use relay_limits::quota::{DataCategories, DataCategory, Quota, QuotaScope, Scoping};
use relay_limits::rate_limit::RateLimits;

fn deny(category: DataCategory) -> Vec<Quota> {
    vec![Quota {
        id: None,
        categories: DataCategories::from_vec(vec![category]),
        scope: QuotaScope::Organization,
        scope_id: None,
        limit: Some(0),
        window: None,
        reason_code: None,
        namespace: None,
    }]
}

fn scoping() -> Scoping {
    Scoping {
        organization_id: OrganizationId::new(1),
        project_id: ProjectId::new(1),
        project_key: ProjectKey::parse("a94ae32be2584e0bbd7a4cbb95971fee").unwrap(),
        key_id: None,
    }
}

fn bucket(name: &str, value: BucketValue) -> Bucket {
    Bucket { name: name.to_owned(), value, metadata: BucketMetadata::default() }
}

/// The quantity of entities of `category` that dropped buckets stand for.
fn quantity(buckets: &[Bucket], category: DataCategory) -> usize {
    buckets
        .iter()
        .map(|b| match (b.summary(), category) {
            (BucketSummary::Transactions(c), DataCategory::Transaction) => c,
            (BucketSummary::Spans(c), DataCategory::Span) => c,
            _ => 0,
        })
        .sum()
}

/// Applies rate limits and returns the remaining buckets and the rate-limited outcomes, as
/// (reason code, category, quantity).
fn run_limiter(
    metrics: Vec<Bucket>,
    quotas: Vec<Quota>,
) -> (Vec<Bucket>, Vec<(Option<String>, DataCategory, usize)>) {
    let mut limiter = MetricsLimiter::create(metrics, quotas, scoping()).unwrap();

    let enforced = limiter.enforce_limits(&RateLimits::new());
    let metrics = limiter.into_buckets();

    let outcomes = match enforced {
        Some(dropped) => vec![(
            dropped.reason_code.as_ref().map(|r| r.as_str().to_owned()),
            dropped.category,
            quantity(&dropped.buckets, dropped.category),
        )],
        None => vec![],
    };
    (metrics, outcomes)
}

/// A few different bucket types
fn mixed_bag() -> Vec<Bucket> {
    vec![
        bucket("c:transactions/usage@none", BucketValue::Counter(12)),
        bucket("c:spans/usage@none", BucketValue::Counter(34)),
        bucket("c:spans/usage@none", BucketValue::Counter(56)),
        bucket("d:spans/exclusive_time@millisecond", BucketValue::Distribution(vec![78])),
        bucket("d:custom/something@millisecond", BucketValue::Distribution(vec![78])),
    ]
}

#[test]
fn mixed_with_span_quota() {
    let (metrics, outcomes) = run_limiter(mixed_bag(), deny(DataCategory::Span));

    assert_eq!(metrics.len(), 2);
    assert_eq!(&*metrics[0].name, "c:transactions/usage@none");
    assert_eq!(&*metrics[1].name, "d:custom/something@millisecond");

    assert_eq!(outcomes, vec![(None, DataCategory::Span, 90)]);
}

#[test]
fn mixed_with_transaction_quota() {
    let (metrics, outcomes) = run_limiter(mixed_bag(), deny(DataCategory::Transaction));

    assert_eq!(metrics.len(), 4);
    assert_eq!(&*metrics[0].name, "c:spans/usage@none");
    assert_eq!(&*metrics[1].name, "c:spans/usage@none");
    assert_eq!(&*metrics[2].name, "d:spans/exclusive_time@millisecond");
    assert_eq!(&*metrics[3].name, "d:custom/something@millisecond");

    assert_eq!(outcomes, vec![(None, DataCategory::Transaction, 12)]);
}

#[test]
fn bucket_summaries_follow_namespace_and_usage() {
    assert_eq!(
        bucket("c:transactions/usage@none", BucketValue::Counter(12)).summary(),
        BucketSummary::Transactions(12)
    );
    assert_eq!(
        bucket("d:transactions/duration@millisecond", BucketValue::Distribution(vec![1])).summary(),
        BucketSummary::Transactions(0)
    );
    assert_eq!(
        bucket("c:spans/usage@none", BucketValue::Counter(7)).summary(),
        BucketSummary::Spans(7)
    );
    assert_eq!(bucket("c:spans/count_per_root@none", BucketValue::Counter(7)).summary(), BucketSummary::Spans(0));
    assert_eq!(bucket("c:custom/usage@none", BucketValue::Counter(7)).summary(), BucketSummary::Empty);
    assert_eq!(bucket("not a resource identifier", BucketValue::Counter(7)).summary(), BucketSummary::Empty);
    assert_eq!(bucket("c:spans", BucketValue::Counter(7)).summary(), BucketSummary::Empty);
}

#[test]
fn counts_add_per_entity() {
    assert_eq!(add_some(None, None), None);
    assert_eq!(add_some(None, Some(3)), Some(3));
    assert_eq!(add_some(Some(4), None), Some(4));
    assert_eq!(add_some(Some(4), Some(3)), Some(7));

    let t = to_counts(&BucketSummary::Transactions(5));
    assert_eq!(t, EntityCounts { transactions: Some(5), spans: None });
    let s = to_counts(&BucketSummary::Spans(2));
    assert_eq!(s, EntityCounts { transactions: None, spans: Some(2) });
    assert_eq!(to_counts(&BucketSummary::Empty), EntityCounts::default());
    assert_eq!(t.add(s).add(to_counts(&BucketSummary::Spans(0))), EntityCounts {
        transactions: Some(5),
        spans: Some(2),
    });
}

#[test]
fn limiter_counts_entities() {
    let limiter = MetricsLimiter::create(mixed_bag(), vec![], scoping()).unwrap();
    assert_eq!(limiter.count(DataCategory::Transaction), Some(12));
    assert_eq!(limiter.count(DataCategory::Span), Some(90));
    assert_eq!(limiter.count(DataCategory::Error), None);
    assert_eq!(limiter.scoping().project_id, ProjectId::new(1));
    assert_eq!(limiter.quotas().len(), 0);
}

#[test]
fn limiter_refuses_batches_without_entities() {
    let buckets = vec![bucket("d:custom/something@millisecond", BucketValue::Counter(1))];
    let err = MetricsLimiter::create(buckets, vec![], scoping()).unwrap_err();
    assert_eq!(err.len(), 1);
    assert_eq!(&*err[0].name, "d:custom/something@millisecond");
}

#[test]
fn sampled_buckets_are_not_limited() {
    let mut sampled = bucket("c:spans/usage@none", BucketValue::Counter(3));
    sampled.metadata.extracted_from_indexed = true;
    let buckets = vec![bucket("c:spans/usage@none", BucketValue::Counter(4)), sampled];
    let mut limiter = MetricsLimiter::create(buckets, deny(DataCategory::Span), scoping()).unwrap();
    assert_eq!(limiter.count(DataCategory::Span), Some(4));
    let dropped = limiter.enforce_limits(&RateLimits::new()).unwrap();
    assert_eq!(dropped.buckets.len(), 1);
    let kept = limiter.into_buckets();
    assert_eq!(kept.len(), 1);
    assert!(kept[0].metadata.extracted_from_indexed);
}

#[test]
fn no_limit_keeps_all_buckets() {
    let mut limiter = MetricsLimiter::create(mixed_bag(), vec![], scoping()).unwrap();
    assert!(limiter.enforce_limits(&RateLimits::new()).is_none());
    assert_eq!(limiter.into_buckets().len(), 5);
}

#[test]
fn active_limit_without_buckets_of_its_category_drops_nothing() {
    let buckets = vec![bucket("c:spans/usage@none", BucketValue::Counter(34))];
    let mut limiter = MetricsLimiter::create(buckets, deny(DataCategory::Transaction), scoping()).unwrap();
    assert!(limiter.enforce_limits(&RateLimits::new()).is_none());
    let kept = limiter.into_buckets();
    assert_eq!(kept.len(), 1);
    assert_eq!(&*kept[0].name, "c:spans/usage@none");
}
