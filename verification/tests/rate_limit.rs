use relay_limits::project::{OrganizationId, ProjectId, ProjectKey};
use relay_limits::quota::{
    DataCategories, DataCategory, ItemScoping, MetricNamespace, MetricNamespaceScoping,
    MetricNamespaces, Quota, QuotaScope, ReasonCode, Scoping,
};
use relay_limits::rate_limit::{
    CachedRateLimits, RateLimit, RateLimitScope, RateLimits, RetryAfter,
};
use relay_limits::time::Instant;

fn categories(items: &[DataCategory]) -> DataCategories {
    DataCategories::from_vec(items.to_vec())
}

fn namespaces(items: &[MetricNamespace]) -> MetricNamespaces {
    MetricNamespaces::from_vec(items.to_vec())
}

fn scoping(org: u64, project: u64, key: &str) -> Scoping {
    Scoping {
        organization_id: OrganizationId::new(org),
        project_id: ProjectId::new(project),
        project_key: ProjectKey::parse(key).unwrap(),
        key_id: None,
    }
}

/// Checks one stored limit against the fields it is expected to hold.
fn assert_limit(
    limit: &RateLimit,
    cats: &[DataCategory],
    scope: RateLimitScope,
    reason: Option<&str>,
    retry_secs: u64,
    ns: &[MetricNamespace],
) {
    assert_eq!(limit.categories.as_slice(), cats);
    assert_eq!(limit.scope, scope);
    assert_eq!(limit.reason_code.as_ref().map(|r| r.as_str()), reason);
    assert_eq!(limit.retry_after.remaining_seconds(), retry_secs);
    assert_eq!(limit.namespaces.as_slice(), ns);
}

fn collect(limits: &RateLimits) -> Vec<&RateLimit> {
    let mut it = limits.iter();
    let mut out = Vec::new();
    while let Some(l) = it.next() {
        out.push(l);
    }
    out
}

/// Parses a delay the way the service reads a `Retry-After` value: as a float, negative values
/// taken as zero, rounded up to whole seconds.
fn parse_delay(s: &str) -> Result<RetryAfter, std::num::ParseFloatError> {
    let float = s.parse::<f64>()?;
    let seconds = float.max(0.0).ceil() as u64;
    Ok(RetryAfter::from_secs(seconds))
}

#[test]
fn test_parse_retry_after() {
    // positive float always rounds up to the next integer
    let retry_after = parse_delay("17.1").expect("parse RetryAfter");
    assert_eq!(retry_after.remaining_seconds(), 18);
    assert!(!retry_after.expired());
    let retry_after = parse_delay("17.7").expect("parse RetryAfter");
    assert_eq!(retry_after.remaining_seconds(), 18);
    assert!(!retry_after.expired());

    // positive int
    let retry_after = parse_delay("17").expect("parse RetryAfter");
    assert_eq!(retry_after.remaining_seconds(), 17);
    assert!(!retry_after.expired());

    // negative numbers are treated as zero
    let retry_after = parse_delay("-2").expect("parse RetryAfter");
    assert_eq!(retry_after.remaining_seconds(), 0);
    assert!(retry_after.expired());
    let retry_after = parse_delay("-inf").expect("parse RetryAfter");
    assert_eq!(retry_after.remaining_seconds(), 0);
    assert!(retry_after.expired());

    // inf and NaN are valid input and treated as zero
    let retry_after = parse_delay("inf").expect("parse RetryAfter");
    assert_eq!(retry_after.remaining_seconds(), 0);
    assert!(retry_after.expired());
    let retry_after = parse_delay("NaN").expect("parse RetryAfter");
    assert_eq!(retry_after.remaining_seconds(), 0);
    assert!(retry_after.expired());

    // large inputs that would overflow are treated as zero
    let retry_after = parse_delay("100000000000000000000").expect("parse RetryAfter");
    assert_eq!(retry_after.remaining_seconds(), 0);
    assert!(retry_after.expired());

    // invalid strings cause parse error
    parse_delay("").expect_err("error RetryAfter");
    parse_delay("nope").expect_err("error RetryAfter");
    parse_delay(" 2 ").expect_err("error RetryAfter");
    parse_delay("6 0").expect_err("error RetryAfter");
}

#[test]
fn test_rate_limit_matches_categories() {
    let rate_limit = RateLimit {
        categories: categories(&[DataCategory::Unknown, DataCategory::Error]),
        scope: RateLimitScope::Organization(OrganizationId::new(42)),
        reason_code: None,
        retry_after: RetryAfter::from_secs(1),
        namespaces: namespaces(&[]),
    };
    let s = scoping(42, 21, "a94ae32be2584e0bbd7a4cbb95971fee");

    assert!(rate_limit.matches(ItemScoping {
        category: DataCategory::Error,
        scoping: &s,
        namespace: MetricNamespaceScoping::NoNamespace,
    }));

    assert!(!rate_limit.matches(ItemScoping {
        category: DataCategory::Transaction,
        scoping: &s,
        namespace: MetricNamespaceScoping::NoNamespace,
    }));
}

#[test]
fn test_rate_limit_matches_organization() {
    let rate_limit = RateLimit {
        categories: DataCategories::new(),
        scope: RateLimitScope::Organization(OrganizationId::new(42)),
        reason_code: None,
        retry_after: RetryAfter::from_secs(1),
        namespaces: namespaces(&[]),
    };

    assert!(rate_limit.matches(ItemScoping {
        category: DataCategory::Error,
        scoping: &scoping(42, 21, "a94ae32be2584e0bbd7a4cbb95971fee"),
        namespace: MetricNamespaceScoping::NoNamespace,
    }));

    assert!(!rate_limit.matches(ItemScoping {
        category: DataCategory::Error,
        scoping: &scoping(0, 21, "a94ae32be2584e0bbd7a4cbb95971fee"),
        namespace: MetricNamespaceScoping::NoNamespace,
    }));
}

#[test]
fn test_rate_limit_matches_project() {
    let rate_limit = RateLimit {
        categories: DataCategories::new(),
        scope: RateLimitScope::Project(ProjectId::new(21)),
        reason_code: None,
        retry_after: RetryAfter::from_secs(1),
        namespaces: namespaces(&[]),
    };

    assert!(rate_limit.matches(ItemScoping {
        category: DataCategory::Error,
        scoping: &scoping(42, 21, "a94ae32be2584e0bbd7a4cbb95971fee"),
        namespace: MetricNamespaceScoping::NoNamespace,
    }));

    assert!(!rate_limit.matches(ItemScoping {
        category: DataCategory::Error,
        scoping: &scoping(42, 0, "a94ae32be2584e0bbd7a4cbb95971fee"),
        namespace: MetricNamespaceScoping::NoNamespace,
    }));
}

#[test]
fn test_rate_limit_matches_namespaces() {
    let rate_limit = RateLimit {
        categories: categories(&[]),
        scope: RateLimitScope::Organization(OrganizationId::new(42)),
        reason_code: None,
        retry_after: RetryAfter::from_secs(1),
        namespaces: namespaces(&[MetricNamespace::Custom]),
    };

    let s = scoping(42, 21, "a94ae32be2584e0bbd7a4cbb95971fee");

    assert!(rate_limit.matches(ItemScoping {
        category: DataCategory::MetricBucket,
        scoping: &s,
        namespace: MetricNamespaceScoping::Namespace(MetricNamespace::Custom),
    }));

    assert!(!rate_limit.matches(ItemScoping {
        category: DataCategory::MetricBucket,
        scoping: &s,
        namespace: MetricNamespaceScoping::Namespace(MetricNamespace::Spans),
    }));

    let general_rate_limit = RateLimit {
        categories: categories(&[]),
        scope: RateLimitScope::Organization(OrganizationId::new(42)),
        reason_code: None,
        retry_after: RetryAfter::from_secs(1),
        namespaces: namespaces(&[]), // all namespaces
    };

    assert!(general_rate_limit.matches(ItemScoping {
        category: DataCategory::MetricBucket,
        scoping: &s,
        namespace: MetricNamespaceScoping::Namespace(MetricNamespace::Spans),
    }));

    assert!(general_rate_limit.matches(ItemScoping {
        category: DataCategory::MetricBucket,
        scoping: &s,
        namespace: MetricNamespaceScoping::NoNamespace,
    }));
}

#[test]
fn test_rate_limit_matches_key() {
    let rate_limit = RateLimit {
        categories: DataCategories::new(),
        scope: RateLimitScope::Key(ProjectKey::parse("a94ae32be2584e0bbd7a4cbb95971fee").unwrap()),
        reason_code: None,
        retry_after: RetryAfter::from_secs(1),
        namespaces: namespaces(&[]),
    };

    assert!(rate_limit.matches(ItemScoping {
        category: DataCategory::Error,
        scoping: &scoping(42, 21, "a94ae32be2584e0bbd7a4cbb95971fee"),
        namespace: MetricNamespaceScoping::NoNamespace,
    }));

    assert!(!rate_limit.matches(ItemScoping {
        category: DataCategory::Error,
        scoping: &scoping(0, 21, "deadbeefdeadbeefdeadbeefdeadbeef"),
        namespace: MetricNamespaceScoping::NoNamespace,
    }));
}

#[test]
fn test_rate_limits_add_replacement() {
    let mut rate_limits = RateLimits::new();

    rate_limits.add(RateLimit {
        categories: categories(&[DataCategory::Default, DataCategory::Error]),
        scope: RateLimitScope::Organization(OrganizationId::new(42)),
        reason_code: Some(ReasonCode::new("first")),
        retry_after: RetryAfter::from_secs(1),
        namespaces: namespaces(&[]),
    });

    // longer rate limit shadows shorter one
    rate_limits.add(RateLimit {
        categories: categories(&[DataCategory::Error, DataCategory::Default]),
        scope: RateLimitScope::Organization(OrganizationId::new(42)),
        reason_code: Some(ReasonCode::new("second")),
        retry_after: RetryAfter::from_secs(10),
        namespaces: namespaces(&[]),
    });

    let limits = collect(&rate_limits);
    assert_eq!(limits.len(), 1);
    assert_limit(
        limits[0],
        &[DataCategory::Default, DataCategory::Error],
        RateLimitScope::Organization(OrganizationId::new(42)),
        Some("second"),
        10,
        &[],
    );
}

#[test]
fn test_rate_limits_add_shadowing() {
    let mut rate_limits = RateLimits::new();

    rate_limits.add(RateLimit {
        categories: categories(&[DataCategory::Default, DataCategory::Error]),
        scope: RateLimitScope::Organization(OrganizationId::new(42)),
        reason_code: Some(ReasonCode::new("first")),
        retry_after: RetryAfter::from_secs(10),
        namespaces: namespaces(&[]),
    });

    // shorter rate limit is shadowed by existing one
    rate_limits.add(RateLimit {
        categories: categories(&[DataCategory::Error, DataCategory::Default]),
        scope: RateLimitScope::Organization(OrganizationId::new(42)),
        reason_code: Some(ReasonCode::new("second")),
        retry_after: RetryAfter::from_secs(1),
        namespaces: namespaces(&[]),
    });

    let limits = collect(&rate_limits);
    assert_eq!(limits.len(), 1);
    assert_limit(
        limits[0],
        &[DataCategory::Default, DataCategory::Error],
        RateLimitScope::Organization(OrganizationId::new(42)),
        Some("first"),
        10,
        &[],
    );
}

#[test]
fn test_rate_limits_add_buckets() {
    let mut rate_limits = RateLimits::new();

    rate_limits.add(RateLimit {
        categories: categories(&[DataCategory::Error]),
        scope: RateLimitScope::Organization(OrganizationId::new(42)),
        reason_code: None,
        retry_after: RetryAfter::from_secs(1),
        namespaces: namespaces(&[]),
    });

    // Same scope but different categories
    rate_limits.add(RateLimit {
        categories: categories(&[DataCategory::Transaction]),
        scope: RateLimitScope::Organization(OrganizationId::new(42)),
        reason_code: None,
        retry_after: RetryAfter::from_secs(1),
        namespaces: namespaces(&[]),
    });

    // Same categories but different scope
    rate_limits.add(RateLimit {
        categories: categories(&[DataCategory::Error]),
        scope: RateLimitScope::Project(ProjectId::new(21)),
        reason_code: None,
        retry_after: RetryAfter::from_secs(1),
        namespaces: namespaces(&[]),
    });

    let limits = collect(&rate_limits);
    assert_eq!(limits.len(), 3);
    let org = RateLimitScope::Organization(OrganizationId::new(42));
    assert_limit(limits[0], &[DataCategory::Error], org, None, 1, &[]);
    assert_limit(limits[1], &[DataCategory::Transaction], org, None, 1, &[]);
    assert_limit(
        limits[2],
        &[DataCategory::Error],
        RateLimitScope::Project(ProjectId::new(21)),
        None,
        1,
        &[],
    );
}

/// Regression test that ensures namespaces are correctly added to rate limits.
#[test]
fn test_rate_limits_add_namespaces() {
    let mut rate_limits = RateLimits::new();

    rate_limits.add(RateLimit {
        categories: categories(&[DataCategory::MetricBucket]),
        scope: RateLimitScope::Organization(OrganizationId::new(42)),
        reason_code: None,
        retry_after: RetryAfter::from_secs(1),
        namespaces: namespaces(&[MetricNamespace::Custom]),
    });

    // Same category but different namespaces
    rate_limits.add(RateLimit {
        categories: categories(&[DataCategory::MetricBucket]),
        scope: RateLimitScope::Organization(OrganizationId::new(42)),
        reason_code: None,
        retry_after: RetryAfter::from_secs(1),
        namespaces: namespaces(&[MetricNamespace::Spans]),
    });

    let limits = collect(&rate_limits);
    assert_eq!(limits.len(), 2);
    let org = RateLimitScope::Organization(OrganizationId::new(42));
    assert_limit(limits[0], &[DataCategory::MetricBucket], org, None, 1, &[MetricNamespace::Custom]);
    assert_limit(limits[1], &[DataCategory::MetricBucket], org, None, 1, &[MetricNamespace::Spans]);
}

#[test]
fn test_rate_limits_longest() {
    let mut rate_limits = RateLimits::new();

    rate_limits.add(RateLimit {
        categories: categories(&[DataCategory::Error]),
        scope: RateLimitScope::Organization(OrganizationId::new(42)),
        reason_code: Some(ReasonCode::new("first")),
        retry_after: RetryAfter::from_secs(1),
        namespaces: namespaces(&[]),
    });

    // Distinct scope to prevent deduplication
    rate_limits.add(RateLimit {
        categories: categories(&[DataCategory::Transaction]),
        scope: RateLimitScope::Organization(OrganizationId::new(42)),
        reason_code: Some(ReasonCode::new("second")),
        retry_after: RetryAfter::from_secs(10),
        namespaces: namespaces(&[]),
    });

    let rate_limit = rate_limits.longest().unwrap();
    assert_limit(
        rate_limit,
        &[DataCategory::Transaction],
        RateLimitScope::Organization(OrganizationId::new(42)),
        Some("second"),
        10,
        &[],
    );
}

#[test]
fn test_rate_limits_clean_expired() {
    let mut rate_limits = RateLimits::new();

    // Active error limit
    rate_limits.add(RateLimit {
        categories: categories(&[DataCategory::Error]),
        scope: RateLimitScope::Organization(OrganizationId::new(42)),
        reason_code: None,
        retry_after: RetryAfter::from_secs(1),
        namespaces: namespaces(&[]),
    });

    // Inactive error limit with distinct scope
    rate_limits.add(RateLimit {
        categories: categories(&[DataCategory::Error]),
        scope: RateLimitScope::Project(ProjectId::new(21)),
        reason_code: None,
        retry_after: RetryAfter::from_secs(0),
        namespaces: namespaces(&[]),
    });

    // Sanity check before running `clean_expired`
    assert_eq!(collect(&rate_limits).len(), 2);

    rate_limits.clean_expired(Instant::now());

    // Check that the expired limit has been removed
    let limits = collect(&rate_limits);
    assert_eq!(limits.len(), 1);
    assert_limit(
        limits[0],
        &[DataCategory::Error],
        RateLimitScope::Organization(OrganizationId::new(42)),
        None,
        1,
        &[],
    );
}

#[test]
fn test_rate_limits_check() {
    let mut rate_limits = RateLimits::new();

    // Active error limit
    rate_limits.add(RateLimit {
        categories: categories(&[DataCategory::Error]),
        scope: RateLimitScope::Organization(OrganizationId::new(42)),
        reason_code: None,
        retry_after: RetryAfter::from_secs(1),
        namespaces: namespaces(&[]),
    });

    // Active transaction limit
    rate_limits.add(RateLimit {
        categories: categories(&[DataCategory::Transaction]),
        scope: RateLimitScope::Organization(OrganizationId::new(42)),
        reason_code: None,
        retry_after: RetryAfter::from_secs(1),
        namespaces: namespaces(&[]),
    });

    let s = scoping(42, 21, "a94ae32be2584e0bbd7a4cbb95971fee");
    let applied_limits = rate_limits.check(ItemScoping {
        category: DataCategory::Error,
        scoping: &s,
        namespace: MetricNamespaceScoping::NoNamespace,
    });

    // Check that the error limit is applied
    let limits = collect(&applied_limits);
    assert_eq!(limits.len(), 1);
    assert_limit(
        limits[0],
        &[DataCategory::Error],
        RateLimitScope::Organization(OrganizationId::new(42)),
        None,
        1,
        &[],
    );
}

#[test]
fn test_rate_limits_check_quotas() {
    let mut rate_limits = RateLimits::new();

    // Active error limit
    rate_limits.add(RateLimit {
        categories: categories(&[DataCategory::Error]),
        scope: RateLimitScope::Organization(OrganizationId::new(42)),
        reason_code: None,
        retry_after: RetryAfter::from_secs(1),
        namespaces: namespaces(&[]),
    });

    // Active transaction limit
    rate_limits.add(RateLimit {
        categories: categories(&[DataCategory::Transaction]),
        scope: RateLimitScope::Organization(OrganizationId::new(42)),
        reason_code: None,
        retry_after: RetryAfter::from_secs(1),
        namespaces: namespaces(&[]),
    });

    let s = scoping(42, 21, "a94ae32be2584e0bbd7a4cbb95971fee");
    let item_scoping = ItemScoping {
        category: DataCategory::Error,
        scoping: &s,
        namespace: MetricNamespaceScoping::NoNamespace,
    };

    let quotas = &[Quota {
        id: None,
        categories: categories(&[DataCategory::Error]),
        scope: QuotaScope::Organization,
        scope_id: Some("42".to_owned()),
        limit: Some(0),
        window: None,
        reason_code: Some(ReasonCode::new("zero")),
        namespace: None,
    }];

    let applied_limits = rate_limits.check_with_quotas(quotas, item_scoping);

    let limits = collect(&applied_limits);
    assert_eq!(limits.len(), 1);
    assert_limit(
        limits[0],
        &[DataCategory::Error],
        RateLimitScope::Organization(OrganizationId::new(42)),
        Some("zero"),
        60,
        &[],
    );
}

#[test]
fn test_rate_limits_merge() {
    let mut rate_limits1 = RateLimits::new();
    let mut rate_limits2 = RateLimits::new();

    rate_limits1.add(RateLimit {
        categories: categories(&[DataCategory::Error]),
        scope: RateLimitScope::Organization(OrganizationId::new(42)),
        reason_code: Some(ReasonCode::new("first")),
        retry_after: RetryAfter::from_secs(1),
        namespaces: namespaces(&[]),
    });

    rate_limits1.add(RateLimit {
        categories: categories(&[DataCategory::TransactionIndexed]),
        scope: RateLimitScope::Organization(OrganizationId::new(42)),
        reason_code: None,
        retry_after: RetryAfter::from_secs(1),
        namespaces: namespaces(&[]),
    });

    rate_limits2.add(RateLimit {
        categories: categories(&[DataCategory::Error]),
        scope: RateLimitScope::Organization(OrganizationId::new(42)),
        reason_code: Some(ReasonCode::new("second")),
        retry_after: RetryAfter::from_secs(10),
        namespaces: namespaces(&[]),
    });

    rate_limits1.merge(rate_limits2);

    let limits = collect(&rate_limits1);
    assert_eq!(limits.len(), 2);
    let org = RateLimitScope::Organization(OrganizationId::new(42));
    assert_limit(limits[0], &[DataCategory::Error], org, Some("second"), 10, &[]);
    assert_limit(limits[1], &[DataCategory::TransactionIndexed], org, None, 1, &[]);
}

#[test]
fn test_cached_rate_limits_expired() {
    let mut cached = CachedRateLimits::new();

    // Active error limit
    cached.add(RateLimit {
        categories: categories(&[DataCategory::Error]),
        scope: RateLimitScope::Organization(OrganizationId::new(42)),
        reason_code: None,
        retry_after: RetryAfter::from_secs(1),
        namespaces: namespaces(&[]),
    });

    // Inactive error limit with distinct scope
    cached.add(RateLimit {
        categories: categories(&[DataCategory::Error]),
        scope: RateLimitScope::Project(ProjectId::new(21)),
        reason_code: None,
        retry_after: RetryAfter::from_secs(0),
        namespaces: namespaces(&[]),
    });

    let rate_limits = cached.current_limits();

    let limits = collect(&rate_limits);
    assert_eq!(limits.len(), 1);
    assert_limit(
        limits[0],
        &[DataCategory::Error],
        RateLimitScope::Organization(OrganizationId::new(42)),
        None,
        1,
        &[],
    );
}
