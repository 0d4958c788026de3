# relay_limits

Rate limiting for items scoped by organization, project and key, with verified contracts.

- `src/time.rs` — instants and durations in nanoseconds, and the clock.
- `src/project.rs` — organization, project and project key identifiers.
- `src/quota.rs` — data categories, metric namespaces, scopings and quotas, and how quotas match items.
- `src/rate_limit.rs` — `RetryAfter`, `RateLimit`, `RateLimits` and `CachedRateLimits`.
- `src/laws.rs` — laws of the rate limit collections (ordering of categories, distinct keys, merged maximum, checks, expiry).
- `src/metrics.rs` — bucket summaries, entity counts and the metrics limiter.
- `src/buffer.rs` — partitioning and the decisions of the envelope buffer service.
- `app/` — float parsing of delays, outcome reporting, and the asynchronous envelope buffer service that acts on the library's decisions.
