//! Rate limits for items scoped by organization, project and key, with the quotas and metric
//! buckets that they apply to.

pub mod buffer;
pub mod laws;
pub mod metrics;
pub mod project;
pub mod quota;
pub mod rate_limit;
pub mod time;
