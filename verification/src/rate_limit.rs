//! Rate limits: bounded, scoped limits that expire at an instant, and collections of them.

use std::num::ParseFloatError;
use std::sync::Arc;
use vstd::prelude::*;

use crate::project::ProjectKey;
use crate::quota::{
    category_code, clone_reason, option_namespaces, reason_view, spec_matches_categories,
    spec_matches_namespaces, spec_quota_matches, spec_scope_name, DataCategories, DataCategory,
    ItemScoping, MetricNamespace, MetricNamespaces, Quota, QuotaScope, ReasonCode, Scoping,
    REJECT_ALL_SECS,
};
use crate::laws::{matching_limits, merged_maximum, valid_limits};
use crate::time::{ceil_secs, clamp, spec_add_secs, Duration, Instant, MAX_INSTANT_NANOS, NANOS_PER_SEC};

verus! {

/// An expiration marker for rate limits.
///
/// `RetryAfter` marks an instant at which a rate limit expires. It can convert into the remaining
/// time until expiration. The instants are those of the library's clock (`Instant::now`), which
/// reads the system clock.
#[derive(Clone, Copy, Debug, PartialEq, Eq, Hash, PartialOrd, Ord)]
pub struct RetryAfter {
    when: Instant,
}

impl View for RetryAfter {
    type V = Instant;

    closed spec fn view(&self) -> Instant {
        self.when
    }
}

/// The instant at which a marker made at `now` for `seconds` expires: `seconds` after `now`, or
/// `now` itself when that instant lies beyond the clock's range.
pub open spec fn spec_expiry(seconds: u64, now: Instant) -> Instant {
    match spec_add_secs(now, seconds) {
        Some(t) => t,
        None => now,
    }
}

/// The time left until `when`, seen from `at`: none once `at` has reached `when`.
pub open spec fn spec_remaining_at(when: Instant, at: Instant) -> Option<Duration> {
    if at.nanos >= when.nanos {
        None
    } else {
        Some(Duration { nanos: (when.nanos - at.nanos) as u128 })
    }
}

/// Whether a marker for `when` has expired at `at`.
pub open spec fn spec_expired_at(when: Instant, at: Instant) -> bool {
    at.nanos >= when.nanos
}

/// The whole seconds left until `when`, seen from `at`, rounded up; zero once expired. The count is
/// held to `u64::MAX`, which no two instants within the clock's range reach.
pub open spec fn spec_remaining_seconds_at(when: Instant, at: Instant) -> nat {
    match spec_remaining_at(when, at) {
        None => 0,
        Some(d) => clamp(ceil_secs(d.nanos as nat) as int, 0, u64::MAX as int) as nat,
    }
}

impl RetryAfter {
    /// Creates a marker that expires `seconds` after `now`; if that instant lies beyond the
    /// clock's range, the marker expires at `now`.
    pub fn from_secs_at(seconds: u64, now: Instant) -> (r: Self)
        ensures
            r@ == spec_expiry(seconds, now),
    {
        match now.checked_add_secs(seconds) {
            Some(when) => RetryAfter { when },
            None => RetryAfter { when: now },
        }
    }

    /// Creates a marker that expires `seconds` from now.
    pub fn from_secs(seconds: u64) -> (r: Self)
        ensures
            exists|now: Instant| now.nanos <= MAX_INSTANT_NANOS && r@ == #[trigger] spec_expiry(seconds, now),
    {
        let now = Instant::now();
        Self::from_secs_at(seconds, now)
    }

    /// Returns the instant at which this marker expires.
    pub fn when(&self) -> (r: Instant)
        ensures
            r == self@,
    {
        self.when
    }

    /// Returns the remaining time until the rate limit expires, seen from `at`.
    pub fn remaining_at(self, at: Instant) -> (r: Option<Duration>)
        ensures
            r == spec_remaining_at(self@, at),
    {
        if at.nanos >= self.when.nanos {
            None
        } else {
            Some(Duration { nanos: self.when.nanos - at.nanos })
        }
    }

    /// Returns the remaining time until the rate limit expires.
    pub fn remaining(self) -> (r: Option<Duration>)
        ensures
            exists|now: Instant| now.nanos <= MAX_INSTANT_NANOS && r == #[trigger] spec_remaining_at(self@, now),
    {
        self.remaining_at(Instant::now())
    }

    /// Returns the remaining whole seconds until the rate limit expires, seen from `at`, rounded
    /// up to compensate for the part below one second. If the rate limit has expired, this is `0`.
    pub fn remaining_seconds_at(self, at: Instant) -> (r: u64)
        ensures
            r == spec_remaining_seconds_at(self@, at),
    {
        match self.remaining_at(at) {
            Some(duration) => {
                let secs = duration.nanos / NANOS_PER_SEC;
                let up = if duration.nanos % NANOS_PER_SEC == 0 {
                    secs
                } else {
                    assert(duration.nanos / NANOS_PER_SEC < u128::MAX) by (nonlinear_arith)
                        requires
                            duration.nanos <= u128::MAX,
                    ;
                    secs + 1
                };
                if up > u64::MAX as u128 {
                    u64::MAX
                } else {
                    up as u64
                }
            },
            None => 0,
        }
    }

    /// Returns the remaining whole seconds until the rate limit expires, rounded up; `0` once it
    /// has expired.
    pub fn remaining_seconds(self) -> (r: u64)
        ensures
            exists|now: Instant| now.nanos <= MAX_INSTANT_NANOS && r == #[trigger] spec_remaining_seconds_at(self@, now),
    {
        self.remaining_seconds_at(Instant::now())
    }

    /// Returns whether this rate limit has expired at `at`.
    pub fn expired_at(self, at: Instant) -> (r: bool)
        ensures
            r == spec_expired_at(self@, at),
            r == (spec_remaining_at(self@, at) is None),
    {
        self.remaining_at(at).is_none()
    }

    /// Returns whether this rate limit has expired.
    pub fn expired(self) -> (r: bool)
        ensures
            exists|now: Instant| now.nanos <= MAX_INSTANT_NANOS && r == #[trigger] spec_expired_at(self@, now),
    {
        self.expired_at(Instant::now())
    }

    /// Returns whether this marker expires strictly before `other`.
    pub fn is_before(&self, other: &RetryAfter) -> (r: bool)
        ensures
            r == (self@.nanos < other@.nanos),
    {
        self.when.nanos < other.when.nanos
    }
}

/// A marker has expired exactly when no time remains, and exactly when the remaining whole seconds
/// are zero.
pub proof fn law_expired_iff_no_remaining_seconds(r: RetryAfter, at: Instant)
    ensures
        spec_expired_at(r@, at) <==> spec_remaining_at(r@, at) is None,
        spec_expired_at(r@, at) <==> spec_remaining_seconds_at(r@, at) == 0,
{
    if !spec_expired_at(r@, at) {
        let n = (r@.nanos - at.nanos) as nat;
        assert(n > 0);
        assert(n % (NANOS_PER_SEC as nat) == 0 ==> n / (NANOS_PER_SEC as nat) > 0) by (nonlinear_arith)
            requires
                n > 0,
        ;
    }
}

/// Once expired, a marker stays expired at every later instant, and the remaining whole seconds
/// never grow as time passes.
pub proof fn law_expiry_is_monotonic(r: RetryAfter, t1: Instant, t2: Instant)
    requires
        t1.nanos <= t2.nanos,
    ensures
        spec_expired_at(r@, t1) ==> spec_expired_at(r@, t2),
        spec_remaining_seconds_at(r@, t2) <= spec_remaining_seconds_at(r@, t1),
{
    if !spec_expired_at(r@, t2) {
        let a = (r@.nanos - t1.nanos) as nat;
        let b = (r@.nanos - t2.nanos) as nat;
        let s = NANOS_PER_SEC as nat;
        assert(b <= a);
        assert(b / s <= a / s) by (nonlinear_arith)
            requires
                b <= a,
                s > 0,
        ;
        assert(b % s != 0 && a % s == 0 ==> b / s < a / s) by (nonlinear_arith)
            requires
                b <= a,
                s > 0,
        ;
    }
}

/// A marker made for `seconds` at `now` reports exactly `seconds` remaining whole seconds at
/// `now`, when its expiry instant can be represented.
pub proof fn law_from_secs_round_trip(seconds: u64, now: Instant)
    requires
        spec_add_secs(now, seconds) is Some,
    ensures
        spec_remaining_seconds_at(spec_expiry(seconds, now), now) == seconds,
{
    let s = NANOS_PER_SEC as nat;
    let n = (seconds as nat) * s;
    assert(n % s == 0 && n / s == seconds) by (nonlinear_arith)
        requires
            n == (seconds as nat) * s,
            s > 0,
    ;
    if seconds == 0 {
        assert(spec_expired_at(spec_expiry(seconds, now), now));
    }
}

#[verifier::external_type_specification]
#[verifier::external_body]
pub struct ExParseFloatError(ParseFloatError);

/// Error parsing a `RetryAfter`.
#[derive(Debug)]
pub enum InvalidRetryAfter {
    /// The supplied delay in seconds was not valid.
    InvalidDelay(ParseFloatError),
}

/// The scope that a rate limit applied to.
///
/// As opposed to `QuotaScope`, which only declares the class of the scope, this also carries the
/// identifier of the scope instance.
#[derive(Clone, Copy, Debug, PartialEq, Eq, Hash, Structural)]
pub enum RateLimitScope {
    /// Global scope.
    Global,
    /// An organization with identifier.
    Organization(crate::project::OrganizationId),
    /// A project with identifier.
    Project(crate::project::ProjectId),
    /// A DSN public key.
    Key(ProjectKey),
}

/// The rate limiting scope of an item's scoping for a class of quota scope; an unknown class is
/// taken as the most specific scope, the key.
pub open spec fn spec_scope_for_quota(scoping: Scoping, scope: QuotaScope) -> RateLimitScope {
    match scope {
        QuotaScope::Global => RateLimitScope::Global,
        QuotaScope::Organization => RateLimitScope::Organization(scoping.organization_id),
        QuotaScope::Project => RateLimitScope::Project(scoping.project_id),
        QuotaScope::Key => RateLimitScope::Key(scoping.project_key),
        QuotaScope::Unknown => RateLimitScope::Key(scoping.project_key),
    }
}

/// The class of quota scope that a rate limiting scope belongs to.
pub open spec fn spec_scope_class(scope: RateLimitScope) -> QuotaScope {
    match scope {
        RateLimitScope::Global => QuotaScope::Global,
        RateLimitScope::Organization(_) => QuotaScope::Organization,
        RateLimitScope::Project(_) => QuotaScope::Project,
        RateLimitScope::Key(_) => QuotaScope::Key,
    }
}

/// Whether a rate limiting scope covers an item's scoping.
pub open spec fn spec_scope_matches(scope: RateLimitScope, scoping: Scoping) -> bool {
    match scope {
        RateLimitScope::Global => true,
        RateLimitScope::Organization(org) => scoping.organization_id == org,
        RateLimitScope::Project(project) => scoping.project_id == project,
        RateLimitScope::Key(key) => scoping.project_key == key,
    }
}

impl RateLimitScope {
    /// Extracts a rate limiting scope from the given item scoping for a specific quota.
    pub fn for_quota(scoping: &Scoping, scope: QuotaScope) -> (r: Self)
        ensures
            r == spec_scope_for_quota(*scoping, scope),
    {
        match scope {
            QuotaScope::Global => RateLimitScope::Global,
            QuotaScope::Organization => RateLimitScope::Organization(scoping.organization_id),
            QuotaScope::Project => RateLimitScope::Project(scoping.project_id),
            QuotaScope::Key => RateLimitScope::Key(scoping.project_key),
            QuotaScope::Unknown => RateLimitScope::Key(scoping.project_key),
        }
    }

    /// Returns the canonical name of this scope.
    pub fn name(&self) -> (r: &'static str)
        ensures
            r@ == spec_scope_name(spec_scope_class(*self)),
    {
        match self {
            RateLimitScope::Global => QuotaScope::Global.name(),
            RateLimitScope::Key(_) => QuotaScope::Key.name(),
            RateLimitScope::Project(_) => QuotaScope::Project.name(),
            RateLimitScope::Organization(_) => QuotaScope::Organization.name(),
        }
    }

    /// Returns `true` if this scope covers the given item's scoping.
    fn matches_scoping(&self, scoping: &Scoping) -> (r: bool)
        ensures
            r == spec_scope_matches(*self, *scoping),
    {
        match self {
            RateLimitScope::Global => true,
            RateLimitScope::Organization(org) => scoping.organization_id == *org,
            RateLimitScope::Project(project) => scoping.project_id == *project,
            RateLimitScope::Key(key) => scoping.project_key == *key,
        }
    }
}

/// What a rate limit states, as plain values.
pub ghost struct RateLimitView {
    pub categories: Seq<DataCategory>,
    pub scope: RateLimitScope,
    pub reason_code: Option<Seq<char>>,
    pub retry_after: Instant,
    pub namespaces: Seq<MetricNamespace>,
}

/// A bounded rate limit.
#[derive(Debug, PartialEq)]
pub struct RateLimit {
    /// A set of data categories that this quota applies to. If empty, this rate limit applies to
    /// all data.
    pub categories: DataCategories,
    /// The scope of this rate limit.
    pub scope: RateLimitScope,
    /// A machine readable reason indicating which quota caused it.
    pub reason_code: Option<ReasonCode>,
    /// A marker when this rate limit expires.
    pub retry_after: RetryAfter,
    /// The metric namespaces of this rate limit.
    ///
    /// Ignored on all data categories except for `MetricBucket`. If empty, this rate limit applies
    /// to metrics of all namespaces.
    pub namespaces: MetricNamespaces,
}

impl View for RateLimit {
    type V = RateLimitView;

    open spec fn view(&self) -> RateLimitView {
        RateLimitView {
            categories: self.categories@,
            scope: self.scope,
            reason_code: reason_view(self.reason_code),
            retry_after: self.retry_after@,
            namespaces: self.namespaces@,
        }
    }
}

impl Clone for RateLimit {
    fn clone(&self) -> (r: Self)
        ensures
            r@ == self@,
    {
        RateLimit {
            categories: self.categories.clone(),
            scope: self.scope,
            reason_code: clone_reason(&self.reason_code),
            retry_after: self.retry_after,
            namespaces: self.namespaces.clone(),
        }
    }
}

/// The rate limit that a quota yields for an item's scoping, expiring at `when`.
pub open spec fn spec_limit_from_quota(quota: Quota, scoping: Scoping, when: Instant) -> RateLimitView {
    RateLimitView {
        categories: quota.categories@,
        scope: spec_scope_for_quota(scoping, quota.scope),
        reason_code: reason_view(quota.reason_code),
        retry_after: when,
        namespaces: option_namespaces(quota.namespace),
    }
}

/// Whether a rate limit applies to an item: its scope, categories and namespaces all cover it.
pub open spec fn spec_limit_matches(limit: RateLimitView, item: ItemScoping) -> bool {
    &&& spec_scope_matches(limit.scope, *item.scoping)
    &&& spec_matches_categories(item.category, limit.categories)
    &&& spec_matches_namespaces(item.namespace, limit.namespaces)
}

impl RateLimit {
    /// Creates a new rate limit for the given `Quota`.
    pub fn from_quota(quota: &Quota, scoping: &Scoping, retry_after: RetryAfter) -> (r: Self)
        ensures
            r@ == spec_limit_from_quota(*quota, *scoping, retry_after@),
    {
        let namespaces = match quota.namespace {
            Some(n) => {
                let mut v: Vec<MetricNamespace> = Vec::new();
                v.push(n);
                MetricNamespaces::from_vec(v)
            },
            None => MetricNamespaces::new(),
        };
        proof {
            assert(namespaces@ =~= option_namespaces(quota.namespace));
        }
        RateLimit {
            categories: quota.categories.clone(),
            scope: RateLimitScope::for_quota(scoping, quota.scope),
            reason_code: clone_reason(&quota.reason_code),
            retry_after,
            namespaces,
        }
    }

    /// Checks whether the rate limit applies to the given item.
    pub fn matches(&self, item: ItemScoping<'_>) -> (r: bool)
        ensures
            r == spec_limit_matches(self@, item),
    {
        self.scope.matches_scoping(item.scoping) && item.matches_categories(&self.categories)
            && item.matches_namespaces(self.namespaces.as_slice())
    }
}

/// `s` with `x` placed before the first item whose code is not below `x`'s.
pub open spec fn insert_sorted(x: DataCategory, s: Seq<DataCategory>) -> Seq<DataCategory>
    decreases s.len(),
{
    if s.len() == 0 {
        seq![x]
    } else if category_code(x) <= category_code(s[0]) {
        seq![x] + s
    } else {
        seq![s[0]] + insert_sorted(x, s.drop_first())
    }
}

/// The categories of `s` ordered by their codes, by insertion from the front.
pub open spec fn sort_categories(s: Seq<DataCategory>) -> Seq<DataCategory>
    decreases s.len(),
{
    if s.len() == 0 {
        s
    } else {
        insert_sorted(s.last(), sort_categories(s.drop_last()))
    }
}

/// Whether the codes of `s` never decrease.
pub open spec fn categories_sorted(s: Seq<DataCategory>) -> bool {
    forall|i: int, j: int| 0 <= i <= j < s.len() ==> category_code(s[i]) <= category_code(s[j])
}

proof fn lemma_insert_sorted_at(x: DataCategory, s: Seq<DataCategory>, p: int)
    requires
        0 <= p <= s.len(),
        forall|j: int| 0 <= j < p ==> category_code(s[j]) < category_code(x),
        p < s.len() ==> category_code(x) <= category_code(s[p]),
    ensures
        insert_sorted(x, s) == s.insert(p, x),
    decreases s.len(),
{
    if s.len() == 0 {
        assert(s.insert(p, x) =~= seq![x]);
    } else if p == 0 {
        assert(s.insert(p, x) =~= seq![x] + s);
    } else {
        let t = s.drop_first();
        assert forall|j: int| 0 <= j < p - 1 implies category_code(t[j]) < category_code(x) by {
            assert(t[j] == s[j + 1]);
        }
        lemma_insert_sorted_at(x, t, p - 1);
        assert(seq![s[0]] + t.insert(p - 1, x) =~= s.insert(p, x));
    }
}

/// Inserts `x` into `v` before the first item whose code is not below `x`'s.
fn insert_category(v: &mut Vec<DataCategory>, x: DataCategory)
    ensures
        final(v)@ == insert_sorted(x, old(v)@),
{
    let mut p: usize = 0;
    let xc = x.code();
    while p < v.len()
        invariant
            p <= v@.len(),
            xc == category_code(x),
            forall|j: int| 0 <= j < p ==> category_code(v@[j]) < category_code(x),
        ensures
            p <= v@.len(),
            forall|j: int| 0 <= j < p ==> category_code(v@[j]) < category_code(x),
            p < v@.len() ==> category_code(x) <= category_code(v@[p as int]),
        decreases v@.len() - p,
    {
        if xc <= v[p].code() {
            break;
        }
        p = p + 1;
    }
    proof {
        lemma_insert_sorted_at(x, v@, p as int);
    }
    v.insert(p, x);
}

/// Returns the categories of `c` ordered by their codes.
fn sorted_categories(c: &DataCategories) -> (r: DataCategories)
    ensures
        r@ == sort_categories(c@),
{
    let s = c.as_slice();
    let mut out: Vec<DataCategory> = Vec::new();
    let mut i: usize = 0;
    while i < s.len()
        invariant
            i <= s@.len(),
            out@ == sort_categories(s@.take(i as int)),
        decreases s@.len() - i,
    {
        proof {
            let t = s@.take(i + 1);
            assert(t.drop_last() =~= s@.take(i as int));
            assert(t.last() == s@[i as int]);
        }
        insert_category(&mut out, s[i]);
        i = i + 1;
    }
    proof {
        assert(s@.take(s@.len() as int) =~= s@);
    }
    DataCategories::from_vec(out)
}

/// Whether two rate limits are stated over the same categories, scope and namespaces.
pub open spec fn same_key(a: RateLimitView, b: RateLimitView) -> bool {
    &&& a.categories == b.categories
    &&& a.scope == b.scope
    &&& a.namespaces == b.namespaces
}

/// The first index at or after `i` of a limit in `s` with the same key as `l`.
pub open spec fn key_index_from(s: Seq<RateLimitView>, l: RateLimitView, i: int) -> Option<int>
    decreases s.len() - i,
{
    if i < 0 || i >= s.len() {
        None
    } else if same_key(s[i], l) {
        Some(i)
    } else {
        key_index_from(s, l, i + 1)
    }
}

/// A limit with its categories put in order.
pub open spec fn with_sorted_categories(l: RateLimitView) -> RateLimitView {
    RateLimitView { categories: sort_categories(l.categories), ..l }
}

/// The limits `s` after adding `limit`: its categories are put in order; if a limit with the same
/// key exists, the first such one is replaced when it expires strictly earlier and kept otherwise;
/// if none exists, the limit is appended.
pub open spec fn spec_add(s: Seq<RateLimitView>, limit: RateLimitView) -> Seq<RateLimitView> {
    let l = with_sorted_categories(limit);
    match key_index_from(s, l, 0) {
        None => s.push(l),
        Some(i) => if s[i].retry_after.nanos < l.retry_after.nanos {
            s.update(i, l)
        } else {
            s
        },
    }
}

/// The limits `s` after adding every limit of `t`, in order.
pub open spec fn spec_merge(s: Seq<RateLimitView>, t: Seq<RateLimitView>) -> Seq<RateLimitView>
    decreases t.len(),
{
    if t.len() == 0 {
        s
    } else {
        spec_add(spec_merge(s, t.drop_last()), t.last())
    }
}

/// The limits of `s` that have not expired at `now`, in order.
pub open spec fn spec_active(s: Seq<RateLimitView>, now: Instant) -> Seq<RateLimitView>
    decreases s.len(),
{
    if s.len() == 0 {
        s
    } else {
        let rest = spec_active(s.drop_last(), now);
        if spec_expired_at(s.last().retry_after, now) {
            rest
        } else {
            rest.push(s.last())
        }
    }
}

/// Whether some limit of `s` has not expired at `now`.
pub open spec fn spec_any_active(s: Seq<RateLimitView>, now: Instant) -> bool {
    exists|i: int| 0 <= i < s.len() && !spec_expired_at(#[trigger] s[i].retry_after, now)
}

/// `acc` after adding, in order, the limit of every quota in `quotas` that has a limit of zero and
/// applies to the item, each expiring at `when`.
pub open spec fn spec_add_zero_quotas(
    acc: Seq<RateLimitView>,
    quotas: Seq<Quota>,
    item: ItemScoping,
    when: Instant,
) -> Seq<RateLimitView>
    decreases quotas.len(),
{
    if quotas.len() == 0 {
        acc
    } else {
        let prev = spec_add_zero_quotas(acc, quotas.drop_last(), item, when);
        let q = quotas.last();
        if q.limit == Some(0u64) && spec_quota_matches(q, item) {
            spec_add(prev, spec_limit_from_quota(q, *item.scoping, when))
        } else {
            prev
        }
    }
}

/// `acc` after adding, in order, every limit of `s` that applies to the item.
pub open spec fn spec_add_matching(
    acc: Seq<RateLimitView>,
    s: Seq<RateLimitView>,
    item: ItemScoping,
) -> Seq<RateLimitView>
    decreases s.len(),
{
    if s.len() == 0 {
        acc
    } else {
        let prev = spec_add_matching(acc, s.drop_last(), item);
        if spec_limit_matches(s.last(), item) {
            spec_add(prev, s.last())
        } else {
            prev
        }
    }
}

/// The limits that apply to an item: those of quotas with a limit of zero that apply to it, each
/// rejecting until `reject_until`, then those of `s` that apply to it.
pub open spec fn spec_check(
    s: Seq<RateLimitView>,
    quotas: Seq<Quota>,
    item: ItemScoping,
    reject_until: Instant,
) -> Seq<RateLimitView> {
    spec_add_matching(spec_add_zero_quotas(Seq::empty(), quotas, item, reject_until), s, item)
}

/// The index of the limit that expires last; among equals, the last one.
pub open spec fn spec_longest_index(s: Seq<RateLimitView>) -> int
    decreases s.len(),
{
    if s.len() <= 1 {
        0
    } else {
        let k = spec_longest_index(s.drop_last());
        if s.last().retry_after.nanos >= s[k].retry_after.nanos {
            s.len() - 1
        } else {
            k
        }
    }
}

/// A collection of scoped rate limits.
///
/// This collection may be empty, indicated by `is_ok`. If it carries rate limits, they can be
/// walked with `iter`, and checked for items with `check`.
#[derive(Debug)]
pub struct RateLimits {
    limits: Vec<RateLimit>,
}

impl View for RateLimits {
    type V = Seq<RateLimitView>;

    closed spec fn view(&self) -> Seq<RateLimitView> {
        self.limits@.map_values(|l: RateLimit| l@)
    }
}

impl RateLimits {
    /// No two limits share a key, and the categories of each limit are in order: `new` starts
    /// with no limits, and every change goes through `add` or removes limits.
    #[verifier::type_invariant]
    spec fn well_formed(self) -> bool {
        valid_limits(self@)
    }
}

proof fn lemma_key_index_found(s: Seq<RateLimitView>, l: RateLimitView, k: int, i: int)
    requires
        0 <= k <= i < s.len(),
        same_key(s[i], l),
        forall|j: int| k <= j < i ==> !same_key(#[trigger] s[j], l),
    ensures
        key_index_from(s, l, k) == Some(i),
    decreases i - k,
{
    if k < i {
        lemma_key_index_found(s, l, k + 1, i);
    }
}

proof fn lemma_key_index_none(s: Seq<RateLimitView>, l: RateLimitView, k: int)
    requires
        0 <= k <= s.len(),
        forall|j: int| k <= j < s.len() ==> !same_key(#[trigger] s[j], l),
    ensures
        key_index_from(s, l, k) is None,
    decreases s.len() - k,
{
    if k < s.len() {
        lemma_key_index_none(s, l, k + 1);
    }
}

/// Adds a limit to the limits `limits`, as `RateLimits::add` does.
fn add_to(limits: &mut Vec<RateLimit>, limit: RateLimit)
    ensures
        final(limits)@.map_values(|l: RateLimit| l@) == spec_add(
            old(limits)@.map_values(|l: RateLimit| l@),
            limit@,
        ),
{
    let ghost old_view = limits@.map_values(|l: RateLimit| l@);
    let ghost orig = limit@;
    let mut new_limit = limit;
    // Categories are logically a set, but not implemented as such.
    new_limit.categories = sorted_categories(&new_limit.categories);
    assert(new_limit@ == with_sorted_categories(orig));
    let mut i: usize = 0;
    while i < limits.len()
        invariant
            i <= limits@.len(),
            limits@.map_values(|l: RateLimit| l@) == old_view,
            old(limits)@.map_values(|l: RateLimit| l@) == old_view,
            orig == limit@,
            new_limit@ == with_sorted_categories(orig),
            forall|j: int| 0 <= j < i ==> !same_key(#[trigger] old_view[j], new_limit@),
        decreases limits@.len() - i,
    {
        let same = limits[i].categories.same_items(&new_limit.categories)
            && limits[i].scope == new_limit.scope
            && limits[i].namespaces.same_items(&new_limit.namespaces);
        assert(old_view[i as int] == limits@[i as int]@);
        if same {
            proof {
                lemma_key_index_found(old_view, new_limit@, 0, i as int);
            }
            let ghost l = new_limit@;
            assert(key_index_from(old_view, with_sorted_categories(orig), 0) == Some(i as int));
            if limits[i].retry_after.is_before(&new_limit.retry_after) {
                limits[i] = new_limit;
                proof {
                    assert(limits@.map_values(|l: RateLimit| l@) =~= old_view.update(i as int, l));
                }
                assert(limits@.map_values(|l: RateLimit| l@) == spec_add(old_view, orig));
            } else {
                assert(limits@.map_values(|l: RateLimit| l@) == spec_add(old_view, orig));
            }
            return;
        }
        i = i + 1;
    }
    proof {
        lemma_key_index_none(old_view, new_limit@, 0);
    }
    let ghost l = new_limit@;
    limits.push(new_limit);
    proof {
        assert(limits@.map_values(|l: RateLimit| l@) =~= old_view.push(l));
    }
}

impl Clone for RateLimits {
    fn clone(&self) -> (r: Self)
        ensures
            r@ == self@,
    {
        let mut limits: Vec<RateLimit> = Vec::new();
        let mut i: usize = 0;
        while i < self.limits.len()
            invariant
                i <= self.limits@.len(),
                limits@.len() == i,
                forall|j: int| 0 <= j < i ==> (#[trigger] limits@[j])@ == self.limits@[j]@,
            decreases self.limits@.len() - i,
        {
            limits.push(self.limits[i].clone());
            i = i + 1;
        }
        proof {
            use_type_invariant(self);
            assert(limits@.map_values(|l: RateLimit| l@) =~= self@);
        }
        RateLimits { limits }
    }
}

impl Default for RateLimits {
    fn default() -> (r: Self)
        ensures
            r@ == Seq::<RateLimitView>::empty(),
    {
        RateLimits::new()
    }
}

impl RateLimits {
    /// Creates an empty instance.
    pub fn new() -> (r: Self)
        ensures
            r@ == Seq::<RateLimitView>::empty(),
    {
        let r = RateLimits { limits: Vec::new() };
        proof {
            assert(r@ =~= Seq::<RateLimitView>::empty());
        }
        r
    }

    /// Adds a limit to this collection.
    ///
    /// If a rate limit with an overlapping scope already exists, the `retry_after` count is merged
    /// with the existing limit. Otherwise, the new rate limit is added.
    pub fn add(&mut self, limit: RateLimit)
        ensures
            final(self)@ == spec_add(old(self)@, limit@),
            valid_limits(final(self)@),
    {
        proof {
            use_type_invariant(&*self);
            crate::laws::law_add_keeps_keys_distinct(self@, limit@);
            crate::laws::law_add_keeps_categories_sorted(self@, limit@);
        }
        let mut limits: Vec<RateLimit> = Vec::new();
        std::mem::swap(&mut limits, &mut self.limits);
        add_to(&mut limits, limit);
        self.limits = limits;
    }

    /// Merges all limits into this instance.
    ///
    /// This keeps all existing rate limits, adding new ones, and updating ones with a longer
    /// `retry_after` count. The resulting `RateLimits` contains the merged maximum.
    pub fn merge(&mut self, limits: Self)
        ensures
            final(self)@ == spec_merge(old(self)@, limits@),
            merged_maximum(final(self)@, old(self)@, limits@),
            valid_limits(final(self)@),
    {
        proof {
            use_type_invariant(&*self);
            crate::laws::law_merge_exact(self@, limits@);
            crate::laws::law_merge_keeps_valid(self@, limits@);
        }
        let ghost t = limits@;
        let mut it = limits.into_iter();
        proof {
            assert(t.take(0) =~= Seq::<RateLimitView>::empty());
        }
        while it.has_next()
            invariant
                it@.len() <= t.len(),
                it@ =~= t.skip(t.len() - it@.len()),
                self@ == spec_merge(old(self)@, t.take(t.len() - it@.len())),
            decreases it@.len(),
        {
            let ghost k = t.len() - it@.len();
            let limit = it.next_limit();
            proof {
                assert(t.take(k + 1).drop_last() =~= t.take(k));
                assert(t.take(k + 1).last() == t[k]);
                assert(it@ =~= t.skip(k + 1));
            }
            self.add(limit);
        }
        proof {
            assert(t.take(t.len() as int) =~= t);
        }
    }

    /// Returns `true` if this instance contains no active limits at `now`.
    pub fn is_ok_at(&self, now: Instant) -> (r: bool)
        ensures
            r == !spec_any_active(self@, now),
    {
        !self.is_limited_at(now)
    }

    /// Returns `true` if this instance contains no active limits.
    pub fn is_ok(&self) -> (r: bool)
        ensures
            exists|now: Instant| now.nanos <= MAX_INSTANT_NANOS && r == !spec_any_active(self@, now),
    {
        !self.is_limited()
    }

    /// Returns `true` if this instance contains limits that are active at `now`.
    pub fn is_limited_at(&self, now: Instant) -> (r: bool)
        ensures
            r == spec_any_active(self@, now),
    {
        let mut i: usize = 0;
        while i < self.limits.len()
            invariant
                i <= self.limits@.len(),
                forall|j: int| 0 <= j < i ==> spec_expired_at(#[trigger] self@[j].retry_after, now),
            decreases self.limits@.len() - i,
        {
            assert(self@[i as int] == self.limits@[i as int]@);
            if !self.limits[i].retry_after.expired_at(now) {
                assert(!spec_expired_at(self@[i as int].retry_after, now));
                return true;
            }
            i = i + 1;
        }
        false
    }

    /// Returns `true` if this instance contains active rate limits.
    pub fn is_limited(&self) -> (r: bool)
        ensures
            exists|now: Instant| now.nanos <= MAX_INSTANT_NANOS && r == #[trigger] spec_any_active(self@, now),
    {
        let now = Instant::now();
        self.is_limited_at(now)
    }

    /// Removes expired rate limits from this instance.
    pub fn clean_expired(&mut self, now: Instant)
        ensures
            final(self)@ == spec_active(old(self)@, now),
            valid_limits(final(self)@),
    {
        proof {
            use_type_invariant(&*self);
        }
        let ghost s = self@;
        let mut kept: Vec<RateLimit> = Vec::new();
        assert(s.len() == self.limits@.len());
        assert(s.len() <= usize::MAX) by {
            assert(self.limits@.len() == self.limits.len());
        }
        let mut it: Vec<RateLimit> = Vec::new();
        std::mem::swap(&mut it, &mut self.limits);
        assert(it@.map_values(|l: RateLimit| l@) == s);
        let mut stack: Vec<RateLimit> = Vec::new();
        // Reverse the limits so that popping yields them in their first order.
        while it.len() > 0
            invariant
                it@.len() + stack@.len() == s.len(),
                s.len() <= usize::MAX,
                forall|j: int| 0 <= j < it@.len() ==> (#[trigger] it@[j])@ == s[j],
                forall|j: int|
                    0 <= j < stack@.len() ==> (#[trigger] stack@[j])@ == s[s.len() - 1 - j],
            decreases it@.len(),
        {
            let l = it.pop().unwrap();
            stack.push(l);
        }
        let mut done: usize = 0;
        assert(s.take(0) =~= Seq::<RateLimitView>::empty());
        while stack.len() > 0
            invariant
                done + stack@.len() == s.len(),
                s.len() <= usize::MAX,
                forall|j: int|
                    0 <= j < stack@.len() ==> (#[trigger] stack@[j])@ == s[s.len() - 1 - j],
                kept@.map_values(|l: RateLimit| l@) == spec_active(s.take(done as int), now),
            decreases stack@.len(),
        {
            let l = stack.pop().unwrap();
            let ghost lv = l@;
            proof {
                assert(lv == s[done as int]);
                assert(s.take(done + 1).drop_last() =~= s.take(done as int));
                assert(s.take(done + 1).last() == s[done as int]);
            }
            let ghost before = kept@.map_values(|l: RateLimit| l@);
            if !l.retry_after.expired_at(now) {
                kept.push(l);
                proof {
                    assert(kept@.map_values(|l: RateLimit| l@) =~= before.push(lv));
                }
            }
            done = done + 1;
        }
        proof {
            assert(s.take(s.len() as int) =~= s);
            crate::laws::law_active_keeps_valid(s, now);
        }
        self.limits = kept;
    }

    /// Checks whether any rate limits apply to the given scoping.
    ///
    /// If no limits match, then the returned `RateLimits` instance evaluates `is_ok`. Otherwise, it
    /// contains rate limits that match the given scoping.
    pub fn check(&self, scoping: ItemScoping<'_>) -> (r: Self)
        ensures
            r@ == spec_add_matching(Seq::empty(), self@, scoping),
            r@ == matching_limits(self@, scoping),
    {
        proof {
            use_type_invariant(self);
            crate::laws::law_check_is_filter(self@, scoping, Instant { nanos: 0 });
        }
        let none: Vec<Quota> = Vec::new();
        let r = self.check_with_quotas_at(none.as_slice(), scoping, Instant::from_nanos(0));
        proof {
            assert(none@ =~= Seq::<Quota>::empty());
        }
        r
    }

    /// Checks whether any rate limits apply to the given scoping, also rejecting items for quotas
    /// with a static limit of zero until `REJECT_ALL_SECS` after `now`.
    ///
    /// If no limits or quotas match, then the returned `RateLimits` instance evaluates `is_ok`.
    /// Otherwise, it contains rate limits that match the given scoping.
    pub fn check_with_quotas_at(&self, quotas: &[Quota], scoping: ItemScoping<'_>, now: Instant) -> (r: Self)
        ensures
            r@ == spec_check(self@, quotas@, scoping, spec_expiry(REJECT_ALL_SECS, now)),
            valid_limits(r@),
    {
        let mut applied = RateLimits::new();
        let retry_after = RetryAfter::from_secs_at(REJECT_ALL_SECS, now);
        let ghost when = spec_expiry(REJECT_ALL_SECS, now);
        let mut i: usize = 0;
        assert(quotas@.take(0) =~= Seq::<Quota>::empty());
        while i < quotas.len()
            invariant
                i <= quotas@.len(),
                retry_after@ == when,
                applied@ == spec_add_zero_quotas(Seq::empty(), quotas@.take(i as int), scoping, when),
            decreases quotas@.len() - i,
        {
            let quota = &quotas[i];
            proof {
                assert(quotas@.take(i + 1).drop_last() =~= quotas@.take(i as int));
                assert(quotas@.take(i + 1).last() == quotas@[i as int]);
            }
            if quota.limit == Some(0u64) && quota.matches(scoping) {
                applied.add(RateLimit::from_quota(quota, scoping.scoping, retry_after));
            }
            i = i + 1;
        }
        proof {
            assert(quotas@.take(quotas@.len() as int) =~= quotas@);
        }
        let ghost base = applied@;
        let mut j: usize = 0;
        assert(self@.take(0) =~= Seq::<RateLimitView>::empty());
        while j < self.limits.len()
            invariant
                j <= self.limits@.len(),
                applied@ == spec_add_matching(base, self@.take(j as int), scoping),
            decreases self.limits@.len() - j,
        {
            let limit = &self.limits[j];
            proof {
                assert(self@.take(j + 1).drop_last() =~= self@.take(j as int));
                assert(self@.take(j + 1).last() == self@[j as int]);
                assert(self@[j as int] == self.limits@[j as int]@);
            }
            if limit.matches(scoping) {
                applied.add(limit.clone());
            }
            j = j + 1;
        }
        proof {
            assert(self@.take(self@.len() as int) =~= self@);
            use_type_invariant(&applied);
        }
        applied
    }

    /// Checks whether any rate limits apply to the given scoping, also rejecting items for quotas
    /// with a static limit of zero even if there is no active rate limit in this instance.
    ///
    /// If no limits or quotas match, then the returned `RateLimits` instance evaluates `is_ok`.
    /// Otherwise, it contains rate limits that match the given scoping.
    pub fn check_with_quotas(&self, quotas: &[Quota], scoping: ItemScoping<'_>) -> (r: Self)
        ensures
            exists|now: Instant|
                now.nanos <= MAX_INSTANT_NANOS && r@ == #[trigger] spec_check(self@, quotas@, scoping, spec_expiry(REJECT_ALL_SECS, now)),
    {
        let now = Instant::now();
        self.check_with_quotas_at(quotas, scoping, now)
    }

    /// Returns an iterator over the rate limits.
    pub fn iter(&self) -> (r: RateLimitsIter<'_>)
        ensures
            r@ == self@,
    {
        let r = RateLimitsIter { limits: self.limits.as_slice(), next: 0 };
        proof {
            assert(r@ =~= self@);
        }
        r
    }

    /// Returns the longest rate limit.
    ///
    /// If multiple rate limits have the same retry after count, the last of them is returned.
    pub fn longest(&self) -> (r: Option<&RateLimit>)
        ensures
            r is None <==> self@.len() == 0,
            r matches Some(l) ==> l@ == self@[spec_longest_index(self@)],
    {
        if self.limits.len() == 0 {
            return None;
        }
        let mut best: usize = 0;
        let mut i: usize = 1;
        proof {
            assert(self@.take(1).len() == 1);
        }
        while i < self.limits.len()
            invariant
                1 <= i <= self.limits@.len(),
                best < i,
                best == spec_longest_index(self@.take(i as int)),
            decreases self.limits@.len() - i,
        {
            proof {
                let t = self@.take(i + 1);
                assert(t.drop_last() =~= self@.take(i as int));
                assert(t.last() == self.limits@[i as int]@);
                assert(t[best as int] == self.limits@[best as int]@);
            }
            if self.limits[i].retry_after.when.nanos >= self.limits[best].retry_after.when.nanos {
                best = i;
            }
            i = i + 1;
        }
        proof {
            assert(self@.take(i as int) =~= self@);
        }
        Some(&self.limits[best])
    }

    /// Returns `true` if any limit is contained.
    ///
    /// This is equivalent to `longest` returning `Some`, or to `iter` yielding at least one
    /// item.
    pub fn is_empty(&self) -> (r: bool)
        ensures
            r == (self@.len() > 0),
    {
        self.limits.len() > 0
    }

    /// Moves the rate limits out, in order.
    pub fn into_iter(self) -> (r: RateLimitsIntoIter)
        ensures
            r@ == self@,
    {
        let ghost s = self@;
        let mut v = self.limits;
        let mut stack: Vec<RateLimit> = Vec::new();
        while v.len() > 0
            invariant
                v@.len() + stack@.len() == s.len(),
                forall|j: int| 0 <= j < v@.len() ==> (#[trigger] v@[j])@ == s[j],
                forall|j: int|
                    0 <= j < stack@.len() ==> (#[trigger] stack@[j])@ == s[s.len() - 1 - j],
            decreases v@.len(),
        {
            let l = v.pop().unwrap();
            stack.push(l);
        }
        let r = RateLimitsIntoIter { stack };
        proof {
            assert(r@ =~= s);
        }
        r
    }
}

/// Immutable rate limits iterator, created by `RateLimits::iter`.
pub struct RateLimitsIter<'a> {
    limits: &'a [RateLimit],
    next: usize,
}

impl<'a> View for RateLimitsIter<'a> {
    type V = Seq<RateLimitView>;

    /// The limits not yet yielded, in order.
    closed spec fn view(&self) -> Seq<RateLimitView> {
        if self.next <= self.limits@.len() {
            self.limits@.skip(self.next as int).map_values(|l: RateLimit| l@)
        } else {
            Seq::empty()
        }
    }
}

impl<'a> RateLimitsIter<'a> {
    /// Yields the next limit, if any is left.
    pub fn next(&mut self) -> (r: Option<&'a RateLimit>)
        ensures
            old(self)@.len() == 0 ==> r is None && final(self)@ == old(self)@,
            old(self)@.len() > 0 ==> (r matches Some(l) && l@ == old(self)@[0]),
            old(self)@.len() > 0 ==> final(self)@ == old(self)@.drop_first(),
    {
        if self.next < self.limits.len() {
            let l = &self.limits[self.next];
            proof {
                assert(old(self)@[0] == self.limits@[self.next as int]@);
            }
            self.next = self.next + 1;
            proof {
                assert(self@ =~= old(self)@.drop_first());
            }
            Some(l)
        } else {
            None
        }
    }
}

/// An iterator that moves out of `RateLimits`, created by `RateLimits::into_iter`.
pub struct RateLimitsIntoIter {
    stack: Vec<RateLimit>,
}

impl View for RateLimitsIntoIter {
    type V = Seq<RateLimitView>;

    /// The limits not yet yielded, in order.
    closed spec fn view(&self) -> Seq<RateLimitView> {
        self.stack@.reverse().map_values(|l: RateLimit| l@)
    }
}

impl RateLimitsIntoIter {
    /// Whether a limit is left.
    pub fn has_next(&self) -> (r: bool)
        ensures
            r == (self@.len() > 0),
    {
        self.stack.len() > 0
    }

    /// Yields the next limit; one must be left.
    fn next_limit(&mut self) -> (r: RateLimit)
        requires
            old(self)@.len() > 0,
        ensures
            r@ == old(self)@[0],
            final(self)@ == old(self)@.drop_first(),
    {
        let ghost before = self.stack@;
        let l = self.stack.pop().unwrap();
        proof {
            assert(self.stack@ =~= before.drop_last());
            assert(self@ =~= old(self)@.drop_first());
        }
        l
    }

    /// Yields the next limit, if any is left.
    pub fn next(&mut self) -> (r: Option<RateLimit>)
        ensures
            old(self)@.len() == 0 ==> r is None && final(self)@ == old(self)@,
            old(self)@.len() > 0 ==> (r matches Some(l) && l@ == old(self)@[0]),
            old(self)@.len() > 0 ==> final(self)@ == old(self)@.drop_first(),
    {
        if self.stack.len() > 0 {
            Some(self.next_limit())
        } else {
            None
        }
    }
}


/// Like `RateLimits`, a collection of scoped rate limits, but with the checks needed to cache
/// them: no expired rate limit is handed out.
#[derive(Debug)]
pub struct CachedRateLimits {
    limits: RateLimits,
}

impl View for CachedRateLimits {
    type V = Seq<RateLimitView>;

    closed spec fn view(&self) -> Seq<RateLimitView> {
        self.limits@
    }
}

impl Default for CachedRateLimits {
    fn default() -> (r: Self)
        ensures
            r@ == Seq::<RateLimitView>::empty(),
    {
        CachedRateLimits::new()
    }
}

impl CachedRateLimits {
    /// Creates a new, empty instance without any rate limits enforced.
    pub fn new() -> (r: Self)
        ensures
            r@ == Seq::<RateLimitView>::empty(),
    {
        CachedRateLimits { limits: RateLimits::new() }
    }

    /// Adds a limit to this collection, as `RateLimits::add` does.
    pub fn add(&mut self, limit: RateLimit)
        ensures
            final(self)@ == spec_add(old(self)@, limit@),
    {
        self.limits.add(limit);
    }

    /// Merges more rate limits into this instance, as `RateLimits::merge` does.
    pub fn merge(&mut self, limits: RateLimits)
        ensures
            final(self)@ == spec_merge(old(self)@, limits@),
            merged_maximum(final(self)@, old(self)@, limits@),
    {
        self.limits.merge(limits);
    }

    /// Removes the limits that have expired at `now` and returns the ones that remain.
    pub fn current_limits_at(&mut self, now: Instant) -> (r: Arc<RateLimits>)
        ensures
            final(self)@ == spec_active(old(self)@, now),
            (*r)@ == final(self)@,
            forall|k: int|
                0 <= k < (*r)@.len() ==> !spec_expired_at(#[trigger] (*r)@[k].retry_after, now),
    {
        self.limits.clean_expired(now);
        proof {
            crate::laws::law_active_limits(old(self)@, now);
        }
        Arc::new(self.limits.clone())
    }

    /// Returns the contained rate limits.
    ///
    /// At the time of the call no returned rate limit is expired.
    pub fn current_limits(&mut self) -> (r: Arc<RateLimits>)
        ensures
            exists|now: Instant|
                now.nanos <= MAX_INSTANT_NANOS && final(self)@ == #[trigger] spec_active(old(self)@, now) && forall|k: int|
                    0 <= k < (*r)@.len() ==> !spec_expired_at(#[trigger] (*r)@[k].retry_after, now),
            (*r)@ == final(self)@,
    {
        let now = Instant::now();
        self.current_limits_at(now)
    }
}

} // verus!
