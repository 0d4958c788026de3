//! Quota and rate limiting helpers for metric buckets.

use vstd::prelude::*;
use vstd::string::StringSliceAdditionalSpecFns;
use vstd::utf8::encode_utf8;

use crate::quota::{
    clone_reason, reason_view, DataCategory, ItemScoping, MetricNamespaceScoping, Quota, ReasonCode,
    Scoping, REJECT_ALL_SECS,
};
use crate::laws::law_longest;
use crate::rate_limit::{spec_check, spec_expiry, spec_longest_index, RateLimitView, RateLimits};
use crate::time::{Instant, MAX_INSTANT_NANOS};

verus! {

/// The value of a metric bucket, with integer counts standing for its numbers.
#[derive(Clone, Debug, PartialEq)]
pub enum BucketValue {
    /// A counter, with its sum.
    Counter(u64),
    /// A distribution, with its values.
    Distribution(Vec<u64>),
    /// A set of distinct values, with the hashes of its members.
    Members(Vec<u32>),
    /// A gauge, with its last value.
    Gauge(u64),
}

/// Information about a bucket's origin.
#[derive(Clone, Copy, Debug, PartialEq, Eq, Default)]
pub struct BucketMetadata {
    /// Whether the bucket was extracted from an indexed (already sampled) payload.
    pub extracted_from_indexed: bool,
}

/// An aggregation of metric values, named by its metric resource identifier
/// (`type:namespace/name@unit`).
#[derive(Debug)]
pub struct Bucket {
    /// The metric resource identifier.
    pub name: String,
    /// The aggregated value.
    pub value: BucketValue,
    /// Information about the bucket's origin.
    pub metadata: BucketMetadata,
}

/// The number of limitable entities that a bucket stands for.
#[derive(Clone, Copy, Debug, PartialEq, Eq, Default, Structural)]
pub enum BucketSummary {
    /// The bucket belongs to transactions and counts this many of them.
    Transactions(usize),
    /// The bucket belongs to spans and counts this many of them.
    Spans(usize),
    /// The bucket stands for no limitable entity.
    #[default]
    Empty,
}

/// The first index at or after `from` at which `b` holds `c`, or `b.len()` if there is none.
pub open spec fn index_of_from(b: Seq<u8>, c: u8, from: int) -> int
    decreases b.len() - from,
{
    if from < 0 || from >= b.len() {
        b.len() as int
    } else if b[from] == c {
        from
    } else {
        index_of_from(b, c, from + 1)
    }
}

/// A counter's sum as an entity count, saturating at the largest count.
pub open spec fn saturating_count(v: u64) -> usize {
    if v > usize::MAX {
        usize::MAX
    } else {
        v as usize
    }
}

/// The summary of a bucket whose name has the bytes `name`: the namespace lies between the first
/// `:` and the next `/`, the metric's name between that `/` and the next `@`. Buckets of the
/// transactions and spans namespaces stand for those entities; their `usage` counter counts them.
pub open spec fn spec_summary(name: Seq<u8>, value: BucketValue) -> BucketSummary {
    let colon = index_of_from(name, 58, 0);
    let slash = index_of_from(name, 47, colon + 1);
    if colon >= name.len() || slash >= name.len() {
        BucketSummary::Empty
    } else {
        let namespace = name.subrange(colon + 1, slash);
        let at = index_of_from(name, 64, slash + 1);
        let metric = name.subrange(slash + 1, at);
        let count = match value {
            BucketValue::Counter(v) => if metric == "usage".spec_bytes() {
                saturating_count(v)
            } else {
                0
            },
            _ => 0,
        };
        if namespace == "transactions".spec_bytes() {
            BucketSummary::Transactions(count)
        } else if namespace == "spans".spec_bytes() {
            BucketSummary::Spans(count)
        } else {
            BucketSummary::Empty
        }
    }
}

/// Finds the first index at or after `from` at which `b` holds `c`.
fn index_of(b: &[u8], c: u8, from: usize) -> (r: usize)
    requires
        from <= b@.len(),
    ensures
        r == index_of_from(b@, c, from as int),
{
    let mut i = from;
    while i < b.len()
        invariant
            from <= i <= b@.len(),
            index_of_from(b@, c, from as int) == index_of_from(b@, c, i as int),
        decreases b@.len() - i,
    {
        if b[i] == c {
            return i;
        }
        i = i + 1;
    }
    i
}

/// Whether `b[start..end]` equals `lit`.
fn range_equals(b: &[u8], start: usize, end: usize, lit: &[u8]) -> (r: bool)
    requires
        start <= end <= b@.len(),
    ensures
        r == (b@.subrange(start as int, end as int) == lit@),
{
    if end - start != lit.len() {
        return false;
    }
    let mut i: usize = 0;
    while i < lit.len()
        invariant
            end - start == lit@.len(),
            start <= end <= b@.len(),
            i <= lit@.len(),
            forall|j: int| 0 <= j < i ==> b@[start + j] == lit@[j],
        decreases lit@.len() - i,
    {
        if b[start + i] != lit[i] {
            assert(b@.subrange(start as int, end as int)[i as int] != lit@[i as int]);
            return false;
        }
        i = i + 1;
    }
    assert(b@.subrange(start as int, end as int) =~= lit@);
    true
}

impl Bucket {
    /// Summarizes the limitable entities that this bucket stands for.
    pub fn summary(&self) -> (r: BucketSummary)
        ensures
            r == spec_summary(encode_utf8(self.name@), self.value),
    {
        let name = self.name.as_str().as_bytes();
        let colon = index_of(name, 58, 0);
        if colon >= name.len() {
            return BucketSummary::Empty;
        }
        let slash = index_of(name, 47, colon + 1);
        proof {
            lemma_index_of_bounds(name@, 47, colon + 1);
        }
        if slash >= name.len() {
            return BucketSummary::Empty;
        }
        let at = index_of(name, 64, slash + 1);
        proof {
            lemma_index_of_bounds(name@, 64, slash + 1);
        }
        let count = match &self.value {
            BucketValue::Counter(v) => {
                if range_equals(name, slash + 1, at, "usage".as_bytes()) {
                    if *v > usize::MAX as u64 {
                        usize::MAX
                    } else {
                        *v as usize
                    }
                } else {
                    0
                }
            },
            _ => 0,
        };
        if range_equals(name, colon + 1, slash, "transactions".as_bytes()) {
            BucketSummary::Transactions(count)
        } else if range_equals(name, colon + 1, slash, "spans".as_bytes()) {
            BucketSummary::Spans(count)
        } else {
            BucketSummary::Empty
        }
    }
}

proof fn lemma_index_of_bounds(b: Seq<u8>, c: u8, from: int)
    requires
        0 <= from <= b.len(),
    ensures
        from <= index_of_from(b, c, from) <= b.len(),
    decreases b.len() - from,
{
    if from < b.len() && b[from] != c {
        lemma_index_of_bounds(b, c, from + 1);
    }
}


/// Contains the total counts of limitable entities represented by a batch of metrics.
///
/// For each entity, `None` means that the batch holds no bucket of it, `Some(0)` that it holds
/// buckets of it but no count, and `Some(n)` with `n > 0` that it counts `n` of them. The
/// distinction between `None` and `Some(0)` decides whether a rate limit must be checked.
#[derive(Clone, Copy, Debug, PartialEq, Eq, Default)]
pub struct EntityCounts {
    /// The number of transactions represented in the batch.
    pub transactions: Option<usize>,
    /// The number of spans represented in the batch.
    pub spans: Option<usize>,
}

/// An optional count as an optional natural number.
pub open spec fn opt_nat(o: Option<usize>) -> Option<nat> {
    match o {
        Some(c) => Some(c as nat),
        None => None,
    }
}

/// The sum of two optional counts: absent when both are, otherwise the sum of those present.
pub open spec fn sum_some(a: Option<nat>, b: Option<nat>) -> Option<nat> {
    match (a, b) {
        (None, None) => None,
        (None, Some(c)) => Some(c),
        (Some(c), None) => Some(c),
        (Some(x), Some(y)) => Some(x + y),
    }
}

/// Whether an optional count fits in a `usize`.
pub open spec fn fits(o: Option<nat>) -> bool {
    match o {
        Some(c) => c <= usize::MAX,
        None => true,
    }
}

/// The transactions that a summary counts, if it is about transactions.
pub open spec fn summary_transactions(s: BucketSummary) -> Option<nat> {
    match s {
        BucketSummary::Transactions(c) => Some(c as nat),
        _ => None,
    }
}

/// The spans that a summary counts, if it is about spans.
pub open spec fn summary_spans(s: BucketSummary) -> Option<nat> {
    match s {
        BucketSummary::Spans(c) => Some(c as nat),
        _ => None,
    }
}

/// The transactions counted by all summaries of `s`.
pub open spec fn total_transactions(s: Seq<BucketSummary>) -> Option<nat>
    decreases s.len(),
{
    if s.len() == 0 {
        None
    } else {
        sum_some(total_transactions(s.drop_last()), summary_transactions(s.last()))
    }
}

/// The spans counted by all summaries of `s`.
pub open spec fn total_spans(s: Seq<BucketSummary>) -> Option<nat>
    decreases s.len(),
{
    if s.len() == 0 {
        None
    } else {
        sum_some(total_spans(s.drop_last()), summary_spans(s.last()))
    }
}

/// Converts a bucket summary into entity counts.
pub fn to_counts(summary: &BucketSummary) -> (r: EntityCounts)
    ensures
        opt_nat(r.transactions) == summary_transactions(*summary),
        opt_nat(r.spans) == summary_spans(*summary),
{
    match *summary {
        BucketSummary::Transactions(count) => EntityCounts { transactions: Some(count), spans: None },
        BucketSummary::Spans(count) => EntityCounts { transactions: None, spans: Some(count) },
        BucketSummary::Empty => EntityCounts { transactions: None, spans: None },
    }
}

/// Adds two optional counts: absent when both are, otherwise the sum of those present.
pub fn add_some(a: Option<usize>, b: Option<usize>) -> (r: Option<usize>)
    requires
        fits(sum_some(opt_nat(a), opt_nat(b))),
    ensures
        opt_nat(r) == sum_some(opt_nat(a), opt_nat(b)),
{
    match (a, b) {
        (None, None) => None,
        (None, Some(c)) => Some(c),
        (Some(c), None) => Some(c),
        (Some(x), Some(y)) => Some(x + y),
    }
}

impl EntityCounts {
    /// Adds the counts of both batches, entity by entity.
    pub fn add(self, rhs: EntityCounts) -> (r: EntityCounts)
        requires
            fits(sum_some(opt_nat(self.transactions), opt_nat(rhs.transactions))),
            fits(sum_some(opt_nat(self.spans), opt_nat(rhs.spans))),
        ensures
            opt_nat(r.transactions) == sum_some(opt_nat(self.transactions), opt_nat(rhs.transactions)),
            opt_nat(r.spans) == sum_some(opt_nat(self.spans), opt_nat(rhs.spans)),
    {
        EntityCounts {
            transactions: add_some(self.transactions, rhs.transactions),
            spans: add_some(self.spans, rhs.spans),
        }
    }
}

/// A bucket with its summary.
#[derive(Debug)]
pub struct SummarizedBucket {
    /// The bucket.
    pub bucket: Bucket,
    /// What the bucket counts; empty for buckets that are not rate limited.
    pub summary: BucketSummary,
}

/// The summary under which a bucket is rate limited: none for buckets extracted from indexed
/// payloads, which were rate limited as samples already.
pub open spec fn spec_bucket_summary(b: Bucket) -> BucketSummary {
    if b.metadata.extracted_from_indexed {
        BucketSummary::Empty
    } else {
        spec_summary(encode_utf8(b.name@), b.value)
    }
}

/// The summaries under which the buckets of `s` are rate limited.
pub open spec fn summaries_of(s: Seq<Bucket>) -> Seq<BucketSummary> {
    s.map_values(|b: Bucket| spec_bucket_summary(b))
}

/// Whether a bucket with `summary` is dropped when `category` is rate limited.
pub open spec fn dropped_for(summary: BucketSummary, category: DataCategory) -> bool {
    match summary {
        BucketSummary::Transactions(_) => category == DataCategory::Transaction,
        BucketSummary::Spans(_) => category == DataCategory::Span,
        BucketSummary::Empty => false,
    }
}

/// The buckets of `s` that stay when `category` is rate limited, in order.
pub open spec fn kept_for(s: Seq<SummarizedBucket>, category: DataCategory) -> Seq<SummarizedBucket>
    decreases s.len(),
{
    if s.len() == 0 {
        s
    } else {
        let rest = kept_for(s.drop_last(), category);
        if dropped_for(s.last().summary, category) {
            rest
        } else {
            rest.push(s.last())
        }
    }
}

/// The buckets of `s` that are dropped when `category` is rate limited, in order.
pub open spec fn dropped_buckets_for(s: Seq<SummarizedBucket>, category: DataCategory) -> Seq<Bucket>
    decreases s.len(),
{
    if s.len() == 0 {
        Seq::empty()
    } else {
        let rest = dropped_buckets_for(s.drop_last(), category);
        if dropped_for(s.last().summary, category) {
            rest.push(s.last().bucket)
        } else {
            rest
        }
    }
}

/// The buckets held by summarized buckets, in order.
pub open spec fn buckets_of(s: Seq<SummarizedBucket>) -> Seq<Bucket> {
    s.map_values(|b: SummarizedBucket| b.bucket)
}

/// The scoping of an item of `category` in `scoping`, with no metric namespace.
pub open spec fn item_of<'a>(scoping: &'a Scoping, category: DataCategory) -> ItemScoping<'a> {
    ItemScoping { category, scoping, namespace: MetricNamespaceScoping::NoNamespace }
}

/// The buckets that a rate limit drops, with the category and reason it was enforced for.
#[derive(Debug)]
pub struct RateLimitedBuckets {
    /// The category whose rate limit was active.
    pub category: DataCategory,
    /// The reason code of the longest active rate limit.
    pub reason_code: Option<ReasonCode>,
    /// The buckets that were dropped, in order.
    pub buckets: Vec<Bucket>,
}

/// What enforcing `limits` at `now` does to a limiter, from `before` to `after`, returning `r`:
/// if a rate limit (or a quota with a limit of zero) applies to transactions, their buckets are
/// dropped; otherwise the same for spans; otherwise nothing is dropped. Buckets that were dropped
/// are returned with the category and the reason of its longest limit; if none were, `None` is
/// returned. Quotas, scoping and counts never change.
pub open spec fn spec_enforced(
    before: MetricsLimiter,
    limits: Seq<RateLimitView>,
    now: Instant,
    r: Option<RateLimitedBuckets>,
    after: MetricsLimiter,
) -> bool {
    let s = before.summarized();
    let t = spec_check(
        limits,
        before.spec_quotas(),
        item_of(&before.spec_scoping(), DataCategory::Transaction),
        spec_expiry(REJECT_ALL_SECS, now),
    );
    let p = spec_check(
        limits,
        before.spec_quotas(),
        item_of(&before.spec_scoping(), DataCategory::Span),
        spec_expiry(REJECT_ALL_SECS, now),
    );
    &&& after.spec_quotas() == before.spec_quotas()
    &&& after.spec_scoping() == before.spec_scoping()
    &&& after.spec_counts() == before.spec_counts()
    &&& if t.len() > 0 {
        &&& after.summarized() == kept_for(s, DataCategory::Transaction)
        &&& if dropped_buckets_for(s, DataCategory::Transaction).len() > 0 {
            &&& r matches Some(x)
            &&& x.category == DataCategory::Transaction
            &&& reason_view(x.reason_code) == t[spec_longest_index(t)].reason_code
            &&& x.buckets@ == dropped_buckets_for(s, DataCategory::Transaction)
        } else {
            r is None
        }
    } else if p.len() > 0 {
        &&& after.summarized() == kept_for(s, DataCategory::Span)
        &&& if dropped_buckets_for(s, DataCategory::Span).len() > 0 {
            &&& r matches Some(x)
            &&& x.category == DataCategory::Span
            &&& reason_view(x.reason_code) == p[spec_longest_index(p)].reason_code
            &&& x.buckets@ == dropped_buckets_for(s, DataCategory::Span)
        } else {
            r is None
        }
    } else {
        &&& r is None
        &&& after.summarized() == s
    }
}

/// Contains all data necessary to rate limit metric buckets.
#[derive(Debug)]
pub struct MetricsLimiter {
    buckets: Vec<SummarizedBucket>,
    quotas: Vec<Quota>,
    scoping: Scoping,
    counts: EntityCounts,
}

impl MetricsLimiter {
    /// The buckets held, with their summaries, in order.
    pub closed spec fn summarized(&self) -> Seq<SummarizedBucket> {
        self.buckets@
    }

    /// The quotas of the project.
    pub closed spec fn spec_quotas(&self) -> Seq<Quota> {
        self.quotas@
    }

    /// The scoping of the project.
    pub closed spec fn spec_scoping(&self) -> Scoping {
        self.scoping
    }

    /// The entity counts of the batch.
    pub closed spec fn spec_counts(&self) -> EntityCounts {
        self.counts
    }

    /// Creates a limiter for `buckets`: `Ok` if they hold buckets of transactions or spans, and
    /// the buckets themselves, unchanged and in order, otherwise.
    pub fn create(buckets: Vec<Bucket>, quotas: Vec<Quota>, scoping: Scoping) -> (r: Result<Self, Vec<Bucket>>)
        requires
            fits(total_transactions(summaries_of(buckets@))),
            fits(total_spans(summaries_of(buckets@))),
        ensures
            r is Ok <==> (total_transactions(summaries_of(buckets@)) is Some || total_spans(
                summaries_of(buckets@),
            ) is Some),
            r matches Ok(l) ==> buckets_of(l.summarized()) == buckets@ && l.summarized().map_values(
                |b: SummarizedBucket| b.summary,
            ) == summaries_of(buckets@) && l.spec_quotas() == quotas@ && l.spec_scoping() == scoping
                && opt_nat(l.spec_counts().transactions) == total_transactions(summaries_of(buckets@))
                && opt_nat(l.spec_counts().spans) == total_spans(summaries_of(buckets@)),
            r matches Err(b) ==> b@ == buckets@,
    {
        let ghost input = buckets@;
        let ghost sums = summaries_of(input);
        let mut summarized: Vec<SummarizedBucket> = Vec::new();
        let mut counts = EntityCounts { transactions: None, spans: None };
        let mut stack: Vec<Bucket> = Vec::new();
        assert(input.len() == buckets.len());
        let mut rest = buckets;
        // Reverse the buckets so that popping yields them in their first order.
        while rest.len() > 0
            invariant
                rest@.len() + stack@.len() == input.len(),
                input.len() <= usize::MAX,
                forall|j: int| 0 <= j < rest@.len() ==> #[trigger] rest@[j] == input[j],
                forall|j: int|
                    0 <= j < stack@.len() ==> #[trigger] stack@[j] == input[input.len() - 1 - j],
            decreases rest@.len(),
        {
            let b = rest.pop().unwrap();
            stack.push(b);
        }
        let mut done: usize = 0;
        proof {
            assert(input.len() <= usize::MAX);
        }
        while stack.len() > 0
            invariant
                done + stack@.len() == input.len(),
                input.len() <= usize::MAX,
                sums == summaries_of(input),
                fits(total_transactions(sums)),
                fits(total_spans(sums)),
                forall|j: int|
                    0 <= j < stack@.len() ==> #[trigger] stack@[j] == input[input.len() - 1 - j],
                summarized@.len() == done,
                forall|j: int| 0 <= j < done ==> (#[trigger] summarized@[j]).bucket == input[j]
                    && summarized@[j].summary == sums[j],
                opt_nat(counts.transactions) == total_transactions(sums.take(done as int)),
                opt_nat(counts.spans) == total_spans(sums.take(done as int)),
            decreases stack@.len(),
        {
            let bucket = stack.pop().unwrap();
            proof {
                assert(bucket == input[done as int]);
            }
            // Sampled buckets are not rate limited, because the sample has already been rate
            // limited.
            let summary = if bucket.metadata.extracted_from_indexed {
                BucketSummary::Empty
            } else {
                bucket.summary()
            };
            proof {
                assert(summary == sums[done as int]);
                let t = sums.take(done + 1);
                assert(t.drop_last() =~= sums.take(done as int));
                assert(t.last() == sums[done as int]);
                lemma_totals_bounded(sums, done + 1);
            }
            counts = counts.add(to_counts(&summary));
            summarized.push(SummarizedBucket { bucket, summary });
            done = done + 1;
        }
        proof {
            assert(sums.take(done as int) =~= sums);
        }
        if counts.transactions.is_some() || counts.spans.is_some() {
            let r = MetricsLimiter { buckets: summarized, quotas, scoping, counts };
            proof {
                assert(buckets_of(r.summarized()) =~= input);
                assert(r.summarized().map_values(|b: SummarizedBucket| b.summary) =~= sums);
            }
            Ok(r)
        } else {
            let r = Self::unsummarize(summarized);
            proof {
                assert(r@ =~= input);
            }
            Err(r)
        }
    }

    /// Takes the buckets out of summarized buckets, in order.
    fn unsummarize(s: Vec<SummarizedBucket>) -> (r: Vec<Bucket>)
        ensures
            r@ == buckets_of(s@),
    {
        let ghost input = s@;
        let mut rest = s;
        let mut stack: Vec<SummarizedBucket> = Vec::new();
        assert(input.len() == rest.len());
        while rest.len() > 0
            invariant
                rest@.len() + stack@.len() == input.len(),
                input.len() <= usize::MAX,
                forall|j: int| 0 <= j < rest@.len() ==> #[trigger] rest@[j] == input[j],
                forall|j: int|
                    0 <= j < stack@.len() ==> #[trigger] stack@[j] == input[input.len() - 1 - j],
            decreases rest@.len(),
        {
            let b = rest.pop().unwrap();
            stack.push(b);
        }
        let mut out: Vec<Bucket> = Vec::new();
        while stack.len() > 0
            invariant
                out@.len() + stack@.len() == input.len(),
                forall|j: int|
                    0 <= j < stack@.len() ==> #[trigger] stack@[j] == input[input.len() - 1 - j],
                forall|j: int| 0 <= j < out@.len() ==> #[trigger] out@[j] == input[j].bucket,
            decreases stack@.len(),
        {
            let b = stack.pop().unwrap();
            out.push(b.bucket);
        }
        proof {
            assert(out@ =~= buckets_of(input));
        }
        out
    }

    /// Returns the scoping information.
    pub fn scoping(&self) -> (r: &Scoping)
        ensures
            *r == self.spec_scoping(),
    {
        &self.scoping
    }

    /// Returns the list of quotas.
    pub fn quotas(&self) -> (r: &[Quota])
        ensures
            r@ == self.spec_quotas(),
    {
        self.quotas.as_slice()
    }

    /// Counts the number of transactions or spans represented in this batch: `None` for other
    /// categories and for batches without buckets of that entity.
    pub fn count(&self, category: DataCategory) -> (r: Option<usize>)
        ensures
            category == DataCategory::Transaction ==> r == self.spec_counts().transactions,
            category == DataCategory::Span ==> r == self.spec_counts().spans,
            category != DataCategory::Transaction && category != DataCategory::Span ==> r is None,
    {
        match category {
            DataCategory::Transaction => self.counts.transactions,
            DataCategory::Span => self.counts.spans,
            _ => None,
        }
    }

    /// Drops the buckets of `category`'s entity and returns them, in order.
    fn drop_category(&mut self, category: DataCategory) -> (r: Vec<Bucket>)
        ensures
            final(self).summarized() == kept_for(old(self).summarized(), category),
            r@ == dropped_buckets_for(old(self).summarized(), category),
            final(self).spec_quotas() == old(self).spec_quotas(),
            final(self).spec_scoping() == old(self).spec_scoping(),
            final(self).spec_counts() == old(self).spec_counts(),
    {
        let ghost input = self.buckets@;
        let mut rest: Vec<SummarizedBucket> = Vec::new();
        std::mem::swap(&mut rest, &mut self.buckets);
        let mut stack: Vec<SummarizedBucket> = Vec::new();
        assert(input.len() == rest.len());
        while rest.len() > 0
            invariant
                rest@.len() + stack@.len() == input.len(),
                input.len() <= usize::MAX,
                forall|j: int| 0 <= j < rest@.len() ==> #[trigger] rest@[j] == input[j],
                forall|j: int|
                    0 <= j < stack@.len() ==> #[trigger] stack@[j] == input[input.len() - 1 - j],
            decreases rest@.len(),
        {
            let b = rest.pop().unwrap();
            stack.push(b);
        }
        let mut kept: Vec<SummarizedBucket> = Vec::new();
        let mut dropped: Vec<Bucket> = Vec::new();
        let mut done: usize = 0;
        proof {
            assert(input.len() <= usize::MAX);
        }
        while stack.len() > 0
            invariant
                done + stack@.len() == input.len(),
                input.len() <= usize::MAX,
                forall|j: int|
                    0 <= j < stack@.len() ==> #[trigger] stack@[j] == input[input.len() - 1 - j],
                kept@ == kept_for(input.take(done as int), category),
                dropped@ == dropped_buckets_for(input.take(done as int), category),
            decreases stack@.len(),
        {
            let b = stack.pop().unwrap();
            proof {
                assert(b == input[done as int]);
                let t = input.take(done + 1);
                assert(t.drop_last() =~= input.take(done as int));
                assert(t.last() == input[done as int]);
            }
            let drop = match b.summary {
                BucketSummary::Transactions(_) => category == DataCategory::Transaction,
                BucketSummary::Spans(_) => category == DataCategory::Span,
                BucketSummary::Empty => false,
            };
            if drop {
                dropped.push(b.bucket);
            } else {
                kept.push(b);
            }
            done = done + 1;
        }
        proof {
            assert(input.take(done as int) =~= input);
        }
        self.buckets = kept;
        dropped
    }

    /// Drops transaction or span buckets for the first of these categories with an active rate
    /// limit at `now`, and returns them with that category and the reason of its longest limit.
    ///
    /// Returns `None` if no bucket was dropped: if no rate limit is active for either category,
    /// or if the first active one finds no buckets of its category.
    pub fn enforce_limits_at(&mut self, rate_limits: &RateLimits, now: Instant) -> (r: Option<RateLimitedBuckets>)
        ensures
            spec_enforced(*old(self), rate_limits@, now, r, *final(self)),
    {
        let categories = [DataCategory::Transaction, DataCategory::Span];
        let mut i: usize = 0;
        while i < 2
            invariant
                i <= 2,
                categories@ == seq![DataCategory::Transaction, DataCategory::Span],
                self.buckets@ == old(self).summarized(),
                self.quotas@ == old(self).spec_quotas(),
                self.scoping == old(self).spec_scoping(),
                self.counts == old(self).spec_counts(),
                i >= 1 ==> spec_check(
                    rate_limits@,
                    old(self).spec_quotas(),
                    item_of(&old(self).spec_scoping(), DataCategory::Transaction),
                    spec_expiry(REJECT_ALL_SECS, now),
                ).len() == 0,
                i >= 2 ==> spec_check(
                    rate_limits@,
                    old(self).spec_quotas(),
                    item_of(&old(self).spec_scoping(), DataCategory::Span),
                    spec_expiry(REJECT_ALL_SECS, now),
                ).len() == 0,
            decreases 2 - i,
        {
            let category = categories[i];
            let active = rate_limits.check_with_quotas_at(
                self.quotas.as_slice(),
                self.scoping.item(category),
                now,
            );
            match active.longest() {
                Some(limit) => {
                    let reason_code = clone_reason(&limit.reason_code);
                    let buckets = self.drop_category(category);
                    if buckets.len() == 0 {
                        return None;
                    }
                    return Some(RateLimitedBuckets { category, reason_code, buckets });
                },
                None => {},
            }
            i = i + 1;
        }
        None
    }

    /// Drops transaction or span buckets for the first of these categories with an active rate
    /// limit, and returns them with that category and the reason of its longest limit; `None` if
    /// no bucket was dropped.
    pub fn enforce_limits(&mut self, rate_limits: &RateLimits) -> (r: Option<RateLimitedBuckets>)
        ensures
            exists|now: Instant| now.nanos <= MAX_INSTANT_NANOS && #[trigger] spec_enforced(*old(self), rate_limits@, now, r, *final(self)),
    {
        let now = Instant::now();
        self.enforce_limits_at(rate_limits, now)
    }

    /// Consumes the limiter and returns the contained buckets, in order.
    pub fn into_buckets(self) -> (r: Vec<Bucket>)
        ensures
            r@ == buckets_of(self.summarized()),
    {
        Self::unsummarize(self.buckets)
    }
}

proof fn lemma_totals_bounded(s: Seq<BucketSummary>, k: int)
    requires
        0 <= k <= s.len(),
        fits(total_transactions(s)),
        fits(total_spans(s)),
    ensures
        fits(total_transactions(s.take(k))),
        fits(total_spans(s.take(k))),
    decreases s.len() - k,
{
    if k < s.len() {
        lemma_totals_bounded(s, k + 1);
        let t = s.take(k + 1);
        assert(t.drop_last() =~= s.take(k));
    } else {
        assert(s.take(k) =~= s);
    }
}


/// Enforcing a rate limit for a category splits the buckets in two: the kept ones are exactly
/// those not of that category's entity, the dropped ones exactly those of it, both in their
/// input order, and no bucket is lost or added.
pub proof fn law_drop_partitions(s: Seq<SummarizedBucket>, category: DataCategory)
    ensures
        kept_for(s, category).len() + dropped_buckets_for(s, category).len() == s.len(),
        forall|k: int|
            0 <= k < kept_for(s, category).len() ==> !dropped_for(
                #[trigger] kept_for(s, category)[k].summary,
                category,
            ) && s.contains(kept_for(s, category)[k]),
        forall|j: int|
            0 <= j < s.len() && !dropped_for(s[j].summary, category) ==> kept_for(s, category).contains(
                #[trigger] s[j],
            ),
        forall|j: int|
            0 <= j < s.len() && dropped_for(s[j].summary, category) ==> dropped_buckets_for(
                s,
                category,
            ).contains(#[trigger] s[j].bucket),
    decreases s.len(),
{
    if s.len() > 0 {
        let p = s.drop_last();
        law_drop_partitions(p, category);
        let kept = kept_for(s, category);
        let kp = kept_for(p, category);
        let dropped = dropped_buckets_for(s, category);
        let dp = dropped_buckets_for(p, category);
        assert forall|k: int| 0 <= k < kept.len() implies !dropped_for(#[trigger] kept[k].summary, category)
            && s.contains(kept[k]) by {
            if k < kp.len() {
                assert(kept[k] == kp[k]);
                let q = choose|q: int| 0 <= q < p.len() && p[q] == kp[k];
                assert(s[q] == p[q]);
            } else {
                assert(kept[k] == s[s.len() - 1]);
            }
        }
        assert forall|j: int| 0 <= j < s.len() && !dropped_for(s[j].summary, category) implies kept.contains(
            #[trigger] s[j],
        ) by {
            if j < p.len() {
                assert(p[j] == s[j]);
                let q = choose|q: int| 0 <= q < kp.len() && kp[q] == p[j];
                assert(kept[q] == kp[q]);
            } else {
                assert(kept[kept.len() - 1] == s.last());
            }
        }
        assert forall|j: int| 0 <= j < s.len() && dropped_for(s[j].summary, category) implies dropped.contains(
            #[trigger] s[j].bucket,
        ) by {
            if j < p.len() {
                assert(p[j] == s[j]);
                let q = choose|q: int| 0 <= q < dp.len() && dp[q] == p[j].bucket;
                assert(dropped[q] == dp[q]);
            } else {
                assert(dropped[dropped.len() - 1] == s.last().bucket);
            }
        }
    }
}

/// Buckets extracted from indexed payloads are never dropped by a rate limit.
pub proof fn law_sampled_buckets_never_dropped(b: Bucket, category: DataCategory)
    requires
        b.metadata.extracted_from_indexed,
    ensures
        !dropped_for(spec_bucket_summary(b), category),
{
}

/// Whether `reason` is the reason of a limit of `checked` that expires no earlier than every
/// limit of `checked`, and strictly later than every limit after it.
pub open spec fn is_longest_reason(reason: Option<Seq<char>>, checked: Seq<RateLimitView>) -> bool {
    exists|k: int|
        #![trigger checked[k]]
        0 <= k < checked.len() && reason == checked[k].reason_code && (forall|j: int|
            0 <= j < checked.len() ==> #[trigger] checked[j].retry_after.nanos
                <= checked[k].retry_after.nanos) && (forall|j: int|
            k < j < checked.len() ==> #[trigger] checked[j].retry_after.nanos
                < checked[k].retry_after.nanos)
}

/// When enforcing limits drops buckets of a category, the reason it reports is that of the limit
/// that expires last among those that the check returns for that category (the last of them on a
/// tie), whatever the order of the limits.
pub proof fn law_enforced_reason_is_longest(
    before: MetricsLimiter,
    limits: Seq<RateLimitView>,
    now: Instant,
    r: Option<RateLimitedBuckets>,
    after: MetricsLimiter,
)
    requires
        spec_enforced(before, limits, now, r, after),
        r is Some,
    ensures
        is_longest_reason(
            reason_view(r.unwrap().reason_code),
            spec_check(
                limits,
                before.spec_quotas(),
                item_of(&before.spec_scoping(), r.unwrap().category),
                spec_expiry(REJECT_ALL_SECS, now),
            ),
        ),
{
    let x = r.unwrap();
    let c = spec_check(
        limits,
        before.spec_quotas(),
        item_of(&before.spec_scoping(), x.category),
        spec_expiry(REJECT_ALL_SECS, now),
    );
    assert(c.len() > 0);
    law_longest(c);
    let k = spec_longest_index(c);
    assert(reason_view(x.reason_code) == c[k].reason_code);
}

} // verus!
