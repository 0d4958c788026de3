//! The scopes, categories and quotas that rate limits are stated over.

use smallvec::SmallVec;
use vstd::prelude::*;
use vstd::string::StringSliceAdditionalSpecFns;
use vstd::utf8::encode_utf8;

use crate::project::{OrganizationId, ProjectId, ProjectKey};

verus! {

/// Seconds for which an item is rejected by a quota whose limit is zero.
pub const REJECT_ALL_SECS: u64 = 60;

/// Classifies the kind of data that is being rate limited.
#[derive(Clone, Copy, Debug, PartialEq, Eq, Hash, Structural)]
pub enum DataCategory {
    Default,
    Error,
    Transaction,
    Security,
    Attachment,
    Session,
    Profile,
    Replay,
    TransactionProcessed,
    TransactionIndexed,
    Monitor,
    ProfileIndexed,
    Span,
    MonitorSeat,
    UserReportV2,
    MetricBucket,
    SpanIndexed,
    ProfileDuration,
    ProfileChunk,
    MetricSecond,
    ReplayVideo,
    Uptime,
    AttachmentItem,
    Unknown,
}

/// The numeric code of a category; categories are ordered by it.
pub open spec fn category_code(c: DataCategory) -> int {
    match c {
        DataCategory::Default => 0,
        DataCategory::Error => 1,
        DataCategory::Transaction => 2,
        DataCategory::Security => 3,
        DataCategory::Attachment => 4,
        DataCategory::Session => 5,
        DataCategory::Profile => 6,
        DataCategory::Replay => 7,
        DataCategory::TransactionProcessed => 8,
        DataCategory::TransactionIndexed => 9,
        DataCategory::Monitor => 10,
        DataCategory::ProfileIndexed => 11,
        DataCategory::Span => 12,
        DataCategory::MonitorSeat => 13,
        DataCategory::UserReportV2 => 14,
        DataCategory::MetricBucket => 15,
        DataCategory::SpanIndexed => 16,
        DataCategory::ProfileDuration => 17,
        DataCategory::ProfileChunk => 18,
        DataCategory::MetricSecond => 19,
        DataCategory::ReplayVideo => 20,
        DataCategory::Uptime => 21,
        DataCategory::AttachmentItem => 22,
        DataCategory::Unknown => -1,
    }
}

impl DataCategory {
    /// Returns the numeric code of this category.
    pub fn code(&self) -> (r: i8)
        ensures
            r == category_code(*self),
    {
        match self {
            DataCategory::Default => 0,
            DataCategory::Error => 1,
            DataCategory::Transaction => 2,
            DataCategory::Security => 3,
            DataCategory::Attachment => 4,
            DataCategory::Session => 5,
            DataCategory::Profile => 6,
            DataCategory::Replay => 7,
            DataCategory::TransactionProcessed => 8,
            DataCategory::TransactionIndexed => 9,
            DataCategory::Monitor => 10,
            DataCategory::ProfileIndexed => 11,
            DataCategory::Span => 12,
            DataCategory::MonitorSeat => 13,
            DataCategory::UserReportV2 => 14,
            DataCategory::MetricBucket => 15,
            DataCategory::SpanIndexed => 16,
            DataCategory::ProfileDuration => 17,
            DataCategory::ProfileChunk => 18,
            DataCategory::MetricSecond => 19,
            DataCategory::ReplayVideo => 20,
            DataCategory::Uptime => 21,
            DataCategory::AttachmentItem => 22,
            DataCategory::Unknown => -1,
        }
    }
}

/// Distinct categories have distinct codes.
pub proof fn lemma_category_code_injective(a: DataCategory, b: DataCategory)
    ensures
        category_code(a) == category_code(b) <==> a == b,
{
}

/// The namespace of a metric.
#[derive(Clone, Copy, Debug, PartialEq, Eq, Hash, Structural)]
pub enum MetricNamespace {
    Sessions,
    Transactions,
    Spans,
    Custom,
    Stats,
    Unsupported,
}

/// The list of categories that a quota or rate limit applies to.
#[verifier::external_body]
#[derive(Debug, PartialEq)]
pub struct DataCategories {
    items: SmallVec<[DataCategory; 8]>,
}

/// What a `DataCategories` holds, in order.
pub uninterp spec fn category_items(v: DataCategories) -> Seq<DataCategory>;

impl View for DataCategories {
    type V = Seq<DataCategory>;

    open spec fn view(&self) -> Seq<DataCategory> {
        category_items(*self)
    }
}

/// Calls `SmallVec::as_slice`: the slice holds the items in order.
#[verifier::external_body]
fn categories_as_slice(v: &DataCategories) -> (s: &[DataCategory])
    ensures
        s@ == category_items(*v),
{
    v.items.as_slice()
}

/// Calls `SmallVec::from_vec`: the new list holds the vector's items in order.
#[verifier::external_body]
fn categories_from_vec(v: Vec<DataCategory>) -> (r: DataCategories)
    ensures
        category_items(r) == v@,
{
    DataCategories { items: SmallVec::from_vec(v) }
}

impl Clone for DataCategories {
    /// Calls `SmallVec::clone`: the copy holds the same items in the same order.
    #[verifier::external_body]
    fn clone(&self) -> (r: Self)
        ensures
            category_items(r) == category_items(*self),
    {
        DataCategories { items: self.items.clone() }
    }
}

impl DataCategories {
    /// Creates an empty list.
    pub fn new() -> (r: Self)
        ensures
            r@ == Seq::<DataCategory>::empty(),
    {
        categories_from_vec(Vec::new())
    }

    /// Creates a list holding the items of `v` in order.
    pub fn from_vec(v: Vec<DataCategory>) -> (r: Self)
        ensures
            r@ == v@,
    {
        categories_from_vec(v)
    }

    /// The items of this list, in order.
    pub fn as_slice(&self) -> (s: &[DataCategory])
        ensures
            s@ == self@,
    {
        categories_as_slice(self)
    }

    /// The number of items.
    pub fn len(&self) -> (r: usize)
        ensures
            r == self@.len(),
    {
        categories_as_slice(self).len()
    }

    /// Whether the list holds no item.
    pub fn is_empty(&self) -> (r: bool)
        ensures
            r == (self@.len() == 0),
    {
        categories_as_slice(self).len() == 0
    }

    /// Whether `category` is in the list.
    pub fn contains(&self, category: DataCategory) -> (r: bool)
        ensures
            r == self@.contains(category),
    {
        let s = categories_as_slice(self);
        let mut i: usize = 0;
        while i < s.len()
            invariant
                i <= s@.len(),
                s@ == self@,
                forall|j: int| 0 <= j < i ==> s@[j] != category,
            decreases s@.len() - i,
        {
            if s[i] == category {
                return true;
            }
            i = i + 1;
        }
        false
    }

    /// Whether both lists hold the same items in the same order.
    pub fn same_items(&self, other: &DataCategories) -> (r: bool)
        ensures
            r == (self@ == other@),
    {
        let a = categories_as_slice(self);
        let b = categories_as_slice(other);
        if a.len() != b.len() {
            return false;
        }
        let mut i: usize = 0;
        while i < a.len()
            invariant
                i <= a@.len(),
                a@.len() == b@.len(),
                a@ == self@,
                b@ == other@,
                forall|j: int| 0 <= j < i ==> a@[j] == b@[j],
            decreases a@.len() - i,
        {
            if a[i] != b[i] {
                return false;
            }
            i = i + 1;
        }
        assert(a@ =~= b@);
        true
    }
}

/// The list of metric namespaces that a rate limit applies to.
#[verifier::external_body]
#[derive(Debug, PartialEq)]
pub struct MetricNamespaces {
    items: SmallVec<[MetricNamespace; 1]>,
}

/// What a `MetricNamespaces` holds, in order.
pub uninterp spec fn namespace_items(v: MetricNamespaces) -> Seq<MetricNamespace>;

impl View for MetricNamespaces {
    type V = Seq<MetricNamespace>;

    open spec fn view(&self) -> Seq<MetricNamespace> {
        namespace_items(*self)
    }
}

/// Calls `SmallVec::as_slice`: the slice holds the items in order.
#[verifier::external_body]
fn namespaces_as_slice(v: &MetricNamespaces) -> (s: &[MetricNamespace])
    ensures
        s@ == namespace_items(*v),
{
    v.items.as_slice()
}

/// Calls `SmallVec::from_vec`: the new list holds the vector's items in order.
#[verifier::external_body]
fn namespaces_from_vec(v: Vec<MetricNamespace>) -> (r: MetricNamespaces)
    ensures
        namespace_items(r) == v@,
{
    MetricNamespaces { items: SmallVec::from_vec(v) }
}

impl Clone for MetricNamespaces {
    /// Calls `SmallVec::clone`: the copy holds the same items in the same order.
    #[verifier::external_body]
    fn clone(&self) -> (r: Self)
        ensures
            namespace_items(r) == namespace_items(*self),
    {
        MetricNamespaces { items: self.items.clone() }
    }
}

impl MetricNamespaces {
    /// Creates an empty list.
    pub fn new() -> (r: Self)
        ensures
            r@ == Seq::<MetricNamespace>::empty(),
    {
        namespaces_from_vec(Vec::new())
    }

    /// Creates a list holding the items of `v` in order.
    pub fn from_vec(v: Vec<MetricNamespace>) -> (r: Self)
        ensures
            r@ == v@,
    {
        namespaces_from_vec(v)
    }

    /// The items of this list, in order.
    pub fn as_slice(&self) -> (s: &[MetricNamespace])
        ensures
            s@ == self@,
    {
        namespaces_as_slice(self)
    }

    /// Whether both lists hold the same items in the same order.
    pub fn same_items(&self, other: &MetricNamespaces) -> (r: bool)
        ensures
            r == (self@ == other@),
    {
        let a = namespaces_as_slice(self);
        let b = namespaces_as_slice(other);
        if a.len() != b.len() {
            return false;
        }
        let mut i: usize = 0;
        while i < a.len()
            invariant
                i <= a@.len(),
                a@.len() == b@.len(),
                a@ == self@,
                b@ == other@,
                forall|j: int| 0 <= j < i ==> a@[j] == b@[j],
            decreases a@.len() - i,
        {
            if a[i] != b[i] {
                return false;
            }
            i = i + 1;
        }
        assert(a@ =~= b@);
        true
    }
}

/// The class of scope that a quota applies to.
#[derive(Clone, Copy, Debug, PartialEq, Eq, Hash, Structural)]
pub enum QuotaScope {
    Global,
    Organization,
    Project,
    Key,
    Unknown,
}

/// The canonical name of a quota scope.
pub open spec fn spec_scope_name(scope: QuotaScope) -> Seq<char> {
    match scope {
        QuotaScope::Global => "global"@,
        QuotaScope::Organization => "organization"@,
        QuotaScope::Project => "project"@,
        QuotaScope::Key => "key"@,
        QuotaScope::Unknown => "unknown"@,
    }
}

impl QuotaScope {
    /// Returns the canonical name of this scope.
    pub fn name(&self) -> (r: &'static str)
        ensures
            r@ == spec_scope_name(*self),
    {
        match self {
            QuotaScope::Global => "global",
            QuotaScope::Organization => "organization",
            QuotaScope::Project => "project",
            QuotaScope::Key => "key",
            QuotaScope::Unknown => "unknown",
        }
    }
}

/// A machine readable, freeform reason code for rate limits.
#[derive(Debug, PartialEq, Eq, Hash)]
pub struct ReasonCode {
    code: String,
}

impl View for ReasonCode {
    type V = Seq<char>;

    closed spec fn view(&self) -> Seq<char> {
        self.code@
    }
}

impl ReasonCode {
    /// Creates a reason code from its text.
    pub fn new(code: &str) -> (r: Self)
        ensures
            r@ == code@,
    {
        ReasonCode { code: code.to_owned() }
    }

    /// Returns the text of this reason code.
    pub fn as_str(&self) -> (r: &str)
        ensures
            r@ == self@,
    {
        self.code.as_str()
    }
}

impl Clone for ReasonCode {
    fn clone(&self) -> (r: Self)
        ensures
            r@ == self@,
    {
        ReasonCode { code: self.code.clone() }
    }
}

/// The view of an optional reason code.
pub open spec fn reason_view(r: Option<ReasonCode>) -> Option<Seq<char>> {
    match r {
        Some(c) => Some(c@),
        None => None,
    }
}

/// Copies an optional reason code.
pub fn clone_reason(r: &Option<ReasonCode>) -> (c: Option<ReasonCode>)
    ensures
        reason_view(c) == reason_view(*r),
{
    match r {
        Some(code) => Some(code.clone()),
        None => None,
    }
}

/// The organization, project and key that an item belongs to.
#[derive(Clone, Copy, Debug, PartialEq, Eq, Hash)]
pub struct Scoping {
    /// The organization id.
    pub organization_id: OrganizationId,
    /// The project id.
    pub project_id: ProjectId,
    /// The DSN public key.
    pub project_key: ProjectKey,
    /// The public key's internal id.
    pub key_id: Option<u64>,
}

/// The identifier of `scoping` in the given class of scope, if that class has one.
pub open spec fn spec_scope_id(scoping: Scoping, scope: QuotaScope) -> Option<u64> {
    match scope {
        QuotaScope::Global => None,
        QuotaScope::Organization => Some(scoping.organization_id.value),
        QuotaScope::Project => Some(scoping.project_id.value),
        QuotaScope::Key => scoping.key_id,
        QuotaScope::Unknown => None,
    }
}

impl Scoping {
    /// Returns the scoping of an item of `category` in this scope, with no metric namespace.
    pub fn item(&self, category: DataCategory) -> (r: ItemScoping<'_>)
        ensures
            r.category == category,
            *r.scoping == *self,
            r.namespace == MetricNamespaceScoping::NoNamespace,
    {
        ItemScoping { category, scoping: self, namespace: MetricNamespaceScoping::NoNamespace }
    }

    /// Returns the identifier of this scoping in the given class of scope, if that class has one.
    pub fn scope_id(&self, scope: QuotaScope) -> (r: Option<u64>)
        ensures
            r == spec_scope_id(*self, scope),
    {
        match scope {
            QuotaScope::Global => None,
            QuotaScope::Organization => Some(self.organization_id.value()),
            QuotaScope::Project => Some(self.project_id.value()),
            QuotaScope::Key => self.key_id,
            QuotaScope::Unknown => None,
        }
    }
}

/// The metric namespace of an item, if it has one.
#[derive(Clone, Copy, Debug, PartialEq, Eq, Hash, Structural)]
pub enum MetricNamespaceScoping {
    /// The item carries no namespace: only limits without namespaces apply.
    NoNamespace,
    /// The item belongs to this namespace.
    Namespace(MetricNamespace),
    /// The item stands for all namespaces: every namespace list matches it.
    Any,
}

/// The scoping of a single item: its category, scope and metric namespace.
#[derive(Clone, Copy, Debug)]
pub struct ItemScoping<'a> {
    /// The data category of the item.
    pub category: DataCategory,
    /// The scope of the item.
    pub scoping: &'a Scoping,
    /// The metric namespace of the item.
    pub namespace: MetricNamespaceScoping,
}

/// Whether an item of `category` falls under the list `categories`: an empty list covers all.
pub open spec fn spec_matches_categories(category: DataCategory, categories: Seq<DataCategory>) -> bool {
    categories.len() == 0 || categories.contains(category)
}

/// Whether an item of `namespace` falls under the list `namespaces`: an empty list covers all;
/// otherwise an item without a namespace is not covered, and one for all namespaces is.
pub open spec fn spec_matches_namespaces(
    namespace: MetricNamespaceScoping,
    namespaces: Seq<MetricNamespace>,
) -> bool {
    namespaces.len() == 0 || match namespace {
        MetricNamespaceScoping::NoNamespace => false,
        MetricNamespaceScoping::Namespace(n) => namespaces.contains(n),
        MetricNamespaceScoping::Any => true,
    }
}

impl<'a> ItemScoping<'a> {
    /// Returns `true` if the item's category falls under `categories`.
    pub fn matches_categories(&self, categories: &DataCategories) -> (r: bool)
        ensures
            r == spec_matches_categories(self.category, categories@),
    {
        categories.is_empty() || categories.contains(self.category)
    }

    /// Returns `true` if the item's namespace falls under `namespaces`.
    pub fn matches_namespaces(&self, namespaces: &[MetricNamespace]) -> (r: bool)
        ensures
            r == spec_matches_namespaces(self.namespace, namespaces@),
    {
        if namespaces.len() == 0 {
            return true;
        }
        match self.namespace {
            MetricNamespaceScoping::NoNamespace => false,
            MetricNamespaceScoping::Any => true,
            MetricNamespaceScoping::Namespace(n) => {
                let mut i: usize = 0;
                while i < namespaces.len()
                    invariant
                        i <= namespaces@.len(),
                        namespaces@.len() > 0,
                        self.namespace == MetricNamespaceScoping::Namespace(n),
                        forall|j: int| 0 <= j < i ==> namespaces@[j] != n,
                    decreases namespaces@.len() - i,
                {
                    if namespaces[i] == n {
                        assert(namespaces@[i as int] == n);
                        return true;
                    }
                    i = i + 1;
                }
                false
            },
        }
    }
}

/// The value of a sequence of decimal digits.
pub open spec fn digits_value(s: Seq<u8>) -> nat
    decreases s.len(),
{
    if s.len() == 0 {
        0
    } else {
        digits_value(s.drop_last()) * 10 + (s.last() - 48) as nat
    }
}

/// Whether every byte of `s` is an ASCII decimal digit.
pub open spec fn all_digits(s: Seq<u8>) -> bool {
    forall|i: int| 0 <= i < s.len() ==> 48 <= #[trigger] s[i] <= 57
}

/// The unsigned integer that `b` spells in decimal, as std's `u64::from_str` reads it: an
/// optional `+`, then at least one digit, and a value that fits in 64 bits.
pub open spec fn spec_parse_u64(b: Seq<u8>) -> Option<u64> {
    let d = if b.len() > 0 && b[0] == 43 {
        b.drop_first()
    } else {
        b
    };
    if d.len() > 0 && all_digits(d) && digits_value(d) <= u64::MAX {
        Some(digits_value(d) as u64)
    } else {
        None
    }
}

proof fn lemma_digits_value_grows(s: Seq<u8>, k: int)
    requires
        0 <= k <= s.len(),
        all_digits(s),
    ensures
        digits_value(s.subrange(0, k)) <= digits_value(s),
    decreases s.len() - k,
{
    if k < s.len() {
        let t = s.subrange(0, k + 1);
        assert(t.drop_last() =~= s.subrange(0, k));
        assert(all_digits(t));
        lemma_digits_value_grows(s, k + 1);
    } else {
        assert(s.subrange(0, k) =~= s);
    }
}

/// Parses `b` as std's `u64::from_str` does.
pub fn parse_u64(b: &[u8]) -> (r: Option<u64>)
    ensures
        r == spec_parse_u64(b@),
{
    let start: usize = if b.len() > 0 && b[0] == 43 { 1 } else { 0 };
    let ghost d = if b@.len() > 0 && b@[0] == 43 { b@.drop_first() } else { b@ };
    assert(d =~= b@.subrange(start as int, b@.len() as int));
    if start >= b.len() {
        return None;
    }
    let mut acc: u64 = 0;
    let mut i: usize = start;
    while i < b.len()
        invariant
            start <= i <= b@.len(),
            d == (if b@.len() > 0 && b@[0] == 43 { b@.drop_first() } else { b@ }),
            d =~= b@.subrange(start as int, b@.len() as int),
            all_digits(d.subrange(0, i - start)),
            acc == digits_value(d.subrange(0, i - start)),
        decreases b@.len() - i,
    {
        let c = b[i];
        let ghost next = d.subrange(0, i - start + 1);
        proof {
            assert(next.drop_last() =~= d.subrange(0, i - start));
            assert(next.last() == c);
        }
        if c < 48 || c > 57 {
            proof {
                assert(!all_digits(d)) by {
                    assert(d[i - start] == c);
                }
            }
            return None;
        }
        let digit = (c - 48) as u64;
        proof {
            assert(all_digits(next)) by {
                assert forall|j: int| 0 <= j < next.len() implies 48 <= #[trigger] next[j] <= 57 by {
                    if j < next.len() - 1 {
                        assert(next[j] == d.subrange(0, i - start)[j]);
                    }
                }
            }
        }
        match acc.checked_mul(10) {
            Some(m) => match m.checked_add(digit) {
                Some(v) => {
                    acc = v;
                },
                None => {
                    proof {
                        if all_digits(d) {
                            lemma_digits_value_grows(d, i - start + 1);
                        }
                    }
                    return None;
                },
            },
            None => {
                proof {
                    if all_digits(d) {
                        lemma_digits_value_grows(d, i - start + 1);
                    }
                }
                return None;
            },
        }
        i = i + 1;
    }
    assert(d.subrange(0, i - start) =~= d);
    Some(acc)
}

/// A quota that limits a set of data categories in a scope.
#[derive(Debug)]
pub struct Quota {
    /// The identifier of the quota, if it is tracked.
    pub id: Option<String>,
    /// The categories the quota applies to; empty means all.
    pub categories: DataCategories,
    /// The class of scope the quota applies to.
    pub scope: QuotaScope,
    /// The identifier of the scope instance, in decimal; absent means any instance.
    pub scope_id: Option<String>,
    /// The maximum number of items in the window; absent means unlimited.
    pub limit: Option<u64>,
    /// The length of the window in seconds.
    pub window: Option<u64>,
    /// A code that is reported when the quota is exceeded.
    pub reason_code: Option<ReasonCode>,
    /// The metric namespace the quota applies to; absent means all.
    pub namespace: Option<MetricNamespace>,
}

/// The namespace of a quota as a list of at most one item.
pub open spec fn option_namespaces(n: Option<MetricNamespace>) -> Seq<MetricNamespace> {
    match n {
        Some(x) => seq![x],
        None => Seq::empty(),
    }
}

/// Whether the scope of `quota` covers the item's scope: a global quota or one without a scope
/// identifier covers every item; otherwise the identifier must parse and equal the item's.
pub open spec fn spec_quota_matches_scope(quota: Quota, scoping: Scoping) -> bool {
    if quota.scope == QuotaScope::Global {
        true
    } else {
        match quota.scope_id {
            None => true,
            Some(id) => match spec_parse_u64(encode_utf8(id@)) {
                None => false,
                Some(parsed) => spec_scope_id(scoping, quota.scope) == Some(parsed),
            },
        }
    }
}

/// Whether `quota` applies to an item.
pub open spec fn spec_quota_matches(quota: Quota, item: ItemScoping) -> bool {
    &&& spec_quota_matches_scope(quota, *item.scoping)
    &&& spec_matches_categories(item.category, quota.categories@)
    &&& spec_matches_namespaces(item.namespace, option_namespaces(quota.namespace))
}

impl Quota {
    /// Returns `true` if the quota's scope covers the item's scope.
    fn matches_scope(&self, scoping: &Scoping) -> (r: bool)
        ensures
            r == spec_quota_matches_scope(*self, *scoping),
    {
        if self.scope == QuotaScope::Global {
            return true;
        }
        match &self.scope_id {
            None => true,
            Some(id) => {
                let b = id.as_str().as_bytes();
                match parse_u64(b) {
                    None => false,
                    Some(parsed) => match scoping.scope_id(self.scope) {
                        Some(v) => v == parsed,
                        None => false,
                    },
                }
            },
        }
    }

    /// Returns `true` if the quota applies to the given item.
    pub fn matches(&self, item: ItemScoping<'_>) -> (r: bool)
        ensures
            r == spec_quota_matches(*self, item),
    {
        if !self.matches_scope(item.scoping) {
            return false;
        }
        if !item.matches_categories(&self.categories) {
            return false;
        }
        match self.namespace {
            None => {
                let empty: Vec<MetricNamespace> = Vec::new();
                let r = item.matches_namespaces(empty.as_slice());
                assert(empty@ =~= option_namespaces(self.namespace));
                r
            },
            Some(n) => {
                let mut one: Vec<MetricNamespace> = Vec::new();
                one.push(n);
                let r = item.matches_namespaces(one.as_slice());
                assert(one@ =~= option_namespaces(self.namespace));
                r
            },
        }
    }
}

} // verus!
