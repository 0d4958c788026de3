//! Laws of the rate limit collections, stated over the views that the operations' contracts use.

use vstd::prelude::*;

use crate::quota::{category_code, lemma_category_code_injective, DataCategory};
use crate::rate_limit::{
    categories_sorted, insert_sorted, key_index_from, same_key, sort_categories, spec_add,
    spec_active, spec_add_matching, spec_any_active, spec_expiry, spec_add_zero_quotas, spec_check, spec_expired_at,
    spec_limit_from_quota, spec_limit_matches, spec_longest_index, spec_merge, spec_scope_matches,
    with_sorted_categories, RateLimitView,
};
use crate::quota::{
    spec_matches_categories, spec_quota_matches, ItemScoping, MetricNamespace,
    MetricNamespaceScoping, Quota, Scoping,
};
use crate::time::{spec_add_secs, Instant, NANOS_PER_SEC};

verus! {

broadcast use vstd::seq_lib::group_to_multiset_ensures;

proof fn lemma_cons_multiset(a: DataCategory, r: Seq<DataCategory>)
    ensures
        (seq![a] + r).to_multiset() =~= r.to_multiset().insert(a),
{
    let q = seq![a] + r;
    assert(q.remove(0) =~= r);
    assert(q.contains(a)) by {
        assert(q[0] == a);
    }
    assert(q.to_multiset().count(a) > 0);
}

proof fn lemma_insert_sorted_multiset(x: DataCategory, s: Seq<DataCategory>)
    ensures
        insert_sorted(x, s).to_multiset() =~= s.to_multiset().insert(x),
    decreases s.len(),
{
    if s.len() == 0 {
        lemma_cons_multiset(x, s);
        assert(seq![x] + s =~= seq![x]);
    } else if category_code(x) <= category_code(s[0]) {
        lemma_cons_multiset(x, s);
    } else {
        let t = s.drop_first();
        lemma_insert_sorted_multiset(x, t);
        lemma_cons_multiset(s[0], insert_sorted(x, t));
        lemma_cons_multiset(s[0], t);
        assert(seq![s[0]] + t =~= s);
    }
}

proof fn lemma_insert_sorted_sorted(x: DataCategory, s: Seq<DataCategory>)
    requires
        categories_sorted(s),
    ensures
        categories_sorted(insert_sorted(x, s)),
        insert_sorted(x, s).len() == s.len() + 1,
        forall|i: int| 0 <= i < insert_sorted(x, s).len() ==>
            (#[trigger] insert_sorted(x, s)[i] == x || s.contains(insert_sorted(x, s)[i])),
    decreases s.len(),
{
    if s.len() == 0 {
    } else if category_code(x) <= category_code(s[0]) {
        let r = seq![x] + s;
        assert forall|i: int| 0 < i < r.len() implies s.contains(r[i]) by {
            assert(r[i] == s[i - 1]);
        }
    } else {
        let t = s.drop_first();
        assert(categories_sorted(t)) by {
            assert forall|i: int, j: int| 0 <= i <= j < t.len() implies category_code(t[i])
                <= category_code(t[j]) by {
                assert(t[i] == s[i + 1] && t[j] == s[j + 1]);
            }
        }
        lemma_insert_sorted_sorted(x, t);
        let u = insert_sorted(x, t);
        let r = seq![s[0]] + u;
        assert forall|i: int| 0 < i < r.len() implies (r[i] == x || s.contains(r[i])) by {
            assert(r[i] == u[i - 1]);
            if u[i - 1] != x {
                let k = choose|k: int| 0 <= k < t.len() && t[k] == u[i - 1];
                assert(s[k + 1] == t[k]);
            }
        }
        assert forall|i: int, j: int| 0 <= i <= j < r.len() implies category_code(r[i])
            <= category_code(r[j]) by {
            if i == 0 {
                if j > 0 {
                    assert(r[j] == u[j - 1]);
                    if u[j - 1] == x {
                    } else {
                        let k = choose|k: int| 0 <= k < t.len() && t[k] == u[j - 1];
                        assert(s[k + 1] == t[k]);
                    }
                }
            } else {
                assert(r[i] == u[i - 1] && r[j] == u[j - 1]);
            }
        }
    }
}

/// Putting categories in order yields a sequence that is ordered by code and holds the same
/// categories as many times each.
pub proof fn law_sort_categories(s: Seq<DataCategory>)
    ensures
        categories_sorted(sort_categories(s)),
        sort_categories(s).to_multiset() =~= s.to_multiset(),
        sort_categories(s).len() == s.len(),
    decreases s.len(),
{
    if s.len() > 0 {
        let p = s.drop_last();
        law_sort_categories(p);
        lemma_insert_sorted_sorted(s.last(), sort_categories(p));
        lemma_insert_sorted_multiset(s.last(), sort_categories(p));
        assert(p.push(s.last()) =~= s);
    }
}

/// A category is among the ordered categories exactly when it is among the given ones.
pub proof fn law_sort_categories_contains(s: Seq<DataCategory>, c: DataCategory)
    ensures
        sort_categories(s).contains(c) <==> s.contains(c),
{
    law_sort_categories(s);
    assert(sort_categories(s).to_multiset().count(c) == s.to_multiset().count(c));
}

proof fn lemma_insert_sorted_of_sorted_appends(x: DataCategory, s: Seq<DataCategory>)
    requires
        categories_sorted(s.push(x)),
    ensures
        insert_sorted(x, s) == s.push(x),
    decreases s.len(),
{
    if s.len() == 0 {
        assert(s.push(x) =~= seq![x]);
    } else if category_code(x) <= category_code(s[0]) {
        // Every item lies between s[0] and x, so all of them equal x.
        assert forall|i: int| 0 <= i < s.len() implies s[i] == x by {
            assert(s.push(x)[i] == s[i]);
            assert(s.push(x)[0] == s[0]);
            assert(s.push(x)[s.len() as int] == x);
            lemma_category_code_injective(s[i], x);
        }
        assert(seq![x] + s =~= s.push(x));
    } else {
        let t = s.drop_first();
        assert(categories_sorted(t.push(x))) by {
            assert forall|i: int, j: int| 0 <= i <= j < t.push(x).len() implies category_code(
                t.push(x)[i],
            ) <= category_code(t.push(x)[j]) by {
                assert(t.push(x)[i] == s.push(x)[i + 1]);
                assert(t.push(x)[j] == s.push(x)[j + 1]);
            }
        }
        lemma_insert_sorted_of_sorted_appends(x, t);
        assert(seq![s[0]] + t.push(x) =~= s.push(x));
    }
}

/// Putting categories in order twice gives the same as doing it once.
pub proof fn law_sort_categories_idempotent(s: Seq<DataCategory>)
    ensures
        sort_categories(sort_categories(s)) == sort_categories(s),
{
    law_sort_categories(s);
    lemma_sorted_is_fixed_point(sort_categories(s));
}

proof fn lemma_sorted_is_fixed_point(s: Seq<DataCategory>)
    requires
        categories_sorted(s),
    ensures
        sort_categories(s) == s,
    decreases s.len(),
{
    if s.len() > 0 {
        let p = s.drop_last();
        assert(categories_sorted(p)) by {
            assert forall|i: int, j: int| 0 <= i <= j < p.len() implies category_code(p[i])
                <= category_code(p[j]) by {
                assert(p[i] == s[i] && p[j] == s[j]);
            }
        }
        lemma_sorted_is_fixed_point(p);
        assert(p.push(s.last()) =~= s);
        lemma_insert_sorted_of_sorted_appends(s.last(), p);
    }
}

/// Whether no two limits of `s` are stated over the same categories, scope and namespaces.
pub open spec fn distinct_keys(s: Seq<RateLimitView>) -> bool {
    forall|i: int, j: int| 0 <= i < j < s.len() ==> !same_key(#[trigger] s[i], #[trigger] s[j])
}

/// Whether the categories of every limit of `s` are ordered by code.
pub open spec fn all_categories_sorted(s: Seq<RateLimitView>) -> bool {
    forall|i: int| 0 <= i < s.len() ==> categories_sorted(#[trigger] s[i].categories)
}

/// Whether no two limits of `s` share a key and the categories of each are in order, as in
/// every collection of rate limits.
pub open spec fn valid_limits(s: Seq<RateLimitView>) -> bool {
    distinct_keys(s) && all_categories_sorted(s)
}

/// Whether `s` holds a limit with the key of `l` that expires no earlier than `l`.
pub open spec fn covers(s: Seq<RateLimitView>, l: RateLimitView) -> bool {
    exists|k: int|
        0 <= k < s.len() && same_key(#[trigger] s[k], l) && s[k].retry_after.nanos
            >= l.retry_after.nanos
}

proof fn lemma_key_index(s: Seq<RateLimitView>, l: RateLimitView, k: int)
    requires
        0 <= k,
    ensures
        key_index_from(s, l, k) matches Some(i) ==> k <= i < s.len() && same_key(s[i], l) && (
        forall|j: int| k <= j < i ==> !same_key(#[trigger] s[j], l)),
        key_index_from(s, l, k) is None ==> forall|j: int|
            k <= j < s.len() ==> !same_key(#[trigger] s[j], l),
    decreases s.len() - k,
{
    if k < s.len() && !same_key(s[k], l) {
        lemma_key_index(s, l, k + 1);
    }
}

/// Adding a limit never makes two limits share a key.
pub proof fn law_add_keeps_keys_distinct(s: Seq<RateLimitView>, limit: RateLimitView)
    requires
        distinct_keys(s),
    ensures
        distinct_keys(spec_add(s, limit)),
{
    let l = with_sorted_categories(limit);
    lemma_key_index(s, l, 0);
    let r = spec_add(s, limit);
    match key_index_from(s, l, 0) {
        None => {
            assert forall|i: int, j: int| 0 <= i < j < r.len() implies !same_key(
                #[trigger] r[i],
                #[trigger] r[j],
            ) by {
                if j == s.len() {
                    assert(r[i] == s[i]);
                } else {
                    assert(r[i] == s[i] && r[j] == s[j]);
                }
            }
        },
        Some(k) => {
            assert forall|i: int, j: int| 0 <= i < j < r.len() implies !same_key(
                #[trigger] r[i],
                #[trigger] r[j],
            ) by {
                assert(same_key(s[k], l));
                if i != k && j != k {
                    assert(r[i] == s[i] && r[j] == s[j]);
                } else if i == k {
                    assert(r[j] == s[j]);
                    assert(!same_key(s[k], s[j]));
                } else {
                    assert(r[i] == s[i]);
                    assert(!same_key(s[i], s[k]));
                }
            }
        },
    }
}

/// Adding a limit keeps the categories of every limit ordered by code.
pub proof fn law_add_keeps_categories_sorted(s: Seq<RateLimitView>, limit: RateLimitView)
    requires
        all_categories_sorted(s),
    ensures
        all_categories_sorted(spec_add(s, limit)),
{
    law_sort_categories(limit.categories);
    let l = with_sorted_categories(limit);
    let r = spec_add(s, limit);
    lemma_key_index(s, l, 0);
    assert(categories_sorted(l.categories));
    assert forall|i: int| 0 <= i < r.len() implies categories_sorted(#[trigger] r[i].categories) by {
        match key_index_from(s, l, 0) {
            None => {
                if i < s.len() {
                    assert(r[i] == s[i]);
                }
            },
            Some(k) => {
                if i != k {
                    assert(r[i] == s[i]);
                }
            },
        }
    }
}

/// After adding a limit, the collection covers it (with its categories in order), still covers
/// everything it covered, holds only limits that it held or the added one, and does not shrink.
pub proof fn law_add_covers(s: Seq<RateLimitView>, limit: RateLimitView)
    ensures
        covers(spec_add(s, limit), with_sorted_categories(limit)),
        forall|x: RateLimitView| covers(s, x) ==> #[trigger] covers(spec_add(s, limit), x),
        forall|k: int|
            0 <= k < spec_add(s, limit).len() ==> #[trigger] spec_add(s, limit)[k]
                == with_sorted_categories(limit) || s.contains(spec_add(s, limit)[k]),
        spec_add(s, limit).len() >= s.len(),
        spec_add(s, limit).len() >= 1,
{
    let l = with_sorted_categories(limit);
    lemma_key_index(s, l, 0);
    let r = spec_add(s, limit);
    match key_index_from(s, l, 0) {
        None => {
            assert(r[s.len() as int] == l);
            assert(same_key(r[s.len() as int], l));
            assert forall|x: RateLimitView| covers(s, x) implies #[trigger] covers(r, x) by {
                let k = choose|k: int|
                    0 <= k < s.len() && same_key(#[trigger] s[k], x) && s[k].retry_after.nanos
                        >= x.retry_after.nanos;
                assert(r[k] == s[k]);
            }
            assert forall|k: int| 0 <= k < r.len() implies #[trigger] r[k] == l || s.contains(r[k]) by {
                if k < s.len() {
                    assert(r[k] == s[k]);
                }
            }
        },
        Some(i) => {
            assert(same_key(r[i], l));
            assert forall|x: RateLimitView| covers(s, x) implies #[trigger] covers(r, x) by {
                let k = choose|k: int|
                    0 <= k < s.len() && same_key(#[trigger] s[k], x) && s[k].retry_after.nanos
                        >= x.retry_after.nanos;
                if k == i {
                    assert(same_key(r[k], x));
                } else {
                    assert(r[k] == s[k]);
                }
            }
            assert forall|k: int| 0 <= k < r.len() implies #[trigger] r[k] == l || s.contains(r[k]) by {
                if r[k] != l {
                    assert(r[k] == s[k]);
                }
            }
        },
    }
}

/// Adding the same limit twice gives the same as adding it once.
pub proof fn law_add_idempotent(s: Seq<RateLimitView>, limit: RateLimitView)
    ensures
        spec_add(spec_add(s, limit), limit) == spec_add(s, limit),
{
    let l = with_sorted_categories(limit);
    law_sort_categories_idempotent(limit.categories);
    assert(with_sorted_categories(l) == l);
    let r = spec_add(s, limit);
    lemma_key_index(s, l, 0);
    lemma_key_index(r, l, 0);
    match key_index_from(s, l, 0) {
        None => {
            assert(same_key(r[s.len() as int], l));
            match key_index_from(r, l, 0) {
                None => {},
                Some(j) => {
                    if j < s.len() {
                        assert(r[j] == s[j]);
                    }
                },
            }
        },
        Some(i) => {
            assert(same_key(r[i], l));
            match key_index_from(r, l, 0) {
                None => {},
                Some(j) => {
                    if j < i {
                        assert(r[j] == s[j]);
                    }
                    if j > i {
                        assert(!same_key(r[i], l));
                    }
                },
            }
        },
    }
}

/// Merging keeps keys distinct and categories ordered in a collection that had both.
pub proof fn law_merge_keeps_valid(s: Seq<RateLimitView>, t: Seq<RateLimitView>)
    requires
        distinct_keys(s),
        all_categories_sorted(s),
    ensures
        distinct_keys(spec_merge(s, t)),
        all_categories_sorted(spec_merge(s, t)),
    decreases t.len(),
{
    if t.len() > 0 {
        law_merge_keeps_valid(s, t.drop_last());
        law_add_keeps_keys_distinct(spec_merge(s, t.drop_last()), t.last());
        law_add_keeps_categories_sorted(spec_merge(s, t.drop_last()), t.last());
    }
}

proof fn lemma_merge_covers_first(s: Seq<RateLimitView>, t: Seq<RateLimitView>)
    ensures
        forall|k: int| 0 <= k < s.len() ==> covers(spec_merge(s, t), #[trigger] s[k]),
    decreases t.len(),
{
    if t.len() == 0 {
        assert forall|k: int| 0 <= k < s.len() implies covers(s, #[trigger] s[k]) by {
            assert(same_key(s[k], s[k]));
        }
    } else {
        let p = t.drop_last();
        lemma_merge_covers_first(s, p);
        let m = spec_merge(s, p);
        law_add_covers(m, t.last());
        assert forall|k: int| 0 <= k < s.len() implies covers(spec_merge(s, t), #[trigger] s[k]) by {
            assert(covers(m, s[k]));
        }
    }
}

proof fn lemma_merge_covers_second(s: Seq<RateLimitView>, t: Seq<RateLimitView>)
    ensures
        forall|j: int|
            0 <= j < t.len() ==> covers(spec_merge(s, t), with_sorted_categories(#[trigger] t[j])),
    decreases t.len(),
{
    if t.len() > 0 {
        let p = t.drop_last();
        lemma_merge_covers_second(s, p);
        let m = spec_merge(s, p);
        law_add_covers(m, t.last());
        assert forall|j: int| 0 <= j < t.len() implies covers(
            spec_merge(s, t),
            with_sorted_categories(#[trigger] t[j]),
        ) by {
            if j < p.len() {
                assert(p[j] == t[j]);
                assert(covers(m, with_sorted_categories(p[j])));
            }
        }
    }
}

/// Whether `x` is a limit of `s` or, with its categories in order, one of `t`.
pub open spec fn taken_from(x: RateLimitView, s: Seq<RateLimitView>, t: Seq<RateLimitView>) -> bool {
    s.contains(x) || exists|j: int| 0 <= j < t.len() && x == with_sorted_categories(#[trigger] t[j])
}

proof fn lemma_merge_provenance(s: Seq<RateLimitView>, t: Seq<RateLimitView>)
    ensures
        forall|k: int|
            0 <= k < spec_merge(s, t).len() ==> taken_from(#[trigger] spec_merge(s, t)[k], s, t),
    decreases t.len(),
{
    if t.len() == 0 {
        assert forall|k: int| 0 <= k < s.len() implies taken_from(#[trigger] s[k], s, t) by {
            assert(s.contains(s[k]));
        }
    } else {
        let p = t.drop_last();
        lemma_merge_provenance(s, p);
        let m = spec_merge(s, p);
        law_add_covers(m, t.last());
        let r = spec_merge(s, t);
        assert forall|k: int| 0 <= k < r.len() implies taken_from(#[trigger] r[k], s, t) by {
            if r[k] == with_sorted_categories(t.last()) {
                assert(t[t.len() - 1] == t.last());
            } else {
                let q = choose|q: int| 0 <= q < m.len() && m[q] == r[k];
                assert(taken_from(m[q], s, p));
                if !s.contains(m[q]) {
                    let j = choose|j: int| 0 <= j < p.len() && m[q] == with_sorted_categories(#[trigger] p[j]);
                    assert(p[j] == t[j]);
                }
            }
        }
    }
}

/// Merging covers every limit of both collections (the merged maximum: no limit expires sooner
/// than before), and holds only limits taken from the two collections.
pub proof fn law_merge_maximum(s: Seq<RateLimitView>, t: Seq<RateLimitView>)
    ensures
        forall|k: int| 0 <= k < s.len() ==> covers(spec_merge(s, t), #[trigger] s[k]),
        forall|j: int|
            0 <= j < t.len() ==> covers(spec_merge(s, t), with_sorted_categories(#[trigger] t[j])),
        forall|k: int|
            0 <= k < spec_merge(s, t).len() ==> taken_from(#[trigger] spec_merge(s, t)[k], s, t),
{
    lemma_merge_covers_first(s, t);
    lemma_merge_covers_second(s, t);
    lemma_merge_provenance(s, t);
}

/// Whether `x` expires no earlier than every limit of `s`, and every limit of `t`, that has its
/// key.
pub open spec fn bounds_inputs(x: RateLimitView, s: Seq<RateLimitView>, t: Seq<RateLimitView>) -> bool {
    &&& forall|k: int|
        0 <= k < s.len() && same_key(#[trigger] s[k], x) ==> s[k].retry_after.nanos
            <= x.retry_after.nanos
    &&& forall|j: int|
        0 <= j < t.len() && same_key(with_sorted_categories(#[trigger] t[j]), x)
            ==> t[j].retry_after.nanos <= x.retry_after.nanos
}

proof fn lemma_merge_positions(s: Seq<RateLimitView>, t: Seq<RateLimitView>)
    ensures
        spec_merge(s, t).len() >= s.len(),
        forall|k: int|
            0 <= k < s.len() ==> same_key(#[trigger] spec_merge(s, t)[k], s[k])
                && spec_merge(s, t)[k].retry_after.nanos >= s[k].retry_after.nanos,
    decreases t.len(),
{
    if t.len() > 0 {
        let p = t.drop_last();
        lemma_merge_positions(s, p);
        let m = spec_merge(s, p);
        let l = with_sorted_categories(t.last());
        lemma_key_index(m, l, 0);
        let r = spec_merge(s, t);
        assert forall|k: int| 0 <= k < s.len() implies same_key(#[trigger] r[k], s[k])
            && r[k].retry_after.nanos >= s[k].retry_after.nanos by {
            assert(same_key(m[k], s[k]));
            match key_index_from(m, l, 0) {
                None => {
                    assert(r[k] == m[k]);
                },
                Some(i) => {
                    if k != i || m[i].retry_after.nanos >= l.retry_after.nanos {
                        assert(r[k] == m[k]);
                    } else {
                        assert(r[k] == l);
                    }
                },
            }
        }
    }
}

proof fn lemma_merge_bounds(s: Seq<RateLimitView>, t: Seq<RateLimitView>)
    requires
        distinct_keys(s),
        all_categories_sorted(s),
    ensures
        forall|k: int|
            0 <= k < spec_merge(s, t).len() ==> bounds_inputs(#[trigger] spec_merge(s, t)[k], s, t),
    decreases t.len(),
{
    let r = spec_merge(s, t);
    if t.len() == 0 {
        assert forall|k: int| 0 <= k < r.len() implies bounds_inputs(#[trigger] r[k], s, t) by {
            assert forall|q: int| 0 <= q < s.len() && same_key(#[trigger] s[q], r[k]) implies s[q].retry_after.nanos
                <= r[k].retry_after.nanos by {
                if q != k {
                    if q < k {
                        assert(!same_key(s[q], s[k]));
                    } else {
                        assert(!same_key(s[k], s[q]));
                    }
                }
            }
        }
    } else {
        let p = t.drop_last();
        lemma_merge_bounds(s, p);
        lemma_merge_covers_first(s, p);
        lemma_merge_covers_second(s, p);
        law_merge_keeps_valid(s, p);
        let m = spec_merge(s, p);
        let l = with_sorted_categories(t.last());
        let last = t.len() - 1;
        assert(t[last] == t.last());
        lemma_key_index(m, l, 0);
        assert forall|j: int| 0 <= j < p.len() implies #[trigger] t[j] == p[j] by {}
        assert forall|k: int| 0 <= k < r.len() implies bounds_inputs(#[trigger] r[k], s, t) by {
            let x = r[k];
            match key_index_from(m, l, 0) {
                None => {
                    if k < m.len() {
                        assert(x == m[k]);
                        assert(bounds_inputs(m[k], s, p));
                        assert(!same_key(m[k], l));
                    } else {
                        assert(x == l);
                        assert forall|q: int| 0 <= q < s.len() && same_key(#[trigger] s[q], x) implies s[q].retry_after.nanos
                            <= x.retry_after.nanos by {
                            assert(covers(m, s[q]));
                            let c = choose|c: int|
                                0 <= c < m.len() && same_key(#[trigger] m[c], s[q])
                                    && m[c].retry_after.nanos >= s[q].retry_after.nanos;
                            assert(same_key(m[c], l));
                        }
                        assert forall|j: int| 0 <= j < t.len() && same_key(with_sorted_categories(#[trigger] t[j]), x) implies t[j].retry_after.nanos
                            <= x.retry_after.nanos by {
                            if j < p.len() {
                                assert(covers(m, with_sorted_categories(p[j])));
                                let c = choose|c: int|
                                    0 <= c < m.len() && same_key(#[trigger] m[c], with_sorted_categories(p[j]))
                                        && m[c].retry_after.nanos >= p[j].retry_after.nanos;
                                assert(same_key(m[c], l));
                            }
                        }
                    }
                },
                Some(i) => {
                    let replaced = m[i].retry_after.nanos < l.retry_after.nanos;
                    assert(bounds_inputs(m[i], s, p));
                    if k != i || !replaced {
                        assert(x == m[k]);
                        assert(bounds_inputs(m[k], s, p));
                        assert forall|j: int| 0 <= j < t.len() && same_key(with_sorted_categories(#[trigger] t[j]), x) implies t[j].retry_after.nanos
                            <= x.retry_after.nanos by {
                            if j == last {
                                if k != i {
                                    if k < i {
                                        assert(!same_key(m[k], m[i]));
                                    } else {
                                        assert(!same_key(m[i], m[k]));
                                    }
                                }
                            }
                        }
                    } else {
                        assert(x == l);
                        assert forall|q: int| 0 <= q < s.len() && same_key(#[trigger] s[q], x) implies s[q].retry_after.nanos
                            <= x.retry_after.nanos by {
                            assert(same_key(s[q], m[i]));
                        }
                        assert forall|j: int| 0 <= j < t.len() && same_key(with_sorted_categories(#[trigger] t[j]), x) implies t[j].retry_after.nanos
                            <= x.retry_after.nanos by {
                            if j < p.len() {
                                assert(same_key(with_sorted_categories(p[j]), m[i]));
                            }
                        }
                    }
                },
            }
        }
    }
}

/// Whether `m` is the merged maximum of `s` and `t`: it keeps each limit of `s` at its position,
/// with the same key and expiring no earlier; it has distinct keys; it covers every limit of `s`
/// and every limit of `t` (with its categories in order), so each of their keys is held by
/// exactly one of its limits; and each of its limits is one of the given limits that expires no
/// earlier than every limit of `s` or `t` with its key, so no other key is held and each key
/// carries the latest expiry given for it.
pub open spec fn merged_maximum(m: Seq<RateLimitView>, s: Seq<RateLimitView>, t: Seq<RateLimitView>) -> bool {
    &&& m.len() >= s.len()
    &&& forall|k: int|
        0 <= k < s.len() ==> same_key(#[trigger] m[k], s[k]) && m[k].retry_after.nanos
            >= s[k].retry_after.nanos
    &&& distinct_keys(m)
    &&& forall|k: int| 0 <= k < s.len() ==> covers(m, #[trigger] s[k])
    &&& forall|j: int| 0 <= j < t.len() ==> covers(m, with_sorted_categories(#[trigger] t[j]))
    &&& forall|k: int| 0 <= k < m.len() ==> taken_from(#[trigger] m[k], s, t) && bounds_inputs(m[k], s, t)
}

/// Merging into a collection whose limits have distinct keys and categories in order, as every
/// collection of rate limits has, gives the merged maximum of the two.
pub proof fn law_merge_exact(s: Seq<RateLimitView>, t: Seq<RateLimitView>)
    requires
        valid_limits(s),
    ensures
        merged_maximum(spec_merge(s, t), s, t),
{
    law_merge_maximum(s, t);
    lemma_merge_positions(s, t);
    lemma_merge_bounds(s, t);
    law_merge_keeps_valid(s, t);
}

/// Whether every limit of `s` applies to the item.
pub open spec fn all_match(s: Seq<RateLimitView>, item: ItemScoping) -> bool {
    forall|k: int| 0 <= k < s.len() ==> spec_limit_matches(#[trigger] s[k], item)
}

proof fn lemma_sorted_limit_matches(l: RateLimitView, item: ItemScoping)
    ensures
        spec_limit_matches(with_sorted_categories(l), item) == spec_limit_matches(l, item),
{
    law_sort_categories(l.categories);
    law_sort_categories_contains(l.categories, item.category);
}

proof fn lemma_add_all_match(acc: Seq<RateLimitView>, l: RateLimitView, item: ItemScoping)
    requires
        all_match(acc, item),
        spec_limit_matches(l, item),
    ensures
        all_match(spec_add(acc, l), item),
        spec_add(acc, l).len() >= 1,
{
    law_add_covers(acc, l);
    lemma_sorted_limit_matches(l, item);
    let r = spec_add(acc, l);
    assert forall|k: int| 0 <= k < r.len() implies spec_limit_matches(#[trigger] r[k], item) by {
        if r[k] != with_sorted_categories(l) {
            let q = choose|q: int| 0 <= q < acc.len() && acc[q] == r[k];
        }
    }
}

proof fn lemma_zero_quotas(acc: Seq<RateLimitView>, quotas: Seq<Quota>, item: ItemScoping, when: Instant)
    requires
        all_match(acc, item),
    ensures
        all_match(spec_add_zero_quotas(acc, quotas, item, when), item),
        spec_add_zero_quotas(acc, quotas, item, when).len() >= acc.len(),
        spec_add_zero_quotas(acc, quotas, item, when).len() == 0 <==> acc.len() == 0 && forall|i: int|
            0 <= i < quotas.len() ==> !(#[trigger] quotas[i].limit == Some(0u64) && spec_quota_matches(
                quotas[i],
                item,
            )),
    decreases quotas.len(),
{
    if quotas.len() > 0 {
        let p = quotas.drop_last();
        lemma_zero_quotas(acc, p, item, when);
        let prev = spec_add_zero_quotas(acc, p, item, when);
        let q = quotas.last();
        if q.limit == Some(0u64) && spec_quota_matches(q, item) {
            let l = spec_limit_from_quota(q, *item.scoping, when);
            assert(spec_limit_matches(l, item));
            lemma_add_all_match(prev, l, item);
            law_add_covers(prev, l);
            assert(quotas[quotas.len() - 1] == q);
        } else {
            assert forall|i: int| 0 <= i < p.len() implies p[i] == quotas[i] by {}
        }
    }
}

proof fn lemma_matching(acc: Seq<RateLimitView>, s: Seq<RateLimitView>, item: ItemScoping)
    requires
        all_match(acc, item),
    ensures
        all_match(spec_add_matching(acc, s, item), item),
        spec_add_matching(acc, s, item).len() >= acc.len(),
        spec_add_matching(acc, s, item).len() == 0 <==> acc.len() == 0 && forall|j: int|
            0 <= j < s.len() ==> !spec_limit_matches(#[trigger] s[j], item),
        forall|x: RateLimitView| covers(acc, x) ==> #[trigger] covers(spec_add_matching(acc, s, item), x),
        forall|j: int|
            0 <= j < s.len() && spec_limit_matches(s[j], item) ==> covers(
                spec_add_matching(acc, s, item),
                with_sorted_categories(#[trigger] s[j]),
            ),
    decreases s.len(),
{
    if s.len() > 0 {
        let p = s.drop_last();
        lemma_matching(acc, p, item);
        let prev = spec_add_matching(acc, p, item);
        let l = s.last();
        assert forall|j: int| 0 <= j < p.len() implies p[j] == s[j] by {}
        if spec_limit_matches(l, item) {
            lemma_add_all_match(prev, l, item);
            law_add_covers(prev, l);
            assert(s[s.len() - 1] == l);
        }
    }
}

/// Every limit that a check returns applies to the item; every limit of the collection that
/// applies to the item is covered by the result; and the result is empty exactly when no quota
/// with a limit of zero and no limit of the collection applies to the item.
pub proof fn law_check_applies(
    s: Seq<RateLimitView>,
    quotas: Seq<Quota>,
    item: ItemScoping,
    reject_until: Instant,
)
    ensures
        all_match(spec_check(s, quotas, item, reject_until), item),
        forall|j: int|
            0 <= j < s.len() && spec_limit_matches(s[j], item) ==> covers(
                spec_check(s, quotas, item, reject_until),
                with_sorted_categories(#[trigger] s[j]),
            ),
        spec_check(s, quotas, item, reject_until).len() == 0 <==> (forall|i: int|
            0 <= i < quotas.len() ==> !(#[trigger] quotas[i].limit == Some(0u64) && spec_quota_matches(
                quotas[i],
                item,
            ))) && (forall|j: int| 0 <= j < s.len() ==> !spec_limit_matches(#[trigger] s[j], item)),
{
    let e = Seq::<RateLimitView>::empty();
    lemma_zero_quotas(e, quotas, item, reject_until);
    lemma_matching(spec_add_zero_quotas(e, quotas, item, reject_until), s, item);
}

/// The limits of `s` that apply to the item, in order.
pub open spec fn matching_limits(s: Seq<RateLimitView>, item: ItemScoping) -> Seq<RateLimitView> {
    s.filter(|l: RateLimitView| spec_limit_matches(l, item))
}

proof fn lemma_prefix_valid(s: Seq<RateLimitView>)
    requires
        s.len() > 0,
        distinct_keys(s),
        all_categories_sorted(s),
    ensures
        distinct_keys(s.drop_last()),
        all_categories_sorted(s.drop_last()),
        forall|j: int| 0 <= j < s.len() - 1 ==> !same_key(#[trigger] s.drop_last()[j], s.last()),
{
    let p = s.drop_last();
    assert forall|i: int, j: int| 0 <= i < j < p.len() implies !same_key(
        #[trigger] p[i],
        #[trigger] p[j],
    ) by {
        assert(p[i] == s[i] && p[j] == s[j]);
    }
    assert forall|i: int| 0 <= i < p.len() implies categories_sorted(#[trigger] p[i].categories) by {
        assert(p[i] == s[i]);
    }
    assert forall|j: int| 0 <= j < s.len() - 1 implies !same_key(#[trigger] p[j], s.last()) by {
        assert(p[j] == s[j]);
        assert(s.last() == s[s.len() - 1]);
    }
}

/// Checking a collection whose limits have distinct keys and categories in order, as every
/// collection of rate limits has, gives exactly its limits that apply to the item, in their order;
/// a check with no quotas gives the same.
pub proof fn law_check_is_filter(s: Seq<RateLimitView>, item: ItemScoping, reject_until: Instant)
    requires
        distinct_keys(s),
        all_categories_sorted(s),
    ensures
        spec_add_matching(Seq::empty(), s, item) == matching_limits(s, item),
        spec_check(s, Seq::empty(), item, reject_until) == matching_limits(s, item),
    decreases s.len(),
{
    reveal(Seq::filter);
    let e = Seq::<RateLimitView>::empty();
    assert(spec_add_zero_quotas(e, Seq::<Quota>::empty(), item, reject_until) == e);
    if s.len() > 0 {
        let p = s.drop_last();
        lemma_prefix_valid(s);
        law_check_is_filter(p, item, reject_until);
        let prev = spec_add_matching(e, p, item);
        let l = s.last();
        if spec_limit_matches(l, item) {
            lemma_sorted_is_fixed_point(l.categories);
            assert(with_sorted_categories(l) == l);
            lemma_key_index(prev, l, 0);
            match key_index_from(prev, l, 0) {
                Some(i) => {
                    assert(prev.contains(prev[i]));
                    p.lemma_filter_contains_rev(|x: RateLimitView| spec_limit_matches(x, item), prev[i]);
                    let j = choose|j: int| 0 <= j < p.len() && p[j] == prev[i];
                    assert(!same_key(p[j], l));
                    assert(false);
                },
                None => {},
            }
        }
    }
}

/// Removing expired limits keeps exactly the limits that are active at `now`, in order: none of
/// the kept ones has expired, each active one is kept, and nothing else is added.
pub proof fn law_active_limits(s: Seq<RateLimitView>, now: Instant)
    ensures
        forall|k: int|
            0 <= k < spec_active(s, now).len() ==> !spec_expired_at(
                #[trigger] spec_active(s, now)[k].retry_after,
                now,
            ),
        forall|k: int| 0 <= k < spec_active(s, now).len() ==> s.contains(#[trigger] spec_active(s, now)[k]),
        forall|j: int|
            0 <= j < s.len() && !spec_expired_at(s[j].retry_after, now) ==> spec_active(s, now).contains(
                #[trigger] s[j],
            ),
    decreases s.len(),
{
    if s.len() > 0 {
        let p = s.drop_last();
        law_active_limits(p, now);
        let r = spec_active(s, now);
        let rest = spec_active(p, now);
        assert forall|k: int| 0 <= k < r.len() implies s.contains(#[trigger] r[k]) by {
            if k < rest.len() {
                assert(r[k] == rest[k]);
                let q = choose|q: int| 0 <= q < p.len() && p[q] == rest[k];
                assert(s[q] == p[q]);
            } else {
                assert(r[k] == s[s.len() - 1]);
            }
        }
        assert forall|j: int| 0 <= j < s.len() && !spec_expired_at(s[j].retry_after, now) implies r.contains(
            #[trigger] s[j],
        ) by {
            if j < p.len() {
                assert(p[j] == s[j]);
                let q = choose|q: int| 0 <= q < rest.len() && rest[q] == p[j];
                assert(r[q] == rest[q]);
            } else {
                assert(r[r.len() - 1] == s.last());
            }
        }
        assert forall|k: int| 0 <= k < r.len() implies !spec_expired_at(#[trigger] r[k].retry_after, now) by {
            if k < rest.len() {
                assert(r[k] == rest[k]);
            }
        }
    }
}

/// Removing expired limits keeps keys distinct and categories in order.
pub proof fn law_active_keeps_valid(s: Seq<RateLimitView>, now: Instant)
    requires
        valid_limits(s),
    ensures
        valid_limits(spec_active(s, now)),
    decreases s.len(),
{
    if s.len() > 0 {
        let p = s.drop_last();
        lemma_prefix_valid(s);
        law_active_keeps_valid(p, now);
        law_active_limits(p, now);
        let rest = spec_active(p, now);
        let r = spec_active(s, now);
        if !spec_expired_at(s.last().retry_after, now) {
            assert forall|i: int, j: int| 0 <= i < j < r.len() implies !same_key(
                #[trigger] r[i],
                #[trigger] r[j],
            ) by {
                assert(r[i] == rest[i]);
                if j == rest.len() {
                    assert(p.contains(rest[i]));
                    let q = choose|q: int| 0 <= q < p.len() && p[q] == rest[i];
                    assert(!same_key(p[q], s.last()));
                    assert(r[j] == s.last());
                } else {
                    assert(r[j] == rest[j]);
                }
            }
            assert forall|k: int| 0 <= k < r.len() implies categories_sorted(#[trigger] r[k].categories) by {
                if k < rest.len() {
                    assert(r[k] == rest[k]);
                } else {
                    assert(r[k] == s[s.len() - 1]);
                }
            }
        }
    }
}

/// The longest limit expires no earlier than any other, and strictly later than every limit after
/// it.
pub proof fn law_longest(s: Seq<RateLimitView>)
    requires
        s.len() > 0,
    ensures
        0 <= spec_longest_index(s) < s.len(),
        forall|j: int|
            0 <= j < s.len() ==> #[trigger] s[j].retry_after.nanos <= s[spec_longest_index(
                s,
            )].retry_after.nanos,
        forall|j: int|
            spec_longest_index(s) < j < s.len() ==> #[trigger] s[j].retry_after.nanos < s[spec_longest_index(
                s,
            )].retry_after.nanos,
    decreases s.len(),
{
    if s.len() > 1 {
        let p = s.drop_last();
        law_longest(p);
        assert forall|j: int| 0 <= j < p.len() implies p[j] == s[j] by {}
    }
}


proof fn lemma_zero_quotas_valid(acc: Seq<RateLimitView>, quotas: Seq<Quota>, item: ItemScoping, when: Instant)
    requires
        distinct_keys(acc),
        all_categories_sorted(acc),
    ensures
        distinct_keys(spec_add_zero_quotas(acc, quotas, item, when)),
        all_categories_sorted(spec_add_zero_quotas(acc, quotas, item, when)),
    decreases quotas.len(),
{
    if quotas.len() > 0 {
        lemma_zero_quotas_valid(acc, quotas.drop_last(), item, when);
        let prev = spec_add_zero_quotas(acc, quotas.drop_last(), item, when);
        let l = spec_limit_from_quota(quotas.last(), *item.scoping, when);
        law_add_keeps_keys_distinct(prev, l);
        law_add_keeps_categories_sorted(prev, l);
    }
}

proof fn lemma_matching_valid(acc: Seq<RateLimitView>, s: Seq<RateLimitView>, item: ItemScoping)
    requires
        distinct_keys(acc),
        all_categories_sorted(acc),
    ensures
        distinct_keys(spec_add_matching(acc, s, item)),
        all_categories_sorted(spec_add_matching(acc, s, item)),
    decreases s.len(),
{
    if s.len() > 0 {
        lemma_matching_valid(acc, s.drop_last(), item);
        let prev = spec_add_matching(acc, s.drop_last(), item);
        law_add_keeps_keys_distinct(prev, s.last());
        law_add_keeps_categories_sorted(prev, s.last());
    }
}

/// The limits that a check returns have distinct keys and categories in order, whatever the
/// collection that was checked.
pub proof fn law_check_valid(
    s: Seq<RateLimitView>,
    quotas: Seq<Quota>,
    item: ItemScoping,
    reject_until: Instant,
)
    ensures
        distinct_keys(spec_check(s, quotas, item, reject_until)),
        all_categories_sorted(spec_check(s, quotas, item, reject_until)),
{
    let e = Seq::<RateLimitView>::empty();
    lemma_zero_quotas_valid(e, quotas, item, reject_until);
    lemma_matching_valid(spec_add_zero_quotas(e, quotas, item, reject_until), s, item);
}

/// Whether an item's metric namespace falls under a quota's namespace: every namespace does when
/// the quota has none; otherwise an item without a namespace does not, an item for all namespaces
/// does, and an item of one namespace does when it is the quota's.
pub open spec fn quota_namespace_covers(quota_namespace: Option<MetricNamespace>, item: MetricNamespaceScoping) -> bool {
    match quota_namespace {
        None => true,
        Some(q) => match item {
            MetricNamespaceScoping::NoNamespace => false,
            MetricNamespaceScoping::Namespace(n) => n == q,
            MetricNamespaceScoping::Any => true,
        },
    }
}

/// The rate limit that a quota yields for a scoping covers that scoping, and applies to an item of
/// that scoping exactly when the item's category falls under the quota's categories and its
/// metric namespace under the quota's namespace; so it applies to each such item that the quota
/// applies to.
pub proof fn law_limit_from_quota_matches(quota: Quota, scoping: Scoping, when: Instant, item: ItemScoping)
    requires
        *item.scoping == scoping,
    ensures
        spec_limit_matches(spec_limit_from_quota(quota, scoping, when), item) == (spec_matches_categories(
            item.category,
            quota.categories@,
        ) && quota_namespace_covers(quota.namespace, item.namespace)),
        spec_quota_matches(quota, item) ==> spec_limit_matches(
            spec_limit_from_quota(quota, scoping, when),
            item,
        ),
{
    let l = spec_limit_from_quota(quota, scoping, when);
    assert(spec_scope_matches(l.scope, scoping));
    match quota.namespace {
        None => {},
        Some(q) => {
            assert(l.namespaces.len() == 1 && l.namespaces[0] == q);
            match item.namespace {
                MetricNamespaceScoping::Namespace(n) => {
                    if n == q {
                        assert(l.namespaces.contains(n));
                    }
                },
                _ => {},
            }
        },
    }
}

/// Adding a limit leaves in place every limit that differs from it (with its categories in
/// order) in its categories, its scope (kind and identifier) or its namespaces; and when every
/// limit differs so, the added limit is appended.
pub proof fn law_add_keeps_other_limits(s: Seq<RateLimitView>, limit: RateLimitView)
    ensures
        spec_add(s, limit).len() >= s.len(),
        forall|k: int|
            0 <= k < s.len() && !(s[k].categories == sort_categories(limit.categories) && s[k].scope
                == limit.scope && s[k].namespaces == limit.namespaces) ==> #[trigger] spec_add(s, limit)[k]
                == s[k],
        (forall|k: int|
            0 <= k < s.len() ==> !(#[trigger] s[k].categories == sort_categories(limit.categories)
                && s[k].scope == limit.scope && s[k].namespaces == limit.namespaces)) ==> spec_add(
            s,
            limit,
        ) == s.push(with_sorted_categories(limit)),
{
    let l = with_sorted_categories(limit);
    lemma_key_index(s, l, 0);
    law_add_covers(s, limit);
    match key_index_from(s, l, 0) {
        None => {},
        Some(i) => {
            assert(s[i].categories == sort_categories(limit.categories) && s[i].scope == limit.scope
                && s[i].namespaces == limit.namespaces);
        },
    }
}

/// A limit whose marker was made at `now` for a positive number of seconds, and fits the clock's
/// range, is active at `now` once added: the collection is then limited at `now`.
pub proof fn law_fresh_limit_is_active(s: Seq<RateLimitView>, limit: RateLimitView, seconds: u64, now: Instant)
    requires
        seconds > 0,
        spec_add_secs(now, seconds) is Some,
        limit.retry_after == spec_expiry(seconds, now),
    ensures
        spec_any_active(spec_add(s, limit), now),
{
    law_add_covers(s, limit);
    let r = spec_add(s, limit);
    let l = with_sorted_categories(limit);
    let k = choose|k: int|
        0 <= k < r.len() && same_key(#[trigger] r[k], l) && r[k].retry_after.nanos
            >= l.retry_after.nanos;
    assert(seconds * NANOS_PER_SEC > 0) by (nonlinear_arith)
        requires
            seconds > 0,
    ;
    assert(!spec_expired_at(r[k].retry_after, now));
}

} // verus!
