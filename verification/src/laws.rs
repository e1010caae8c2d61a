//! Laws of the store, stated over the spec functions its operations use.

use vstd::prelude::*;
use crate::types::MemoryView;
use crate::kinds::{MemoryPool, MemoryType, all_memory_types, pool_name, kind_name, lemma_pool_name_round_trip};
use crate::text::{contains_seq, unicode_lowercase};
use crate::types::{opt_view, SearchQuery, MemoryLink};
use crate::store::{
    ids_unique, has_id, pos_of, lookup, stored, listed, listing_matches, first_n, searched,
    search_matches, search_result, search_outcome, keyed, unkeyed, search_score, count_pool, count_type,
    type_counts, touching, lemma_pos_of_unique, lemma_counts_bounded,
};
use crate::ranking::{ranked, insert_ranked, lemma_ranked_props, sorted_desc};
use crate::spreading::{
    walk, start, fetched, merge_spread, direct_hits, ids_of, lemma_walk_stays, lemma_walk_results_distinct,
    lemma_fetched_distinct, lemma_merge_spread_keeps_unseen, lemma_progressive_result,
};
use crate::types::{SCALE, UpdateMemoryRequest, updated};
use crate::kinds::{pool_named, type_named};
use crate::consolidation::{is_weak, strong_only, weak_count, spec_decay_threshold, decay_one};

verus! {

broadcast use vstd::seq_lib::group_to_multiset_ensures;

/// Law (read after write): after storing `m`, looking up its identifier gives
/// `m`, every other identifier gives what it gave before, and identifiers
/// stay unique.
pub proof fn lemma_lookup_after_store(s: Seq<MemoryView>, m: MemoryView, other: u128)
    requires
        ids_unique(s),
    ensures
        ids_unique(stored(s, m)),
        lookup(stored(s, m), m.id) == Some(m),
        other != m.id ==> lookup(stored(s, m), other) == lookup(s, other),
{
    let t = stored(s, m);
    if has_id(s, m.id) {
        let p = pos_of(s, m.id);
        assert(ids_unique(t));
        lemma_pos_of_unique(t, m.id, p);
        if other != m.id && has_id(s, other) {
            let q = pos_of(s, other);
            lemma_pos_of_unique(t, other, q);
        }
        if other != m.id && has_id(t, other) {
            let q = pos_of(t, other);
            assert(s[q].id == other);
        }
    } else {
        assert(ids_unique(t));
        lemma_pos_of_unique(t, m.id, s.len() as int);
        if other != m.id && has_id(s, other) {
            let q = pos_of(s, other);
            lemma_pos_of_unique(t, other, q);
        }
        if other != m.id && has_id(t, other) {
            let q = pos_of(t, other);
            assert(q < s.len());
            assert(s[q].id == other);
        }
    }
}

/// Law (delete): after removing the memory with identifier `id`, nothing has
/// that identifier, and every other identifier gives what it gave before.
pub proof fn lemma_lookup_after_remove(s: Seq<MemoryView>, id: u128, other: u128)
    requires
        ids_unique(s),
        has_id(s, id),
    ensures
        ids_unique(s.remove(pos_of(s, id))),
        lookup(s.remove(pos_of(s, id)), id) is None,
        other != id ==> lookup(s.remove(pos_of(s, id)), other) == lookup(s, other),
{
    let p = pos_of(s, id);
    let t = s.remove(p);
    assert forall|a: int, b: int| 0 <= a < t.len() && 0 <= b < t.len() && a != b implies t[a].id
        != t[b].id by {
        let a2 = if a < p { a } else { a + 1 };
        let b2 = if b < p { b } else { b + 1 };
        assert(s[a2] == t[a] && s[b2] == t[b]);
    }
    if has_id(t, id) {
        let q = pos_of(t, id);
        let q2 = if q < p { q } else { q + 1 };
        assert(s[q2] == t[q]);
    }
    if other != id && has_id(s, other) {
        let q = pos_of(s, other);
        let q2 = if q < p { q } else { q - 1 };
        assert(t[q2] == s[q]);
        lemma_pos_of_unique(t, other, q2);
    }
    if other != id && has_id(t, other) {
        let q = pos_of(t, other);
        let q2 = if q < p { q } else { q + 1 };
        assert(s[q2] == t[q]);
        lemma_pos_of_unique(s, other, q2);
    }
}

/// Law (listing): a listing holds exactly the memories that pass its
/// filters, in store order; each comes from the store.
pub proof fn lemma_listed_props(
    s: Seq<MemoryView>,
    pool: Option<Seq<char>>,
    type_: Option<Seq<char>>,
    limit: int,
)
    requires
        0 <= limit,
    ensures
        listed(s, pool, type_).len() <= s.len(),
        first_n(listed(s, pool, type_), limit).len() <= limit,
        forall|i: int|
            0 <= i < listed(s, pool, type_).len() ==> listing_matches(
                #[trigger] listed(s, pool, type_)[i],
                pool,
                type_,
            ) && s.contains(listed(s, pool, type_)[i]),
        forall|m: MemoryView| s.contains(m) && listing_matches(m, pool, type_) ==> listed(
            s,
            pool,
            type_,
        ).contains(m),
    decreases s.len(),
{
    if s.len() > 0 {
        let t = s.drop_last();
        lemma_listed_props(t, pool, type_, limit);
        let r = listed(t, pool, type_);
        assert forall|i: int| 0 <= i < listed(s, pool, type_).len() implies listing_matches(
            #[trigger] listed(s, pool, type_)[i],
            pool,
            type_,
        ) && s.contains(listed(s, pool, type_)[i]) by {
            if i < r.len() {
                assert(listed(s, pool, type_)[i] == r[i]);
                assert(t.contains(r[i]));
                let k = choose|k: int| 0 <= k < t.len() && t[k] == r[i];
                assert(s[k] == t[k]);
            } else {
                assert(s[s.len() - 1] == s.last());
            }
        }
        assert forall|m: MemoryView| s.contains(m) && listing_matches(m, pool, type_) implies listed(
            s,
            pool,
            type_,
        ).contains(m) by {
            let k = choose|k: int| 0 <= k < s.len() && s[k] == m;
            if k < t.len() {
                assert(t[k] == m);
                assert(t.contains(m));
                let j = choose|j: int| 0 <= j < r.len() && r[j] == m;
                assert(listed(s, pool, type_)[j] == m);
            } else {
                let l = listed(s, pool, type_);
                assert(l[l.len() - 1] == m);
            }
        }
    }
}

/// Law (pools): listing by a pool's name gives exactly the memories of that
/// pool, in store order.
pub proof fn lemma_pool_listing(s: Seq<MemoryView>, p: MemoryPool)
    ensures
        forall|i: int|
            0 <= i < listed(s, Some(pool_name(p)), None).len() ==> (#[trigger] listed(
                s,
                Some(pool_name(p)),
                None,
            )[i]).pool == p,
        forall|m: MemoryView| s.contains(m) && m.pool == p ==> #[trigger] listed(s, Some(pool_name(p)), None).contains(m),
{
    lemma_listed_props(s, Some(pool_name(p)), None, 0);
    lemma_pool_name_round_trip(p);
    let l = listed(s, Some(pool_name(p)), None);
    assert forall|i: int| 0 <= i < l.len() implies (#[trigger] l[i]).pool == p by {
        lemma_pool_name_round_trip(l[i].pool);
        assert(listing_matches(l[i], Some(pool_name(p)), None));
    }
}

/// The memories that pass a search's filters: each passes them and comes
/// from the store.
pub proof fn lemma_searched_props(
    s: Seq<MemoryView>,
    pattern: Seq<char>,
    pool: Option<Seq<char>>,
    type_: Option<Seq<char>>,
    min_confidence: i32,
)
    ensures
        searched(s, pattern, pool, type_, min_confidence).len() <= s.len(),
        forall|i: int|
            0 <= i < searched(s, pattern, pool, type_, min_confidence).len() ==> search_matches(
                #[trigger] searched(s, pattern, pool, type_, min_confidence)[i],
                pattern,
                pool,
                type_,
                min_confidence,
            ) && s.contains(searched(s, pattern, pool, type_, min_confidence)[i]),
    decreases s.len(),
{
    if s.len() > 0 {
        let t = s.drop_last();
        lemma_searched_props(t, pattern, pool, type_, min_confidence);
        let r = searched(t, pattern, pool, type_, min_confidence);
        let l = searched(s, pattern, pool, type_, min_confidence);
        assert forall|i: int| 0 <= i < l.len() implies search_matches(
            #[trigger] l[i],
            pattern,
            pool,
            type_,
            min_confidence,
        ) && s.contains(l[i]) by {
            if i < r.len() {
                assert(l[i] == r[i]);
                let k = choose|k: int| 0 <= k < t.len() && t[k] == r[i];
                assert(s[k] == t[k]);
            } else {
                assert(s[s.len() - 1] == s.last());
            }
        }
    }
}

/// No two entries of a ranked list are the same memory.
pub open spec fn distinct_ids(v: Seq<(MemoryView, i64)>) -> bool {
    forall|i: int, j: int| 0 <= i < v.len() && 0 <= j < v.len() && i != j ==> v[i].0.id != v[j].0.id
}

/// Inserting a memory not yet in a list of distinct memories keeps them
/// distinct, and adds exactly that entry.
pub proof fn lemma_insert_ranked_distinct(s: Seq<(MemoryView, i64)>, x: (MemoryView, i64))
    requires
        distinct_ids(s),
        forall|k: int| 0 <= k < s.len() ==> (#[trigger] s[k]).0.id != x.0.id,
    ensures
        distinct_ids(insert_ranked(s, x)),
        forall|y: (MemoryView, i64)| #[trigger] insert_ranked(s, x).contains(y) <==> (s.contains(y) || y == x),
    decreases s.len(),
{
    if s.len() == 0 {
        assert(seq![x][0] == x);
    } else if s.last().1 >= x.1 {
        let out = s.push(x);
        assert forall|y: (MemoryView, i64)| #[trigger] out.contains(y) <==> (s.contains(y) || y == x) by {
            if out.contains(y) {
                let k = choose|k: int| 0 <= k < out.len() && out[k] == y;
                if k < s.len() {
                    assert(s[k] == y);
                }
            }
            if s.contains(y) {
                let k = choose|k: int| 0 <= k < s.len() && s[k] == y;
                assert(out[k] == y);
            }
            if y == x {
                assert(out[s.len() as int] == y);
            }
        }
    } else {
        let t = s.drop_last();
        let l = s.last();
        assert(s[s.len() - 1] == l);
        assert forall|a: int, b: int| 0 <= a < t.len() && 0 <= b < t.len() && a != b implies t[a].0.id
            != t[b].0.id by {
            assert(t[a] == s[a] && t[b] == s[b]);
        }
        assert forall|k: int| 0 <= k < t.len() implies (#[trigger] t[k]).0.id != x.0.id by {
            assert(t[k] == s[k]);
        }
        lemma_insert_ranked_distinct(t, x);
        let r = insert_ranked(t, x);
        let out = r.push(l);
        assert(l.0.id != x.0.id);
        assert forall|i: int| 0 <= i < r.len() implies (#[trigger] r[i]).0.id != l.0.id by {
            assert(r.contains(r[i]));
            if r[i] != x {
                let k = choose|k: int| 0 <= k < t.len() && t[k] == r[i];
                assert(s[k] == t[k]);
            }
        }
        assert forall|a: int, b: int| 0 <= a < out.len() && 0 <= b < out.len() && a != b implies out[a].0.id
            != out[b].0.id by {
            if a < r.len() && b < r.len() {
                assert(out[a] == r[a] && out[b] == r[b]);
            } else if a < r.len() {
                assert(out[a] == r[a]);
            } else {
                assert(out[b] == r[b]);
            }
        }
        assert forall|y: (MemoryView, i64)| #[trigger] out.contains(y) <==> (s.contains(y) || y == x) by {
            if out.contains(y) {
                let k = choose|k: int| 0 <= k < out.len() && out[k] == y;
                if k < r.len() {
                    assert(r[k] == y);
                    assert(r.contains(y));
                    if y != x {
                        let j = choose|j: int| 0 <= j < t.len() && t[j] == y;
                        assert(s[j] == y);
                    }
                } else {
                    assert(s[s.len() - 1] == y);
                }
            }
            if s.contains(y) {
                let k = choose|k: int| 0 <= k < s.len() && s[k] == y;
                if k < t.len() {
                    assert(t[k] == y);
                    assert(t.contains(y));
                    assert(r.contains(y));
                    let j = choose|j: int| 0 <= j < r.len() && r[j] == y;
                    assert(out[j] == y);
                } else {
                    assert(out[r.len() as int] == y);
                }
            }
            if y == x {
                assert(r.contains(y));
                let j = choose|j: int| 0 <= j < r.len() && r[j] == y;
                assert(out[j] == y);
            }
        }
    }
}

/// Ranking a list of distinct memories keeps them distinct and keeps exactly
/// its entries.
pub proof fn lemma_ranked_distinct(s: Seq<(MemoryView, i64)>)
    requires
        distinct_ids(s),
    ensures
        distinct_ids(ranked(s)),
        forall|y: (MemoryView, i64)| #[trigger] ranked(s).contains(y) <==> s.contains(y),
    decreases s.len(),
{
    if s.len() > 0 {
        let t = s.drop_last();
        let l = s.last();
        assert(s[s.len() - 1] == l);
        assert forall|a: int, b: int| 0 <= a < t.len() && 0 <= b < t.len() && a != b implies t[a].0.id
            != t[b].0.id by {
            assert(t[a] == s[a] && t[b] == s[b]);
        }
        lemma_ranked_distinct(t);
        let r = ranked(t);
        assert forall|k: int| 0 <= k < r.len() implies (#[trigger] r[k]).0.id != l.0.id by {
            assert(r.contains(r[k]));
            let j = choose|j: int| 0 <= j < t.len() && t[j] == r[k];
            assert(s[j] == t[j]);
        }
        lemma_insert_ranked_distinct(r, l);
        assert(s =~= t.push(l));
        assert forall|y: (MemoryView, i64)| #[trigger] ranked(s).contains(y) <==> s.contains(y) by {
            if s.contains(y) {
                let k = choose|k: int| 0 <= k < s.len() && s[k] == y;
                if k < t.len() {
                    assert(t[k] == y);
                    assert(t.contains(y));
                }
            }
            if t.contains(y) {
                let k = choose|k: int| 0 <= k < t.len() && t[k] == y;
                assert(s[k] == y);
            }
        }
    }
}

/// A search over memories with unique identifiers passes each memory at
/// most once.
pub proof fn lemma_searched_unique(
    s: Seq<MemoryView>,
    pattern: Seq<char>,
    pool: Option<Seq<char>>,
    type_: Option<Seq<char>>,
    min_confidence: i32,
)
    requires
        ids_unique(s),
    ensures
        ids_unique(searched(s, pattern, pool, type_, min_confidence)),
    decreases s.len(),
{
    if s.len() > 0 {
        let t = s.drop_last();
        assert forall|a: int, b: int| 0 <= a < t.len() && 0 <= b < t.len() && a != b implies t[a].id
            != t[b].id by {
            assert(t[a] == s[a] && t[b] == s[b]);
        }
        lemma_searched_unique(t, pattern, pool, type_, min_confidence);
        lemma_searched_props(t, pattern, pool, type_, min_confidence);
        let r = searched(t, pattern, pool, type_, min_confidence);
        let out = searched(s, pattern, pool, type_, min_confidence);
        if search_matches(s.last(), pattern, pool, type_, min_confidence) {
            assert forall|i: int| 0 <= i < r.len() implies (#[trigger] r[i]).id != s.last().id by {
                let k = choose|k: int| 0 <= k < t.len() && t[k] == r[i];
                assert(s[k] == t[k]);
                assert(s[s.len() - 1] == s.last());
            }
            assert forall|a: int, b: int| 0 <= a < out.len() && 0 <= b < out.len() && a != b implies out[a].id
                != out[b].id by {
                if a < r.len() && b < r.len() {
                    assert(out[a] == r[a] && out[b] == r[b]);
                } else if a < r.len() {
                    assert(out[a] == r[a]);
                } else {
                    assert(out[b] == r[b]);
                }
            }
        }
    }
}

/// Law (search): a search over a store returns no memory twice.
pub proof fn lemma_search_outcome_unique(
    s: Seq<MemoryView>,
    query: Seq<char>,
    pool: Option<Seq<char>>,
    type_: Option<Seq<char>>,
    min_confidence: i32,
    limit: int,
)
    requires
        ids_unique(s),
        0 <= limit,
    ensures
        ids_unique(search_outcome(s, query, pool, type_, min_confidence, limit)),
{
    let f = searched(s, unicode_lowercase(query), pool, type_, min_confidence);
    lemma_searched_unique(s, unicode_lowercase(query), pool, type_, min_confidence);
    let k = keyed(f);
    assert forall|a: int, b: int| 0 <= a < k.len() && 0 <= b < k.len() && a != b implies k[a].0.id
        != k[b].0.id by {
        assert(k[a].0 == f[a] && k[b].0 == f[b]);
    }
    lemma_ranked_distinct(k);
    let rk = ranked(k);
    lemma_ranked_props(k);
    let u = unkeyed(rk);
    assert forall|a: int, b: int| 0 <= a < u.len() && 0 <= b < u.len() && a != b implies u[a].id
        != u[b].id by {
        assert(u[a] == rk[a].0 && u[b] == rk[b].0);
    }
    let out = first_n(u, limit);
    assert forall|a: int, b: int| 0 <= a < out.len() && 0 <= b < out.len() && a != b implies out[a].id
        != out[b].id by {
        assert(out[a] == u[a] && out[b] == u[b]);
    }
}

/// Law (search): a search returns at most `limit` memories, by descending
/// confidence plus importance; each comes from the store, its lowercased
/// content holds the lowercased query, it passes the pool and type filters,
/// and its confidence is at least the minimum.
pub proof fn lemma_search_result_props(s: Seq<MemoryView>, q: SearchQuery)
    ensures
        search_result(s, q).len() <= q.limit,
        forall|i: int, j: int|
            0 <= i <= j < search_result(s, q).len() ==> search_score(
                #[trigger] search_result(s, q)[i],
            ) >= search_score(#[trigger] search_result(s, q)[j]),
        forall|i: int|
            0 <= i < search_result(s, q).len() ==> {
                let m = #[trigger] search_result(s, q)[i];
                &&& s.contains(m)
                &&& contains_seq(unicode_lowercase(m.content), unicode_lowercase(q.query@))
                &&& listing_matches(m, opt_view(q.pool), opt_view(q.type_))
                &&& m.confidence >= q.min_confidence
            },
{
    let pat = unicode_lowercase(q.query@);
    let f = searched(s, pat, opt_view(q.pool), opt_view(q.type_), q.min_confidence);
    lemma_searched_props(s, pat, opt_view(q.pool), opt_view(q.type_), q.min_confidence);
    let k = keyed(f);
    lemma_ranked_props(k);
    let rk = ranked(k);
    let u = unkeyed(rk);
    let r = search_result(s, q);
    assert(r == first_n(u, q.limit as int));
    assert forall|i: int| 0 <= i < rk.len() implies #[trigger] rk[i].1 == search_score(rk[i].0)
        && f.contains(rk[i].0) by {
        assert(rk.contains(rk[i]));
        assert(rk.to_multiset().count(rk[i]) > 0);
        assert(k.to_multiset().count(rk[i]) > 0);
        assert(k.contains(rk[i]));
        let j = choose|j: int| 0 <= j < k.len() && k[j] == rk[i];
        assert(k[j] == (f[j], search_score(f[j])));
    }
    assert forall|i: int| 0 <= i < r.len() implies r[i] == rk[i].0 by {}
    assert forall|i: int, j: int| 0 <= i <= j < r.len() implies search_score(#[trigger] r[i])
        >= search_score(#[trigger] r[j]) by {
        assert(rk[i].1 >= rk[j].1);
    }
    assert forall|i: int| 0 <= i < r.len() implies {
        let m = #[trigger] r[i];
        &&& s.contains(m)
        &&& contains_seq(unicode_lowercase(m.content), pat)
        &&& listing_matches(m, opt_view(q.pool), opt_view(q.type_))
        &&& m.confidence >= q.min_confidence
    } by {
        assert(i < rk.len());
        assert(r[i] == rk[i].0);
        assert(rk[i].1 == search_score(rk[i].0));
        assert(f.contains(rk[i].0));
        let j = choose|j: int| 0 <= j < f.len() && f[j] == rk[i].0;
        assert(search_matches(f[j], pat, opt_view(q.pool), opt_view(q.type_), q.min_confidence));
    }
}

/// Law (statistics): every memory is in exactly one pool, so the explicit
/// and implicit counts add up to the total.
pub proof fn lemma_pool_counts_sum(s: Seq<MemoryView>)
    ensures
        count_pool(s, MemoryPool::Explicit) + count_pool(s, MemoryPool::Implicit) == s.len(),
    decreases s.len(),
{
    if s.len() > 0 {
        lemma_pool_counts_sum(s.drop_last());
    }
}

/// Law (links): a memory's links are exactly the stored links with that
/// memory at either end.
pub proof fn lemma_touching_props(s: Seq<MemoryLink>, id: u128)
    ensures
        forall|l: MemoryLink| #[trigger] touching(s, id).contains(l) <==> s.contains(l) && (
        l.source_id == id || l.target_id == id),
    decreases s.len(),
{
    if s.len() > 0 {
        let t = s.drop_last();
        lemma_touching_props(t, id);
        assert forall|l: MemoryLink| #[trigger] touching(s, id).contains(l) <==> s.contains(l) && (
        l.source_id == id || l.target_id == id) by {
            let r = touching(t, id);
            if touching(s, id).contains(l) {
                let k = choose|k: int| 0 <= k < touching(s, id).len() && touching(s, id)[k] == l;
                if k < r.len() {
                    assert(r[k] == l);
                    assert(r.contains(l));
                    assert(touching(t, id).contains(l));
                    let j = choose|j: int| 0 <= j < t.len() && t[j] == l;
                    assert(s[j] == l);
                } else {
                    assert(s[s.len() - 1] == l);
                }
            }
            if s.contains(l) && (l.source_id == id || l.target_id == id) {
                let k = choose|k: int| 0 <= k < s.len() && s[k] == l;
                if k < t.len() {
                    assert(t[k] == l);
                    assert(t.contains(l));
                    assert(touching(t, id).contains(l));
                    let j = choose|j: int| 0 <= j < r.len() && r[j] == l;
                    assert(touching(s, id)[j] == l);
                } else {
                    let ts = touching(s, id);
                    assert(ts[ts.len() - 1] == l);
                }
            }
        }
    }
}

/// The sum of the counts in a list of (type, count) pairs.
pub open spec fn counted_total(c: Seq<(MemoryType, usize)>) -> int
    decreases c.len(),
{
    if c.len() == 0 {
        0
    } else {
        counted_total(c.drop_last()) + c.last().1
    }
}

/// The sum, over the types `ts`, of how many memories of `s` have that type.
pub open spec fn types_total(ts: Seq<MemoryType>, s: Seq<MemoryView>) -> int
    decreases ts.len(),
{
    if ts.len() == 0 {
        0
    } else {
        types_total(ts.drop_last(), s) + count_type(s, ts.last())
    }
}

/// How many times `t` occurs in `ts`.
pub open spec fn occurrences(ts: Seq<MemoryType>, t: MemoryType) -> int
    decreases ts.len(),
{
    if ts.len() == 0 {
        0
    } else {
        occurrences(ts.drop_last(), t) + if ts.last() == t {
            1int
        } else {
            0
        }
    }
}

proof fn lemma_type_counts_total(ts: Seq<MemoryType>, s: Seq<MemoryView>)
    requires
        s.len() <= usize::MAX,
    ensures
        counted_total(type_counts(ts, s)) == types_total(ts, s),
    decreases ts.len(),
{
    if ts.len() > 0 {
        lemma_type_counts_total(ts.drop_last(), s);
        let r = type_counts(ts.drop_last(), s);
        lemma_counts_bounded(s, MemoryPool::Explicit, ts.last());
        if count_type(s, ts.last()) > 0 {
            let x = (ts.last(), count_type(s, ts.last()) as usize);
            assert(r.push(x).drop_last() =~= r);
        }
    }
}

proof fn lemma_types_total_step(ts: Seq<MemoryType>, s: Seq<MemoryView>)
    requires
        s.len() > 0,
    ensures
        types_total(ts, s) == types_total(ts, s.drop_last()) + occurrences(ts, s.last().type_),
    decreases ts.len(),
{
    if ts.len() > 0 {
        lemma_types_total_step(ts.drop_last(), s);
    }
}

proof fn lemma_each_type_once(t: MemoryType)
    ensures
        occurrences(all_memory_types(), t) == 1,
{
    let ts = all_memory_types();
    reveal_with_fuel(occurrences, 9);
    assert(ts.drop_last().drop_last().drop_last().drop_last().drop_last().drop_last().drop_last().drop_last()
        =~= Seq::<MemoryType>::empty());
}

/// Law (statistics): every memory has exactly one type, so the counts by
/// type add up to the total.
pub proof fn lemma_type_counts_sum(s: Seq<MemoryView>)
    requires
        s.len() <= usize::MAX,
    ensures
        counted_total(type_counts(all_memory_types(), s)) == s.len(),
    decreases s.len(),
{
    lemma_type_counts_total(all_memory_types(), s);
    if s.len() == 0 {
        assert(types_total(all_memory_types(), s) == 0) by {
            lemma_types_zero(all_memory_types(), s);
        }
    } else {
        lemma_type_counts_sum(s.drop_last());
        lemma_type_counts_total(all_memory_types(), s.drop_last());
        lemma_types_total_step(all_memory_types(), s);
        lemma_each_type_once(s.last().type_);
    }
}

proof fn lemma_types_zero(ts: Seq<MemoryType>, s: Seq<MemoryView>)
    requires
        s.len() == 0,
    ensures
        types_total(ts, s) == 0,
    decreases ts.len(),
{
    if ts.len() > 0 {
        lemma_types_zero(ts.drop_last(), s);
    }
}

/// Law (progressive retrieval against spreading): take the direct hits of a
/// search over a store, and `spread`, what spreading activation from exactly
/// those hits returns at the same time over the same links (any finished
/// walk; `lemma_walk_settled` shows they agree). Then what progressive
/// search returns names no memory twice and is ordered by descending
/// activation; it holds every hit with full activation; each of its other
/// entries is an entry of `spread` whose memory is not a hit; and every
/// entry of `spread` whose memory is not a hit is in it. With no hits it is
/// empty.
pub proof fn lemma_progressive_is_hits_then_spread(
    s: Seq<MemoryView>,
    links: Seq<MemoryLink>,
    query: Seq<char>,
    limit: int,
    n: nat,
    now: i64,
)
    requires
        ids_unique(s),
        0 <= limit,
        walk(start(ids_of(search_outcome(s, query, None, None, 0, limit))), links, n).queue.len() == 0,
    ensures
        ({
            let direct = search_outcome(s, query, None, None, 0, limit);
            let spread = ranked(fetched(s, walk(start(ids_of(direct)), links, n).results, now).1);
            let out = ranked(direct_hits(direct) + merge_spread(ids_of(direct), spread).1);
            &&& distinct_ids(out)
            &&& sorted_desc(out)
            &&& forall|k: int| 0 <= k < direct.len() ==> out.contains((#[trigger] direct[k], SCALE as i64))
            &&& forall|i: int|
                0 <= i < out.len() ==> direct_hits(direct).contains(#[trigger] out[i]) || (spread.contains(
                    out[i],
                ) && !ids_of(direct).contains(out[i].0.id))
            &&& forall|j: int|
                0 <= j < spread.len() ==> ids_of(direct).contains((#[trigger] spread[j]).0.id) || out.contains(
                    spread[j],
                )
            &&& direct.len() == 0 ==> out.len() == 0
        }),
{
    let direct = search_outcome(s, query, None, None, 0, limit);
    let seeds = ids_of(direct);
    let w = walk(start(seeds), links, n);
    lemma_search_outcome_unique(s, query, None, None, 0, limit);
    lemma_walk_results_distinct(seeds, links, n);
    let f = fetched(s, w.results, now).1;
    lemma_fetched_distinct(s, w.results, now);
    lemma_ranked_distinct(f);
    let spread = ranked(f);
    lemma_progressive_result(direct, spread);
    lemma_merge_spread_keeps_unseen(seeds, spread);
    if direct.len() == 0 {
        assert(start(seeds).queue =~= Seq::<(u128, i32, usize)>::empty());
        lemma_walk_stays(start(seeds), links, n);
        assert(w.results.len() == 0);
        assert(f.len() == 0);
        lemma_ranked_props(f);
        let acc = merge_spread(seeds, spread).1;
        assert(acc.len() == 0);
        assert(direct_hits(direct) + acc =~= Seq::<(MemoryView, i64)>::empty());
        lemma_ranked_props(direct_hits(direct) + acc);
    }
}

/// Law (search order): search results come in non-increasing order of
/// confidence plus importance, the sum of the two scores.
pub proof fn lemma_search_sorted_by_sum(s: Seq<MemoryView>, q: SearchQuery)
    ensures
        forall|i: int, j: int|
            0 <= i <= j < search_result(s, q).len() ==> (#[trigger] search_result(s, q)[i]).confidence
                + search_result(s, q)[i].importance >= (#[trigger] search_result(s, q)[j]).confidence
                + search_result(s, q)[j].importance,
{
    lemma_search_result_props(s, q);
    let r = search_result(s, q);
    assert forall|i: int, j: int| 0 <= i <= j < r.len() implies (#[trigger] r[i]).confidence + r[i].importance
        >= (#[trigger] r[j]).confidence + r[j].importance by {
        assert(search_score(r[i]) >= search_score(r[j]));
    }
}

/// Law (search filters): every search result has the requested pool's name
/// when a pool is given and the requested type's name when a type is given,
/// each on its own, and a confidence of at least the minimum.
pub proof fn lemma_search_filters(s: Seq<MemoryView>, q: SearchQuery)
    ensures
        forall|i: int|
            0 <= i < search_result(s, q).len() ==> {
                let m = #[trigger] search_result(s, q)[i];
                &&& (q.pool matches Some(p) ==> pool_name(m.pool) == p@)
                &&& (q.type_ matches Some(t) ==> kind_name(m.type_) == t@)
                &&& m.confidence >= q.min_confidence
            },
{
    lemma_search_result_props(s, q);
}

/// Law (listing filters): a listing holds exactly the memories of the store
/// that have the requested pool's name (when a pool is given) and the
/// requested type's name (when a type is given), each filter applying on its
/// own; none other.
pub proof fn lemma_listing_filters(s: Seq<MemoryView>, pool: Option<Seq<char>>, type_: Option<Seq<char>>)
    ensures
        forall|i: int|
            0 <= i < listed(s, pool, type_).len() ==> {
                let m = #[trigger] listed(s, pool, type_)[i];
                &&& s.contains(m)
                &&& (pool matches Some(p) ==> pool_name(m.pool) == p)
                &&& (type_ matches Some(t) ==> kind_name(m.type_) == t)
            },
        forall|m: MemoryView|
            s.contains(m) && (pool matches Some(p) ==> pool_name(m.pool) == p) && (type_ matches Some(t)
                ==> kind_name(m.type_) == t) ==> #[trigger] listed(s, pool, type_).contains(m),
{
    lemma_listed_props(s, pool, type_, 0);
}

/// A memory is weak, for removal, exactly when its strength, importance times
/// (1 + 0.1 per access), is below 0.1: in millionths, when importance times
/// (10 + accesses) is below 1 000 000.
pub proof fn lemma_weak_means_strength_below(m: MemoryView)
    ensures
        is_weak(m, spec_decay_threshold()) <==> m.importance * (10 + m.access_count) < 1_000_000,
{
    let x = m.importance * (10 + m.access_count);
    if x >= 0 {
        assert(x / 10 < 100_000 <==> x < 1_000_000) by (nonlinear_arith)
            requires
                x >= 0,
        ;
    } else {
        assert(-((-x) / 10) < 100_000) by (nonlinear_arith)
            requires
                x < 0,
        ;
    }
}

/// Law (consolidation): the memories kept are exactly those, in store order,
/// whose strength (importance times (1 + 0.1 per access)) is at least 0.1,
/// and the memories dropped are exactly the others.
pub proof fn lemma_strong_only_by_strength(s: Seq<MemoryView>)
    ensures
        strong_only(s, spec_decay_threshold()) == s.filter(
            |m: MemoryView| m.importance * (10 + m.access_count) >= 1_000_000,
        ),
        weak_count(s, spec_decay_threshold()) == s.filter(
            |m: MemoryView| m.importance * (10 + m.access_count) < 1_000_000,
        ).len(),
    decreases s.len(),
{
    reveal(Seq::filter);
    if s.len() > 0 {
        lemma_strong_only_by_strength(s.drop_last());
        lemma_weak_means_strength_below(s.last());
    }
}

/// Law (update): an update sets each field it gives and keeps every other:
/// content, pool and type (parsed from their names), confidence,
/// importance, decay rate, tags (replaced, not added to) and metadata, and
/// stamps the update time; identity, source, creation, last access and
/// access count never change. When a pool or type name does not parse, the
/// scores, tags, metadata and update time stay as they were.
pub proof fn lemma_update_fields(m: MemoryView, u: UpdateMemoryRequest, now: i64)
    ensures
        ({
            let (m2, out) = updated(m, u, now);
            &&& m2.id == m.id
            &&& m2.source == m.source
            &&& m2.created_at == m.created_at
            &&& m2.last_accessed == m.last_accessed
            &&& m2.access_count == m.access_count
            &&& out is Ok ==> {
                &&& m2.content == match u.content {
                    Some(c) => c@,
                    None => m.content,
                }
                &&& m2.pool == match u.pool {
                    Some(p) => pool_named(unicode_lowercase(p@))->0,
                    None => m.pool,
                }
                &&& m2.type_ == match u.type_ {
                    Some(t) => type_named(unicode_lowercase(t@))->0,
                    None => m.type_,
                }
                &&& m2.confidence == match u.confidence {
                    Some(c) => c,
                    None => m.confidence,
                }
                &&& m2.importance == match u.importance {
                    Some(i) => i,
                    None => m.importance,
                }
                &&& m2.decay_rate == match u.decay_rate {
                    Some(d) => d,
                    None => m.decay_rate,
                }
                &&& m2.tags == match u.tags {
                    Some(t) => t@.map_values(|x: String| x@),
                    None => m.tags,
                }
                &&& m2.metadata == match u.metadata {
                    Some(md) => md@,
                    None => m.metadata,
                }
                &&& m2.updated_at == now
            }
            &&& out is Err ==> {
                &&& m2.confidence == m.confidence
                &&& m2.importance == m.importance
                &&& m2.decay_rate == m.decay_rate
                &&& m2.tags == m.tags
                &&& m2.metadata == m.metadata
                &&& m2.updated_at == m.updated_at
            }
        }),
{
}

/// Law (decay): at time `now`, a memory last accessed `d` whole days ago
/// (d >= 1) has its importance lowered by its decay rate times `d`, not
/// below zero (nor above `i32::MAX`), provided this moves it by more than
/// 0.001; otherwise, and within the first day, it is unchanged. Nothing but
/// importance and the update time changes.
pub proof fn lemma_decay_by_days(m: MemoryView, now: i64)
    requires
        now >= m.last_accessed,
    ensures
        ({
            let d = (now - m.last_accessed) / 86_400_000;
            let raw = m.importance - m.decay_rate * d;
            let ni = if raw < 0 {
                0
            } else if raw > i32::MAX {
                i32::MAX as int
            } else {
                raw
            };
            let m2 = decay_one(m, now);
            &&& (d >= 1 && (ni - m.importance > 1000 || m.importance - ni > 1000)) ==> m2.importance == ni
                && m2.updated_at == now
            &&& !(d >= 1 && (ni - m.importance > 1000 || m.importance - ni > 1000)) ==> m2 == m
            &&& m2 == (MemoryView { importance: m2.importance, updated_at: m2.updated_at, ..m })
        }),
{
}

} // verus!
