//! Stable ranking of keyed items by descending key.

use vstd::prelude::*;

verus! {

broadcast use vstd::seq_lib::group_to_multiset_ensures;

/// `x` placed into `s` after every item from the end of `s` whose key is at
/// least its own; items with a smaller key that end `s` move behind it.
pub open spec fn insert_ranked<T>(s: Seq<(T, i64)>, x: (T, i64)) -> Seq<(T, i64)>
    decreases s.len(),
{
    if s.len() == 0 {
        seq![x]
    } else if s.last().1 >= x.1 {
        s.push(x)
    } else {
        insert_ranked(s.drop_last(), x).push(s.last())
    }
}

/// The items of `s` ordered by descending key; items with equal keys keep
/// their order in `s` (a stable sort).
pub open spec fn ranked<T>(s: Seq<(T, i64)>) -> Seq<(T, i64)>
    decreases s.len(),
{
    if s.len() == 0 {
        Seq::empty()
    } else {
        insert_ranked(ranked(s.drop_last()), s.last())
    }
}

/// Keys never increase along `s`.
pub open spec fn sorted_desc<T>(s: Seq<(T, i64)>) -> bool {
    forall|i: int, j: int| 0 <= i <= j < s.len() ==> s[i].1 >= s[j].1
}

/// The position at which `insert_ranked` places `x`.
pub proof fn lemma_insert_ranked_at<T>(s: Seq<(T, i64)>, x: (T, i64), j: int)
    requires
        0 <= j <= s.len(),
        forall|k: int| j <= k < s.len() ==> s[k].1 < x.1,
        j == 0 || s[j - 1].1 >= x.1,
    ensures
        insert_ranked(s, x) == s.take(j).push(x) + s.skip(j),
    decreases s.len(),
{
    if s.len() == 0 {
        assert(s.take(j).push(x) + s.skip(j) =~= seq![x]);
    } else if s.last().1 >= x.1 {
        assert(j == s.len());
        assert(s.take(j).push(x) + s.skip(j) =~= s.push(x));
    } else {
        let t = s.drop_last();
        assert(j < s.len());
        lemma_insert_ranked_at(t, x, j);
        assert(s.take(j).push(x) + s.skip(j) =~= (t.take(j).push(x) + t.skip(j)).push(s.last()));
    }
}

/// `insert_ranked` adds exactly `x` and keeps a descending order.
pub proof fn lemma_insert_ranked_props<T>(s: Seq<(T, i64)>, x: (T, i64))
    ensures
        insert_ranked(s, x).len() == s.len() + 1,
        insert_ranked(s, x).to_multiset() == s.to_multiset().insert(x),
        sorted_desc(s) ==> sorted_desc(insert_ranked(s, x)),
    decreases s.len(),
{
    if s.len() == 0 {
        assert(seq![x] =~= Seq::<(T, i64)>::empty().push(x));
    } else if s.last().1 >= x.1 {
    } else {
        let t = s.drop_last();
        lemma_insert_ranked_props(t, x);
        assert(s =~= t.push(s.last()));
        let r = insert_ranked(t, x);
        if sorted_desc(s) {
            assert forall|i: int, j: int| 0 <= i <= j < r.len() + 1 implies r.push(
                s.last(),
            )[i].1 >= r.push(s.last())[j].1 by {
                if j == r.len() && i < r.len() {
                    // every item of r is x or an item of t, all keyed at least s.last()
                    assert(r.to_multiset().count(r[i]) > 0);
                    assert(t.to_multiset().insert(x).count(r[i]) > 0);
                    if r[i] != x {
                        assert(t.to_multiset().count(r[i]) > 0);
                        assert(t.contains(r[i]));
                        let k = choose|k: int| 0 <= k < t.len() && t[k] == r[i];
                        assert(s[k] == t[k]);
                    }
                }
            }
        }
    }
}

/// `ranked` keeps exactly the items and orders them by descending key.
pub proof fn lemma_ranked_props<T>(s: Seq<(T, i64)>)
    ensures
        ranked(s).len() == s.len(),
        ranked(s).to_multiset() == s.to_multiset(),
        sorted_desc(ranked(s)),
    decreases s.len(),
{
    if s.len() > 0 {
        lemma_ranked_props(s.drop_last());
        lemma_insert_ranked_props(ranked(s.drop_last()), s.last());
        assert(s =~= s.drop_last().push(s.last()));
    }
}

/// Ranking commutes with a change of the items that keeps their keys.
pub proof fn lemma_ranked_map<A, B>(s: Seq<(A, i64)>, f: spec_fn(A) -> B)
    ensures
        ranked(s.map_values(|p: (A, i64)| (f(p.0), p.1))) == ranked(s).map_values(
            |p: (A, i64)| (f(p.0), p.1),
        ),
    decreases s.len(),
{
    if s.len() > 0 {
        let g = |p: (A, i64)| (f(p.0), p.1);
        let t = s.drop_last();
        lemma_ranked_map(t, f);
        assert(s.map_values(g).drop_last() =~= t.map_values(g));
        lemma_insert_ranked_map(ranked(t), s.last(), f);
    }
}

/// Inserting commutes with a change of the items that keeps their keys.
pub proof fn lemma_insert_ranked_map<A, B>(s: Seq<(A, i64)>, x: (A, i64), f: spec_fn(A) -> B)
    ensures
        insert_ranked(s.map_values(|p: (A, i64)| (f(p.0), p.1)), (f(x.0), x.1)) == insert_ranked(
            s,
            x,
        ).map_values(|p: (A, i64)| (f(p.0), p.1)),
    decreases s.len(),
{
    let g = |p: (A, i64)| (f(p.0), p.1);
    if s.len() == 0 {
        assert(seq![(f(x.0), x.1)] =~= seq![x].map_values(g));
    } else if s.last().1 >= x.1 {
        assert(s.map_values(g).push((f(x.0), x.1)) =~= s.push(x).map_values(g));
    } else {
        let t = s.drop_last();
        lemma_insert_ranked_map(t, x, f);
        assert(s.map_values(g).drop_last() =~= t.map_values(g));
        assert(insert_ranked(t, x).push(s.last()).map_values(g) =~= insert_ranked(t, x).map_values(
            g,
        ).push(g(s.last())));
    }
}

/// Inserting an item behind a prefix whose keys are all at least its own
/// leaves that prefix in place.
pub proof fn lemma_insert_ranked_keeps_prefix<T>(s: Seq<(T, i64)>, x: (T, i64), n: int)
    requires
        0 <= n <= s.len(),
        forall|k: int| 0 <= k < n ==> #[trigger] s[k].1 >= x.1,
    ensures
        insert_ranked(s, x).len() == s.len() + 1,
        insert_ranked(s, x).take(n) == s.take(n),
    decreases s.len(),
{
    if s.len() == 0 {
    } else if s.last().1 >= x.1 {
        assert(s.push(x).take(n) =~= s.take(n));
    } else {
        let t = s.drop_last();
        assert(n < s.len()) by {
            if n == s.len() {
                assert(s[s.len() - 1].1 >= x.1);
            }
        }
        lemma_insert_ranked_keeps_prefix(t, x, n);
        let r = insert_ranked(t, x);
        assert(r.push(s.last()).take(n) =~= r.take(n));
        assert(t.take(n) =~= s.take(n));
    }
}

/// Items that all share one key keep their order.
pub proof fn lemma_ranked_equal_keys<T>(s: Seq<(T, i64)>, key: i64)
    requires
        forall|k: int| 0 <= k < s.len() ==> #[trigger] s[k].1 == key,
    ensures
        ranked(s) == s,
    decreases s.len(),
{
    if s.len() > 0 {
        let t = s.drop_last();
        lemma_ranked_equal_keys(t, key);
        if t.len() > 0 {
            assert(t.last().1 == key);
        }
        assert(t.push(s.last()) =~= s);
        if t.len() == 0 {
            assert(seq![s.last()] =~= s);
        }
    }
}

/// Items that all share the largest key come first, in their order, when
/// every item after them has a key no larger.
pub proof fn lemma_ranked_top_first<T>(a: Seq<(T, i64)>, b: Seq<(T, i64)>, key: i64)
    requires
        forall|k: int| 0 <= k < a.len() ==> #[trigger] a[k].1 == key,
        forall|k: int| 0 <= k < b.len() ==> #[trigger] b[k].1 <= key,
    ensures
        ranked(a + b).take(a.len() as int) == a,
        ranked(a + b).len() == a.len() + b.len(),
    decreases b.len(),
{
    if b.len() == 0 {
        assert(a + b =~= a);
        lemma_ranked_equal_keys(a, key);
        assert(a.take(a.len() as int) =~= a);
    } else {
        let b2 = b.drop_last();
        lemma_ranked_top_first(a, b2, key);
        assert((a + b).drop_last() =~= a + b2);
        assert((a + b).last() == b.last());
        let r = ranked(a + b2);
        assert forall|k: int| 0 <= k < a.len() implies #[trigger] r[k].1 >= b.last().1 by {
            assert(r.take(a.len() as int)[k] == a[k]);
        }
        lemma_insert_ranked_keeps_prefix(r, b.last(), a.len() as int);
    }
}

/// Places `x` into `out` as `insert_ranked` does.
fn insert_ranked_exec<T>(out: &mut Vec<(T, i64)>, x: (T, i64))
    ensures
        final(out)@ == insert_ranked(old(out)@, x),
{
    let mut j: usize = out.len();
    while j > 0 && out[j - 1].1 < x.1
        invariant
            j <= out@.len(),
            forall|k: int| j <= k < out@.len() ==> out@[k].1 < x.1,
        decreases j,
    {
        j = j - 1;
    }
    proof {
        lemma_insert_ranked_at(out@, x, j as int);
        assert(out@.insert(j as int, x) =~= out@.take(j as int).push(x) + out@.skip(j as int));
    }
    out.insert(j, x);
}

/// The items ordered by descending key, equal keys in their given order.
pub fn rank_desc<T>(v: Vec<(T, i64)>) -> (r: Vec<(T, i64)>)
    ensures
        r@ == ranked(v@),
{
    let ghost orig = v@;
    assert(orig.len() == v.len());
    let mut rest = v;
    let mut out: Vec<(T, i64)> = Vec::new();
    let mut k: usize = 0;
    while rest.len() > 0
        invariant
            k <= orig.len(),
            orig.len() <= usize::MAX,
            rest@ == orig.skip(k as int),
            out@ == ranked(orig.take(k as int)),
        decreases rest.len(),
    {
        assert(k < orig.len());
        let x = rest.remove(0);
        assert(orig.take(k + 1).drop_last() =~= orig.take(k as int));
        assert(orig.take(k + 1).last() == x);
        insert_ranked_exec(&mut out, x);
        assert(rest@ =~= orig.skip(k + 1));
        k = k + 1;
    }
    assert(orig.take(k as int) =~= orig);
    out
}

} // verus!
