//! Spreading activation: starting from seed memories, activation flows along
//! links, weakened by a decay factor and the link's strength at each step,
//! until it falls below a minimum or passes a maximum depth.

use vstd::prelude::*;
use crate::ids::now_millis;
use crate::types::{Memory, MemoryView, MemoryLink, SCALE, trunc_div, touched};
use crate::store::{InMemoryStore, lookup, pos_of, has_id, touching, views, pair_views, search_outcome, ids_unique};
use crate::types::SearchQuery;
use crate::text::{owned, contains_seq, unicode_lowercase};
use crate::ranking::{ranked, rank_desc, lemma_ranked_map, lemma_ranked_props, sorted_desc, lemma_ranked_top_first};
use crate::laws::{lemma_touching_props, lemma_search_result_props, distinct_ids, lemma_ranked_distinct, lemma_search_outcome_unique};

verus! {

broadcast use vstd::seq_lib::group_to_multiset_ensures;

/// The activation decay per link (0.7).
pub open spec fn spec_decay_factor() -> i32 {
    700_000
}

/// The weakest activation that still spreads (0.1).
pub open spec fn spec_min_strength() -> i32 {
    100_000
}

/// The deepest link distance from a seed that still spreads.
pub open spec fn spec_max_depth() -> usize {
    3
}

/// Activation `st` carried across a link of strength `ls` with decay
/// `decay`, all in millionths: the real product `st * decay * ls` (in
/// millionths) rounded toward zero to a whole millionth, so it may fall up
/// to one millionth below the real value; kept within the range of `i32`.
pub open spec fn activation(st: i32, decay: i32, ls: i32) -> i32 {
    let q = trunc_div(st * decay * ls, 1_000_000_000_000);
    if q > i32::MAX {
        i32::MAX
    } else if q < i32::MIN {
        i32::MIN
    } else {
        q as i32
    }
}

/// The end of link `l` that is not memory `id` (the target when `id` is
/// the source, else the source).
pub open spec fn other_end(l: MemoryLink, id: u128) -> u128 {
    if l.source_id == id {
        l.target_id
    } else {
        l.source_id
    }
}

/// The queue entries added when memory `id`, reached with activation `st`
/// at depth `d`, spreads over the links `ls`: one per link, in order, whose
/// far end is not yet visited and receives at least the minimum activation.
pub open spec fn pushes(
    ls: Seq<MemoryLink>,
    id: u128,
    st: i32,
    d: usize,
    visited: Seq<u128>,
) -> Seq<(u128, i32, usize)>
    decreases ls.len(),
{
    if ls.len() == 0 {
        Seq::empty()
    } else {
        let r = pushes(ls.drop_last(), id, st, d, visited);
        let l = ls.last();
        let other = other_end(l, id);
        let ns = activation(st, spec_decay_factor(), l.strength);
        if ns >= spec_min_strength() && !visited.contains(other) {
            r.push((other, ns, (d + 1) as usize))
        } else {
            r
        }
    }
}

/// The state of a spread: pending entries (memory, activation, depth), the
/// memories visited, and the activation each visited memory received.
pub struct Walk {
    pub queue: Seq<(u128, i32, usize)>,
    pub visited: Seq<u128>,
    pub results: Seq<(u128, i32)>,
}

/// One step of a spread over the links `links`: the last queued entry is
/// taken; it is dropped when its memory was visited, it is deeper than the
/// maximum depth, or its activation is below the minimum; otherwise its
/// memory is visited with that activation and spreads to its links.
pub open spec fn walk_step(w: Walk, links: Seq<MemoryLink>) -> Walk {
    if w.queue.len() == 0 {
        w
    } else {
        let (id, st, d) = w.queue.last();
        let q = w.queue.drop_last();
        if w.visited.contains(id) || d > spec_max_depth() || st < spec_min_strength() {
            Walk { queue: q, ..w }
        } else {
            let v = w.visited.push(id);
            Walk {
                queue: q + pushes(touching(links, id), id, st, d, v),
                visited: v,
                results: w.results.push((id, st)),
            }
        }
    }
}

/// The state after `n` steps.
pub open spec fn walk(w: Walk, links: Seq<MemoryLink>, n: nat) -> Walk
    decreases n,
{
    if n == 0 {
        w
    } else {
        walk(walk_step(w, links), links, (n - 1) as nat)
    }
}

/// The start of a spread: every seed queued with full activation at depth 0.
pub open spec fn start(seeds: Seq<u128>) -> Walk {
    Walk {
        queue: seeds.map_values(|id: u128| (id, SCALE, 0usize)),
        visited: Seq::empty(),
        results: Seq::empty(),
    }
}

/// Fetching the visited memories in order, each access recorded at `now`:
/// the memories afterwards, and each memory found with its activation.
pub open spec fn fetched(s: Seq<MemoryView>, rs: Seq<(u128, i32)>, now: i64) -> (
    Seq<MemoryView>,
    Seq<(MemoryView, i64)>,
)
    decreases rs.len(),
{
    if rs.len() == 0 {
        (s, Seq::empty())
    } else {
        let (s1, out) = fetched(s, rs.drop_last(), now);
        let (id, st) = rs.last();
        match lookup(s1, id) {
            None => (s1, out),
            Some(m) => (s1.update(pos_of(s1, id), touched(m, now)), out.push((touched(m, now), st as i64))),
        }
    }
}

/// Adding spread results behind direct ones: each result whose memory is not
/// yet seen is added and becomes seen; the others are skipped.
pub open spec fn merge_spread(seen: Seq<u128>, spread: Seq<(MemoryView, i64)>) -> (
    Seq<u128>,
    Seq<(MemoryView, i64)>,
)
    decreases spread.len(),
{
    if spread.len() == 0 {
        (seen, Seq::empty())
    } else {
        let (sn, acc) = merge_spread(seen, spread.drop_last());
        let (m, st) = spread.last();
        if sn.contains(m.id) {
            (sn, acc)
        } else {
            (sn.push(m.id), acc.push((m, st)))
        }
    }
}

/// Direct search hits, each with full activation.
pub open spec fn direct_hits(direct: Seq<MemoryView>) -> Seq<(MemoryView, i64)> {
    direct.map_values(|m: MemoryView| (m, SCALE as i64))
}

/// The identifiers of memories.
pub open spec fn ids_of(ms: Seq<MemoryView>) -> Seq<u128> {
    ms.map_values(|m: MemoryView| m.id)
}

/// Every identifier the walk can meet: the seeds and both ends of every link.
pub open spec fn universe(seeds: Seq<u128>, links: Seq<MemoryLink>) -> Set<u128> {
    seeds.to_set() + links.map_values(|l: MemoryLink| l.source_id).to_set() + links.map_values(
        |l: MemoryLink| l.target_id,
    ).to_set()
}

/// Every memory whose identifier is in `ids` can record one more access.
pub open spec fn room_to_touch(s: Seq<MemoryView>, ids: Set<u128>) -> bool {
    forall|k: int| #![trigger s[k]] 0 <= k < s.len() && ids.contains(s[k].id) ==> s[k].access_count < u64::MAX
}

/// Every memory that a progressive search for `query` can reach (one whose
/// lowercased content holds the lowercased query, or one at either end of a
/// link) can record one more access.
pub open spec fn progressive_room(s: Seq<MemoryView>, links: Seq<MemoryLink>, query: Seq<char>) -> bool {
    forall|k: int|
        #![trigger s[k]]
        0 <= k < s.len() && (contains_seq(unicode_lowercase(s[k].content), unicode_lowercase(query))
            || universe(Seq::empty(), links).contains(s[k].id)) ==> s[k].access_count < u64::MAX
}

/// Spreads activation from seed memories over a store's links.
pub struct SpreadingActivation {
    store: InMemoryStore,
    decay_factor: i32,
    min_strength: i32,
    max_depth: usize,
}

/// Whether `v` holds `x`.
fn holds(v: &Vec<u128>, x: u128) -> (r: bool)
    ensures
        r == v@.contains(x),
{
    let mut i: usize = 0;
    while i < v.len()
        invariant
            i <= v@.len(),
            forall|k: int| 0 <= k < i ==> v@[k] != x,
        decreases v@.len() - i,
    {
        if v[i] == x {
            return true;
        }
        i = i + 1;
    }
    false
}

/// Activation across one link, as `activation` says.
fn carry(st: i32, decay: i32, ls: i32) -> (r: i32)
    ensures
        r == activation(st, decay, ls),
{
    proof {
        assert(-0x4000_0000_0000_0000 <= st * decay <= 0x4000_0000_0000_0000) by (nonlinear_arith)
            requires
                -0x8000_0000 <= st <= 0x8000_0000,
                -0x8000_0000 <= decay <= 0x8000_0000,
        ;
    }
    let a: i128 = (st as i128) * (decay as i128);
    proof {
        assert(-0x2000_0000_0000_0000_0000_0000 <= a * ls <= 0x2000_0000_0000_0000_0000_0000)
            by (nonlinear_arith)
            requires
                -0x4000_0000_0000_0000 <= a <= 0x4000_0000_0000_0000,
                -0x8000_0000 <= ls <= 0x8000_0000,
        ;
    }
    let p: i128 = a * (ls as i128);
    assert(p == st * decay * ls);
    let q: i128 = if p >= 0 {
        p / 1_000_000_000_000
    } else {
        let m: i128 = (-p) / 1_000_000_000_000;
        -m
    };
    if q > 0x7fff_ffff {
        i32::MAX
    } else if q < -0x8000_0000 {
        i32::MIN
    } else {
        q as i32
    }
}

impl SpreadingActivation {
    /// The memories of the store being spread over.
    pub closed spec fn memories_view(&self) -> Seq<MemoryView> {
        self.store.memories_view()
    }

    /// The links of the store being spread over.
    pub closed spec fn links_view(&self) -> Seq<MemoryLink> {
        self.store.links_view()
    }

    /// The store is well formed and the parameters are the fixed ones
    /// (decay 0.7, minimum 0.1, depth 3).
    pub closed spec fn wf(&self) -> bool {
        &&& self.store.wf()
        &&& self.decay_factor == spec_decay_factor()
        &&& self.min_strength == spec_min_strength()
        &&& self.max_depth == spec_max_depth()
    }

    /// Spreads over `store` with decay 0.7, minimum 0.1 and depth 3.
    pub fn new(store: InMemoryStore) -> (r: SpreadingActivation)
        requires
            store.wf(),
        ensures
            r.wf(),
            r.memories_view() == store.memories_view(),
            r.links_view() == store.links_view(),
    {
        SpreadingActivation { store, decay_factor: 700_000, min_strength: 100_000, max_depth: 3 }
    }

    /// The store, given back.
    pub fn into_store(self) -> (r: InMemoryStore)
        requires
            self.wf(),
        ensures
            r.wf(),
            r.memories_view() == self.memories_view(),
            r.links_view() == self.links_view(),
    {
        self.store
    }

    /// Runs the walk from `seeds` to its end: the memories visited, each
    /// with the activation it received.
    fn run_walk(&self, seeds: &[u128]) -> (r: Vec<(u128, i32)>)
        requires
            self.wf(),
        ensures
            exists|n: nat|
                {
                    let w = #[trigger] walk(start(seeds@), self.links_view(), n);
                    &&& w.queue.len() == 0
                    &&& r@ == w.results
                },
            forall|i: int, j: int| 0 <= i < r@.len() && 0 <= j < r@.len() && i != j ==> r@[i].0 != r@[j].0,
            forall|i: int| 0 <= i < r@.len() ==> #[trigger] r@[i].1 >= spec_min_strength(),
            forall|i: int| 0 <= i < r@.len() ==> universe(seeds@, self.links_view()).contains(#[trigger] r@[i].0),
    {
        let ghost links = self.links_view();
        let ghost uni = universe(seeds@, links);
        let ghost w0 = start(seeds@);
        let mut queue: Vec<(u128, i32, usize)> = Vec::new();
        let mut k: usize = 0;
        while k < seeds.len()
            invariant
                k <= seeds@.len(),
                queue@ == seeds@.take(k as int).map_values(|id: u128| (id, SCALE, 0usize)),
            decreases seeds@.len() - k,
        {
            queue.push((seeds[k], SCALE, 0));
            assert(seeds@.take(k + 1).map_values(|id: u128| (id, SCALE, 0usize)) =~= seeds@.take(
                k as int,
            ).map_values(|id: u128| (id, SCALE, 0usize)).push((seeds@[k as int], SCALE, 0usize)));
            k = k + 1;
        }
        assert(seeds@.take(seeds@.len() as int) =~= seeds@);
        let mut visited: Vec<u128> = Vec::new();
        let mut results: Vec<(u128, i32)> = Vec::new();
        let ghost mut n: nat = 0;
        proof {
            assert(uni.finite()) by {
                vstd::seq_lib::seq_to_set_is_finite(seeds@);
                vstd::seq_lib::seq_to_set_is_finite(links.map_values(|l: MemoryLink| l.source_id));
                vstd::seq_lib::seq_to_set_is_finite(links.map_values(|l: MemoryLink| l.target_id));
            }
            assert forall|i: int| 0 <= i < queue@.len() implies uni.contains(#[trigger] queue@[i].0) by {
                assert(seeds@.contains(seeds@[i]));
            }
        }
        while queue.len() > 0
            invariant
                self.wf(),
                links == self.links_view(),
                uni == universe(seeds@, links),
                uni.finite(),
                (Walk { queue: queue@, visited: visited@, results: results@ }) == walk(w0, links, n),
                visited@.no_duplicates(),
                results@.len() == visited@.len(),
                forall|i: int| 0 <= i < results@.len() ==> #[trigger] results@[i].0 == visited@[i],
                forall|i: int| 0 <= i < results@.len() ==> #[trigger] results@[i].1 >= spec_min_strength(),
                forall|i: int| 0 <= i < visited@.len() ==> uni.contains(#[trigger] visited@[i]),
                forall|i: int| 0 <= i < queue@.len() ==> uni.contains(#[trigger] queue@[i].0),
            decreases uni.len() - visited@.len(), queue@.len(),
        {
            let ghost before = Walk { queue: queue@, visited: visited@, results: results@ };
            proof {
                assert(visited@.to_set().subset_of(uni));
                visited@.unique_seq_to_set();
                vstd::set_lib::lemma_len_subset(visited@.to_set(), uni);
            }
            let (id, st, d) = match queue.pop() {
                Some(e) => e,
                None => {
                    return results;
                },
            };
            if holds(&visited, id) || d > self.max_depth || st < self.min_strength {
                proof {
                    assert(walk_step(before, links) == (Walk { queue: queue@, visited: visited@, results: results@ }));
                }
            } else {
                let ghost vprev = visited@;
                visited.push(id);
                results.push((id, st));
                assert(visited@[visited@.len() - 1] == id);
                proof {
                    assert forall|i: int, j2: int| 0 <= i < visited@.len() && 0 <= j2 < visited@.len() && i != j2
                        implies visited@[i] != visited@[j2] by {
                        if i < vprev.len() && j2 < vprev.len() {
                            assert(vprev[i] == visited@[i] && vprev[j2] == visited@[j2]);
                        } else if i < vprev.len() {
                            assert(vprev.contains(visited@[i]));
                        } else if j2 < vprev.len() {
                            assert(vprev.contains(visited@[j2]));
                        }
                    }
                }
                let links_here = match self.store.get_links(id) {
                    Ok(v) => v,
                    Err(_) => {
                        return results;
                    },
                };
                let ghost q0 = queue@;
                proof {
                    lemma_touching_props(links, id);
                }
                assert(pushes(links_here@.take(0), id, st, d, visited@) =~= Seq::empty());
                assert(q0 + Seq::<(u128, i32, usize)>::empty() =~= q0);
                let mut j: usize = 0;
                while j < links_here.len()
                    invariant
                        self.wf(),
                        links == self.links_view(),
                        links_here@ == touching(links, id),
                        uni == universe(seeds@, links),
                        visited@.contains(id),
                        j <= links_here@.len(),
                        d <= spec_max_depth(),
                        queue@ == q0 + pushes(links_here@.take(j as int), id, st, d, visited@),
                        forall|i: int| 0 <= i < q0.len() ==> uni.contains(#[trigger] q0[i].0),
                        forall|i: int| 0 <= i < queue@.len() ==> uni.contains(#[trigger] queue@[i].0),
                        forall|l: MemoryLink| #[trigger] touching(links, id).contains(l) ==> links.contains(l),
                    decreases links_here@.len() - j,
                {
                    let l = links_here[j];
                    assert(links_here@.take(j + 1).drop_last() =~= links_here@.take(j as int));
                    let other = if l.source_id == id {
                        l.target_id
                    } else {
                        l.source_id
                    };
                    let ns = carry(st, self.decay_factor, l.strength);
                    if ns >= self.min_strength && !holds(&visited, other) {
                        proof {
                            assert(touching(links, id).contains(l));
                            assert(links.contains(l));
                            let p = choose|p: int| 0 <= p < links.len() && links[p] == l;
                            assert(links.map_values(|x: MemoryLink| x.source_id)[p] == l.source_id);
                            assert(links.map_values(|x: MemoryLink| x.target_id)[p] == l.target_id);
                            assert(links.map_values(|x: MemoryLink| x.source_id).contains(l.source_id));
                            assert(links.map_values(|x: MemoryLink| x.target_id).contains(l.target_id));
                        }
                        queue.push((other, ns, d + 1));
                    }
                    j = j + 1;
                }
                assert(links_here@.take(links_here@.len() as int) =~= links_here@);
                proof {
                    assert(walk_step(before, links) == (Walk { queue: queue@, visited: visited@, results: results@ }));
                }
            }
            proof {
                assert(walk(w0, links, n + 1) == walk_step(walk(w0, links, n), links)) by {
                    lemma_walk_unfold_last(w0, links, n);
                }
                n = n + 1;
                assert(visited@.to_set().subset_of(uni));
                visited@.unique_seq_to_set();
                vstd::set_lib::lemma_len_subset(visited@.to_set(), uni);
            }
        }
        assert(walk(start(seeds@), self.links_view(), n).queue.len() == 0);
        assert forall|i: int, j: int| 0 <= i < results@.len() && 0 <= j < results@.len() && i != j
            implies results@[i].0 != results@[j].0 by {
            assert(results@[i].0 == visited@[i] && results@[j].0 == visited@[j]);
        }
        results
    }

    /// Spreads activation from the seeds at time `now`, then fetches every
    /// memory reached (recording an access to each, as a lookup does) and
    /// returns those found with their activation, strongest first (ties in
    /// the order they were reached).
    pub fn spread_at(&mut self, seed_ids: &[u128], now: i64) -> (r: Result<
        Vec<(Memory, i64)>,
        String,
    >)
        requires
            old(self).wf(),
            room_to_touch(old(self).memories_view(), universe(seed_ids@, old(self).links_view())),
        ensures
            final(self).wf(),
            final(self).links_view() == old(self).links_view(),
            exists|n: nat|
                {
                    let w = #[trigger] walk(start(seed_ids@), old(self).links_view(), n);
                    let (s2, found) = fetched(old(self).memories_view(), w.results, now);
                    &&& w.queue.len() == 0
                    &&& final(self).memories_view() == s2
                    &&& r matches Ok(v) && pair_views(v@) == ranked(found)
                },
            r matches Ok(v) && sorted_desc(pair_views(v@)) && forall|i: int|
                0 <= i < v@.len() ==> #[trigger] v@[i].1 >= spec_min_strength(),
            links_bounded(old(self).links_view()) ==> (r matches Ok(v) && forall|i: int|
                0 <= i < v@.len() ==> #[trigger] v@[i].1 <= SCALE),
    {
        let results = self.run_walk(seed_ids);
        let ghost s0 = self.memories_view();
        let ghost uni = universe(seed_ids@, old(self).links_view());
        let mut out: Vec<(Memory, i64)> = Vec::new();
        let mut i: usize = 0;
        while i < results.len()
            invariant
                self.wf(),
                self.links_view() == old(self).links_view(),
                s0 == old(self).memories_view(),
                i <= results@.len(),
                forall|a: int, b: int|
                    0 <= a < results@.len() && 0 <= b < results@.len() && a != b ==> results@[a].0
                        != results@[b].0,
                forall|a: int| 0 <= a < results@.len() ==> #[trigger] results@[a].1 >= spec_min_strength(),
                (self.memories_view(), pair_views(out@)) == fetched(s0, results@.take(i as int), now),
                uni == universe(seed_ids@, old(self).links_view()),
                forall|a: int| 0 <= a < results@.len() ==> uni.contains(#[trigger] results@[a].0),
                forall|k: int|
                    0 <= k < self.memories_view().len() ==> ((uni.contains(self.memories_view()[k].id)
                        ==> #[trigger] self.memories_view()[k].access_count < u64::MAX) || exists|a: int|
                        0 <= a < i && results@[a].0 == self.memories_view()[k].id),
                forall|a: int| 0 <= a < out@.len() ==> #[trigger] out@[a].1 >= spec_min_strength(),
            decreases results@.len() - i,
        {
            let (id, st) = results[i];
            assert(results@.take(i + 1).drop_last() =~= results@.take(i as int));
            let ghost cur = self.memories_view();
            let ghost prev = out@;
            proof {
                if lookup(cur, id) is Some {
                    let p = pos_of(cur, id);
                    assert(cur[p].id == id);
                    if cur[p].access_count >= u64::MAX {
                        let a = choose|a: int| 0 <= a < i && results@[a].0 == cur[p].id;
                        assert(results@[a].0 == results@[i as int].0);
                    }
                }
            }
            match self.store.get_at(id, now) {
                Ok(Some(m)) => {
                    out.push((m, st as i64));
                    assert(pair_views(out@) =~= pair_views(prev).push((out@[out@.len() - 1].0@, st as i64)));
                    proof {
                        let p = pos_of(cur, id);
                        assert forall|k: int| 0 <= k < self.memories_view().len() implies ((uni.contains(
                            self.memories_view()[k].id,
                        ) ==> #[trigger] self.memories_view()[k].access_count < u64::MAX) || exists|a: int|
                            0 <= a < i + 1 && results@[a].0 == self.memories_view()[k].id) by {
                            if k == p {
                                assert(results@[i as int].0 == self.memories_view()[k].id);
                            } else {
                                assert(self.memories_view()[k] == cur[k]);
                            }
                        }
                    }
                },
                Ok(None) => {
                },
                Err(e) => {
                    return Err(e);
                },
            }
            i = i + 1;
        }
        assert(results@.take(results@.len() as int) =~= results@);
        let ghost ov = out@;
        let sorted = rank_desc(out);
        proof {
            let f = |m: Memory| m@;
            lemma_ranked_map(ov, f);
            assert(pair_views(ov) =~= ov.map_values(|p: (Memory, i64)| (f(p.0), p.1)));
            assert(pair_views(sorted@) =~= sorted@.map_values(|p: (Memory, i64)| (f(p.0), p.1)));
            lemma_ranked_props(ov);
            assert forall|a: int| 0 <= a < sorted@.len() implies #[trigger] sorted@[a].1 >= spec_min_strength() by {
                assert(sorted@.contains(sorted@[a]));
                assert(sorted@.to_multiset().count(sorted@[a]) > 0);
                assert(ov.contains(sorted@[a]));
            }
            lemma_ranked_props(pair_views(ov));
            let links = old(self).links_view();
            if links_bounded(links) {
                let n = choose|n: nat|
                    {
                        let w = #[trigger] walk(start(seed_ids@), links, n);
                        &&& w.queue.len() == 0
                        &&& results@ == w.results
                    };
                lemma_spread_at_most_full(s0, seed_ids@, links, n, now);
                let fr = ranked(fetched(s0, results@, now).1);
                assert(pair_views(sorted@) == fr);
                assert forall|a: int| 0 <= a < sorted@.len() implies #[trigger] sorted@[a].1 <= SCALE by {
                    assert(pair_views(sorted@)[a].1 == sorted@[a].1);
                    assert(fr[a].1 <= SCALE);
                }
            }
        }
        Ok(sorted)
    }

    /// Spreads activation from the seeds now; see `spread_at`.
    pub fn spread(&mut self, seed_ids: &[u128]) -> (r: Result<Vec<(Memory, i64)>, String>)
        requires
            old(self).wf(),
            room_to_touch(old(self).memories_view(), universe(seed_ids@, old(self).links_view())),
        ensures
            final(self).wf(),
            final(self).links_view() == old(self).links_view(),
            exists|n: nat, now: i64|
                #![trigger fetched(old(self).memories_view(), walk(start(seed_ids@), old(self).links_view(), n).results, now)]
                {
                    let w = walk(start(seed_ids@), old(self).links_view(), n);
                    let (s2, found) = fetched(old(self).memories_view(), w.results, now);
                    &&& w.queue.len() == 0
                    &&& final(self).memories_view() == s2
                    &&& r matches Ok(v) && pair_views(v@) == ranked(found)
                },
            r matches Ok(v) && sorted_desc(pair_views(v@)) && forall|i: int|
                0 <= i < v@.len() ==> #[trigger] v@[i].1 >= spec_min_strength(),
            links_bounded(old(self).links_view()) ==> (r matches Ok(v) && forall|i: int|
                0 <= i < v@.len() ==> #[trigger] v@[i].1 <= SCALE),
    {
        let now = now_millis();
        self.spread_at(seed_ids, now)
    }

    /// Progressive retrieval at time `now`: a content search (no pool, type
    /// or confidence filter, at most `initial_limit` hits) gives the seeds;
    /// activation then spreads from them. The hits, each with full
    /// activation, come first, then every memory reached by spreading that
    /// is not among them; all ordered by descending activation, ties kept.
    #[verifier::rlimit(40)]
    pub fn progressive_search_at(&mut self, query: &str, initial_limit: usize, now: i64) -> (r: Result<
        Vec<(Memory, i64)>,
        String,
    >)
        requires
            old(self).wf(),
            progressive_room(old(self).memories_view(), old(self).links_view(), query@),
        ensures
            final(self).wf(),
            final(self).links_view() == old(self).links_view(),
            ({
                let direct = search_outcome(
                    old(self).memories_view(),
                    query@,
                    None,
                    None,
                    0,
                    initial_limit as int,
                );
                if direct.len() == 0 {
                    &&& final(self).memories_view() == old(self).memories_view()
                    &&& r matches Ok(v) && v@.len() == 0
                } else {
                    exists|n: nat|
                        {
                            let w = #[trigger] walk(start(ids_of(direct)), old(self).links_view(), n);
                            let (s2, found) = fetched(old(self).memories_view(), w.results, now);
                            &&& w.queue.len() == 0
                            &&& final(self).memories_view() == s2
                            &&& r matches Ok(v) && pair_views(v@) == ranked(
                                direct_hits(direct) + merge_spread(ids_of(direct), ranked(found)).1,
                            )
                        }
                }
            }),
            links_bounded(old(self).links_view()) ==> (r matches Ok(v) && pair_views(v@).take(
                search_outcome(old(self).memories_view(), query@, None, None, 0, initial_limit as int).len() as int,
            ) == direct_hits(search_outcome(old(self).memories_view(), query@, None, None, 0, initial_limit as int))),
            ({
                let direct = search_outcome(old(self).memories_view(), query@, None, None, 0, initial_limit as int);
                r matches Ok(v) && distinct_ids(pair_views(v@)) && sorted_desc(pair_views(v@)) && forall|k: int|
                    0 <= k < direct.len() ==> pair_views(v@).contains((#[trigger] direct[k], SCALE as i64))
            }),
    {
        let ghost s0 = self.memories_view();
        let q = SearchQuery {
            query: owned(query),
            pool: None,
            type_: None,
            tags: None,
            limit: initial_limit,
            min_confidence: 0,
            include_links: false,
        };
        let ghost gq = q;
        let direct = match self.store.search(q) {
            Ok(v) => v,
            Err(e) => {
                return Err(e);
            },
        };
        let ghost dv = views(direct@);
        let mut seeds: Vec<u128> = Vec::new();
        let mut all: Vec<(Memory, i64)> = Vec::new();
        let mut i: usize = 0;
        while i < direct.len()
            invariant
                dv == views(direct@),
                i <= direct@.len(),
                seeds@ == ids_of(dv.take(i as int)),
                pair_views(all@) == direct_hits(dv.take(i as int)),
            decreases direct@.len() - i,
        {
            let m = direct[i].clone();
            seeds.push(m.id);
            all.push((m, 1_000_000));
            assert(ids_of(dv.take(i + 1)) =~= ids_of(dv.take(i as int)).push(dv[i as int].id));
            assert(direct_hits(dv.take(i + 1)) =~= direct_hits(dv.take(i as int)).push((dv[i as int], SCALE as i64)));
            assert(pair_views(all@) =~= pair_views(all@.drop_last()).push((dv[i as int], SCALE as i64)));
            assert(all@.drop_last() =~= all@.subrange(0, i as int));
            i = i + 1;
        }
        assert(dv.take(dv.len() as int) =~= dv);
        if seeds.len() == 0 {
            assert(all@ =~= Seq::<(Memory, i64)>::empty());
            return Ok(all);
        }
        proof {
            let links = old(self).links_view();
            let uni = universe(ids_of(dv), links);
            lemma_search_result_props(s0, gq);
            assert forall|k: int|
                #![trigger s0[k]]
                0 <= k < s0.len() && uni.contains(s0[k].id) implies s0[k].access_count < u64::MAX by {
                let id = s0[k].id;
                if ids_of(dv).contains(id) {
                    let j = choose|j: int| 0 <= j < ids_of(dv).len() && ids_of(dv)[j] == id;
                    let m = dv[j];
                    assert(s0.contains(m));
                    let t = choose|t: int| 0 <= t < s0.len() && s0[t] == m;
                    assert(s0[t].id == s0[k].id);
                    assert(contains_seq(unicode_lowercase(s0[k].content), unicode_lowercase(query@)));
                } else {
                    assert(universe(Seq::empty(), links).contains(id));
                }
            }
        }
        let spread = match self.spread_at(seeds.as_slice(), now) {
            Ok(v) => v,
            Err(e) => {
                return Err(e);
            },
        };
        let ghost sp = pair_views(spread@);
        let ghost base = pair_views(all@);
        let mut seen: Vec<u128> = seeds;
        let mut j: usize = 0;
        while j < spread.len()
            invariant
                sp == pair_views(spread@),
                j <= spread@.len(),
                (seen@, pair_views(all@).skip(base.len() as int)) == merge_spread(ids_of(dv), sp.take(j as int)),
                pair_views(all@).take(base.len() as int) == base,
                base.len() <= all@.len(),
            decreases spread@.len() - j,
        {
            assert(sp.take(j + 1).drop_last() =~= sp.take(j as int));
            let (m, st) = (&spread[j].0, spread[j].1);
            let ghost prev = all@;
            if !holds(&seen, m.id) {
                seen.push(m.id);
                all.push((m.clone(), st));
                assert(pair_views(all@) =~= pair_views(prev).push((m@, st)));
                assert(pair_views(all@).skip(base.len() as int) =~= pair_views(prev).skip(base.len() as int).push((m@, st)));
                assert(pair_views(all@).take(base.len() as int) =~= pair_views(prev).take(base.len() as int));
            }
            j = j + 1;
        }
        assert(sp.take(sp.len() as int) =~= sp);
        assert(pair_views(all@) =~= base + merge_spread(ids_of(dv), sp).1);
        let ghost av = all@;
        let sorted = rank_desc(all);
        proof {
            let f = |m: Memory| m@;
            lemma_ranked_map(av, f);
            assert(pair_views(av) =~= av.map_values(|p: (Memory, i64)| (f(p.0), p.1)));
            assert(pair_views(sorted@) =~= sorted@.map_values(|p: (Memory, i64)| (f(p.0), p.1)));
            let links = old(self).links_view();
            let n = choose|n: nat|
                {
                    let w = #[trigger] walk(start(ids_of(dv)), links, n);
                    let (s2, found) = fetched(s0, w.results, now);
                    &&& w.queue.len() == 0
                    &&& sp == ranked(found)
                };
            lemma_search_outcome_unique(s0, query@, None, None, 0, initial_limit as int);
            lemma_progressive_result(dv, sp);
            if links_bounded(links) {
                lemma_progressive_hits_first(s0, dv, links, n, now);
            }
        }
        Ok(sorted)
    }

    /// Progressive retrieval now; see `progressive_search_at`.
    pub fn progressive_search(&mut self, query: &str, initial_limit: usize) -> (r: Result<
        Vec<(Memory, i64)>,
        String,
    >)
        requires
            old(self).wf(),
            progressive_room(old(self).memories_view(), old(self).links_view(), query@),
        ensures
            final(self).wf(),
            final(self).links_view() == old(self).links_view(),
            ({
                let direct = search_outcome(
                    old(self).memories_view(),
                    query@,
                    None,
                    None,
                    0,
                    initial_limit as int,
                );
                if direct.len() == 0 {
                    &&& final(self).memories_view() == old(self).memories_view()
                    &&& r matches Ok(v) && v@.len() == 0
                } else {
                    exists|n: nat, now: i64|
                        #![trigger fetched(old(self).memories_view(), walk(start(ids_of(direct)), old(self).links_view(), n).results, now)]
                        {
                            let w = walk(start(ids_of(direct)), old(self).links_view(), n);
                            let (s2, found) = fetched(old(self).memories_view(), w.results, now);
                            &&& w.queue.len() == 0
                            &&& final(self).memories_view() == s2
                            &&& r matches Ok(v) && pair_views(v@) == ranked(
                                direct_hits(direct) + merge_spread(ids_of(direct), ranked(found)).1,
                            )
                        }
                }
            }),
            links_bounded(old(self).links_view()) ==> (r matches Ok(v) && pair_views(v@).take(
                search_outcome(old(self).memories_view(), query@, None, None, 0, initial_limit as int).len() as int,
            ) == direct_hits(search_outcome(old(self).memories_view(), query@, None, None, 0, initial_limit as int))),
            ({
                let direct = search_outcome(old(self).memories_view(), query@, None, None, 0, initial_limit as int);
                r matches Ok(v) && distinct_ids(pair_views(v@)) && sorted_desc(pair_views(v@)) && forall|k: int|
                    0 <= k < direct.len() ==> pair_views(v@).contains((#[trigger] direct[k], SCALE as i64))
            }),
    {
        let now = now_millis();
        self.progressive_search_at(query, initial_limit, now)
    }
}

/// Every link has a strength between 0 and 1.0.
pub open spec fn links_bounded(links: Seq<MemoryLink>) -> bool {
    forall|i: int| 0 <= i < links.len() ==> 0 <= #[trigger] links[i].strength <= SCALE
}

/// Every pending entry and every result of a walk has an activation of at
/// most 1.0.
pub open spec fn walk_bounded(w: Walk) -> bool {
    &&& forall|i: int| 0 <= i < w.queue.len() ==> (#[trigger] w.queue[i]).1 <= SCALE
    &&& forall|i: int| 0 <= i < w.results.len() ==> (#[trigger] w.results[i]).1 <= SCALE
}

/// Across a link of strength at most 1.0, activation does not grow.
proof fn lemma_activation_at_most(st: i32, ls: i32)
    requires
        0 <= st <= SCALE,
        0 <= ls <= SCALE,
    ensures
        0 <= activation(st, spec_decay_factor(), ls) <= st,
{
    let p: int = st * 700_000 * ls;
    assert(0 <= p <= st * 700_000_000_000int) by (nonlinear_arith)
        requires
            p == st * 700_000 * ls,
            0 <= st,
            0 <= ls <= 1_000_000,
    ;
    assert(0 <= p / 1_000_000_000_000int <= st) by (nonlinear_arith)
        requires
            0 <= p <= st * 700_000_000_000int,
            0 <= st,
    ;
}

/// Entries queued from a memory whose activation is at most 1.0, over links
/// of strength at most 1.0, have activations of at most 1.0.
proof fn lemma_pushes_bounded(ls: Seq<MemoryLink>, id: u128, st: i32, d: usize, visited: Seq<u128>)
    requires
        0 <= st <= SCALE,
        links_bounded(ls),
    ensures
        forall|i: int|
            0 <= i < pushes(ls, id, st, d, visited).len() ==> (#[trigger] pushes(
                ls,
                id,
                st,
                d,
                visited,
            )[i]).1 <= SCALE,
    decreases ls.len(),
{
    if ls.len() > 0 {
        let t = ls.drop_last();
        assert forall|i: int| 0 <= i < t.len() implies 0 <= #[trigger] t[i].strength <= SCALE by {
            assert(t[i] == ls[i]);
        }
        lemma_pushes_bounded(t, id, st, d, visited);
        assert(ls[ls.len() - 1] == ls.last());
        lemma_activation_at_most(st, ls.last().strength);
        let r = pushes(t, id, st, d, visited);
        let out = pushes(ls, id, st, d, visited);
        assert forall|i: int| 0 <= i < out.len() implies (#[trigger] out[i]).1 <= SCALE by {
            if i < r.len() {
                assert(out[i] == r[i]);
            }
        }
    }
}

/// One step keeps every activation at most 1.0.
proof fn lemma_walk_step_bounded(w: Walk, links: Seq<MemoryLink>)
    requires
        links_bounded(links),
        walk_bounded(w),
    ensures
        walk_bounded(walk_step(w, links)),
{
    if w.queue.len() > 0 {
        let (id, st, d) = w.queue.last();
        assert(w.queue[w.queue.len() - 1] == w.queue.last());
        let q = w.queue.drop_last();
        assert forall|i: int| 0 <= i < q.len() implies (#[trigger] q[i]).1 <= SCALE by {
            assert(q[i] == w.queue[i]);
        }
        if !(w.visited.contains(id) || d > spec_max_depth() || st < spec_min_strength()) {
            let t = touching(links, id);
            lemma_touching_props(links, id);
            assert forall|i: int| 0 <= i < t.len() implies 0 <= #[trigger] t[i].strength <= SCALE by {
                assert(t.contains(t[i]));
                let k = choose|k: int| 0 <= k < links.len() && links[k] == t[i];
            }
            let v = w.visited.push(id);
            lemma_pushes_bounded(t, id, st, d, v);
            let nq = q + pushes(t, id, st, d, v);
            assert forall|i: int| 0 <= i < nq.len() implies (#[trigger] nq[i]).1 <= SCALE by {
                if i >= q.len() {
                    assert(nq[i] == pushes(t, id, st, d, v)[i - q.len()]);
                }
            }
            let nr = w.results.push((id, st));
            assert forall|i: int| 0 <= i < nr.len() implies (#[trigger] nr[i]).1 <= SCALE by {
                if i < w.results.len() {
                    assert(nr[i] == w.results[i]);
                }
            }
        }
    }
}

/// Any number of steps keeps every activation at most 1.0.
proof fn lemma_walk_bounded(w: Walk, links: Seq<MemoryLink>, n: nat)
    requires
        links_bounded(links),
        walk_bounded(w),
    ensures
        walk_bounded(walk(w, links, n)),
    decreases n,
{
    if n > 0 {
        lemma_walk_step_bounded(w, links);
        lemma_walk_bounded(walk_step(w, links), links, (n - 1) as nat);
    }
}

/// Fetching keeps each activation it was given.
proof fn lemma_fetched_bounded(s: Seq<MemoryView>, rs: Seq<(u128, i32)>, now: i64)
    requires
        forall|i: int| 0 <= i < rs.len() ==> (#[trigger] rs[i]).1 <= SCALE,
    ensures
        forall|i: int|
            0 <= i < fetched(s, rs, now).1.len() ==> (#[trigger] fetched(s, rs, now).1[i]).1 <= SCALE,
    decreases rs.len(),
{
    if rs.len() > 0 {
        let t = rs.drop_last();
        assert forall|i: int| 0 <= i < t.len() implies (#[trigger] t[i]).1 <= SCALE by {
            assert(t[i] == rs[i]);
        }
        lemma_fetched_bounded(s, t, now);
        assert(rs[rs.len() - 1] == rs.last());
        let r = fetched(s, t, now).1;
        let out = fetched(s, rs, now).1;
        assert forall|i: int| 0 <= i < out.len() implies (#[trigger] out[i]).1 <= SCALE by {
            if i < r.len() {
                assert(out[i] == r[i]);
            }
        }
    }
}

/// Merging keeps only items it was given.
proof fn lemma_merge_spread_bounded(seen: Seq<u128>, sp: Seq<(MemoryView, i64)>, key: i64)
    requires
        forall|i: int| 0 <= i < sp.len() ==> (#[trigger] sp[i]).1 <= key,
    ensures
        forall|i: int|
            0 <= i < merge_spread(seen, sp).1.len() ==> (#[trigger] merge_spread(seen, sp).1[i]).1 <= key,
    decreases sp.len(),
{
    if sp.len() > 0 {
        let t = sp.drop_last();
        assert forall|i: int| 0 <= i < t.len() implies (#[trigger] t[i]).1 <= key by {
            assert(t[i] == sp[i]);
        }
        lemma_merge_spread_bounded(seen, t, key);
        assert(sp[sp.len() - 1] == sp.last());
        let r = merge_spread(seen, t).1;
        let out = merge_spread(seen, sp).1;
        assert forall|i: int| 0 <= i < out.len() implies (#[trigger] out[i]).1 <= key by {
            if i < r.len() {
                assert(out[i] == r[i]);
            }
        }
    }
}

/// Ranking keeps only items it was given.
proof fn lemma_ranked_bounded(s: Seq<(MemoryView, i64)>, key: i64)
    requires
        forall|i: int| 0 <= i < s.len() ==> (#[trigger] s[i]).1 <= key,
    ensures
        forall|i: int| 0 <= i < ranked(s).len() ==> (#[trigger] ranked(s)[i]).1 <= key,
{
    lemma_ranked_props(s);
    let r = ranked(s);
    assert forall|i: int| 0 <= i < r.len() implies (#[trigger] r[i]).1 <= key by {
        assert(r.contains(r[i]));
        assert(r.to_multiset().count(r[i]) > 0);
        assert(s.to_multiset().count(r[i]) > 0);
        assert(s.contains(r[i]));
    }
}

/// Law (activation decays): when no link is stronger than 1.0, no memory
/// that spreading reaches gets an activation above 1.0, the activation of
/// the seeds.
pub proof fn lemma_spread_at_most_full(
    s: Seq<MemoryView>,
    seeds: Seq<u128>,
    links: Seq<MemoryLink>,
    n: nat,
    now: i64,
)
    requires
        links_bounded(links),
    ensures
        forall|i: int|
            0 <= i < ranked(fetched(s, walk(start(seeds), links, n).results, now).1).len() ==> (
            #[trigger] ranked(fetched(s, walk(start(seeds), links, n).results, now).1)[i]).1
                <= SCALE,
{
    let w0 = start(seeds);
    assert forall|i: int| 0 <= i < w0.queue.len() implies (#[trigger] w0.queue[i]).1 <= SCALE by {}
    lemma_walk_bounded(w0, links, n);
    let w = walk(w0, links, n);
    lemma_fetched_bounded(s, w.results, now);
    lemma_ranked_bounded(fetched(s, w.results, now).1, SCALE as i64);
}

/// Law (progressive retrieval): when no link is stronger than 1.0, the
/// direct search hits come first, in search order, each with full
/// activation; what spreading adds comes after them.
pub proof fn lemma_progressive_hits_first(
    s: Seq<MemoryView>,
    direct: Seq<MemoryView>,
    links: Seq<MemoryLink>,
    n: nat,
    now: i64,
)
    requires
        links_bounded(links),
    ensures
        ranked(
            direct_hits(direct) + merge_spread(
                ids_of(direct),
                ranked(fetched(s, walk(start(ids_of(direct)), links, n).results, now).1),
            ).1,
        ).take(direct.len() as int) == direct_hits(direct),
{
    let found = ranked(fetched(s, walk(start(ids_of(direct)), links, n).results, now).1);
    lemma_spread_at_most_full(s, ids_of(direct), links, n, now);
    lemma_merge_spread_bounded(ids_of(direct), found, SCALE as i64);
    let rest = merge_spread(ids_of(direct), found).1;
    let hits = direct_hits(direct);
    assert forall|k: int| 0 <= k < hits.len() implies #[trigger] hits[k].1 == SCALE as i64 by {}
    lemma_ranked_top_first(hits, rest, SCALE as i64);
}

/// What merging adds: the identifiers seen afterwards are those seen before
/// followed by those added; the added entries are distinct memories, none
/// seen before, each one of the given entries.
proof fn lemma_merge_spread_props(seen: Seq<u128>, sp: Seq<(MemoryView, i64)>)
    ensures
        merge_spread(seen, sp).0 == seen + merge_spread(seen, sp).1.map_values(
            |p: (MemoryView, i64)| p.0.id,
        ),
        distinct_ids(merge_spread(seen, sp).1),
        forall|i: int|
            0 <= i < merge_spread(seen, sp).1.len() ==> !seen.contains(
                (#[trigger] merge_spread(seen, sp).1[i]).0.id,
            ) && sp.contains(merge_spread(seen, sp).1[i]),
    decreases sp.len(),
{
    let f = |p: (MemoryView, i64)| p.0.id;
    if sp.len() == 0 {
        assert(seen + Seq::<(MemoryView, i64)>::empty().map_values(f) =~= seen);
    } else {
        let t = sp.drop_last();
        lemma_merge_spread_props(seen, t);
        let (sn, acc) = merge_spread(seen, t);
        let (m, st) = sp.last();
        assert(sp[sp.len() - 1] == sp.last());
        assert forall|i: int| 0 <= i < acc.len() implies sp.contains(#[trigger] acc[i]) by {
            assert(t.contains(acc[i]));
            let k = choose|k: int| 0 <= k < t.len() && t[k] == acc[i];
            assert(sp[k] == t[k]);
        }
        if !sn.contains(m.id) {
            let acc2 = acc.push((m, st));
            assert(seen + acc2.map_values(f) =~= (seen + acc.map_values(f)).push(m.id));
            assert forall|i: int| 0 <= i < acc.len() implies (#[trigger] acc[i]).0.id != m.id by {
                assert(sn[seen.len() + i] == acc.map_values(f)[i]);
            }
            assert forall|a: int, b: int| 0 <= a < acc2.len() && 0 <= b < acc2.len() && a != b implies acc2[a].0.id
                != acc2[b].0.id by {
                if a < acc.len() && b < acc.len() {
                    assert(acc2[a] == acc[a] && acc2[b] == acc[b]);
                } else if a < acc.len() {
                    assert(acc2[a] == acc[a]);
                } else {
                    assert(acc2[b] == acc[b]);
                }
            }
            assert forall|i: int| 0 <= i < acc2.len() implies !seen.contains((#[trigger] acc2[i]).0.id)
                && sp.contains(acc2[i]) by {
                if i < acc.len() {
                    assert(acc2[i] == acc[i]);
                } else {
                    assert(acc2[i] == sp[sp.len() - 1]);
                    if seen.contains(m.id) {
                        let k = choose|k: int| 0 <= k < seen.len() && seen[k] == m.id;
                        assert(sn[k] == m.id);
                    }
                }
            }
        }
    }
}

/// A walk with nothing queued stays as it is.
pub proof fn lemma_walk_stays(w: Walk, links: Seq<MemoryLink>, n: nat)
    requires
        w.queue.len() == 0,
    ensures
        walk(w, links, n) == w,
    decreases n,
{
    if n > 0 {
        lemma_walk_stays(walk_step(w, links), links, (n - 1) as nat);
    }
}

/// Steps taken in two runs are steps taken in one.
pub proof fn lemma_walk_add(w: Walk, links: Seq<MemoryLink>, a: nat, b: nat)
    ensures
        walk(w, links, a + b) == walk(walk(w, links, a), links, b),
    decreases a,
{
    if a > 0 {
        lemma_walk_add(walk_step(w, links), links, (a - 1) as nat, b);
        assert((a - 1) as nat + b == (a + b - 1) as nat);
    }
}

/// Law (spreading): a walk that has finished gives the same state however
/// many steps it was run for, so what a spread returns does not depend on
/// when the walk is taken to have ended.
pub proof fn lemma_walk_settled(w: Walk, links: Seq<MemoryLink>, n1: nat, n2: nat)
    requires
        walk(w, links, n1).queue.len() == 0,
        walk(w, links, n2).queue.len() == 0,
    ensures
        walk(w, links, n1) == walk(w, links, n2),
{
    if n1 <= n2 {
        lemma_walk_add(w, links, n1, (n2 - n1) as nat);
        lemma_walk_stays(walk(w, links, n1), links, (n2 - n1) as nat);
        assert(n1 + (n2 - n1) as nat == n2);
    } else {
        lemma_walk_add(w, links, n2, (n1 - n2) as nat);
        lemma_walk_stays(walk(w, links, n2), links, (n1 - n2) as nat);
        assert(n2 + (n1 - n2) as nat == n1);
    }
}

/// The memories a walk has visited are those of its results, each once.
pub open spec fn walk_consistent(w: Walk) -> bool {
    &&& w.results.map_values(|p: (u128, i32)| p.0) == w.visited
    &&& w.visited.no_duplicates()
}

proof fn lemma_walk_step_consistent(w: Walk, links: Seq<MemoryLink>)
    requires
        walk_consistent(w),
    ensures
        walk_consistent(walk_step(w, links)),
{
    if w.queue.len() > 0 {
        let (id, st, d) = w.queue.last();
        if !(w.visited.contains(id) || d > spec_max_depth() || st < spec_min_strength()) {
            let f = |p: (u128, i32)| p.0;
            assert(w.results.push((id, st)).map_values(f) =~= w.visited.push(id));
            let v = w.visited.push(id);
            assert forall|a: int, b: int| 0 <= a < v.len() && 0 <= b < v.len() && a != b implies v[a] != v[b] by {
                if a < w.visited.len() && b < w.visited.len() {
                } else if a < w.visited.len() {
                    assert(w.visited.contains(v[a]));
                } else {
                    assert(w.visited.contains(v[b]));
                }
            }
        }
    }
}

/// Law (spreading): a walk never visits a memory twice, and its results are
/// the memories it visited.
pub proof fn lemma_walk_consistent(w: Walk, links: Seq<MemoryLink>, n: nat)
    requires
        walk_consistent(w),
    ensures
        walk_consistent(walk(w, links, n)),
    decreases n,
{
    if n > 0 {
        lemma_walk_step_consistent(w, links);
        lemma_walk_consistent(walk_step(w, links), links, (n - 1) as nat);
    }
}

/// The results of a walk from the seeds name no memory twice.
pub proof fn lemma_walk_results_distinct(seeds: Seq<u128>, links: Seq<MemoryLink>, n: nat)
    ensures
        forall|i: int, j: int|
            0 <= i < walk(start(seeds), links, n).results.len() && 0 <= j < walk(
                start(seeds),
                links,
                n,
            ).results.len() && i != j ==> #[trigger] walk(start(seeds), links, n).results[i].0
                != #[trigger] walk(start(seeds), links, n).results[j].0,
{
    let w0 = start(seeds);
    assert(w0.results.map_values(|p: (u128, i32)| p.0) =~= w0.visited);
    lemma_walk_consistent(w0, links, n);
    let w = walk(w0, links, n);
    let f = |p: (u128, i32)| p.0;
    assert forall|i: int, j: int| 0 <= i < w.results.len() && 0 <= j < w.results.len() && i != j implies #[trigger] w.results[i].0
        != #[trigger] w.results[j].0 by {
        assert(w.results.map_values(f)[i] == w.visited[i]);
        assert(w.results.map_values(f)[j] == w.visited[j]);
    }
}

/// Fetching the results of a walk with distinct memories gives distinct
/// memories, each one the walk reached.
pub proof fn lemma_fetched_distinct(s: Seq<MemoryView>, rs: Seq<(u128, i32)>, now: i64)
    requires
        forall|i: int, j: int| 0 <= i < rs.len() && 0 <= j < rs.len() && i != j ==> #[trigger] rs[i].0 != #[trigger] rs[j].0,
    ensures
        distinct_ids(fetched(s, rs, now).1),
        forall|i: int|
            0 <= i < fetched(s, rs, now).1.len() ==> exists|j: int|
                0 <= j < rs.len() && rs[j].0 == (#[trigger] fetched(s, rs, now).1[i]).0.id,
    decreases rs.len(),
{
    if rs.len() > 0 {
        let t = rs.drop_last();
        assert forall|i: int, j: int| 0 <= i < t.len() && 0 <= j < t.len() && i != j implies #[trigger] t[i].0
            != #[trigger] t[j].0 by {
            assert(t[i] == rs[i] && t[j] == rs[j]);
        }
        lemma_fetched_distinct(s, t, now);
        let (s1, out) = fetched(s, t, now);
        let (id, st) = rs.last();
        assert(rs[rs.len() - 1] == rs.last());
        let out2 = fetched(s, rs, now).1;
        assert forall|i: int| 0 <= i < out.len() implies (#[trigger] out[i]).0.id != id by {
            let j = choose|j: int| 0 <= j < t.len() && t[j].0 == out[i].0.id;
            assert(rs[j] == t[j]);
        }
        assert forall|i: int| 0 <= i < out.len() implies exists|j: int| 0 <= j < rs.len() && rs[j].0 == (
        #[trigger] out[i]).0.id by {
            let j = choose|j: int| 0 <= j < t.len() && t[j].0 == out[i].0.id;
            assert(rs[j] == t[j]);
        }
        match lookup(s1, id) {
            None => {},
            Some(m) => {
                let p = pos_of(s1, id);
                assert(s1[p].id == id);
                assert(out2 == out.push((touched(m, now), st as i64)));
                assert forall|a: int, b: int| 0 <= a < out2.len() && 0 <= b < out2.len() && a != b implies out2[a].0.id
                    != out2[b].0.id by {
                    if a < out.len() && b < out.len() {
                        assert(out2[a] == out[a] && out2[b] == out[b]);
                    } else if a < out.len() {
                        assert(out2[a] == out[a]);
                    } else {
                        assert(out2[b] == out[b]);
                    }
                }
                assert forall|i: int| 0 <= i < out2.len() implies exists|j: int| 0 <= j < rs.len() && rs[j].0 == (
                #[trigger] out2[i]).0.id by {
                    if i < out.len() {
                        assert(out2[i] == out[i]);
                    } else {
                        assert(rs[rs.len() - 1].0 == out2[i].0.id);
                    }
                }
            },
        }
    }
}

/// Merging distinct entries drops only those whose memory was already seen.
pub proof fn lemma_merge_spread_keeps_unseen(seen: Seq<u128>, sp: Seq<(MemoryView, i64)>)
    requires
        distinct_ids(sp),
    ensures
        forall|j: int|
            0 <= j < sp.len() ==> seen.contains((#[trigger] sp[j]).0.id) || merge_spread(seen, sp).1.contains(
                sp[j],
            ),
    decreases sp.len(),
{
    if sp.len() > 0 {
        let t = sp.drop_last();
        assert forall|a: int, b: int| 0 <= a < t.len() && 0 <= b < t.len() && a != b implies t[a].0.id
            != t[b].0.id by {
            assert(t[a] == sp[a] && t[b] == sp[b]);
        }
        lemma_merge_spread_keeps_unseen(seen, t);
        lemma_merge_spread_props(seen, t);
        let (sn, acc) = merge_spread(seen, t);
        let (m, st) = sp.last();
        assert(sp[sp.len() - 1] == sp.last());
        let acc2 = merge_spread(seen, sp).1;
        assert forall|y: (MemoryView, i64)| acc.contains(y) implies acc2.contains(y) by {
            if !sn.contains(m.id) {
                let k = choose|k: int| 0 <= k < acc.len() && acc[k] == y;
                assert(acc2[k] == y);
            }
        }
        assert forall|j: int| 0 <= j < sp.len() implies seen.contains((#[trigger] sp[j]).0.id)
            || acc2.contains(sp[j]) by {
            if j < t.len() {
                assert(sp[j] == t[j]);
                if !seen.contains(t[j].0.id) {
                    assert(acc.contains(t[j]));
                }
            } else if !seen.contains(m.id) {
                if sn.contains(m.id) {
                    let k = choose|k: int| 0 <= k < sn.len() && sn[k] == m.id;
                    let f = |p: (MemoryView, i64)| p.0.id;
                    assert(k >= seen.len());
                    assert(acc.map_values(f)[k - seen.len()] == m.id);
                    let e = acc[k - seen.len()];
                    assert(t.contains(e));
                    let q = choose|q: int| 0 <= q < t.len() && t[q] == e;
                    assert(sp[q] == t[q]);
                    assert(sp[q].0.id == sp[sp.len() - 1].0.id);
                } else {
                    assert(acc2 == acc.push((m, st)));
                    assert(acc2[acc.len() as int] == sp[j]);
                }
            }
        }
    }
}

/// Law (progressive retrieval): given direct hits that are distinct memories,
/// the result lists every hit with full activation, adds only memories that
/// spreading reached and that are not hits, names no memory twice, and is
/// ordered by descending activation.
pub proof fn lemma_progressive_result(direct: Seq<MemoryView>, found: Seq<(MemoryView, i64)>)
    requires
        ids_unique(direct),
    ensures
        ({
            let out = ranked(direct_hits(direct) + merge_spread(ids_of(direct), found).1);
            &&& distinct_ids(out)
            &&& sorted_desc(out)
            &&& forall|k: int| 0 <= k < direct.len() ==> out.contains((#[trigger] direct[k], SCALE as i64))
            &&& forall|i: int|
                0 <= i < out.len() ==> direct_hits(direct).contains(#[trigger] out[i]) || (found.contains(
                    out[i],
                ) && !ids_of(direct).contains(out[i].0.id))
            &&& forall|y: (MemoryView, i64)|
                #[trigger] merge_spread(ids_of(direct), found).1.contains(y) ==> out.contains(y)
        }),
{
    let a = direct_hits(direct);
    lemma_merge_spread_props(ids_of(direct), found);
    let acc = merge_spread(ids_of(direct), found).1;
    let c = a + acc;
    assert forall|x: int, y: int| 0 <= x < c.len() && 0 <= y < c.len() && x != y implies c[x].0.id
        != c[y].0.id by {
        if x < a.len() && y < a.len() {
            assert(c[x].0 == direct[x] && c[y].0 == direct[y]);
        } else if x < a.len() {
            assert(c[x].0.id == ids_of(direct)[x]);
            assert(c[y] == acc[y - a.len()]);
            assert(ids_of(direct).contains(c[x].0.id));
        } else if y < a.len() {
            assert(c[y].0.id == ids_of(direct)[y]);
            assert(c[x] == acc[x - a.len()]);
            assert(ids_of(direct).contains(c[y].0.id));
        } else {
            assert(c[x] == acc[x - a.len()] && c[y] == acc[y - a.len()]);
        }
    }
    lemma_ranked_distinct(c);
    lemma_ranked_props(c);
    let out = ranked(c);
    assert forall|k: int| 0 <= k < direct.len() implies out.contains((#[trigger] direct[k], SCALE as i64)) by {
        assert(c[k] == (direct[k], SCALE as i64));
        assert(c.contains(c[k]));
    }
    assert forall|y: (MemoryView, i64)| #[trigger] acc.contains(y) implies out.contains(y) by {
        let k = choose|k: int| 0 <= k < acc.len() && acc[k] == y;
        assert(c[a.len() + k] == y);
        assert(c.contains(y));
    }
    assert forall|i: int| 0 <= i < out.len() implies a.contains(#[trigger] out[i]) || (found.contains(out[i])
        && !ids_of(direct).contains(out[i].0.id)) by {
        assert(out.contains(out[i]));
        let j = choose|j: int| 0 <= j < c.len() && c[j] == out[i];
        if j < a.len() {
            assert(a[j] == out[i]);
        } else {
            assert(acc[j - a.len()] == out[i]);
        }
    }
}

/// Taking one more step after `n` steps.
pub proof fn lemma_walk_unfold_last(w: Walk, links: Seq<MemoryLink>, n: nat)
    ensures
        walk(w, links, n + 1) == walk_step(walk(w, links, n), links),
    decreases n,
{
    let ws = walk_step(w, links);
    assert(walk(w, links, n + 1) == walk(ws, links, n));
    if n > 0 {
        lemma_walk_unfold_last(ws, links, (n - 1) as nat);
        assert(walk(w, links, n) == walk(ws, links, (n - 1) as nat));
        assert(((n - 1) as nat) + 1 == n);
    } else {
        assert(walk(ws, links, 0) == ws);
    }
}

} // verus!
