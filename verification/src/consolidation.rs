//! Consolidation: importance decays with the days since a memory was last
//! accessed, and memories whose strength falls below a threshold are removed.

use vstd::prelude::*;
use crate::ids::now_millis;
use crate::types::{Memory, MemoryView, MemoryLink, UpdateMemoryRequest, strength_of, trunc_div, update_rest};
use crate::store::{
    InMemoryStore, listed, first_n, views, has_id, pos_of, lookup, lemma_pos_of_unique,
    ids_unique,
};
use crate::arith::floor_div;

verus! {

/// Milliseconds in a day.
pub open spec fn day_ms() -> int {
    86_400_000
}

/// Whole days in a span of milliseconds, rounded toward zero.
pub open spec fn whole_days(span: int) -> int {
    trunc_div(span, day_ms())
}

/// The importance a memory decays to at time `now`, when it changes by more
/// than 0.001: after at least one whole day without access, importance
/// less decay rate times days, not below zero (and at most `i32::MAX`).
/// All three are in millionths, so the subtraction is exact; only the
/// clamps depart from real arithmetic.
pub open spec fn decayed_importance(m: MemoryView, now: i64) -> Option<i32> {
    let days = whole_days(now - m.last_accessed);
    if days > 0 {
        let raw = m.importance - m.decay_rate * days;
        let ni: int = if raw < 0 {
            0
        } else if raw > i32::MAX {
            i32::MAX as int
        } else {
            raw
        };
        if ni - m.importance > 1000 || m.importance - ni > 1000 {
            Some(ni as i32)
        } else {
            None
        }
    } else {
        None
    }
}

/// A memory after decay at `now`: its new importance, stamped as updated
/// at `now`, or unchanged.
pub open spec fn decay_one(m: MemoryView, now: i64) -> MemoryView {
    match decayed_importance(m, now) {
        Some(ni) => MemoryView { importance: ni, updated_at: now, ..m },
        None => m,
    }
}

/// The identifiers of the memories that decay at `now`, in store order.
pub open spec fn decaying_ids(s: Seq<MemoryView>, now: i64) -> Seq<u128>
    decreases s.len(),
{
    if s.len() == 0 {
        Seq::empty()
    } else {
        let r = decaying_ids(s.drop_last(), now);
        if decayed_importance(s.last(), now) is Some {
            r.push(s.last().id)
        } else {
            r
        }
    }
}

/// A memory is weak when its strength is below the threshold.
pub open spec fn is_weak(m: MemoryView, threshold: i32) -> bool {
    strength_of(m) < threshold
}

/// The memories that are not weak, in store order.
pub open spec fn strong_only(s: Seq<MemoryView>, threshold: i32) -> Seq<MemoryView>
    decreases s.len(),
{
    if s.len() == 0 {
        Seq::empty()
    } else {
        let r = strong_only(s.drop_last(), threshold);
        if is_weak(s.last(), threshold) {
            r
        } else {
            r.push(s.last())
        }
    }
}

/// The identifiers of the weak memories, in store order.
pub open spec fn weak_ids(s: Seq<MemoryView>, threshold: i32) -> Seq<u128>
    decreases s.len(),
{
    if s.len() == 0 {
        Seq::empty()
    } else {
        let r = weak_ids(s.drop_last(), threshold);
        if is_weak(s.last(), threshold) {
            r.push(s.last().id)
        } else {
            r
        }
    }
}

/// A sum kept within `-i128::MAX ..= i128::MAX`.
pub open spec fn clamp_sum(x: int) -> int {
    if x > i128::MAX {
        i128::MAX as int
    } else if x < -(i128::MAX as int) {
        -(i128::MAX as int)
    } else {
        x
    }
}

/// The strengths summed in store order, each partial sum kept within range.
pub open spec fn strength_total(s: Seq<MemoryView>) -> int
    decreases s.len(),
{
    if s.len() == 0 {
        0
    } else {
        clamp_sum(strength_total(s.drop_last()) + strength_of(s.last()))
    }
}

/// The number of weak memories.
pub open spec fn weak_count(s: Seq<MemoryView>, threshold: i32) -> nat
    decreases s.len(),
{
    if s.len() == 0 {
        0
    } else {
        weak_count(s.drop_last(), threshold) + if is_weak(s.last(), threshold) {
            1nat
        } else {
            0nat
        }
    }
}

/// A listing without filters holds every memory in store order.
pub proof fn lemma_listed_all(s: Seq<MemoryView>)
    ensures
        listed(s, None, None) == s,
        first_n(listed(s, None, None), s.len() as int) == s,
    decreases s.len(),
{
    if s.len() > 0 {
        lemma_listed_all(s.drop_last());
        assert(s.drop_last().push(s.last()) =~= s);
    }
}

/// The report of a consolidation run.
#[derive(Debug)]
pub struct ConsolidationReport {
    pub success: bool,
    pub decayed_count: usize,
    pub removed_count: usize,
    pub similar_pairs_found: usize,
}

impl Default for ConsolidationReport {
    fn default() -> (r: Self)
        ensures
            !r.success && r.decayed_count == 0 && r.removed_count == 0 && r.similar_pairs_found == 0,
    {
        ConsolidationReport { success: false, decayed_count: 0, removed_count: 0, similar_pairs_found: 0 }
    }
}

/// Strength statistics of a store.
#[derive(Debug)]
pub struct ConsolidationStats {
    pub total_memories: usize,
    pub weak_memories: usize,
    pub strong_memories: usize,
    /// Mean strength in millionths, rounded down; 0 for an empty store.
    pub avg_strength: i128,
}

/// Decays weak memories and removes them.
pub struct MemoryConsolidator {
    store: InMemoryStore,
    decay_threshold: i32,
    merge_threshold: i32,
}

/// The strength below which a memory is removed (0.1).
pub open spec fn spec_decay_threshold() -> i32 {
    100_000
}

/// The importance an exec computation gives for decay at `now`.
fn decay_of(m: &Memory, now: i64) -> (r: Option<i32>)
    ensures
        r == decayed_importance(m@, now),
{
    let importance = m.importance;
    let decay_rate = m.decay_rate;
    let last_accessed = m.last_accessed;
    let span: i128 = (now as i128) - (last_accessed as i128);
    let days: i128 = if span >= 0 {
        span / 86_400_000
    } else {
        let d: i128 = (-span) / 86_400_000;
        -d
    };
    if days > 0 {
        assert(days <= 0x1_0000_0000_0000int);
        proof {
            assert(-0x8000_0000 * 0x1_0000_0000_0000 <= decay_rate * days <= 0x8000_0000 * 0x1_0000_0000_0000)
                by (nonlinear_arith)
                requires
                    -0x8000_0000 <= decay_rate <= 0x8000_0000,
                    0 < days <= 0x1_0000_0000_0000,
            ;
        }
        let raw: i128 = (importance as i128) - (decay_rate as i128) * days;
        let ni: i32 = if raw < 0 {
            0
        } else if raw > 0x7fff_ffff {
            i32::MAX
        } else {
            raw as i32
        };
        let diff: i64 = (ni as i64) - (importance as i64);
        if diff > 1000 || diff < -1000 {
            Some(ni)
        } else {
            None
        }
    } else {
        None
    }
}

/// Every memory after decay at `now`.
pub open spec fn decayed_store(s: Seq<MemoryView>, now: i64) -> Seq<MemoryView> {
    s.map_values(|m: MemoryView| decay_one(m, now))
}

/// Strong memories, with or without one more memory behind them.
pub proof fn lemma_strong_only_step(s: Seq<MemoryView>, i: int, th: i32)
    requires
        0 <= i < s.len(),
    ensures
        is_weak(s[i], th) ==> strong_only(s.take(i + 1), th) == strong_only(s.take(i), th),
        !is_weak(s[i], th) ==> strong_only(s.take(i + 1), th) == strong_only(s.take(i), th).push(s[i]),
        strong_only(s.take(i), th).len() <= i,
{
    assert(s.take(i + 1).drop_last() =~= s.take(i));
    lemma_strong_only_len(s.take(i), th);
}

/// No more strong memories than memories.
pub proof fn lemma_strong_only_len(s: Seq<MemoryView>, th: i32)
    ensures
        strong_only(s, th).len() <= s.len(),
    decreases s.len(),
{
    if s.len() > 0 {
        lemma_strong_only_len(s.drop_last(), th);
    }
}

/// Law: after weak memories are removed, none that is left is weak; the
/// strong and the weak together are all the memories, and the identifiers
/// removed are as many as the weak memories.
pub proof fn lemma_removal_leaves_no_weak(s: Seq<MemoryView>, th: i32)
    ensures
        forall|i: int| 0 <= i < strong_only(s, th).len() ==> !is_weak(#[trigger] strong_only(s, th)[i], th),
        strong_only(s, th).len() + weak_count(s, th) == s.len(),
        weak_ids(s, th).len() == weak_count(s, th),
    decreases s.len(),
{
    if s.len() > 0 {
        lemma_removal_leaves_no_weak(s.drop_last(), th);
    }
}

/// Law: decay never leaves a negative importance, and for a memory whose
/// importance and decay rate are not negative it never raises importance.
pub proof fn lemma_decay_bounds(m: MemoryView, now: i64)
    ensures
        decayed_importance(m, now) matches Some(ni) ==> ni >= 0,
        decayed_importance(m, now) matches Some(ni) ==> (m.importance >= 0 && m.decay_rate >= 0
            ==> ni < m.importance),
        decay_one(m, now).id == m.id,
{
    let days = whole_days(now - m.last_accessed);
    if days > 0 && m.decay_rate >= 0 {
        assert(m.decay_rate * days >= 0) by (nonlinear_arith)
            requires
                m.decay_rate >= 0,
                days > 0,
        ;
    }
}

/// Law: decay changes nothing but importance and the update time, and only
/// for the memories whose identifiers it reports.
pub proof fn lemma_decay_reports(s: Seq<MemoryView>, now: i64)
    ensures
        decayed_store(s, now).len() == s.len(),
        forall|i: int|
            0 <= i < s.len() ==> (#[trigger] decayed_store(s, now)[i] != s[i] ==> decaying_ids(
                s,
                now,
            ).contains(s[i].id)),
    decreases s.len(),
{
    if s.len() > 0 {
        let t = s.drop_last();
        lemma_decay_reports(t, now);
        assert forall|i: int| 0 <= i < s.len() && #[trigger] decayed_store(s, now)[i] != s[i]
            implies decaying_ids(s, now).contains(s[i].id) by {
            if i < t.len() {
                assert(decayed_store(s, now)[i] == decayed_store(t, now)[i]);
                if decayed_store(s, now)[i] != s[i] {
                    assert(decaying_ids(t, now).contains(t[i].id));
                    let k = choose|k: int| 0 <= k < decaying_ids(t, now).len() && decaying_ids(t, now)[k] == t[i].id;
                    assert(decaying_ids(s, now)[k] == t[i].id);
                }
            } else {
                if decayed_store(s, now)[i] != s[i] {
                    let d = decaying_ids(s, now);
                    assert(d[d.len() - 1] == s[i].id);
                }
            }
        }
    }
}

impl MemoryConsolidator {
    /// The memories of the store being consolidated.
    pub closed spec fn memories_view(&self) -> Seq<MemoryView> {
        self.store.memories_view()
    }

    /// The links of the store being consolidated.
    pub closed spec fn links_view(&self) -> Seq<MemoryLink> {
        self.store.links_view()
    }

    /// The store is well formed and the thresholds are the fixed ones
    /// (removal below 0.1, merging above 0.9).
    pub closed spec fn wf(&self) -> bool {
        &&& self.store.wf()
        &&& self.decay_threshold == spec_decay_threshold()
        &&& self.merge_threshold == 900_000
    }

    /// Consolidates `store`, removing below strength 0.1.
    pub fn new(store: InMemoryStore) -> (r: MemoryConsolidator)
        requires
            store.wf(),
        ensures
            r.wf(),
            r.memories_view() == store.memories_view(),
            r.links_view() == store.links_view(),
    {
        MemoryConsolidator { store, decay_threshold: 100_000, merge_threshold: 900_000 }
    }

    /// The store, given back.
    pub fn into_store(self) -> (r: InMemoryStore)
        requires
            self.wf(),
        ensures
            r.wf(),
            r.memories_view() == self.memories_view(),
            r.links_view() == self.links_view(),
    {
        self.store
    }

    /// Decays every memory at time `now`; the identifiers of those whose
    /// importance changed, in store order.
    fn apply_decay_at(&mut self, now: i64) -> (r: Result<Vec<u128>, String>)
        requires
            old(self).wf(),
        ensures
            final(self).wf(),
            final(self).links_view() == old(self).links_view(),
            final(self).memories_view() == decayed_store(old(self).memories_view(), now),
            r matches Ok(v) && v@ == decaying_ids(old(self).memories_view(), now),
    {
        let ghost s0 = self.memories_view();
        let stats = match self.store.stats() {
            Ok(st) => st,
            Err(e) => {
                return Err(e);
            },
        };
        let memories = match self.store.list(None, None, stats.total_memories) {
            Ok(v) => v,
            Err(e) => {
                return Err(e);
            },
        };
        proof {
            lemma_listed_all(s0);
        }
        let mut decayed: Vec<u128> = Vec::new();
        let mut i: usize = 0;
        while i < memories.len()
            invariant
                self.wf(),
                self.links_view() == old(self).links_view(),
                views(memories@) == s0,
                i <= s0.len(),
                self.memories_view() == decayed_store(s0.take(i as int), now) + s0.skip(i as int),
                decayed@ == decaying_ids(s0.take(i as int), now),
            decreases s0.len() - i,
        {
            let ghost cur = self.memories_view();
            assert(s0.take(i + 1).drop_last() =~= s0.take(i as int));
            let m = &memories[i];
            assert(m@ == s0[i as int]);
            assert(cur[i as int] == s0[i as int]);
            proof {
                lemma_pos_of_unique(cur, m.id, i as int);
            }
            match decay_of(m, now) {
                Some(ni) => {
                    let update = UpdateMemoryRequest {
                        content: None,
                        pool: None,
                        type_: None,
                        confidence: None,
                        importance: Some(ni),
                        decay_rate: None,
                        tags: None,
                        metadata: None,
                    };
                    let ghost u = update;
                    match self.store.update_at(m.id, update, now) {
                        Ok(_) => {},
                        Err(e) => {
                            return Err(e);
                        },
                    }
                    assert(update_rest(s0[i as int], u, now) == decay_one(s0[i as int], now));
                    decayed.push(m.id);
                },
                None => {},
            }
            assert(self.memories_view() =~= decayed_store(s0.take(i + 1), now) + s0.skip(i + 1));
            i = i + 1;
        }
        assert(s0.take(s0.len() as int) =~= s0);
        assert(self.memories_view() =~= decayed_store(s0, now));
        Ok(decayed)
    }

    /// Removes every weak memory; the identifiers removed, in store order.
    fn remove_weak(&mut self) -> (r: Result<Vec<u128>, String>)
        requires
            old(self).wf(),
        ensures
            final(self).wf(),
            final(self).links_view() == old(self).links_view(),
            final(self).memories_view() == strong_only(old(self).memories_view(), spec_decay_threshold()),
            r matches Ok(v) && v@ == weak_ids(old(self).memories_view(), spec_decay_threshold()),
    {
        let ghost s0 = self.memories_view();
        let ghost th = spec_decay_threshold();
        let stats = match self.store.stats() {
            Ok(st) => st,
            Err(e) => {
                return Err(e);
            },
        };
        let memories = match self.store.list(None, None, stats.total_memories) {
            Ok(v) => v,
            Err(e) => {
                return Err(e);
            },
        };
        proof {
            lemma_listed_all(s0);
        }
        let mut removed: Vec<u128> = Vec::new();
        let mut i: usize = 0;
        while i < memories.len()
            invariant
                self.wf(),
                self.links_view() == old(self).links_view(),
                th == spec_decay_threshold(),
                views(memories@) == s0,
                i <= s0.len(),
                self.memories_view() == strong_only(s0.take(i as int), th) + s0.skip(i as int),
                removed@ == weak_ids(s0.take(i as int), th),
            decreases s0.len() - i,
        {
            let ghost cur = self.memories_view();
            proof {
                lemma_strong_only_step(s0, i as int, th);
            }
            let m = &memories[i];
            assert(m@ == s0[i as int]);
            let ghost p = strong_only(s0.take(i as int), th).len() as int;
            assert(cur[p] == s0[i as int]);
            if m.current_strength() < (self.decay_threshold as i128) {
                proof {
                    lemma_pos_of_unique(cur, m.id, p);
                }
                match self.store.delete(m.id) {
                    Ok(_) => {},
                    Err(e) => {
                        return Err(e);
                    },
                }
                removed.push(m.id);
                assert(self.memories_view() =~= strong_only(s0.take(i + 1), th) + s0.skip(i + 1));
            } else {
                assert(self.memories_view() =~= strong_only(s0.take(i + 1), th) + s0.skip(i + 1));
            }
            assert(s0.take(i + 1).drop_last() =~= s0.take(i as int));
            i = i + 1;
        }
        assert(s0.take(s0.len() as int) =~= s0);
        assert(self.memories_view() =~= strong_only(s0, th));
        Ok(removed)
    }

    /// Runs consolidation at time `now`: every memory decays, then every
    /// weak memory is removed. Reports how many decayed and how many went.
    pub fn consolidate_at(&mut self, now: i64) -> (r: Result<ConsolidationReport, String>)
        requires
            old(self).wf(),
        ensures
            final(self).wf(),
            final(self).links_view() == old(self).links_view(),
            final(self).memories_view() == strong_only(
                decayed_store(old(self).memories_view(), now),
                spec_decay_threshold(),
            ),
            r matches Ok(rep) && rep.success && rep.decayed_count == decaying_ids(
                old(self).memories_view(),
                now,
            ).len() && rep.removed_count == weak_ids(
                decayed_store(old(self).memories_view(), now),
                spec_decay_threshold(),
            ).len() && rep.similar_pairs_found == 0,
            final(self).memories_view() == decayed_store(old(self).memories_view(), now).filter(
                |m: MemoryView| m.importance * (10 + m.access_count) >= 1_000_000,
            ),
            r matches Ok(rep) && rep.removed_count == decayed_store(old(self).memories_view(), now).filter(
                |m: MemoryView| m.importance * (10 + m.access_count) < 1_000_000,
            ).len(),
    {
        proof {
            let d = decayed_store(old(self).memories_view(), now);
            crate::laws::lemma_strong_only_by_strength(d);
            lemma_removal_leaves_no_weak(d, spec_decay_threshold());
        }
        let mut report = ConsolidationReport::default();
        let decayed = match self.apply_decay_at(now) {
            Ok(v) => v,
            Err(e) => {
                return Err(e);
            },
        };
        report.decayed_count = decayed.len();
        let removed = match self.remove_weak() {
            Ok(v) => v,
            Err(e) => {
                return Err(e);
            },
        };
        report.removed_count = removed.len();
        report.success = true;
        Ok(report)
    }

    /// Runs consolidation now; see `consolidate_at`.
    pub fn consolidate(&mut self) -> (r: Result<ConsolidationReport, String>)
        requires
            old(self).wf(),
        ensures
            final(self).wf(),
            final(self).links_view() == old(self).links_view(),
            exists|now: i64|
                #![trigger decayed_store(old(self).memories_view(), now)]
                {
                    &&& final(self).memories_view() == strong_only(
                        decayed_store(old(self).memories_view(), now),
                        spec_decay_threshold(),
                    )
                    &&& r matches Ok(rep) && rep.success && rep.decayed_count == decaying_ids(
                        old(self).memories_view(),
                        now,
                    ).len() && rep.removed_count == weak_ids(
                        decayed_store(old(self).memories_view(), now),
                        spec_decay_threshold(),
                    ).len() && rep.similar_pairs_found == 0
                    &&& final(self).memories_view() == decayed_store(old(self).memories_view(), now).filter(
                        |m: MemoryView| m.importance * (10 + m.access_count) >= 1_000_000,
                    )
                    &&& r matches Ok(rep) && rep.removed_count == decayed_store(
                        old(self).memories_view(),
                        now,
                    ).filter(|m: MemoryView| m.importance * (10 + m.access_count) < 1_000_000).len()
                },
    {
        let now = now_millis();
        self.consolidate_at(now)
    }

    /// How many memories are weak and strong, and their mean strength in
    /// millionths (rounded down; the running sum kept within range).
    pub fn get_consolidation_stats(&self) -> (r: Result<ConsolidationStats, String>)
        requires
            self.wf(),
        ensures
            r matches Ok(st) && st.weak_memories == self.memories_view().filter(|m: MemoryView| m.importance * (10 + m.access_count) < 1_000_000).len()
                && st.strong_memories == self.memories_view().filter(|m: MemoryView| m.importance * (10 + m.access_count) >= 1_000_000).len(),
            r matches Ok(st) && {
                let s = self.memories_view();
                &&& st.total_memories == s.len()
                &&& st.weak_memories == weak_count(s, spec_decay_threshold())
                &&& st.strong_memories == s.len() - weak_count(s, spec_decay_threshold())
                &&& st.avg_strength == if s.len() == 0 {
                    0
                } else {
                    strength_total(s) / (s.len() as int)
                }
            },
    {
        let ghost s0 = self.memories_view();
        let ghost th = spec_decay_threshold();
        proof {
            crate::laws::lemma_strong_only_by_strength(s0);
            lemma_removal_leaves_no_weak(s0, th);
        }
        let stats = match self.store.stats() {
            Ok(st) => st,
            Err(e) => {
                return Err(e);
            },
        };
        let memories = match self.store.list(None, None, stats.total_memories) {
            Ok(v) => v,
            Err(e) => {
                return Err(e);
            },
        };
        proof {
            lemma_listed_all(s0);
        }
        let mut weak: usize = 0;
        let mut total: i128 = 0;
        let mut i: usize = 0;
        while i < memories.len()
            invariant
                self.wf(),
                th == spec_decay_threshold(),
                views(memories@) == s0,
                i <= s0.len(),
                weak == weak_count(s0.take(i as int), th),
                weak <= i,
                total == strength_total(s0.take(i as int)),
                -(i128::MAX as int) <= total <= i128::MAX,
            decreases s0.len() - i,
        {
            assert(s0.take(i + 1).drop_last() =~= s0.take(i as int));
            let m = &memories[i];
            assert(m@ == s0[i as int]);
            let st = m.current_strength();
            assert(-0x8000_0000_0000_0000_0000_0000 <= st <= 0x8000_0000_0000_0000_0000_0000) by {
                assert(-0x8000_0000 * 0x1_0000_0000_0000_0010 <= m.importance * (10 + m.access_count)
                    <= 0x8000_0000 * 0x1_0000_0000_0000_0010) by (nonlinear_arith)
                    requires
                        -0x8000_0000 <= m.importance <= 0x8000_0000,
                        0 <= m.access_count <= 0x1_0000_0000_0000_0000,
                ;
            }
            if st < (self.decay_threshold as i128) {
                weak = weak + 1;
            }
            if st > 0 && total > i128::MAX - st {
                total = i128::MAX;
            } else if st < 0 && total < -i128::MAX - st {
                total = -i128::MAX;
            } else {
                total = total + st;
            }
            i = i + 1;
        }
        assert(s0.take(s0.len() as int) =~= s0);
        let n = memories.len();
        let avg: i128 = if n == 0 {
            0
        } else {
            floor_div(total, n as u64)
        };
        Ok(
            ConsolidationStats {
                total_memories: n,
                weak_memories: weak,
                strong_memories: n - weak,
                avg_strength: avg,
            },
        )
    }
}

} // verus!
