//! The in-memory store: memories and links held in insertion order, each
//! identifier at most once.

use vstd::prelude::*;
use crate::ids::now_millis;
use crate::types::{
    Memory, MemoryView, MemoryLink, UpdateMemoryRequest, SearchQuery, MemoryStats, touched,
    updated, opt_view,
};
use crate::kinds::{MemoryPool, MemoryType, pool_name, kind_name, all_memory_types};
use crate::text::{str_eq, str_contains, to_lowercase, contains_seq, unicode_lowercase};
use crate::ranking::{ranked, rank_desc, lemma_ranked_map};
use crate::arith::{floor_div, lemma_div_bounds};

verus! {

/// Every identifier occurs at most once.
pub open spec fn ids_unique(s: Seq<MemoryView>) -> bool {
    forall|i: int, j: int| 0 <= i < s.len() && 0 <= j < s.len() && i != j ==> s[i].id != s[j].id
}

/// Some memory has identifier `id`.
pub open spec fn has_id(s: Seq<MemoryView>, id: u128) -> bool {
    exists|i: int| 0 <= i < s.len() && s[i].id == id
}

/// The position of the memory with identifier `id`.
pub open spec fn pos_of(s: Seq<MemoryView>, id: u128) -> int {
    choose|i: int| 0 <= i < s.len() && s[i].id == id
}

/// The memory with identifier `id`, if any.
pub open spec fn lookup(s: Seq<MemoryView>, id: u128) -> Option<MemoryView> {
    if has_id(s, id) {
        Some(s[pos_of(s, id)])
    } else {
        None
    }
}

/// The memories after storing `m`: it replaces the memory with its
/// identifier in place, or comes last.
pub open spec fn stored(s: Seq<MemoryView>, m: MemoryView) -> Seq<MemoryView> {
    if has_id(s, m.id) {
        s.update(pos_of(s, m.id), m)
    } else {
        s.push(m)
    }
}

/// Memories viewed mathematically.
pub open spec fn views(v: Seq<Memory>) -> Seq<MemoryView> {
    v.map_values(|m: Memory| m@)
}

/// Every link identifier occurs at most once.
pub open spec fn link_ids_unique(s: Seq<MemoryLink>) -> bool {
    forall|i: int, j: int| 0 <= i < s.len() && 0 <= j < s.len() && i != j ==> s[i].id != s[j].id
}

/// Some link has identifier `id`.
pub open spec fn has_link_id(s: Seq<MemoryLink>, id: u128) -> bool {
    exists|i: int| 0 <= i < s.len() && s[i].id == id
}

/// The position of the link with identifier `id`.
pub open spec fn link_pos_of(s: Seq<MemoryLink>, id: u128) -> int {
    choose|i: int| 0 <= i < s.len() && s[i].id == id
}

/// The links after storing `l`: it replaces the link with its identifier in
/// place, or comes last.
pub open spec fn link_stored(s: Seq<MemoryLink>, l: MemoryLink) -> Seq<MemoryLink> {
    if has_link_id(s, l.id) {
        s.update(link_pos_of(s, l.id), l)
    } else {
        s.push(l)
    }
}

/// The position of an identifier is the one position that holds it.
pub proof fn lemma_pos_of_unique(s: Seq<MemoryView>, id: u128, i: int)
    requires
        ids_unique(s),
        0 <= i < s.len(),
        s[i].id == id,
    ensures
        has_id(s, id),
        pos_of(s, id) == i,
{
    let p = pos_of(s, id);
    assert(0 <= p < s.len() && s[p].id == id);
}

/// The position of a link identifier is the one position that holds it.
pub proof fn lemma_link_pos_of_unique(s: Seq<MemoryLink>, id: u128, i: int)
    requires
        link_ids_unique(s),
        0 <= i < s.len(),
        s[i].id == id,
    ensures
        has_link_id(s, id),
        link_pos_of(s, id) == i,
{
    let p = link_pos_of(s, id);
    assert(0 <= p < s.len() && s[p].id == id);
}

/// The first `n` elements of `s`, or all of them when there are fewer.
pub open spec fn first_n<T>(s: Seq<T>, n: int) -> Seq<T> {
    if n < s.len() {
        s.take(n)
    } else {
        s
    }
}

/// A memory passes the pool and type filters of a listing: each given
/// filter equals the lowercase name of the memory's pool or type.
pub open spec fn listing_matches(
    m: MemoryView,
    pool: Option<Seq<char>>,
    type_: Option<Seq<char>>,
) -> bool {
    &&& (pool matches Some(p) ==> pool_name(m.pool) == p)
    &&& (type_ matches Some(t) ==> kind_name(m.type_) == t)
}

/// The memories that pass the filters of a listing, in store order.
pub open spec fn listed(s: Seq<MemoryView>, pool: Option<Seq<char>>, type_: Option<Seq<char>>) -> Seq<
    MemoryView,
>
    decreases s.len(),
{
    if s.len() == 0 {
        Seq::empty()
    } else {
        let r = listed(s.drop_last(), pool, type_);
        if listing_matches(s.last(), pool, type_) {
            r.push(s.last())
        } else {
            r
        }
    }
}

/// The links with the given memory at either end, in store order.
pub open spec fn touching(s: Seq<MemoryLink>, id: u128) -> Seq<MemoryLink>
    decreases s.len(),
{
    if s.len() == 0 {
        Seq::empty()
    } else {
        let r = touching(s.drop_last(), id);
        if s.last().source_id == id || s.last().target_id == id {
            r.push(s.last())
        } else {
            r
        }
    }
}

/// Taking the first `n` after appending one element.
pub proof fn lemma_first_n_push<T>(l: Seq<T>, x: T, n: int)
    requires
        0 <= n,
    ensures
        first_n(l, n).len() < n ==> first_n(l.push(x), n) == first_n(l, n).push(x),
        first_n(l, n).len() >= n ==> first_n(l.push(x), n) == first_n(l, n),
{
    if first_n(l, n).len() >= n {
        assert(first_n(l.push(x), n) =~= first_n(l, n));
    } else {
        assert(first_n(l.push(x), n) =~= first_n(l, n).push(x));
    }
}

/// A memory passes the filters of a search: its lowercased content holds the
/// lowercased query, it passes the pool and type filters, and its confidence
/// is at least the minimum.
pub open spec fn search_matches(
    m: MemoryView,
    pattern: Seq<char>,
    pool: Option<Seq<char>>,
    type_: Option<Seq<char>>,
    min_confidence: i32,
) -> bool {
    &&& contains_seq(unicode_lowercase(m.content), pattern)
    &&& listing_matches(m, pool, type_)
    &&& m.confidence >= min_confidence
}

/// The memories that pass the filters of a search, in store order.
pub open spec fn searched(
    s: Seq<MemoryView>,
    pattern: Seq<char>,
    pool: Option<Seq<char>>,
    type_: Option<Seq<char>>,
    min_confidence: i32,
) -> Seq<MemoryView>
    decreases s.len(),
{
    if s.len() == 0 {
        Seq::empty()
    } else {
        let r = searched(s.drop_last(), pattern, pool, type_, min_confidence);
        if search_matches(s.last(), pattern, pool, type_, min_confidence) {
            r.push(s.last())
        } else {
            r
        }
    }
}

/// The rank of a memory in search results: confidence plus importance.
pub open spec fn search_score(m: MemoryView) -> i64 {
    (m.confidence + m.importance) as i64
}

/// Memories paired with their search scores.
pub open spec fn keyed(s: Seq<MemoryView>) -> Seq<(MemoryView, i64)> {
    s.map_values(|m: MemoryView| (m, search_score(m)))
}

/// The items of keyed pairs.
pub open spec fn unkeyed<T>(s: Seq<(T, i64)>) -> Seq<T> {
    s.map_values(|p: (T, i64)| p.0)
}

/// Keyed memories viewed mathematically.
pub open spec fn pair_views(v: Seq<(Memory, i64)>) -> Seq<(MemoryView, i64)> {
    v.map_values(|p: (Memory, i64)| (p.0@, p.1))
}

/// What a search returns over the memories `s`: the memories that pass its
/// filters, by descending confidence plus importance (ties in store order),
/// at most `limit` of them.
pub open spec fn search_outcome(
    s: Seq<MemoryView>,
    query: Seq<char>,
    pool: Option<Seq<char>>,
    type_: Option<Seq<char>>,
    min_confidence: i32,
    limit: int,
) -> Seq<MemoryView> {
    first_n(
        unkeyed(ranked(keyed(searched(s, unicode_lowercase(query), pool, type_, min_confidence)))),
        limit,
    )
}

/// What the search `q` returns over the memories `s`.
pub open spec fn search_result(s: Seq<MemoryView>, q: SearchQuery) -> Seq<MemoryView> {
    search_outcome(s, q.query@, opt_view(q.pool), opt_view(q.type_), q.min_confidence, q.limit as int)
}

/// The number of memories in a pool.
pub open spec fn count_pool(s: Seq<MemoryView>, p: MemoryPool) -> nat
    decreases s.len(),
{
    if s.len() == 0 {
        0
    } else {
        count_pool(s.drop_last(), p) + if s.last().pool == p {
            1nat
        } else {
            0nat
        }
    }
}

/// The number of memories of a type.
pub open spec fn count_type(s: Seq<MemoryView>, t: MemoryType) -> nat
    decreases s.len(),
{
    if s.len() == 0 {
        0
    } else {
        count_type(s.drop_last(), t) + if s.last().type_ == t {
            1nat
        } else {
            0nat
        }
    }
}

/// The sum of the confidences.
pub open spec fn sum_confidence(s: Seq<MemoryView>) -> int
    decreases s.len(),
{
    if s.len() == 0 {
        0
    } else {
        sum_confidence(s.drop_last()) + s.last().confidence
    }
}

/// The sum of the importances.
pub open spec fn sum_importance(s: Seq<MemoryView>) -> int
    decreases s.len(),
{
    if s.len() == 0 {
        0
    } else {
        sum_importance(s.drop_last()) + s.last().importance
    }
}

/// Each of the types `ts` that occurs in `s`, with its count, in the order of `ts`.
pub open spec fn type_counts(ts: Seq<MemoryType>, s: Seq<MemoryView>) -> Seq<(MemoryType, usize)>
    decreases ts.len(),
{
    if ts.len() == 0 {
        Seq::empty()
    } else {
        let r = type_counts(ts.drop_last(), s);
        if count_type(s, ts.last()) > 0 {
            r.push((ts.last(), count_type(s, ts.last()) as usize))
        } else {
            r
        }
    }
}

/// The mean of `n` values that sum to `sum`, rounded down; 0 when `n` is 0.
pub open spec fn mean(sum: int, n: int) -> int {
    if n == 0 {
        0
    } else {
        sum / n
    }
}

/// Whether `st` gives the statistics of the memories `s` and links `l`:
/// counts by pool and type, the number of links, and mean confidence and
/// importance (rounded down; 0 for no memories).
pub open spec fn describes(st: MemoryStats, s: Seq<MemoryView>, l: Seq<MemoryLink>) -> bool {
    &&& st.total_memories == s.len()
    &&& st.explicit_count == count_pool(s, MemoryPool::Explicit)
    &&& st.implicit_count == count_pool(s, MemoryPool::Implicit)
    &&& st.total_links == l.len()
    &&& st.memory_types@ == type_counts(all_memory_types(), s)
    &&& st.avg_confidence == mean(sum_confidence(s), s.len() as int)
    &&& st.avg_importance == mean(sum_importance(s), s.len() as int)
}

/// Counts never exceed the number of memories.
pub proof fn lemma_counts_bounded(s: Seq<MemoryView>, p: MemoryPool, t: MemoryType)
    ensures
        count_pool(s, p) <= s.len(),
        count_type(s, t) <= s.len(),
    decreases s.len(),
{
    if s.len() > 0 {
        lemma_counts_bounded(s.drop_last(), p, t);
    }
}

/// Whether a memory passes the filters of a search.
pub fn search_match(m: &Memory, pattern: &str, q: &SearchQuery) -> (r: bool)
    ensures
        r == search_matches(m@, pattern@, opt_view(q.pool), opt_view(q.type_), q.min_confidence),
{
    let lower = to_lowercase(m.content.as_str());
    if !str_contains(lower.as_str(), pattern) {
        return false;
    }
    if !listing_match(m, &q.pool, &q.type_) {
        return false;
    }
    m.confidence >= q.min_confidence
}

/// The memory type at a position in declaration order.
pub fn memory_type_at(k: usize) -> (r: MemoryType)
    requires
        k < 8,
    ensures
        r == all_memory_types()[k as int],
{
    if k == 0 {
        MemoryType::Fact
    } else if k == 1 {
        MemoryType::Event
    } else if k == 2 {
        MemoryType::Procedure
    } else if k == 3 {
        MemoryType::Concept
    } else if k == 4 {
        MemoryType::Preference
    } else if k == 5 {
        MemoryType::Context
    } else if k == 6 {
        MemoryType::Document
    } else {
        MemoryType::Image
    }
}

/// Whether a memory passes the pool and type filters of a listing.
pub fn listing_match(m: &Memory, pool: &Option<String>, type_: &Option<String>) -> (r: bool)
    ensures
        r == listing_matches(m@, opt_view(*pool), opt_view(*type_)),
{
    if let Some(p) = pool {
        if !str_eq(m.pool.as_str(), p.as_str()) {
            return false;
        }
    }
    if let Some(t) = type_ {
        if !str_eq(m.type_.as_str(), t.as_str()) {
            return false;
        }
    }
    true
}

/// Storage for memories and links, held in memory.
#[derive(Debug)]
pub struct InMemoryStore {
    memories: Vec<Memory>,
    links: Vec<MemoryLink>,
}

impl InMemoryStore {
    /// The memories, in insertion order.
    pub closed spec fn memories_view(&self) -> Seq<MemoryView> {
        views(self.memories@)
    }

    /// The links, in insertion order.
    pub closed spec fn links_view(&self) -> Seq<MemoryLink> {
        self.links@
    }

    /// No memory identifier and no link identifier occurs twice.
    pub open spec fn wf(&self) -> bool {
        &&& ids_unique(self.memories_view())
        &&& link_ids_unique(self.links_view())
    }

    /// An empty store.
    pub fn new() -> (r: InMemoryStore)
        ensures
            r.wf(),
            r.memories_view() == Seq::<MemoryView>::empty(),
            r.links_view() == Seq::<MemoryLink>::empty(),
    {
        let r = InMemoryStore { memories: Vec::new(), links: Vec::new() };
        assert(r.memories_view() =~= Seq::<MemoryView>::empty());
        r
    }

    /// The number of memories.
    pub fn memory_count(&self) -> (r: usize)
        ensures
            r == self.memories_view().len(),
    {
        self.memories.len()
    }

    /// The number of links.
    pub fn link_count(&self) -> (r: usize)
        ensures
            r == self.links_view().len(),
    {
        self.links.len()
    }

    /// The position of the memory with identifier `id`.
    fn find_index(&self, id: u128) -> (r: Option<usize>)
        requires
            self.wf(),
        ensures
            match r {
                Some(i) => {
                    &&& i < self.memories_view().len()
                    &&& has_id(self.memories_view(), id)
                    &&& pos_of(self.memories_view(), id) == i
                    &&& lookup(self.memories_view(), id) == Some(self.memories_view()[i as int])
                },
                None => !has_id(self.memories_view(), id) && lookup(self.memories_view(), id) is None,
            },
    {
        let mut i: usize = 0;
        while i < self.memories.len()
            invariant
                self.wf(),
                i <= self.memories@.len(),
                forall|k: int| 0 <= k < i ==> self.memories_view()[k].id != id,
            decreases self.memories@.len() - i,
        {
            if self.memories[i].id == id {
                proof {
                    lemma_pos_of_unique(self.memories_view(), id, i as int);
                }
                return Some(i);
            }
            i = i + 1;
        }
        None
    }

    /// The position of the link with identifier `id`.
    fn find_link_index(&self, id: u128) -> (r: Option<usize>)
        requires
            self.wf(),
        ensures
            match r {
                Some(i) => {
                    &&& i < self.links_view().len()
                    &&& has_link_id(self.links_view(), id)
                    &&& link_pos_of(self.links_view(), id) == i
                },
                None => !has_link_id(self.links_view(), id),
            },
    {
        let mut i: usize = 0;
        while i < self.links.len()
            invariant
                self.wf(),
                i <= self.links@.len(),
                forall|k: int| 0 <= k < i ==> self.links_view()[k].id != id,
            decreases self.links@.len() - i,
        {
            if self.links[i].id == id {
                proof {
                    lemma_link_pos_of_unique(self.links_view(), id, i as int);
                }
                return Some(i);
            }
            i = i + 1;
        }
        None
    }

    /// Stores a memory: it replaces the memory with the same identifier, or
    /// is added after all others. Returns the memory.
    pub fn create(&mut self, memory: Memory) -> (r: Result<Memory, String>)
        requires
            old(self).wf(),
        ensures
            final(self).wf(),
            final(self).memories_view() == stored(old(self).memories_view(), memory@),
            final(self).links_view() == old(self).links_view(),
            r matches Ok(m) && m@ == memory@,
    {
        let copy = memory.clone();
        let ghost s = self.memories_view();
        match self.find_index(memory.id) {
            Some(i) => {
                self.memories.set(i, copy);
                assert(self.memories_view() =~= s.update(i as int, memory@));
            },
            None => {
                self.memories.push(copy);
                assert(self.memories_view() =~= s.push(memory@));
            },
        }
        Ok(memory)
    }

    /// Looks a memory up by identifier without recording an access.
    pub fn peek(&self, id: u128) -> (r: Option<&Memory>)
        requires
            self.wf(),
        ensures
            match lookup(self.memories_view(), id) {
                None => r is None,
                Some(m) => r matches Some(x) && x@ == m,
            },
    {
        match self.find_index(id) {
            None => None,
            Some(i) => Some(&self.memories[i]),
        }
    }

    /// Looks a memory up by identifier and records an access to it at time
    /// `now`: its access count goes up by one and its last access becomes
    /// `now`. Returns the memory as it is after that access.
    pub fn get_at(&mut self, id: u128, now: i64) -> (r: Result<Option<Memory>, String>)
        requires
            old(self).wf(),
            lookup(old(self).memories_view(), id) matches Some(m) ==> m.access_count < u64::MAX,
        ensures
            final(self).wf(),
            final(self).links_view() == old(self).links_view(),
            match lookup(old(self).memories_view(), id) {
                None => r == Ok::<Option<Memory>, String>(None) && final(self).memories_view()
                    == old(self).memories_view(),
                Some(m) => {
                    &&& r matches Ok(Some(x)) && x@ == touched(m, now)
                    &&& final(self).memories_view() == old(self).memories_view().update(
                        pos_of(old(self).memories_view(), id),
                        touched(m, now),
                    )
                },
            },
    {
        let ghost s = self.memories_view();
        match self.find_index(id) {
            None => Ok(None),
            Some(i) => {
                let mut m = self.memories[i].clone();
                m.touch_at(now);
                let result = m.clone();
                self.memories.set(i, m);
                assert(self.memories_view() =~= s.update(i as int, result@));
                assert forall|a: int, b: int|
                    0 <= a < self.memories_view().len() && 0 <= b < self.memories_view().len()
                        && a != b implies self.memories_view()[a].id
                    != self.memories_view()[b].id by {
                    assert(s[a].id == self.memories_view()[a].id);
                    assert(s[b].id == self.memories_view()[b].id);
                }
                Ok(Some(result))
            },
        }
    }

    /// Looks a memory up by identifier, recording an access now.
    pub fn get(&mut self, id: u128) -> (r: Result<Option<Memory>, String>)
        requires
            old(self).wf(),
            lookup(old(self).memories_view(), id) matches Some(m) ==> m.access_count < u64::MAX,
        ensures
            final(self).wf(),
            final(self).links_view() == old(self).links_view(),
            match lookup(old(self).memories_view(), id) {
                None => r == Ok::<Option<Memory>, String>(None) && final(self).memories_view()
                    == old(self).memories_view(),
                Some(m) => r matches Ok(Some(x)) && x@ == touched(m, x.last_accessed)
                    && final(self).memories_view() == old(self).memories_view().update(
                    pos_of(old(self).memories_view(), id),
                    x@,
                ),
            },
    {
        let now = now_millis();
        self.get_at(id, now)
    }

    /// Applies an update request to the memory with identifier `id`, at time
    /// `now`. Fields are set in order; a pool or type name that does not
    /// parse ends the update with its message and keeps what was set before
    /// it. Returns `None` when no memory has that identifier.
    pub fn update_at(&mut self, id: u128, update: UpdateMemoryRequest, now: i64) -> (r: Result<
        Option<Memory>,
        String,
    >)
        requires
            old(self).wf(),
        ensures
            final(self).wf(),
            final(self).links_view() == old(self).links_view(),
            match lookup(old(self).memories_view(), id) {
                None => r == Ok::<Option<Memory>, String>(None) && final(self).memories_view()
                    == old(self).memories_view(),
                Some(m) => {
                    let (m2, outcome) = updated(m, update, now);
                    &&& final(self).memories_view() == old(self).memories_view().update(
                        pos_of(old(self).memories_view(), id),
                        m2,
                    )
                    &&& match outcome {
                        Ok(()) => r matches Ok(Some(x)) && x@ == m2,
                        Err(e) => r matches Err(e2) && e2@ == e,
                    }
                },
            },
    {
        let ghost s = self.memories_view();
        match self.find_index(id) {
            None => Ok(None),
            Some(i) => {
                let mut m = self.memories[i].clone();
                let outcome = crate::types::apply_update(&mut m, update, now);
                let result = m.clone();
                self.memories.set(i, m);
                assert(self.memories_view() =~= s.update(i as int, result@));
                assert forall|a: int, b: int|
                    0 <= a < self.memories_view().len() && 0 <= b < self.memories_view().len()
                        && a != b implies self.memories_view()[a].id
                    != self.memories_view()[b].id by {
                    assert(s[a].id == self.memories_view()[a].id);
                    assert(s[b].id == self.memories_view()[b].id);
                }
                match outcome {
                    Ok(()) => Ok(Some(result)),
                    Err(e) => Err(e),
                }
            },
        }
    }

    /// Applies an update request to the memory with identifier `id`, now.
    pub fn update(&mut self, id: u128, update: UpdateMemoryRequest) -> (r: Result<
        Option<Memory>,
        String,
    >)
        requires
            old(self).wf(),
        ensures
            final(self).wf(),
            final(self).links_view() == old(self).links_view(),
            match lookup(old(self).memories_view(), id) {
                None => r == Ok::<Option<Memory>, String>(None) && final(self).memories_view()
                    == old(self).memories_view(),
                Some(m) => exists|now: i64|
                    {
                        let (m2, outcome) = #[trigger] updated(m, update, now);
                        &&& final(self).memories_view() == old(self).memories_view().update(
                            pos_of(old(self).memories_view(), id),
                            m2,
                        )
                        &&& match outcome {
                            Ok(()) => r matches Ok(Some(x)) && x@ == m2,
                            Err(e) => r matches Err(e2) && e2@ == e,
                        }
                    },
            },
    {
        let now = now_millis();
        let ghost u = update;
        let r = self.update_at(id, update, now);
        proof {
            if lookup(old(self).memories_view(), id) is Some {
                let _ = updated(lookup(old(self).memories_view(), id)->0, u, now);
            }
        }
        r
    }

    /// Removes the memory with identifier `id`; whether there was one.
    pub fn delete(&mut self, id: u128) -> (r: Result<bool, String>)
        requires
            old(self).wf(),
        ensures
            final(self).wf(),
            final(self).links_view() == old(self).links_view(),
            r == Ok::<bool, String>(has_id(old(self).memories_view(), id)),
            final(self).memories_view() == if has_id(old(self).memories_view(), id) {
                old(self).memories_view().remove(pos_of(old(self).memories_view(), id))
            } else {
                old(self).memories_view()
            },
    {
        let ghost s = self.memories_view();
        match self.find_index(id) {
            None => Ok(false),
            Some(i) => {
                let _ = self.memories.remove(i);
                assert(self.memories_view() =~= s.remove(i as int));
                assert forall|a: int, b: int|
                    0 <= a < self.memories_view().len() && 0 <= b < self.memories_view().len()
                        && a != b implies self.memories_view()[a].id
                    != self.memories_view()[b].id by {
                    let a2 = if a < i { a } else { a + 1 };
                    let b2 = if b < i { b } else { b + 1 };
                    assert(s[a2].id == self.memories_view()[a].id);
                    assert(s[b2].id == self.memories_view()[b].id);
                }
                Ok(true)
            },
        }
    }

    /// The memories that pass the pool and type filters, in store order, at
    /// most `limit` of them.
    pub fn list(&self, pool: Option<String>, type_: Option<String>, limit: usize) -> (r: Result<
        Vec<Memory>,
        String,
    >)
        ensures
            r matches Ok(v) && views(v@) == first_n(
                listed(self.memories_view(), opt_view(pool), opt_view(type_)),
                limit as int,
            ),
            r matches Ok(v) && v@.len() <= limit && forall|i: int|
                0 <= i < v@.len() ==> {
                    &&& (pool matches Some(p) ==> pool_name((#[trigger] v@[i]).pool) == p@)
                    &&& (type_ matches Some(t) ==> kind_name(v@[i].type_) == t@)
                },
    {
        proof {
            crate::laws::lemma_listing_filters(self.memories_view(), opt_view(pool), opt_view(type_));
        }
        let ghost s = self.memories_view();
        let ghost pv = opt_view(pool);
        let ghost tv = opt_view(type_);
        let mut out: Vec<Memory> = Vec::new();
        let mut i: usize = 0;
        while i < self.memories.len()
            invariant
                s == self.memories_view(),
                pv == opt_view(pool),
                tv == opt_view(type_),
                i <= s.len(),
                views(out@) == first_n(listed(s.take(i as int), pv, tv), limit as int),
            decreases s.len() - i,
        {
            let ghost prev = out@;
            assert(s.take(i + 1).drop_last() =~= s.take(i as int));
            let m = &self.memories[i];
            if listing_match(m, &pool, &type_) {
                proof {
                    lemma_first_n_push(listed(s.take(i as int), pv, tv), s[i as int], limit as int);
                }
                if out.len() < limit {
                    out.push(m.clone());
                    assert(views(out@) =~= views(prev).push(s[i as int]));
                }
            }
            i = i + 1;
        }
        assert(s.take(s.len() as int) =~= s);
        proof {
            let vv = views(out@);
            let l = listed(s, opt_view(pool), opt_view(type_));
            assert forall|k: int| 0 <= k < out@.len() implies {
                &&& (pool matches Some(p) ==> pool_name((#[trigger] out@[k]).pool) == p@)
                &&& (type_ matches Some(t) ==> kind_name(out@[k].type_) == t@)
            } by {
                assert(vv[k] == out@[k]@);
                assert(vv[k] == l[k]);
            }
        }
        Ok(out)
    }

    /// Stores a link: it replaces the link with the same identifier, or is
    /// added after all others. Returns the link.
    pub fn create_link(&mut self, link: MemoryLink) -> (r: Result<MemoryLink, String>)
        requires
            old(self).wf(),
        ensures
            final(self).wf(),
            final(self).links_view() == link_stored(old(self).links_view(), link),
            final(self).memories_view() == old(self).memories_view(),
            r == Ok::<MemoryLink, String>(link),
    {
        let ghost s = self.links_view();
        match self.find_link_index(link.id) {
            Some(i) => {
                self.links.set(i, link);
            },
            None => {
                self.links.push(link);
            },
        }
        Ok(link)
    }

    /// The links with the memory `id` at either end, in store order.
    pub fn get_links(&self, id: u128) -> (r: Result<Vec<MemoryLink>, String>)
        ensures
            r matches Ok(v) && v@ == touching(self.links_view(), id),
    {
        let ghost s = self.links_view();
        let mut out: Vec<MemoryLink> = Vec::new();
        let mut i: usize = 0;
        while i < self.links.len()
            invariant
                s == self.links_view(),
                i <= s.len(),
                out@ == touching(s.take(i as int), id),
            decreases s.len() - i,
        {
            assert(s.take(i + 1).drop_last() =~= s.take(i as int));
            let l = self.links[i];
            if l.source_id == id || l.target_id == id {
                out.push(l);
            }
            i = i + 1;
        }
        assert(s.take(s.len() as int) =~= s);
        Ok(out)
    }

    /// Removes the link with identifier `id`; whether there was one.
    pub fn delete_link(&mut self, id: u128) -> (r: Result<bool, String>)
        requires
            old(self).wf(),
        ensures
            final(self).wf(),
            final(self).memories_view() == old(self).memories_view(),
            r == Ok::<bool, String>(has_link_id(old(self).links_view(), id)),
            final(self).links_view() == if has_link_id(old(self).links_view(), id) {
                old(self).links_view().remove(link_pos_of(old(self).links_view(), id))
            } else {
                old(self).links_view()
            },
    {
        let ghost s = self.links_view();
        match self.find_link_index(id) {
            None => Ok(false),
            Some(i) => {
                let _ = self.links.remove(i);
                assert(self.links_view() =~= s.remove(i as int));
                assert forall|a: int, b: int|
                    0 <= a < self.links_view().len() && 0 <= b < self.links_view().len() && a
                        != b implies self.links_view()[a].id != self.links_view()[b].id by {
                    let a2 = if a < i { a } else { a + 1 };
                    let b2 = if b < i { b } else { b + 1 };
                    assert(s[a2].id == self.links_view()[a].id);
                    assert(s[b2].id == self.links_view()[b].id);
                }
                Ok(true)
            },
        }
    }

    /// The memories whose lowercased content holds the lowercased query and
    /// that pass the pool, type and minimum-confidence filters, by descending
    /// confidence plus importance (ties in store order), at most `limit`.
    pub fn search(&self, query: SearchQuery) -> (r: Result<Vec<Memory>, String>)
        ensures
            r matches Ok(v) && views(v@) == search_result(self.memories_view(), query),
            r matches Ok(v) && v@.len() <= query.limit && forall|i: int, j: int|
                0 <= i <= j < v@.len() ==> (#[trigger] v@[i]).confidence + v@[i].importance >= (
                #[trigger] v@[j]).confidence + v@[j].importance,
            r matches Ok(v) && forall|i: int|
                0 <= i < v@.len() ==> {
                    &&& (query.pool matches Some(p) ==> pool_name((#[trigger] v@[i]).pool) == p@)
                    &&& (query.type_ matches Some(t) ==> kind_name(v@[i].type_) == t@)
                    &&& v@[i].confidence >= query.min_confidence
                },
    {
        proof {
            crate::laws::lemma_search_sorted_by_sum(self.memories_view(), query);
            crate::laws::lemma_search_filters(self.memories_view(), query);
            crate::laws::lemma_search_result_props(self.memories_view(), query);
        }
        let ghost s = self.memories_view();
        let pattern = to_lowercase(query.query.as_str());
        let ghost pat = pattern@;
        let ghost pv = opt_view(query.pool);
        let ghost tv = opt_view(query.type_);
        let ghost mc = query.min_confidence;
        let mut hits: Vec<(Memory, i64)> = Vec::new();
        let mut i: usize = 0;
        while i < self.memories.len()
            invariant
                s == self.memories_view(),
                pat == pattern@,
                pv == opt_view(query.pool),
                tv == opt_view(query.type_),
                mc == query.min_confidence,
                i <= s.len(),
                pair_views(hits@) == keyed(searched(s.take(i as int), pat, pv, tv, mc)),
            decreases s.len() - i,
        {
            let ghost prev = hits@;
            assert(s.take(i + 1).drop_last() =~= s.take(i as int));
            let m = &self.memories[i];
            if search_match(m, pattern.as_str(), &query) {
                let key: i64 = (m.confidence as i64) + (m.importance as i64);
                hits.push((m.clone(), key));
                assert(pair_views(hits@) =~= pair_views(prev).push((s[i as int], key)));
                assert(keyed(searched(s.take(i + 1), pat, pv, tv, mc)) =~= keyed(
                    searched(s.take(i as int), pat, pv, tv, mc),
                ).push((s[i as int], key)));
            }
            i = i + 1;
        }
        assert(s.take(s.len() as int) =~= s);
        let ghost hv = hits@;
        let sorted = rank_desc(hits);
        let ghost f = |m: Memory| m@;
        proof {
            lemma_ranked_map(hv, f);
            assert(pair_views(hv) =~= hv.map_values(|p: (Memory, i64)| (f(p.0), p.1)));
            assert(pair_views(sorted@) =~= sorted@.map_values(|p: (Memory, i64)| (f(p.0), p.1)));
        }
        let ghost goal = unkeyed(ranked(keyed(searched(s, pat, pv, tv, mc))));
        assert(goal =~= unkeyed(pair_views(sorted@)));
        let mut out: Vec<Memory> = Vec::new();
        let mut j: usize = 0;
        while j < sorted.len() && j < query.limit
            invariant
                goal == unkeyed(pair_views(sorted@)),
                j <= sorted@.len(),
                j <= query.limit,
                views(out@) == goal.take(j as int),
            decreases sorted@.len() - j,
        {
            let ghost prev = out@;
            let c = sorted[j].0.clone();
            assert(goal[j as int] == sorted@[j as int].0@);
            out.push(c);
            assert(views(out@) =~= views(prev).push(c@));
            assert(goal.take(j + 1) =~= goal.take(j as int).push(goal[j as int]));
            j = j + 1;
        }
        assert(views(out@) =~= first_n(goal, query.limit as int));
        proof {
            let vv = views(out@);
            let rr = search_result(self.memories_view(), query);
            assert(vv == rr);
            assert forall|a: int, b: int| 0 <= a <= b < out@.len() implies (#[trigger] out@[a]).confidence
                + out@[a].importance >= (#[trigger] out@[b]).confidence + out@[b].importance by {
                assert(vv[a] == out@[a]@ && vv[b] == out@[b]@);
                assert(rr[a].confidence + rr[a].importance >= rr[b].confidence + rr[b].importance);
            }
            assert forall|k: int| 0 <= k < out@.len() implies {
                &&& (query.pool matches Some(p) ==> pool_name((#[trigger] out@[k]).pool) == p@)
                &&& (query.type_ matches Some(t) ==> kind_name(out@[k].type_) == t@)
                &&& out@[k].confidence >= query.min_confidence
            } by {
                assert(vv[k] == out@[k]@);
            }
        }
        Ok(out)
    }

    /// Counts by pool and type, the number of links, and mean confidence and
    /// importance (rounded down; 0 for an empty store).
    pub fn stats(&self) -> (r: Result<MemoryStats, String>)
        ensures
            r matches Ok(st) && describes(st, self.memories_view(), self.links_view()),
    {
        let ghost s = self.memories_view();
        let mut counts: Vec<usize> = vec![0usize, 0, 0, 0, 0, 0, 0, 0];
        let mut explicit_count: usize = 0;
        let mut implicit_count: usize = 0;
        let mut total_confidence: i128 = 0;
        let mut total_importance: i128 = 0;
        let n = self.memories.len();
        let mut i: usize = 0;
        while i < n
            invariant
                s == self.memories_view(),
                n == s.len(),
                i <= n,
                counts@.len() == 8,
                forall|k: int|
                    0 <= k < 8 ==> #[trigger] counts@[k] == count_type(
                        s.take(i as int),
                        all_memory_types()[k],
                    ),
                explicit_count == count_pool(s.take(i as int), MemoryPool::Explicit),
                implicit_count == count_pool(s.take(i as int), MemoryPool::Implicit),
                total_confidence == sum_confidence(s.take(i as int)),
                total_importance == sum_importance(s.take(i as int)),
                i * (-0x8000_0000) <= total_confidence <= i * 0x7fff_ffff,
                i * (-0x8000_0000) <= total_importance <= i * 0x7fff_ffff,
            decreases n - i,
        {
            let ghost t = s.take(i as int);
            assert(s.take(i + 1).drop_last() =~= t);
            let m = &self.memories[i];
            proof {
                lemma_counts_bounded(t, m.pool, m.type_);
            }
            let k = m.type_.index();
            let c = counts[k];
            counts.set(k, c + 1);
            match m.pool {
                MemoryPool::Explicit => {
                    explicit_count = explicit_count + 1;
                },
                MemoryPool::Implicit => {
                    implicit_count = implicit_count + 1;
                },
            }
            total_confidence = total_confidence + (m.confidence as i128);
            total_importance = total_importance + (m.importance as i128);
            i = i + 1;
        }
        assert(s.take(n as int) =~= s);
        let mut memory_types: Vec<(MemoryType, usize)> = Vec::new();
        let mut k: usize = 0;
        while k < 8
            invariant
                counts@.len() == 8,
                k <= 8,
                forall|j: int| 0 <= j < 8 ==> #[trigger] counts@[j] == count_type(s, all_memory_types()[j]),
                memory_types@ == type_counts(all_memory_types().take(k as int), s),
            decreases 8 - k,
        {
            assert(all_memory_types().take(k + 1).drop_last() =~= all_memory_types().take(k as int));
            let t = memory_type_at(k);
            if counts[k] > 0 {
                memory_types.push((t, counts[k]));
            }
            k = k + 1;
        }
        assert(all_memory_types().take(8) =~= all_memory_types());
        let (avg_confidence, avg_importance) = if n == 0 {
            (0i32, 0i32)
        } else {
            proof {
                lemma_div_bounds(total_confidence as int, n as int, -0x8000_0000, 0x7fff_ffff);
                lemma_div_bounds(total_importance as int, n as int, -0x8000_0000, 0x7fff_ffff);
            }
            let ac = floor_div(total_confidence, n as u64);
            let ai = floor_div(total_importance, n as u64);
            (ac as i32, ai as i32)
        };
        Ok(
            MemoryStats {
                total_memories: n,
                explicit_count,
                implicit_count,
                total_links: self.links.len(),
                memory_types,
                avg_confidence,
                avg_importance,
            },
        )
    }
}

impl Default for InMemoryStore {
    /// An empty store.
    fn default() -> (r: Self)
        ensures
            r.wf(),
            r.memories_view() == Seq::<MemoryView>::empty(),
            r.links_view() == Seq::<MemoryLink>::empty(),
    {
        InMemoryStore::new()
    }
}

} // verus!
