//! Memories, links between them, and the requests that create and update them.
//!
//! Scores (confidence, importance, decay rate, link strength) are fixed-point
//! integers: `SCALE` (one million) stands for 1.0. Times are milliseconds
//! since the Unix epoch; identifiers are 128-bit UUID values.
//!
//! Arithmetic on scores is exact integer arithmetic on millionths, so it
//! agrees with real-number arithmetic up to the last millionth: products
//! (strength, activation) are rounded toward zero, averages are rounded
//! down, and results that would leave the range of `i32` are clamped to it.

use vstd::prelude::*;
use crate::ids::{new_uuid, now_millis, is_v4_uuid};
use crate::kinds::{
    MemoryPool, MemoryType, LinkType, parse_pool, parse_type, err_view, pool_named, type_named,
};
use crate::text::{owned, unicode_lowercase};

verus! {

/// The fixed-point value of 1.0 for scores: a score of `x` is held as the
/// integer `x * SCALE`, so scores are exact to one millionth; the rounding
/// of each derived score is stated where it is computed.
pub const SCALE: i32 = 1_000_000;

/// Confidence of a new memory (0.8).
pub fn default_confidence() -> (r: i32)
    ensures
        r == 800_000,
{
    800_000
}

/// Importance of a new memory (0.5).
pub fn default_importance() -> (r: i32)
    ensures
        r == 500_000,
{
    500_000
}

/// Result count of a search that names none (10).
pub fn default_limit() -> (r: usize)
    ensures
        r == 10,
{
    10
}

/// A memory entry.
#[derive(Debug)]
pub struct Memory {
    pub id: u128,
    pub content: String,
    pub pool: MemoryPool,
    pub type_: MemoryType,
    pub confidence: i32,
    pub importance: i32,
    pub decay_rate: i32,
    pub source: Option<String>,
    pub tags: Vec<String>,
    /// The metadata object as JSON text.
    pub metadata: String,
    pub created_at: i64,
    pub updated_at: i64,
    pub last_accessed: i64,
    pub access_count: u64,
}

/// The mathematical value of a memory.
pub struct MemoryView {
    pub id: u128,
    pub content: Seq<char>,
    pub pool: MemoryPool,
    pub type_: MemoryType,
    pub confidence: i32,
    pub importance: i32,
    pub decay_rate: i32,
    pub source: Option<Seq<char>>,
    pub tags: Seq<Seq<char>>,
    pub metadata: Seq<char>,
    pub created_at: i64,
    pub updated_at: i64,
    pub last_accessed: i64,
    pub access_count: u64,
}

/// Strings viewed as character sequences.
pub open spec fn strings_view(v: Seq<String>) -> Seq<Seq<char>> {
    v.map_values(|s: String| s@)
}

/// An optional string viewed as an optional character sequence.
pub open spec fn opt_view(o: Option<String>) -> Option<Seq<char>> {
    match o {
        Some(s) => Some(s@),
        None => None,
    }
}

impl View for Memory {
    type V = MemoryView;

    open spec fn view(&self) -> MemoryView {
        MemoryView {
            id: self.id,
            content: self.content@,
            pool: self.pool,
            type_: self.type_,
            confidence: self.confidence,
            importance: self.importance,
            decay_rate: self.decay_rate,
            source: opt_view(self.source),
            tags: strings_view(self.tags@),
            metadata: self.metadata@,
            created_at: self.created_at,
            updated_at: self.updated_at,
            last_accessed: self.last_accessed,
            access_count: self.access_count,
        }
    }
}

/// A copy of a list of strings.
pub fn clone_strings(v: &Vec<String>) -> (r: Vec<String>)
    ensures
        r@ == v@,
{
    let mut r: Vec<String> = Vec::new();
    let mut i: usize = 0;
    while i < v.len()
        invariant
            i <= v.len(),
            r@ == v@.take(i as int),
        decreases v.len() - i,
    {
        r.push(v[i].clone());
        assert(v@.take(i + 1) =~= v@.take(i as int).push(v@[i as int]));
        i = i + 1;
    }
    assert(v@.take(v.len() as int) =~= v@);
    r
}

/// A copy of an optional string.
pub fn clone_opt_string(o: &Option<String>) -> (r: Option<String>)
    ensures
        r == *o,
{
    match o {
        Some(s) => Some(s.clone()),
        None => None,
    }
}

impl Clone for Memory {
    fn clone(&self) -> (r: Self)
        ensures
            r@ == self@,
    {
        Memory {
            id: self.id,
            content: self.content.clone(),
            pool: self.pool,
            type_: self.type_,
            confidence: self.confidence,
            importance: self.importance,
            decay_rate: self.decay_rate,
            source: clone_opt_string(&self.source),
            tags: clone_strings(&self.tags),
            metadata: self.metadata.clone(),
            created_at: self.created_at,
            updated_at: self.updated_at,
            last_accessed: self.last_accessed,
            access_count: self.access_count,
        }
    }
}

/// A memory just made from its content, pool and type, with identifier `id`
/// and all three timestamps at `now`: confidence 0.8, importance 0.5, decay
/// rate 0.01 a day, no source, no tags, empty metadata, never accessed.
pub open spec fn fresh_memory(
    id: u128,
    now: i64,
    content: Seq<char>,
    pool: MemoryPool,
    type_: MemoryType,
) -> MemoryView {
    MemoryView {
        id,
        content,
        pool,
        type_,
        confidence: 800_000,
        importance: 500_000,
        decay_rate: 10_000,
        source: None,
        tags: Seq::empty(),
        metadata: "{}"@,
        created_at: now,
        updated_at: now,
        last_accessed: now,
        access_count: 0,
    }
}

/// A memory after one access at time `now`.
pub open spec fn touched(m: MemoryView, now: i64) -> MemoryView {
    MemoryView { last_accessed: now, access_count: (m.access_count + 1) as u64, ..m }
}

/// Integer division rounded toward zero, for a positive divisor.
pub open spec fn trunc_div(a: int, b: int) -> int {
    if a >= 0 {
        a / b
    } else {
        -((-a) / b)
    }
}

/// Strength of a memory, importance times (1 + 0.1 per access), in
/// millionths rounded toward zero.
pub open spec fn strength_of(m: MemoryView) -> int {
    trunc_div(m.importance * (10 + m.access_count), 10)
}

impl Memory {
    /// A memory with the given identifier, made at time `now`.
    pub fn with_identity(
        id: u128,
        now: i64,
        content: String,
        pool: MemoryPool,
        type_: MemoryType,
    ) -> (r: Memory)
        ensures
            r@ == fresh_memory(id, now, content@, pool, type_),
    {
        let r = Memory {
            id,
            content,
            pool,
            type_,
            confidence: default_confidence(),
            importance: default_importance(),
            decay_rate: 10_000,
            source: None,
            tags: Vec::new(),
            metadata: owned("{}"),
            created_at: now,
            updated_at: now,
            last_accessed: now,
            access_count: 0,
        };
        assert(r@.tags =~= Seq::<Seq<char>>::empty());
        r
    }

    /// A new memory with a random identifier, made now.
    pub fn new(content: String, pool: MemoryPool, type_: MemoryType) -> (r: Memory)
        ensures
            r@ == fresh_memory(r.id, r.created_at, content@, pool, type_),
            is_v4_uuid(r.id),
    {
        let id = new_uuid();
        let now = now_millis();
        Memory::with_identity(id, now, content, pool, type_)
    }

    /// The memory's strength: importance times (1 + 0.1 per access).
    pub fn current_strength(&self) -> (r: i128)
        ensures
            r == strength_of(self@),
    {
        let a: i128 = self.importance as i128;
        let b: i128 = (self.access_count as i128) + 10;
        assert(-0x8000_0000 * 0x1_0000_0000_0000_0010 <= a * b <= 0x8000_0000 * 0x1_0000_0000_0000_0010)
            by (nonlinear_arith)
            requires
                -0x8000_0000 <= a <= 0x8000_0000,
                0 <= b <= 0x1_0000_0000_0000_0010,
        ;
        let p: i128 = a * b;
        if p >= 0 {
            p / 10
        } else {
            let q: i128 = (-p) / 10;
            -q
        }
    }

    /// Records an access at time `now`.
    pub fn touch_at(&mut self, now: i64)
        requires
            old(self).access_count < u64::MAX,
        ensures
            final(self)@ == touched(old(self)@, now),
    {
        self.last_accessed = now;
        self.access_count = self.access_count + 1;
    }

    /// Records an access now.
    pub fn touch(&mut self)
        requires
            old(self).access_count < u64::MAX,
        ensures
            final(self)@ == touched(old(self)@, final(self).last_accessed),
    {
        let now = now_millis();
        self.touch_at(now);
    }
}

/// A link between two memories.
#[derive(Debug, Clone, Copy, PartialEq, Eq, Structural)]
pub struct MemoryLink {
    pub id: u128,
    pub source_id: u128,
    pub target_id: u128,
    pub link_type: LinkType,
    pub strength: i32,
    pub created_at: i64,
}

impl MemoryLink {
    /// A link with the given identifier, made at time `now`, of full strength.
    pub fn with_identity(
        id: u128,
        now: i64,
        source_id: u128,
        target_id: u128,
        link_type: LinkType,
    ) -> (r: MemoryLink)
        ensures
            r == (MemoryLink { id, source_id, target_id, link_type, strength: SCALE, created_at: now }),
    {
        MemoryLink { id, source_id, target_id, link_type, strength: SCALE, created_at: now }
    }

    /// A new link of full strength with a random identifier, made now.
    pub fn new(source_id: u128, target_id: u128, link_type: LinkType) -> (r: MemoryLink)
        ensures
            r.source_id == source_id,
            r.target_id == target_id,
            r.link_type == link_type,
            r.strength == SCALE,
            is_v4_uuid(r.id),
    {
        let id = new_uuid();
        let now = now_millis();
        MemoryLink::with_identity(id, now, source_id, target_id, link_type)
    }
}

/// A memory as an optional value viewed mathematically.
pub open spec fn memory_result_view(r: Result<Memory, String>) -> Result<MemoryView, Seq<char>> {
    match r {
        Ok(m) => Ok(m@),
        Err(e) => Err(e@),
    }
}

/// The pool a request names: explicit when it names none.
pub open spec fn requested_pool(p: Option<String>) -> Result<MemoryPool, Seq<char>> {
    match p {
        None => Ok(MemoryPool::Explicit),
        Some(s) => parse_pool(unicode_lowercase(s@), s@),
    }
}

/// The memory type a request names: fact when it names none.
pub open spec fn requested_type(t: Option<String>) -> Result<MemoryType, Seq<char>> {
    match t {
        None => Ok(MemoryType::Fact),
        Some(s) => parse_type(unicode_lowercase(s@), s@),
    }
}

/// A request to create a memory.
#[derive(Debug)]
pub struct CreateMemoryRequest {
    pub content: String,
    pub pool: Option<String>,
    pub type_: Option<String>,
    pub confidence: i32,
    pub importance: i32,
    pub source: Option<String>,
    pub tags: Vec<String>,
    /// The metadata object as JSON text.
    pub metadata: String,
}

/// The memory a create request makes with identifier `id` at time `now`, or
/// the message of its first name that does not parse (pool before type).
pub open spec fn memory_from_request(req: CreateMemoryRequest, id: u128, now: i64) -> Result<
    MemoryView,
    Seq<char>,
> {
    match requested_pool(req.pool) {
        Err(e) => Err(e),
        Ok(pool) => match requested_type(req.type_) {
            Err(e) => Err(e),
            Ok(t) => Ok(
                MemoryView {
                    confidence: req.confidence,
                    importance: req.importance,
                    source: opt_view(req.source),
                    tags: strings_view(req.tags@),
                    metadata: req.metadata@,
                    ..fresh_memory(id, now, req.content@, pool, t)
                },
            ),
        },
    }
}

impl CreateMemoryRequest {
    /// The memory this request makes, with identifier `id`, at time `now`.
    pub fn into_memory_at(self, id: u128, now: i64) -> (r: Result<Memory, String>)
        ensures
            memory_result_view(r) == memory_from_request(self, id, now),
    {
        let CreateMemoryRequest { content, pool, type_, confidence, importance, source, tags, metadata } =
            self;
        let pool = match pool {
            None => MemoryPool::Explicit,
            Some(p) => match MemoryPool::from_str(p.as_str()) {
                Ok(v) => v,
                Err(e) => {
                    return Err(e);
                },
            },
        };
        let type_ = match type_ {
            None => MemoryType::Fact,
            Some(t) => match MemoryType::from_str(t.as_str()) {
                Ok(v) => v,
                Err(e) => {
                    return Err(e);
                },
            },
        };
        let mut memory = Memory::with_identity(id, now, content, pool, type_);
        memory.confidence = confidence;
        memory.importance = importance;
        memory.source = source;
        memory.tags = tags;
        memory.metadata = metadata;
        Ok(memory)
    }

    /// The memory this request makes, with a random identifier, now.
    pub fn into_memory(self) -> (r: Result<Memory, String>)
        ensures
            match r {
                Ok(m) => memory_from_request(self, m.id, m.created_at) == Ok::<MemoryView, Seq<char>>(m@),
                Err(e) => memory_from_request(self, 0, 0) == Err::<MemoryView, Seq<char>>(e@),
            },
    {
        let id = new_uuid();
        let now = now_millis();
        let ghost req = self;
        let r = self.into_memory_at(id, now);
        proof {
            if r is Err {
                assert(memory_from_request(req, 0, 0) == memory_from_request(req, id, now));
            }
        }
        r
    }
}

/// A request to change some fields of a memory.
#[derive(Debug)]
pub struct UpdateMemoryRequest {
    pub content: Option<String>,
    pub pool: Option<String>,
    pub type_: Option<String>,
    pub confidence: Option<i32>,
    pub importance: Option<i32>,
    pub decay_rate: Option<i32>,
    pub tags: Option<Vec<String>>,
    /// The metadata object as JSON text.
    pub metadata: Option<String>,
}

impl Default for UpdateMemoryRequest {
    fn default() -> (r: Self)
        ensures
            r.content is None && r.pool is None && r.type_ is None && r.confidence is None
                && r.importance is None && r.decay_rate is None && r.tags is None
                && r.metadata is None,
    {
        UpdateMemoryRequest {
            content: None,
            pool: None,
            type_: None,
            confidence: None,
            importance: None,
            decay_rate: None,
            tags: None,
            metadata: None,
        }
    }
}

/// The memory with the score, tag and metadata fields of `u` set, stamped
/// as updated at `now`.
pub open spec fn update_rest(m: MemoryView, u: UpdateMemoryRequest, now: i64) -> MemoryView {
    MemoryView {
        confidence: match u.confidence {
            Some(c) => c,
            None => m.confidence,
        },
        importance: match u.importance {
            Some(i) => i,
            None => m.importance,
        },
        decay_rate: match u.decay_rate {
            Some(d) => d,
            None => m.decay_rate,
        },
        tags: match u.tags {
            Some(t) => strings_view(t@),
            None => m.tags,
        },
        metadata: match u.metadata {
            Some(md) => md@,
            None => m.metadata,
        },
        updated_at: now,
        ..m
    }
}

/// The update from the type on: a type that does not parse stops it there.
pub open spec fn update_from_type(m: MemoryView, u: UpdateMemoryRequest, now: i64) -> (
    MemoryView,
    Result<(), Seq<char>>,
) {
    match u.type_ {
        None => (update_rest(m, u, now), Ok(())),
        Some(t) => match parse_type(unicode_lowercase(t@), t@) {
            Err(e) => (m, Err(e)),
            Ok(ty) => (update_rest(MemoryView { type_: ty, ..m }, u, now), Ok(())),
        },
    }
}

/// Applying `u` to `m` in place at time `now`, field by field in the order
/// content, pool, type, confidence, importance, decay rate, tags, metadata:
/// the memory afterwards and the outcome. A pool or type that does not parse
/// ends the update with its message, keeping the fields set before it.
pub open spec fn updated(m: MemoryView, u: UpdateMemoryRequest, now: i64) -> (
    MemoryView,
    Result<(), Seq<char>>,
) {
    let m1 = match u.content {
        Some(c) => MemoryView { content: c@, ..m },
        None => m,
    };
    match u.pool {
        None => update_from_type(m1, u, now),
        Some(p) => match parse_pool(unicode_lowercase(p@), p@) {
            Err(e) => (m1, Err(e)),
            Ok(pl) => update_from_type(MemoryView { pool: pl, ..m1 }, u, now),
        },
    }
}

/// A unit result viewed with its message as characters.
pub open spec fn unit_result_view(r: Result<(), String>) -> Result<(), Seq<char>> {
    match r {
        Ok(()) => Ok(()),
        Err(e) => Err(e@),
    }
}

/// Applies an update request to a memory in place, at time `now`.
pub fn apply_update(memory: &mut Memory, update: UpdateMemoryRequest, now: i64) -> (r: Result<
    (),
    String,
>)
    ensures
        (final(memory)@, unit_result_view(r)) == updated(old(memory)@, update, now),
        final(memory).id == old(memory).id,
        final(memory).source == old(memory).source,
        final(memory).created_at == old(memory).created_at,
        final(memory).last_accessed == old(memory).last_accessed,
        final(memory).access_count == old(memory).access_count,
        r is Ok ==> {
            &&& final(memory).content@ == match update.content {
                Some(c) => c@,
                None => old(memory).content@,
            }
            &&& final(memory).pool == match update.pool {
                Some(p) => pool_named(unicode_lowercase(p@))->0,
                None => old(memory).pool,
            }
            &&& (update.pool matches Some(p) ==> pool_named(unicode_lowercase(p@)) is Some)
            &&& final(memory).type_ == match update.type_ {
                Some(t) => type_named(unicode_lowercase(t@))->0,
                None => old(memory).type_,
            }
            &&& (update.type_ matches Some(t) ==> type_named(unicode_lowercase(t@)) is Some)
            &&& final(memory).confidence == match update.confidence {
                Some(c) => c,
                None => old(memory).confidence,
            }
            &&& final(memory).importance == match update.importance {
                Some(i) => i,
                None => old(memory).importance,
            }
            &&& final(memory).decay_rate == match update.decay_rate {
                Some(d) => d,
                None => old(memory).decay_rate,
            }
            &&& final(memory).tags@ == match update.tags {
                Some(t) => t@,
                None => old(memory).tags@,
            }
            &&& final(memory).metadata@ == match update.metadata {
                Some(md) => md@,
                None => old(memory).metadata@,
            }
            &&& final(memory).updated_at == now
        },
        r is Err ==> {
            &&& final(memory).confidence == old(memory).confidence
            &&& final(memory).importance == old(memory).importance
            &&& final(memory).decay_rate == old(memory).decay_rate
            &&& final(memory).tags@ == old(memory).tags@
            &&& final(memory).metadata@ == old(memory).metadata@
            &&& final(memory).updated_at == old(memory).updated_at
        },
{
    let ghost u = update;
    let UpdateMemoryRequest { content, pool, type_, confidence, importance, decay_rate, tags, metadata } =
        update;
    if let Some(c) = content {
        memory.content = c;
    }
    if let Some(p) = pool {
        match MemoryPool::from_str(p.as_str()) {
            Ok(v) => {
                memory.pool = v;
            },
            Err(e) => {
                return Err(e);
            },
        }
    }
    if let Some(t) = type_ {
        match MemoryType::from_str(t.as_str()) {
            Ok(v) => {
                memory.type_ = v;
            },
            Err(e) => {
                return Err(e);
            },
        }
    }
    if let Some(c) = confidence {
        memory.confidence = c;
    }
    if let Some(i) = importance {
        memory.importance = i;
    }
    if let Some(d) = decay_rate {
        memory.decay_rate = d;
    }
    if let Some(t) = tags {
        memory.tags = t;
    }
    if let Some(md) = metadata {
        memory.metadata = md;
    }
    memory.updated_at = now;
    Ok(())
}

/// A search over memory contents.
#[derive(Debug)]
pub struct SearchQuery {
    pub query: String,
    pub pool: Option<String>,
    pub type_: Option<String>,
    pub tags: Option<Vec<String>>,
    pub limit: usize,
    pub min_confidence: i32,
    pub include_links: bool,
}

/// Filters and size of a listing.
#[derive(Debug)]
pub struct ListParams {
    pub pool: Option<String>,
    pub type_: Option<String>,
    pub limit: Option<usize>,
}

impl ListParams {
    /// The listing size: the one given, else 100.
    pub fn limit_or_default(&self) -> (r: usize)
        ensures
            r == match self.limit {
                Some(l) => l,
                None => 100,
            },
    {
        match self.limit {
            Some(l) => l,
            None => 100,
        }
    }
}

/// Counts and averages over a store.
#[derive(Debug)]
pub struct MemoryStats {
    pub total_memories: usize,
    pub explicit_count: usize,
    pub implicit_count: usize,
    pub total_links: usize,
    /// Each memory type that occurs, in declaration order, with its count.
    pub memory_types: Vec<(MemoryType, usize)>,
    /// Mean confidence in millionths, rounded down; 0 for an empty store.
    pub avg_confidence: i32,
    /// Mean importance in millionths, rounded down; 0 for an empty store.
    pub avg_importance: i32,
}

} // verus!
