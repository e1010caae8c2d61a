//! Explicit and implicit pools over one store.

use vstd::prelude::*;
use crate::kinds::{MemoryPool, MemoryType};
use crate::types::{Memory, MemoryView, MemoryLink, SearchQuery, fresh_memory};
use crate::store::{InMemoryStore, stored, listed, first_n, views, search_outcome};
use crate::text::owned;

verus! {

/// Creates, lists and searches memories of one pool at a time.
pub struct PoolManager {
    store: InMemoryStore,
}

impl PoolManager {
    /// The memories of the store.
    pub closed spec fn memories_view(&self) -> Seq<MemoryView> {
        self.store.memories_view()
    }

    /// The links of the store.
    pub closed spec fn links_view(&self) -> Seq<MemoryLink> {
        self.store.links_view()
    }

    /// The store is well formed.
    pub closed spec fn wf(&self) -> bool {
        self.store.wf()
    }

    /// Manages the pools of `store`.
    pub fn new(store: InMemoryStore) -> (r: PoolManager)
        requires
            store.wf(),
        ensures
            r.wf(),
            r.memories_view() == store.memories_view(),
            r.links_view() == store.links_view(),
    {
        PoolManager { store }
    }

    /// The store, given back.
    pub fn into_store(self) -> (r: InMemoryStore)
        requires
            self.wf(),
        ensures
            r.wf(),
            r.memories_view() == self.memories_view(),
            r.links_view() == self.links_view(),
    {
        self.store
    }

    /// Creates and stores a new memory in `pool`.
    fn create_in(&mut self, content: String, pool: MemoryPool, type_: MemoryType) -> (r: Result<
        Memory,
        String,
    >)
        requires
            old(self).wf(),
        ensures
            final(self).wf(),
            final(self).links_view() == old(self).links_view(),
            r matches Ok(m) && m@ == fresh_memory(m.id, m.created_at, content@, pool, type_)
                && final(self).memories_view() == stored(old(self).memories_view(), m@),
    {
        let memory = Memory::new(content, pool, type_);
        self.store.create(memory)
    }

    /// Creates and stores a new explicit memory.
    pub fn create_explicit(&mut self, content: String, type_: MemoryType) -> (r: Result<Memory, String>)
        requires
            old(self).wf(),
        ensures
            final(self).wf(),
            final(self).links_view() == old(self).links_view(),
            r matches Ok(m) && m@ == fresh_memory(
                m.id,
                m.created_at,
                content@,
                MemoryPool::Explicit,
                type_,
            ) && final(self).memories_view() == stored(old(self).memories_view(), m@),
    {
        self.create_in(content, MemoryPool::Explicit, type_)
    }

    /// Creates and stores a new implicit memory.
    pub fn create_implicit(&mut self, content: String, type_: MemoryType) -> (r: Result<Memory, String>)
        requires
            old(self).wf(),
        ensures
            final(self).wf(),
            final(self).links_view() == old(self).links_view(),
            r matches Ok(m) && m@ == fresh_memory(
                m.id,
                m.created_at,
                content@,
                MemoryPool::Implicit,
                type_,
            ) && final(self).memories_view() == stored(old(self).memories_view(), m@),
    {
        self.create_in(content, MemoryPool::Implicit, type_)
    }

    /// The explicit memories, in store order, at most `limit`.
    pub fn get_explicit(&self, limit: usize) -> (r: Result<Vec<Memory>, String>)
        ensures
            r matches Ok(v) && views(v@) == first_n(
                listed(self.memories_view(), Some("explicit"@), None),
                limit as int,
            ),
    {
        self.store.list(Some(owned("explicit")), None, limit)
    }

    /// The implicit memories, in store order, at most `limit`.
    pub fn get_implicit(&self, limit: usize) -> (r: Result<Vec<Memory>, String>)
        ensures
            r matches Ok(v) && views(v@) == first_n(
                listed(self.memories_view(), Some("implicit"@), None),
                limit as int,
            ),
    {
        self.store.list(Some(owned("implicit")), None, limit)
    }

    /// A content search among the explicit memories.
    pub fn search_explicit(&self, query: String, limit: usize) -> (r: Result<Vec<Memory>, String>)
        ensures
            r matches Ok(v) && views(v@) == search_outcome(
                self.memories_view(),
                query@,
                Some("explicit"@),
                None,
                0,
                limit as int,
            ),
    {
        let q = SearchQuery {
            query,
            pool: Some(owned("explicit")),
            type_: None,
            tags: None,
            limit,
            min_confidence: 0,
            include_links: false,
        };
        self.store.search(q)
    }

    /// A content search among the implicit memories.
    pub fn search_implicit(&self, query: String, limit: usize) -> (r: Result<Vec<Memory>, String>)
        ensures
            r matches Ok(v) && views(v@) == search_outcome(
                self.memories_view(),
                query@,
                Some("implicit"@),
                None,
                0,
                limit as int,
            ),
    {
        let q = SearchQuery {
            query,
            pool: Some(owned("implicit")),
            type_: None,
            tags: None,
            limit,
            min_confidence: 0,
            include_links: false,
        };
        self.store.search(q)
    }
}

} // verus!
