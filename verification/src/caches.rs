//! A fixed set of independently-capacitated named caches, one per
//! request shape that is memoized: single-item responses keyed by the
//! resource id, and list responses keyed by the query parameters.

use vstd::prelude::*;
use crate::cache::{has_key, key_index, Cache};
use crate::cached_response::CachedResponse;
use crate::models::ListOptions;

verus! {

/// The registry: one cache per memoized endpoint, fixed at startup.
#[derive(Debug, Clone)]
pub struct Caches {
    pub todos: Cache<u64, CachedResponse>,
    pub list_todos: Cache<ListOptions, CachedResponse>,
}

impl Caches {
    /// Both caches are well formed.
    pub open spec fn wf(&self) -> bool {
        &&& self.todos.wf()
        &&& self.list_todos.wf()
    }

    /// Builds the registry: an empty cache of capacity 100 for each of
    /// the single-item and list endpoints.
    pub fn initialize() -> (r: Self)
        ensures
            r.wf(),
            r.todos.entries() == Seq::<(u64, CachedResponse)>::empty(),
            r.list_todos.entries() == Seq::<(ListOptions, CachedResponse)>::empty(),
            r.todos.cap() == 100,
            r.list_todos.cap() == 100,
    {
        Caches { todos: Cache::new("todos", 100), list_todos: Cache::new("list_todos", 100) }
    }

    /// After the backing resource `id` is created, updated or deleted,
    /// the memoized single-item response for `id` is dropped and every
    /// memoized list response is dropped, so no stale read survives the
    /// mutation.
    pub fn invalidate_todo(&mut self, id: u64)
        requires
            old(self).wf(),
        ensures
            final(self).wf(),
            final(self).todos.cap() == old(self).todos.cap(),
            final(self).list_todos.cap() == old(self).list_todos.cap(),
            !has_key(final(self).todos.entries(), id),
            has_key(old(self).todos.entries(), id) ==> final(self).todos.entries() == old(
                self,
            ).todos.entries().remove(key_index(old(self).todos.entries(), id)),
            !has_key(old(self).todos.entries(), id) ==> final(self).todos.entries() == old(
                self,
            ).todos.entries(),
            final(self).list_todos.entries() == Seq::<(ListOptions, CachedResponse)>::empty(),
    {
        self.todos.invalidate(&id);
        self.list_todos.clear();
    }
}

} // verus!
