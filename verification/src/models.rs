//! The resource and query-parameter types, and the blank registry the
//! process starts with.

use vstd::prelude::*;
use crate::cache::CacheKey;
use crate::caches::Caches;
use crate::cached_response::CachedResponse;

verus! {

/// A single resource record.
#[derive(Debug, Clone)]
pub struct Todo {
    pub id: u64,
    pub text: String,
    pub completed: bool,
}

impl Todo {
    /// An equal copy of the record.
    pub fn dup(&self) -> (r: Todo)
        ensures
            r == *self,
    {
        Todo { id: self.id, text: self.text.clone(), completed: self.completed }
    }
}

/// The query parameters of a list request. Two requests carrying the
/// same offset and limit are the same cache key, however the query
/// string spelled them.
#[derive(Debug, Clone, PartialEq, Eq, Hash)]
#[verifier::ext_equal]
pub struct ListOptions {
    pub offset: Option<usize>,
    pub limit: Option<usize>,
}

impl CacheKey for ListOptions {
    fn key_eq(&self, other: &Self) -> (r: bool) {
        let offset_eq = match (self.offset, other.offset) {
            (None, None) => true,
            (Some(a), Some(b)) => a == b,
            _ => false,
        };
        let limit_eq = match (self.limit, other.limit) {
            (None, None) => true,
            (Some(a), Some(b)) => a == b,
            _ => false,
        };
        proof {
            if offset_eq && limit_eq {
                assert(*self =~= *other);
            }
        }
        offset_eq && limit_eq
    }
}

/// A fresh registry of empty caches.
pub fn blank_caches() -> (r: Caches)
    ensures
        r.wf(),
        r.todos.entries() == Seq::<(u64, CachedResponse)>::empty(),
        r.list_todos.entries() == Seq::<(ListOptions, CachedResponse)>::empty(),
        r.todos.cap() == 100,
        r.list_todos.cap() == 100,
{
    Caches::initialize()
}

} // verus!
