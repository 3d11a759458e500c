//! The pure operations on the in-memory resource list that the request
//! handlers perform: paging, lookup, create, update and delete. The
//! handlers do the I/O; these functions decide what the list becomes
//! and what is answered.

use vstd::prelude::*;
use crate::models::{ListOptions, Todo};

verus! {

/// Some record in the list carries this id.
pub open spec fn has_id(s: Seq<Todo>, id: u64) -> bool {
    exists|i: int| 0 <= i < s.len() && s[i].id == id
}

/// The requested offset; absent means from the start.
pub open spec fn spec_offset(opts: ListOptions) -> int {
    match opts.offset {
        Some(o) => o as int,
        None => 0,
    }
}

/// The requested limit; absent means no bound.
pub open spec fn spec_limit(s: Seq<Todo>, opts: ListOptions) -> int {
    match opts.limit {
        Some(l) => l as int,
        None => s.len() as int,
    }
}

/// The page of a list selected by an offset and a limit, clipped to the
/// list's bounds.
pub open spec fn page(s: Seq<Todo>, offset: int, limit: int) -> Seq<Todo> {
    let start = if offset <= s.len() {
        offset
    } else {
        s.len() as int
    };
    let end = if start + limit <= s.len() {
        start + limit
    } else {
        s.len() as int
    };
    s.subrange(start, end)
}

/// The list without the records carrying `id`, order kept.
pub open spec fn without_id(s: Seq<Todo>, id: u64) -> Seq<Todo>
    decreases s.len(),
{
    if s.len() == 0 {
        Seq::empty()
    } else {
        let rest = without_id(s.drop_last(), id);
        if s.last().id == id {
            rest
        } else {
            rest.push(s.last())
        }
    }
}

/// Removing an id removes it entirely, never grows the list, and
/// shortens it exactly when the id was present.
pub proof fn lemma_without_id(s: Seq<Todo>, id: u64)
    ensures
        !has_id(without_id(s, id), id),
        without_id(s, id).len() <= s.len(),
        (without_id(s, id).len() == s.len()) <==> !has_id(s, id),
    decreases s.len(),
{
    if s.len() == 0 {
    } else {
        let prefix = s.drop_last();
        lemma_without_id(prefix, id);
        let rest = without_id(prefix, id);
        // the id occurs in `s` exactly when it occurs in the prefix or last
        if has_id(s, id) {
            let i = choose|i: int| 0 <= i < s.len() && s[i].id == id;
            if i < s.len() - 1 {
                assert(prefix[i] == s[i]);
                assert(has_id(prefix, id));
            }
        }
        if has_id(prefix, id) {
            let i = choose|i: int| 0 <= i < prefix.len() && prefix[i].id == id;
            assert(s[i] == prefix[i]);
            assert(has_id(s, id));
        }
        if s.last().id == id {
            assert(has_id(s, id));
        }
        if s.last().id != id {
            // the push keeps the removed id absent
            if has_id(rest.push(s.last()), id) {
                let j = choose|j: int|
                    0 <= j < rest.push(s.last()).len() && rest.push(s.last())[j].id == id;
                if j < rest.len() {
                    assert(rest[j] == rest.push(s.last())[j]);
                    assert(has_id(rest, id));
                }
                assert(false);
            }
        }
    }
}

/// Returns the page of the list that the query parameters select,
/// applying the offset, then the limit, both clipped to the list.
pub fn list_slice(todos: &Vec<Todo>, opts: &ListOptions) -> (r: Vec<Todo>)
    ensures
        r@ == page(todos@, spec_offset(*opts), spec_limit(todos@, *opts)),
{
    let n = todos.len();
    let off = match opts.offset {
        Some(o) => o,
        None => 0,
    };
    let start = if off <= n {
        off
    } else {
        n
    };
    let room = n - start;
    let count = match opts.limit {
        Some(l) => if l <= room {
            l
        } else {
            room
        },
        None => room,
    };
    let end = start + count;
    let mut r: Vec<Todo> = Vec::new();
    let mut i = start;
    while i < end
        invariant
            start <= i <= end <= todos@.len(),
            r@ == todos@.subrange(start as int, i as int),
        decreases end - i,
    {
        r.push(todos[i].dup());
        proof {
            assert(todos@.subrange(start as int, i + 1 as int) =~= todos@.subrange(
                start as int,
                i as int,
            ).push(todos@[i as int]));
        }
        i += 1;
    }
    proof {
        assert(r@ =~= page(todos@, spec_offset(*opts), spec_limit(todos@, *opts)));
    }
    r
}

/// Finds the first record carrying `id`, if any.
pub fn find_todo(todos: &Vec<Todo>, id: u64) -> (r: Option<usize>)
    ensures
        match r {
            Some(i) => 0 <= i < todos@.len() && todos@[i as int].id == id && (forall|j: int|
                0 <= j < i ==> todos@[j].id != id),
            None => !has_id(todos@, id),
        },
        r is Some <==> has_id(todos@, id),
{
    let n = todos.len();
    let mut i: usize = 0;
    while i < n
        invariant
            n == todos@.len(),
            0 <= i <= n,
            forall|j: int| 0 <= j < i ==> todos@[j].id != id,
        decreases n - i,
    {
        if todos[i].id == id {
            return Some(i);
        }
        i += 1;
    }
    None
}

/// Appends the record when its id is still free; rejects it otherwise,
/// leaving the list unchanged. Returns whether it was added.
pub fn add_todo(todos: &mut Vec<Todo>, create: Todo) -> (r: bool)
    ensures
        r == !has_id(old(todos)@, create.id),
        r ==> final(todos)@ == old(todos)@.push(create),
        !r ==> final(todos)@ == old(todos)@,
{
    match find_todo(todos, create.id) {
        Some(_) => false,
        None => {
            todos.push(create);
            true
        },
    }
}

/// Replaces the first record carrying `id` with `update`, or leaves the
/// list unchanged when no record carries it. Returns whether a record
/// was replaced.
pub fn replace_todo(todos: &mut Vec<Todo>, id: u64, update: Todo) -> (r: bool)
    ensures
        r == has_id(old(todos)@, id),
        r ==> exists|i: int|
            0 <= i < old(todos)@.len() && old(todos)@[i].id == id && (forall|j: int|
                0 <= j < i ==> old(todos)@[j].id != id) && final(todos)@ == old(todos)@.update(
                i,
                update,
            ),
        !r ==> final(todos)@ == old(todos)@,
{
    match find_todo(todos, id) {
        Some(i) => {
            let ghost s = todos@;
            todos.remove(i);
            todos.insert(i, update);
            proof {
                assert(todos@ =~= s.update(i as int, update));
            }
            true
        },
        None => false,
    }
}

/// Removes every record carrying `id`, order of the rest kept. Returns
/// whether the list shrank, that is, whether the id was present.
pub fn remove_todo(todos: &mut Vec<Todo>, id: u64) -> (r: bool)
    ensures
        final(todos)@ == without_id(old(todos)@, id),
        !has_id(final(todos)@, id),
        r == has_id(old(todos)@, id),
{
    let n = todos.len();
    let mut kept: Vec<Todo> = Vec::new();
    let mut i: usize = 0;
    while i < n
        invariant
            n == todos@.len(),
            0 <= i <= n,
            kept@ == without_id(todos@.take(i as int), id),
        decreases n - i,
    {
        proof {
            let t = todos@.take(i + 1 as int);
            assert(t.drop_last() =~= todos@.take(i as int));
            assert(t.last() == todos@[i as int]);
        }
        if todos[i].id != id {
            kept.push(todos[i].dup());
        }
        i += 1;
    }
    proof {
        assert(todos@.take(n as int) =~= todos@);
        lemma_without_id(todos@, id);
    }
    let deleted = kept.len() != n;
    *todos = kept;
    deleted
}

} // verus!
