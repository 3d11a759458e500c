//! A generic, capacity-bounded associative store with strict
//! least-recently-used eviction.
//!
//! The cache is modelled by its recency sequence: the sequence of
//! `(key, value)` entries ordered from least recently used (index 0,
//! the eviction candidate) to most recently used (the last index).
//! Both reads and writes promote the touched key to the most recently
//! used position; eviction always removes exactly the entry at index 0.

use vstd::prelude::*;

verus! {

broadcast use vstd::string::to_string_from_display_ensures_for_str;

/// A cache key must support an executable equality test that agrees
/// with mathematical equality on the key type.
pub trait CacheKey: Sized {
    fn key_eq(&self, other: &Self) -> (r: bool)
        ensures
            r == (*self == *other),
    ;
}

/// A cached value is handed out to callers as a copy, never as a live
/// handle into cache-internal storage; the copy must carry the same
/// abstract contents as the stored original.
pub trait CacheValue: View + Sized {
    fn value_dup(&self) -> (r: Self)
        ensures
            r@ == self@,
    ;
}

impl CacheKey for u64 {
    fn key_eq(&self, other: &Self) -> (r: bool) {
        *self == *other
    }
}

impl CacheValue for u64 {
    fn value_dup(&self) -> (r: Self) {
        *self
    }
}

/// No key occurs twice in the recency sequence.
pub open spec fn distinct_keys<K, V>(s: Seq<(K, V)>) -> bool {
    forall|i: int, j: int| 0 <= i < j < s.len() ==> s[i].0 != s[j].0
}

/// Some entry of the recency sequence carries the key `k`.
pub open spec fn has_key<K, V>(s: Seq<(K, V)>, k: K) -> bool {
    exists|i: int| 0 <= i < s.len() && s[i].0 == k
}

/// The position of the entry carrying `k`; meaningful when the keys are
/// distinct and `has_key(s, k)` holds, in which case it is unique.
pub open spec fn key_index<K, V>(s: Seq<(K, V)>, k: K) -> int {
    choose|i: int| 0 <= i < s.len() && s[i].0 == k
}

/// A bounded key-value store with least-recently-used eviction.
#[derive(Debug, Clone)]
pub struct Cache<K, V> {
    name: String,
    capacity: usize,
    items: Vec<(K, V)>,
}

impl<K: CacheKey, V: CacheValue> Cache<K, V> {
    /// The recency sequence, least recently used first.
    pub closed spec fn entries(&self) -> Seq<(K, V)> {
        self.items@
    }

    /// The configured capacity.
    pub closed spec fn cap(&self) -> int {
        self.capacity as int
    }

    /// The diagnostic label.
    pub closed spec fn name_spec(&self) -> Seq<char> {
        self.name@
    }

    /// Invariant: positive capacity, never more entries than the
    /// capacity allows, and at most one entry per key.
    pub open spec fn wf(&self) -> bool {
        &&& 1 <= self.cap()
        &&& self.entries().len() <= self.cap()
        &&& distinct_keys(self.entries())
    }

    /// Constructs an empty cache. A zero capacity is a programmer
    /// error, ruled out by the precondition.
    pub fn new(name: &str, capacity: usize) -> (r: Self)
        requires
            1 <= capacity,
        ensures
            r.wf(),
            r.entries() == Seq::<(K, V)>::empty(),
            r.cap() == capacity,
            r.name_spec() == name@,
    {
        Cache { name: name.to_string(), capacity, items: Vec::new() }
    }

    /// The number of entries currently stored.
    pub fn len(&self) -> (r: usize)
        ensures
            r == self.entries().len(),
    {
        self.items.len()
    }

    /// The configured capacity.
    pub fn capacity(&self) -> (r: usize)
        ensures
            r == self.cap(),
    {
        self.capacity
    }

    /// The diagnostic label given at construction.
    pub fn name(&self) -> (r: &String)
        ensures
            r@ == self.name_spec(),
    {
        &self.name
    }

    /// Linear scan for the entry carrying `key`.
    fn find_index(&self, key: &K) -> (r: Option<usize>)
        ensures
            match r {
                Some(i) => 0 <= i < self.entries().len() && self.entries()[i as int].0 == *key,
                None => !has_key(self.entries(), *key),
            },
    {
        let n = self.items.len();
        let mut i: usize = 0;
        while i < n
            invariant
                n == self.entries().len(),
                0 <= i <= n,
                forall|j: int| 0 <= j < i ==> self.entries()[j].0 != *key,
            decreases n - i,
        {
            if self.items[i].0.key_eq(key) {
                return Some(i);
            }
            i += 1;
        }
        None
    }
}

/// What one `put` does to the recency sequence: an existing key is
/// moved to the most recently used end with its value replaced; a new
/// key is appended, after evicting the entry at index 0 when the cache
/// is full.
pub open spec fn model_put<K, V>(s: Seq<(K, V)>, cap: int, k: K, v: V) -> Seq<(K, V)> {
    if has_key(s, k) {
        s.remove(key_index(s, k)).push((k, v))
    } else if s.len() < cap {
        s.push((k, v))
    } else {
        s.subrange(1, s.len() as int).push((k, v))
    }
}

impl<K: CacheKey, V: CacheValue> Cache<K, V> {
    /// Looks the key up. On a hit the key is promoted to most recently
    /// used and a copy of the stored value is returned; on a miss
    /// nothing is returned and the state is unchanged.
    pub fn get(&mut self, key: &K) -> (r: Option<V>)
        requires
            old(self).wf(),
        ensures
            final(self).wf(),
            final(self).cap() == old(self).cap(),
            final(self).name_spec() == old(self).name_spec(),
            has_key(old(self).entries(), *key) ==> ({
                let i = key_index(old(self).entries(), *key);
                &&& r matches Some(v) && v@ == old(self).entries()[i].1@
                &&& final(self).entries() == old(self).entries().remove(i).push(
                    old(self).entries()[i],
                )
            }),
            !has_key(old(self).entries(), *key) ==> r is None && final(self).entries() == old(
                self,
            ).entries(),
    {
        match self.find_index(key) {
            Some(i) => {
                proof {
                    lemma_key_at_index(self.entries(), *key, i as int);
                    lemma_remove_keeps_distinct(self.entries(), i as int);
                }
                let pair = self.items.remove(i);
                let result = pair.1.value_dup();
                proof {
                    lemma_push_distinct(self.entries(), pair);
                }
                self.items.push(pair);
                Some(result)
            },
            None => None,
        }
    }

    /// Inserts or overwrites. An existing key keeps the entry count
    /// unchanged; a new key grows the cache by one when there is
    /// headroom and otherwise evicts exactly the least recently used
    /// entry first. The touched key always ends most recently used.
    pub fn put(&mut self, key: K, value: V)
        requires
            old(self).wf(),
        ensures
            final(self).wf(),
            final(self).cap() == old(self).cap(),
            final(self).name_spec() == old(self).name_spec(),
            final(self).entries() == model_put(
                old(self).entries(),
                old(self).cap(),
                key,
                value,
            ),
            has_key(final(self).entries(), key),
            final(self).entries().last() == (key, value),
            final(self).entries().len() == (if has_key(old(self).entries(), key) {
                old(self).entries().len() as int
            } else if old(self).entries().len() < old(self).cap() {
                old(self).entries().len() + 1 as int
            } else {
                old(self).cap()
            }),
    {
        let ghost s = self.entries();
        match self.find_index(&key) {
            Some(i) => {
                proof {
                    lemma_key_at_index(s, key, i as int);
                    lemma_remove_keeps_distinct(s, i as int);
                    lemma_push_distinct(s.remove(i as int), (key, value));
                }
                self.items.remove(i);
                self.items.push((key, value));
                proof {
                    lemma_key_at_index(self.entries(), key, self.entries().len() - 1);
                }
            },
            None => {
                if self.items.len() == self.capacity {
                    proof {
                        lemma_remove_keeps_distinct(s, 0);
                        assert(s.remove(0) =~= s.subrange(1, s.len() as int));
                        lemma_push_distinct(s.remove(0), (key, value));
                    }
                    self.items.remove(0);
                } else {
                    proof {
                        lemma_push_distinct(s, (key, value));
                    }
                }
                self.items.push((key, value));
                proof {
                    lemma_key_at_index(self.entries(), key, self.entries().len() - 1);
                }
            },
        }
    }

    /// Removes the entry carrying `key` if one is present; otherwise a
    /// no-op. Either way the key is absent afterwards.
    pub fn invalidate(&mut self, key: &K)
        requires
            old(self).wf(),
        ensures
            final(self).wf(),
            final(self).cap() == old(self).cap(),
            final(self).name_spec() == old(self).name_spec(),
            has_key(old(self).entries(), *key) ==> final(self).entries() == old(
                self,
            ).entries().remove(key_index(old(self).entries(), *key)),
            !has_key(old(self).entries(), *key) ==> final(self).entries() == old(self).entries(),
            !has_key(final(self).entries(), *key),
    {
        match self.find_index(key) {
            Some(i) => {
                proof {
                    lemma_key_at_index(self.entries(), *key, i as int);
                    lemma_remove_keeps_distinct(self.entries(), i as int);
                }
                self.items.remove(i);
            },
            None => {},
        }
    }

    /// Removes every entry.
    pub fn clear(&mut self)
        requires
            old(self).wf(),
        ensures
            final(self).wf(),
            final(self).cap() == old(self).cap(),
            final(self).name_spec() == old(self).name_spec(),
            final(self).entries() == Seq::<(K, V)>::empty(),
    {
        self.items.clear();
    }
}

/// In a duplicate-free sequence, an index that carries `k` is the
/// unique witness picked by `key_index`.
pub proof fn lemma_key_at_index<K, V>(s: Seq<(K, V)>, k: K, i: int)
    requires
        distinct_keys(s),
        0 <= i < s.len(),
        s[i].0 == k,
    ensures
        has_key(s, k),
        key_index(s, k) == i,
{
    assert(has_key(s, k));
    let j = key_index(s, k);
    assert(0 <= j < s.len() && s[j].0 == k);
    if j < i {
        assert(s[j].0 != s[i].0);
        assert(false);
    } else if i < j {
        assert(s[i].0 != s[j].0);
        assert(false);
    }
}

/// Removing an entry keeps the keys distinct, removes its key entirely,
/// and introduces no key that was not already present.
pub proof fn lemma_remove_keeps_distinct<K, V>(s: Seq<(K, V)>, i: int)
    requires
        distinct_keys(s),
        0 <= i < s.len(),
    ensures
        distinct_keys(s.remove(i)),
        !has_key(s.remove(i), s[i].0),
        forall|k: K| has_key(s.remove(i), k) ==> has_key(s, k),
{
    s.remove_ensures(i);
    let rem = s.remove(i);
    assert forall|a: int, b: int| 0 <= a < b < rem.len() implies rem[a].0 != rem[b].0 by {
        let a0 = if a < i { a } else { a + 1 };
        let b0 = if b < i { b } else { b + 1 };
        assert(rem[a] == s[a0]);
        assert(rem[b] == s[b0]);
        assert(s[a0].0 != s[b0].0);
    }
    assert forall|j: int| 0 <= j < rem.len() implies rem[j].0 != s[i].0 by {
        let j0 = if j < i { j } else { j + 1 };
        assert(rem[j] == s[j0]);
        assert(s[j0].0 != s[i].0);
    }
    assert forall|k: K| has_key(rem, k) implies has_key(s, k) by {
        let j = choose|j: int| 0 <= j < rem.len() && rem[j].0 == k;
        let j0 = if j < i { j } else { j + 1 };
        assert(rem[j] == s[j0]);
        assert(s[j0].0 == k);
    }
}

/// Appending an entry whose key is absent keeps the keys distinct.
pub proof fn lemma_push_distinct<K, V>(s: Seq<(K, V)>, p: (K, V))
    requires
        distinct_keys(s),
        !has_key(s, p.0),
    ensures
        distinct_keys(s.push(p)),
{
    let pushed = s.push(p);
    assert forall|a: int, b: int| 0 <= a < b < pushed.len() implies pushed[a].0 != pushed[b].0 by {
        if b == s.len() {
            assert(pushed[a] == s[a]);
            if s[a].0 == p.0 {
                assert(has_key(s, p.0));
            }
        } else {
            assert(pushed[a] == s[a]);
            assert(pushed[b] == s[b]);
        }
    }
}

/// Appending an entry carries exactly the old keys plus the new one.
pub proof fn lemma_push_has_key<K, V>(s: Seq<(K, V)>, p: (K, V), x: K)
    ensures
        has_key(s.push(p), x) <==> (has_key(s, x) || x == p.0),
{
    let pushed = s.push(p);
    if has_key(pushed, x) {
        let i = choose|i: int| 0 <= i < pushed.len() && pushed[i].0 == x;
        if i < s.len() {
            assert(s[i] == pushed[i]);
            assert(has_key(s, x));
        }
    }
    if has_key(s, x) {
        let i = choose|i: int| 0 <= i < s.len() && s[i].0 == x;
        assert(pushed[i] == s[i]);
        assert(has_key(pushed, x));
    }
    if x == p.0 {
        assert(pushed[s.len() as int] == p);
        assert(has_key(pushed, x));
    }
}

/// The set of keys carried by the entries of a recency sequence.
pub open spec fn keys_of<K, V>(s: Seq<(K, V)>) -> Set<K> {
    s.map_values(|p: (K, V)| p.0).to_set()
}

/// Membership in `keys_of` is exactly `has_key`.
pub proof fn lemma_keys_of_contains<K, V>(s: Seq<(K, V)>, x: K)
    ensures
        keys_of(s).contains(x) <==> has_key(s, x),
{
    let m = s.map_values(|p: (K, V)| p.0);
    if has_key(s, x) {
        let i = choose|i: int| 0 <= i < s.len() && s[i].0 == x;
        assert(m[i] == x);
        assert(m.contains(x));
    }
    if m.contains(x) {
        let i = choose|i: int| 0 <= i < m.len() && m[i] == x;
        assert(s[i].0 == x);
        assert(has_key(s, x));
    }
}

/// With distinct keys, a recency sequence carries exactly as many keys
/// as entries.
pub proof fn lemma_keys_of_len<K, V>(s: Seq<(K, V)>)
    requires
        distinct_keys(s),
    ensures
        keys_of(s).len() == s.len(),
{
    let m = s.map_values(|p: (K, V)| p.0);
    assert forall|i: int, j: int| 0 <= i < m.len() && 0 <= j < m.len() && i != j implies m[i]
        != m[j] by {
        assert(m[i] == s[i].0);
        assert(m[j] == s[j].0);
    }
    assert(m.no_duplicates());
    m.unique_seq_to_set();
}

/// One `put` keeps the keys distinct, respects the capacity, never
/// shrinks the cache, introduces no key beyond the old ones and the put
/// key, and changes the entry count exactly as the contract of `put`
/// states.
pub proof fn lemma_model_put_wf<K, V>(s: Seq<(K, V)>, cap: int, k: K, v: V)
    requires
        1 <= cap,
        s.len() <= cap,
        distinct_keys(s),
    ensures
        distinct_keys(model_put(s, cap, k, v)),
        model_put(s, cap, k, v).len() <= cap,
        model_put(s, cap, k, v).len() >= s.len(),
        model_put(s, cap, k, v).len() == (if has_key(s, k) {
            s.len() as int
        } else if s.len() < cap {
            s.len() + 1 as int
        } else {
            cap
        }),
        keys_of(model_put(s, cap, k, v)).subset_of(keys_of(s).insert(k)),
{
    let res = model_put(s, cap, k, v);
    if has_key(s, k) {
        let i = key_index(s, k);
        assert(0 <= i < s.len() && s[i].0 == k);
        lemma_remove_keeps_distinct(s, i);
        s.remove_ensures(i);
        lemma_push_distinct(s.remove(i), (k, v));
        assert forall|x: K| keys_of(res).contains(x) implies keys_of(s).insert(k).contains(x) by {
            lemma_keys_of_contains(res, x);
            lemma_push_has_key(s.remove(i), (k, v), x);
            if x != k {
                assert(has_key(s, x));
                lemma_keys_of_contains(s, x);
            }
        }
    } else if s.len() < cap {
        lemma_push_distinct(s, (k, v));
        assert forall|x: K| keys_of(res).contains(x) implies keys_of(s).insert(k).contains(x) by {
            lemma_keys_of_contains(res, x);
            lemma_push_has_key(s, (k, v), x);
            if x != k {
                lemma_keys_of_contains(s, x);
            }
        }
    } else {
        lemma_remove_keeps_distinct(s, 0);
        assert(s.remove(0) =~= s.subrange(1, s.len() as int));
        lemma_push_distinct(s.remove(0), (k, v));
        assert forall|x: K| keys_of(res).contains(x) implies keys_of(s).insert(k).contains(x) by {
            lemma_keys_of_contains(res, x);
            lemma_push_has_key(s.remove(0), (k, v), x);
            if x != k {
                assert(has_key(s, x));
                lemma_keys_of_contains(s, x);
            }
        }
    }
}

/// The cache state after a whole sequence of puts, oldest first.
pub open spec fn model_put_seq<K, V>(s: Seq<(K, V)>, cap: int, ps: Seq<(K, V)>) -> Seq<(K, V)>
    decreases ps.len(),
{
    if ps.len() == 0 {
        s
    } else {
        model_put(model_put_seq(s, cap, ps.drop_last()), cap, ps.last().0, ps.last().1)
    }
}

/// After any sequence of puts the cache is still well formed, carries
/// only keys it started with or that were put, and holds at least
/// `min(capacity, number of distinct keys seen)` entries.
pub proof fn lemma_put_seq_bounds<K, V>(s: Seq<(K, V)>, cap: int, ps: Seq<(K, V)>)
    requires
        1 <= cap,
        s.len() <= cap,
        distinct_keys(s),
    ensures
        distinct_keys(model_put_seq(s, cap, ps)),
        model_put_seq(s, cap, ps).len() <= cap,
        keys_of(model_put_seq(s, cap, ps)).subset_of(keys_of(s).union(keys_of(ps))),
        model_put_seq(s, cap, ps).len() >= vstd::math::min(
            cap,
            keys_of(s).union(keys_of(ps)).len() as int,
        ),
    decreases ps.len(),
{
    broadcast use vstd::seq_lib::seq_to_set_is_finite;

    if ps.len() == 0 {
        assert(keys_of(ps) =~= Set::<K>::empty());
        assert(keys_of(s).union(keys_of(ps)) =~= keys_of(s));
        lemma_keys_of_len(s);
    } else {
        let rest = ps.drop_last();
        let p = ps.last();
        let prev = model_put_seq(s, cap, rest);
        let res = model_put(prev, cap, p.0, p.1);
        lemma_put_seq_bounds(s, cap, rest);
        lemma_model_put_wf(prev, cap, p.0, p.1);
        let u0 = keys_of(s).union(keys_of(rest));
        let u = keys_of(s).union(keys_of(ps));
        assert(ps =~= rest.push(p));
        assert forall|x: K| #[trigger] keys_of(ps).contains(x) implies keys_of(rest).insert(
            p.0,
        ).contains(x) by {
            lemma_keys_of_contains(ps, x);
            lemma_push_has_key(rest, p, x);
            if x != p.0 {
                lemma_keys_of_contains(rest, x);
            }
        }
        assert forall|x: K| #[trigger] keys_of(rest).insert(p.0).contains(x) implies keys_of(
            ps,
        ).contains(x) by {
            lemma_push_has_key(rest, p, x);
            if x != p.0 {
                lemma_keys_of_contains(rest, x);
            }
            lemma_keys_of_contains(ps, x);
        }
        assert(keys_of(ps) =~= keys_of(rest).insert(p.0));
        assert(u =~= u0.insert(p.0));
        // the key sets in play are finite
        assert(keys_of(s).finite() && keys_of(rest).finite() && keys_of(ps).finite());
        assert(u0.finite() && u.finite());
        // the new state's keys stay inside u
        assert forall|x: K| #[trigger] keys_of(res).contains(x) implies u.contains(x) by {
            assert(keys_of(prev).insert(p.0).contains(x));
        }
        // the entry-count lower bound
        if has_key(prev, p.0) {
            lemma_keys_of_contains(prev, p.0);
            assert(u0.contains(p.0));
            assert(u.len() == u0.len());
        } else if prev.len() < cap {
            assert(u.len() <= u0.len() + 1);
            assert(res.len() == prev.len() + 1);
        } else {
            assert(res.len() == cap);
        }
    }
}

/// Capacity bound: from any well-formed state, a sequence of puts that
/// touches more distinct keys than the capacity leaves the cache
/// holding exactly `cap` entries, never more.
pub proof fn lemma_capacity_bound<K, V>(s: Seq<(K, V)>, cap: int, ps: Seq<(K, V)>)
    requires
        1 <= cap,
        s.len() <= cap,
        distinct_keys(s),
        keys_of(ps).len() > cap,
    ensures
        model_put_seq(s, cap, ps).len() == cap,
{
    broadcast use vstd::seq_lib::seq_to_set_is_finite;

    lemma_put_seq_bounds(s, cap, ps);
    let u = keys_of(s).union(keys_of(ps));
    assert(keys_of(ps).subset_of(u));
    assert(u.finite());
    vstd::set_lib::lemma_len_subset(keys_of(ps), u);
}

} // verus!
