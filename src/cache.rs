use std::marker::PhantomData;
use vstd::prelude::*;
use vstd::string::*;

use crate::text::{decimal, decimal_len, digits};

verus! {

/// Keys that a cache compares by their abstract value.
pub trait CacheKey: View + Sized {
    fn same_key(&self, other: &Self) -> (r: bool)
        ensures
            r == (self@ == other@),
    ;
}

impl CacheKey for String {
    fn same_key(&self, other: &String) -> (r: bool) {
        *self == *other
    }
}

impl CacheKey for u32 {
    fn same_key(&self, other: &u32) -> (r: bool) {
        *self == *other
    }
}

impl CacheKey for u64 {
    fn same_key(&self, other: &u64) -> (r: bool) {
        *self == *other
    }
}

/// Decides whether a key/value pair may be held by a cache at all,
/// whatever the cache currently holds.
pub trait CapacityPolicy<K, V>: Send + Sync {
    spec fn accepts(&self, key: &K, value: &V) -> bool;

    fn accept(&self, key: &K, value: &V) -> (r: bool)
        ensures
            r == self.accepts(key, value),
    ;
}

/// Values whose textual rendering has a known length in characters.
pub trait DisplayLen {
    spec fn rendered_len(&self) -> nat;

    fn display_len(&self) -> (n: usize)
        ensures
            n as nat == self.rendered_len(),
    ;
}

impl DisplayLen for String {
    open spec fn rendered_len(&self) -> nat {
        self@.len()
    }

    fn display_len(&self) -> (n: usize) {
        self.as_str().unicode_len()
    }
}

impl DisplayLen for u64 {
    open spec fn rendered_len(&self) -> nat {
        digits(*self as nat).len()
    }

    fn display_len(&self) -> (n: usize) {
        decimal_len(*self)
    }
}

impl DisplayLen for u32 {
    open spec fn rendered_len(&self) -> nat {
        digits(*self as nat).len()
    }

    fn display_len(&self) -> (n: usize) {
        decimal_len(*self as u64)
    }
}

impl DisplayLen for i32 {
    open spec fn rendered_len(&self) -> nat {
        decimal(*self as int).len()
    }

    fn display_len(&self) -> (n: usize) {
        if *self < 0 {
            let magnitude: u64 = (0 - (*self as i64)) as u64;
            1 + decimal_len(magnitude)
        } else {
            decimal_len(*self as u64)
        }
    }
}

/// Admits a value only if its rendering has at most `max_chars` characters.
pub struct DisplayLenPolicy<T> {
    pub max_chars: usize,
    _phantom: PhantomData<T>,
}

impl<T> DisplayLenPolicy<T> {
    pub closed spec fn limit(&self) -> usize {
        self.max_chars
    }

    pub fn new(max_chars: usize) -> (r: Self)
        ensures
            r.limit() == max_chars,
    {
        DisplayLenPolicy { max_chars, _phantom: PhantomData }
    }
}

impl<K, V: DisplayLen + Send + Sync> CapacityPolicy<K, V> for DisplayLenPolicy<V> {
    open spec fn accepts(&self, key: &K, value: &V) -> bool {
        value.rendered_len() <= self.limit()
    }

    fn accept(&self, key: &K, value: &V) -> (r: bool) {
        value.display_len() <= self.max_chars
    }
}

/// The one way building a cache can fail.
#[derive(Debug, Clone, Copy, PartialEq, Eq, Structural)]
pub enum CacheError {
    ZeroCapacity,
}

/// The value of the key of the `i`-th pair of `e`.
pub open spec fn key_of<K: View, V>(e: Seq<(K, V)>, i: int) -> K::V {
    e[i].0@
}

/// Whether some pair of `e` has a key of value `k`.
pub open spec fn key_in<K: View, V>(e: Seq<(K, V)>, k: K::V) -> bool {
    exists|i: int| 0 <= i < e.len() && #[trigger] key_of(e, i) == k
}

/// Where a key of value `k` stands in `e`, when one does.
pub open spec fn position_of<K: View, V>(e: Seq<(K, V)>, k: K::V) -> int {
    choose|i: int| 0 <= i < e.len() && #[trigger] key_of(e, i) == k
}

/// The value paired with key `k` in `e`.
pub open spec fn value_under<K: View, V>(e: Seq<(K, V)>, k: K::V) -> Option<V> {
    if key_in(e, k) {
        Some(e[position_of(e, k)].1)
    } else {
        None
    }
}

/// A boxed policy decides as the policy inside it does.
impl<K, V> CapacityPolicy<K, V> for Box<dyn CapacityPolicy<K, V>> {
    open spec fn accepts(&self, key: &K, value: &V) -> bool {
        (**self).accepts(key, value)
    }

    fn accept(&self, key: &K, value: &V) -> (r: bool) {
        (**self).accept(key, value)
    }
}

/// A key/value store of bounded size. Every pair it holds was admitted by its
/// policy; when it is full, a new key evicts the earliest-inserted key still
/// present.
#[verifier::reject_recursive_types(K)]
#[verifier::reject_recursive_types(V)]
pub struct Cache<K, V, P = Box<dyn CapacityPolicy<K, V>>> {
    map: Vec<(K, V)>,
    policy: P,
    max: usize,
}

impl<K: CacheKey, V, P: CapacityPolicy<K, V>> Cache<K, V, P> {
    /// The stored pairs, earliest inserted first.
    pub closed spec fn entries(&self) -> Seq<(K, V)> {
        self.map@
    }

    /// The most pairs the cache may hold.
    pub closed spec fn capacity(&self) -> nat {
        self.max as nat
    }

    /// The admission policy, fixed when the cache is built.
    pub closed spec fn policy(&self) -> P {
        self.policy
    }

    /// Whether the policy lets the cache hold `value` under `key`.
    pub open spec fn admits(&self, key: &K, value: &V) -> bool {
        self.policy().accepts(key, value)
    }

    #[verifier::inline]
    pub open spec fn key_at(&self, i: int) -> K::V {
        key_of(self.entries(), i)
    }

    pub open spec fn has_key(&self, k: K::V) -> bool {
        key_in(self.entries(), k)
    }

    pub open spec fn index_of(&self, k: K::V) -> int {
        position_of(self.entries(), k)
    }

    pub open spec fn lookup(&self, k: K::V) -> Option<V> {
        value_under(self.entries(), k)
    }

    /// A positive capacity that the pairs stay within, no key held twice,
    /// and every pair admitted by the policy.
    pub open spec fn wf(&self) -> bool {
        &&& 0 < self.capacity()
        &&& self.entries().len() <= self.capacity()
        &&& forall|i: int, j: int|
            #![trigger self.key_at(i), self.key_at(j)]
            0 <= i < j < self.entries().len() ==> self.key_at(i) != self.key_at(j)
        &&& forall|i: int|
            0 <= i < self.entries().len() ==> self.admits(
                &(#[trigger] self.entries()[i]).0,
                &self.entries()[i].1,
            )
    }

    /// The pairs held after `insert(key, value)`.
    pub open spec fn entries_after_insert(&self, key: K, value: V) -> Seq<(K, V)> {
        if !self.admits(&key, &value) {
            self.entries()
        } else if self.has_key(key@) {
            self.entries().update(self.index_of(key@), (key, value))
        } else if self.entries().len() < self.capacity() {
            self.entries().push((key, value))
        } else {
            self.entries().drop_first().push((key, value))
        }
    }

    /// `next` is what `insert(key, value)` leaves of `self`, having returned `r`.
    pub open spec fn insert_step(&self, key: K, value: V, r: bool, next: &Self) -> bool {
        &&& r == self.admits(&key, &value)
        &&& next.entries() == self.entries_after_insert(key, value)
        &&& next.capacity() == self.capacity()
        &&& next.policy() == self.policy()
    }

    /// An empty cache for at most `max` pairs; a capacity of zero is refused.
    pub fn new(policy: P, max: usize) -> (r: Result<Self, CacheError>)
        ensures
            max == 0 <==> r is Err,
            r matches Err(e) ==> e == CacheError::ZeroCapacity,
            r matches Ok(c) ==> {
                &&& c.wf()
                &&& c.entries().len() == 0
                &&& c.capacity() == max
                &&& c.policy() == policy
            },
    {
        if max == 0 {
            Err(CacheError::ZeroCapacity)
        } else {
            Ok(Cache { map: Vec::new(), policy, max })
        }
    }

    /// The position of `key`, if it is held.
    fn find(&self, key: &K) -> (r: Option<usize>)
        ensures
            r matches Some(i) ==> i < self.entries().len() && self.key_at(i as int) == key@,
            r is None ==> !self.has_key(key@),
    {
        let mut i: usize = 0;
        while i < self.map.len()
            invariant
                i <= self.map@.len(),
                forall|j: int| 0 <= j < i ==> self.key_at(j) != key@,
            decreases self.map@.len() - i,
        {
            if self.map[i].0.same_key(key) {
                return Some(i);
            }
            i += 1;
        }
        None
    }

    /// Stores `value` under `key` if the policy admits the pair. An existing
    /// key has its pair replaced in place; a new key in a full cache first
    /// evicts the earliest-inserted pair. Returns whether the pair was stored.
    pub fn insert(&mut self, key: K, value: V) -> (r: bool)
        requires
            old(self).wf(),
        ensures
            final(self).wf(),
            old(self).insert_step(key, value, r, final(self)),
    {
        let ok = self.policy.accept(&key, &value);
        if !ok {
            return false;
        }
        let ghost k = key;
        let ghost v = value;
        match self.find(&key) {
            Some(i) => {
                proof {
                    let j = old(self).index_of(key@);
                    assert(old(self).key_at(j) == old(self).key_at(i as int));
                }
                self.map.set(i, (key, value));
            },
            None => {
                if self.map.len() == self.max {
                    self.map.remove(0);
                    assert(self.entries() =~= old(self).entries().drop_first());
                }
                self.map.push((key, value));
            },
        }
        proof {
            Self::lemma_insert_preserves_wf(old(self), k, v, true, self);
        }
        true
    }

    /// The value stored under `key`, if any.
    pub fn get(&self, key: &K) -> (r: Option<&V>)
        requires
            self.wf(),
        ensures
            r is Some <==> self.has_key(key@),
            r matches Some(v) ==> self.lookup(key@) == Some(*v),
    {
        match self.find(key) {
            Some(i) => Some(&self.map[i].1),
            None => None,
        }
    }

    /// How many pairs the cache holds.
    pub fn len(&self) -> (r: usize)
        ensures
            r == self.entries().len(),
    {
        self.map.len()
    }
}

impl<K: CacheKey, V, P: CapacityPolicy<K, V>> Cache<K, V, P> {
    /// An insertion keeps a well-formed cache well formed, so its occupancy
    /// never exceeds its capacity.
    pub proof fn lemma_insert_preserves_wf(c0: &Self, key: K, value: V, r: bool, c1: &Self)
        requires
            c0.wf(),
            c0.insert_step(key, value, r, c1),
        ensures
            c1.wf(),
            c1.entries().len() <= c1.capacity(),
    {
        let n0 = c0.entries().len();
        let n1 = c1.entries().len();
        if r && c0.has_key(key@) {
            let i = c0.index_of(key@);
            assert(c0.key_at(i) == key@);
            assert(forall|j: int| 0 <= j < n1 ==> #[trigger] c1.key_at(j) == c0.key_at(j));
            assert forall|a: int|
                0 <= a < n1 implies c1.admits(
                &(#[trigger] c1.entries()[a]).0,
                &c1.entries()[a].1,
            ) by {
                if a != i {
                    assert(c1.entries()[a] == c0.entries()[a]);
                }
            }
        } else if r {
            let full = n0 == c0.capacity();
            let shift: int = if full { 1 } else { 0 };
            assert(forall|j: int|
                0 <= j < n1 - 1 ==> #[trigger] c1.key_at(j) == c0.key_at(j + shift));
            assert(c1.key_at(n1 - 1) == key@);
            assert forall|a: int, b: int|
                #![trigger c1.key_at(a), c1.key_at(b)]
                0 <= a < b < n1 implies c1.key_at(a) != c1.key_at(b) by {
                assert(c1.key_at(a) == c0.key_at(a + shift));
                if b < n1 - 1 {
                    assert(c1.key_at(b) == c0.key_at(b + shift));
                }
            }
            assert forall|a: int|
                0 <= a < n1 implies c1.admits(
                &(#[trigger] c1.entries()[a]).0,
                &c1.entries()[a].1,
            ) by {
                if a < n1 - 1 {
                    assert(c1.entries()[a] == c0.entries()[a + shift]);
                }
            }
        }
    }

    /// However many insertions are made, in any order, the occupancy stays
    /// within the capacity that the cache was built with.
    pub proof fn lemma_len_bounded_along_inserts(
        states: Seq<Self>,
        keys: Seq<K>,
        values: Seq<V>,
        results: Seq<bool>,
    )
        requires
            states.len() == keys.len() + 1,
            values.len() == keys.len(),
            results.len() == keys.len(),
            states[0].wf(),
            forall|i: int|
                0 <= i < keys.len() ==> (#[trigger] states[i]).insert_step(
                    keys[i],
                    values[i],
                    results[i],
                    &states[i + 1],
                ),
        ensures
            forall|i: int|
                0 <= i < states.len() ==> {
                    &&& (#[trigger] states[i]).wf()
                    &&& states[i].capacity() == states[0].capacity()
                    &&& states[i].entries().len() <= states[0].capacity()
                },
        decreases keys.len(),
    {
        if keys.len() > 0 {
            let m = keys.len() - 1;
            Self::lemma_len_bounded_along_inserts(
                states.drop_last(),
                keys.drop_last(),
                values.drop_last(),
                results.drop_last(),
            );
            assert(states.drop_last()[m] == states[m]);
            assert(states[m].insert_step(keys[m], values[m], results[m], &states[m + 1]));
            Self::lemma_insert_preserves_wf(
                &states[m],
                keys[m],
                values[m],
                results[m],
                &states[m + 1],
            );
            assert forall|i: int| 0 <= i < states.len() implies {
                &&& (#[trigger] states[i]).wf()
                &&& states[i].capacity() == states[0].capacity()
                &&& states[i].entries().len() <= states[0].capacity()
            } by {
                if i < states.len() - 1 {
                    assert(states.drop_last()[i] == states[i]);
                }
            }
        }
    }

    /// A pair that the policy rejects is never held by a well-formed cache, and
    /// an insertion of it leaves the cache as it was.
    pub proof fn lemma_rejected_pair_never_stored(c0: &Self, key: K, value: V, r: bool, c1: &Self)
        requires
            c0.wf(),
            c0.insert_step(key, value, r, c1),
            !c0.admits(&key, &value),
        ensures
            !r,
            c1.entries() == c0.entries(),
            c1.lookup(key@) == c0.lookup(key@),
            forall|i: int| 0 <= i < c1.entries().len() ==> c1.entries()[i] != (key, value),
    {
        assert(forall|i: int|
            0 <= i < c1.entries().len() ==> #[trigger] c1.entries()[i] == c0.entries()[i]);
    }

    /// Two admitted insertions under one key leave the occupancy as the first
    /// left it, and the key then holds the second value.
    pub proof fn lemma_second_insert_overwrites(
        c0: &Self,
        key1: K,
        value1: V,
        c1: &Self,
        key2: K,
        value2: V,
        c2: &Self,
    )
        requires
            c0.wf(),
            key1@ == key2@,
            c0.insert_step(key1, value1, true, c1),
            c1.insert_step(key2, value2, true, c2),
        ensures
            c2.entries().len() == c1.entries().len(),
            c2.lookup(key2@) == Some(value2),
    {
        Self::lemma_insert_preserves_wf(c0, key1, value1, true, c1);
        Self::lemma_insert_preserves_wf(c1, key2, value2, true, c2);
        let n1 = c1.entries().len();
        if !c0.has_key(key1@) {
            assert(c1.key_at(n1 - 1) == key1@);
        } else {
            let i0 = c0.index_of(key1@);
            assert(c0.key_at(i0) == key1@);
            assert(c1.key_at(i0) == key1@);
        }
        assert(c1.has_key(key2@));
        let i = c1.index_of(key2@);
        assert(c2.key_at(i) == key2@);
        assert(c2.has_key(key2@));
        assert(c2.index_of(key2@) == i);
    }

    /// At capacity, an admitted insertion of a new key keeps the cache full,
    /// stores the new pair, and evicts exactly one key: the earliest inserted.
    pub proof fn lemma_full_insert_evicts_one(c0: &Self, key: K, value: V, c1: &Self)
        requires
            c0.wf(),
            c0.entries().len() == c0.capacity(),
            !c0.has_key(key@),
            c0.insert_step(key, value, true, c1),
        ensures
            c1.entries().len() == c1.capacity(),
            c1.lookup(key@) == Some(value),
            !c1.has_key(c0.key_at(0)),
            forall|i: int| 1 <= i < c0.entries().len() ==> c1.has_key(#[trigger] c0.key_at(i)),
    {
        Self::lemma_insert_preserves_wf(c0, key, value, true, c1);
        let n = c1.entries().len();
        assert(forall|j: int| 0 <= j < n - 1 ==> #[trigger] c1.key_at(j) == c0.key_at(j + 1));
        assert(c1.key_at(n - 1) == key@);
        assert(c1.has_key(key@));
        assert(c1.index_of(key@) == n - 1);
        if c1.has_key(c0.key_at(0)) {
            let j = c1.index_of(c0.key_at(0));
            if j < n - 1 {
                assert(c0.key_at(j + 1) == c0.key_at(0));
            }
        }
        assert forall|i: int| 1 <= i < c0.entries().len() implies c1.has_key(
            #[trigger] c0.key_at(i),
        ) by {
            assert(c1.key_at(i - 1) == c0.key_at(i));
        }
    }
}

} // verus!
