use vstd::prelude::*;
use vstd::slice::slice_to_vec;
use vstd::string::*;

use crate::cache::{key_in, key_of, position_of, value_under, CacheKey};

verus! {

/// A store of byte strings under text identifiers.
pub trait Storage {
    type Error;

    /// What is stored under `id`.
    spec fn stored(&self, id: Seq<char>) -> Option<Seq<u8>>;

    /// The store's own consistency condition.
    spec fn inv(&self) -> bool;

    fn save(&mut self, id: &str, bytes: &[u8]) -> (r: Result<(), Self::Error>)
        requires
            old(self).inv(),
        ensures
            final(self).inv(),
            r is Ok ==> forall|k: Seq<char>|
                #[trigger] final(self).stored(k) == if k == id@ {
                    Some(bytes@)
                } else {
                    old(self).stored(k)
                },
            r is Err ==> forall|k: Seq<char>| #[trigger]
                final(self).stored(k) == old(self).stored(k),
    ;

    fn load(&mut self, id: &str) -> (r: Result<Vec<u8>, Self::Error>)
        requires
            old(self).inv(),
        ensures
            final(self).inv(),
            forall|k: Seq<char>| #[trigger] final(self).stored(k) == old(self).stored(k),
            r matches Ok(b) ==> old(self).stored(id@) == Some(b@),
            old(self).stored(id@) is None ==> r is Err,
    ;
}

/// The error of a `MemoryStore`: nothing is stored under the identifier.
#[derive(Debug, PartialEq, Eq)]
pub enum MemErr {
    Missing(String),
}

impl MemErr {
    /// The text of the error: "missing: " and the identifier.
    pub fn message(&self) -> (r: String)
        ensures
            self matches MemErr::Missing(id) ==> r@ == "missing: "@ + id@,
    {
        match self {
            MemErr::Missing(id) => {
                proof {
                    reveal_strlit("missing: ");
                }
                String::from_str("missing: ").concat(id.as_str())
            },
        }
    }
}

/// A `Storage` held in memory.
pub struct MemoryStore {
    items: Vec<(String, Vec<u8>)>,
}

impl MemoryStore {
    /// No identifier is stored twice.
    pub closed spec fn ids_unique(&self) -> bool {
        forall|i: int, j: int|
            #![trigger key_of(self.items@, i), key_of(self.items@, j)]
            0 <= i < j < self.items@.len() ==> key_of(self.items@, i) != key_of(self.items@, j)
    }

    pub closed spec fn contents(&self, id: Seq<char>) -> Option<Seq<u8>> {
        match value_under(self.items@, id) {
            Some(b) => Some(b@),
            None => None,
        }
    }

    pub fn new() -> (r: Self)
        ensures
            r.ids_unique(),
            forall|k: Seq<char>| #[trigger] r.contents(k) is None,
    {
        MemoryStore { items: Vec::new() }
    }

    fn find(&self, id: &String) -> (r: Option<usize>)
        ensures
            r matches Some(i) ==> i < self.items@.len() && key_of(self.items@, i as int) == id@,
            r is None ==> !key_in(self.items@, id@),
    {
        let mut i: usize = 0;
        while i < self.items.len()
            invariant
                i <= self.items@.len(),
                forall|j: int| 0 <= j < i ==> #[trigger] key_of(self.items@, j) != id@,
            decreases self.items@.len() - i,
        {
            if self.items[i].0.same_key(id) {
                return Some(i);
            }
            i += 1;
        }
        None
    }

    /// Stores `bytes` under `id`, in place of what was there.
    pub fn save(&mut self, id: &str, bytes: &[u8]) -> (r: Result<(), MemErr>)
        requires
            old(self).ids_unique(),
        ensures
            final(self).ids_unique(),
            r is Ok,
            forall|k: Seq<char>|
                #[trigger] final(self).contents(k) == if k == id@ {
                    Some(bytes@)
                } else {
                    old(self).contents(k)
                },
    {
        let key = id.to_owned();
        let data = slice_to_vec(bytes);
        let ghost pre = self.items@;
        let ghost mut at: int = pre.len() as int;
        match self.find(&key) {
            Some(i) => {
                proof {
                    at = i as int;
                }
                self.items.set(i, (key, data));
                assert(forall|j: int|
                    0 <= j < pre.len() ==> #[trigger] key_of(self.items@, j) == key_of(pre, j));
            },
            None => {
                self.items.push((key, data));
                assert(forall|j: int|
                    0 <= j < pre.len() ==> #[trigger] key_of(self.items@, j) == key_of(pre, j));
                assert(key_of(self.items@, pre.len() as int) == id@);
            },
        }
        proof {
            let post = self.items@;
            assert forall|k: Seq<char>|
                #[trigger] self.contents(k) == if k == id@ {
                    Some(bytes@)
                } else {
                    old(self).contents(k)
                } by {
                if k == id@ {
                    assert(key_of(post, at) == k);
                    assert(key_in(post, k));
                    let p = position_of(post, k);
                    assert(key_of(post, p) == k);
                    assert(p == at);
                } else if key_in(pre, k) {
                    let p = position_of(pre, k);
                    assert(key_of(pre, p) == k);
                    assert(key_of(post, p) == k);
                    assert(key_in(post, k));
                    let q = position_of(post, k);
                    assert(key_of(post, q) == k);
                    assert(p == q);
                    assert(post[p] == pre[p]);
                } else {
                    if key_in(post, k) {
                        let q = position_of(post, k);
                        assert(key_of(post, q) == k);
                        assert(key_of(pre, q) == k);
                    }
                }
            }
        }
        Ok(())
    }

    /// What is stored under `id`; `MemErr::Missing` where nothing is.
    pub fn load(&mut self, id: &str) -> (r: Result<Vec<u8>, MemErr>)
        requires
            old(self).ids_unique(),
        ensures
            final(self).ids_unique(),
            forall|k: Seq<char>| #[trigger] final(self).contents(k) == old(self).contents(k),
            r is Ok <==> old(self).contents(id@) is Some,
            r matches Ok(b) ==> old(self).contents(id@) == Some(b@),
            r matches Err(MemErr::Missing(m)) ==> m@ == id@,
    {
        let key = id.to_owned();
        match self.find(&key) {
            Some(i) => Ok(slice_to_vec(self.items[i].1.as_slice())),
            None => Err(MemErr::Missing(key)),
        }
    }
}

impl Default for MemoryStore {
    fn default() -> (r: Self)
        ensures
            r.ids_unique(),
            forall|k: Seq<char>| #[trigger] r.contents(k) is None,
    {
        MemoryStore::new()
    }
}

impl Storage for MemoryStore {
    type Error = MemErr;

    open spec fn stored(&self, id: Seq<char>) -> Option<Seq<u8>> {
        self.contents(id)
    }

    open spec fn inv(&self) -> bool {
        self.ids_unique()
    }

    fn save(&mut self, id: &str, bytes: &[u8]) -> (r: Result<(), MemErr>) {
        MemoryStore::save(self, id, bytes)
    }

    fn load(&mut self, id: &str) -> (r: Result<Vec<u8>, MemErr>) {
        MemoryStore::load(self, id)
    }
}

} // verus!
