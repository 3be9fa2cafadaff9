//! The interface a storage backend offers: a mapping from keys to values,
//! read and written one key at a time.

use vstd::prelude::*;

verus! {

/// A key-value storage backend. Its contract speaks of the mapping the
/// backend holds, over the views of the key and value types; every operation
/// needs the backend's own validity and keeps it.
pub trait Database<K: View, V: View> {
    /// The mapping the backend currently holds.
    spec fn db(&self) -> Map<K::V, V::V>;

    /// The backend's internal validity.
    spec fn inv(&self) -> bool;

    /// Return the value stored under the key, or `None` where it is absent.
    fn get(&self, key: &K) -> (r: Option<V>)
        requires
            self.inv(),
        ensures
            match r {
                Some(v) => self.db().contains_key(key@) && v@ == self.db()[key@],
                None => !self.db().contains_key(key@),
            },
    ;

    /// Insert the value under the key, overwriting any value already there;
    /// the prior value, if any, is returned.
    fn set(&mut self, key: K, value: V) -> (prev: Option<V>)
        requires
            old(self).inv(),
        ensures
            final(self).inv(),
            final(self).db() == old(self).db().insert(key@, value@),
            match prev {
                Some(p) => old(self).db().contains_key(key@) && p@ == old(self).db()[key@],
                None => !old(self).db().contains_key(key@),
            },
    ;

    /// Remove the key if present and return the value it held.
    fn delete(&mut self, key: &K) -> (prev: Option<V>)
        requires
            old(self).inv(),
        ensures
            final(self).inv(),
            final(self).db() == old(self).db().remove(key@),
            match prev {
                Some(p) => old(self).db().contains_key(key@) && p@ == old(self).db()[key@],
                None => !old(self).db().contains_key(key@),
            },
    ;

    /// Whether the key is currently present.
    fn contains(&self, key: &K) -> (r: bool)
        requires
            self.inv(),
        ensures
            r == self.db().contains_key(key@),
    ;

    /// A snapshot of all current keys, in no promised order.
    fn keys(&self) -> (r: Vec<K>)
        requires
            self.inv(),
        ensures
            r@.len() == self.db().len(),
            forall|i: int| 0 <= i < r@.len() ==> self.db().contains_key(#[trigger] r@[i]@),
            forall|k: K::V|
                self.db().contains_key(k) ==> exists|i: int|
                    0 <= i < r@.len() && #[trigger] r@[i]@ == k,
    ;

    /// The number of keys currently present.
    fn len(&self) -> (n: usize)
        requires
            self.inv(),
        ensures
            n == self.db().len(),
    ;

    /// Remove every entry.
    fn clear(&mut self)
        requires
            old(self).inv(),
        ensures
            final(self).inv(),
            final(self).db() == Map::<K::V, V::V>::empty(),
    ;
}

impl Database<String, String> for crate::store::KeyValueStore {
    open spec fn db(&self) -> Map<Seq<char>, Seq<char>> {
        self@.data
    }

    open spec fn inv(&self) -> bool {
        self.wf()
    }

    fn get(&self, key: &String) -> (r: Option<String>) {
        crate::store::KeyValueStore::get(self, key)
    }

    fn set(&mut self, key: String, value: String) -> (prev: Option<String>) {
        crate::store::KeyValueStore::set(self, key, value)
    }

    fn delete(&mut self, key: &String) -> (prev: Option<String>) {
        crate::store::KeyValueStore::delete(self, key)
    }

    fn contains(&self, key: &String) -> (r: bool) {
        crate::store::KeyValueStore::contains(self, key)
    }

    fn keys(&self) -> (r: Vec<String>) {
        crate::store::KeyValueStore::keys(self)
    }

    fn len(&self) -> (n: usize) {
        crate::store::KeyValueStore::len(self)
    }

    fn clear(&mut self) {
        crate::store::KeyValueStore::clear(self)
    }
}

} // verus!
