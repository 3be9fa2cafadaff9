//! The in-memory key-value store: a mapping from text keys to text values,
//! with a creation timestamp and a last-modified timestamp.
//!
//! The entries live in a vector of pairs whose keys are pairwise distinct;
//! the mathematical view of the store is the finite map those pairs induce,
//! together with the two timestamps.

use vstd::prelude::*;

verus! {

use vstd::pervasive::VecAdditionalExecFns;

/// Mathematical model of a store: the key/value mapping over character
/// sequences, plus the unix-seconds timestamps.
pub struct StoreModel {
    pub data: Map<Seq<char>, Seq<char>>,
    pub created_at: u64,
    pub updated_at: u64,
}

/// The map induced by a sequence of key/value pairs: later pairs win.
pub open spec fn kv_map(es: Seq<(Seq<char>, Seq<char>)>) -> Map<Seq<char>, Seq<char>>
    decreases es.len(),
{
    if es.len() == 0 {
        Map::empty()
    } else {
        kv_map(es.drop_last()).insert(es.last().0, es.last().1)
    }
}

/// A sequence of owned key/value pairs, seen as character sequences.
pub open spec fn pairs_view(s: Seq<(String, String)>) -> Seq<(Seq<char>, Seq<char>)> {
    s.map_values(|p: (String, String)| (p.0@, p.1@))
}

/// The keys of the pairs are pairwise distinct.
pub open spec fn keys_distinct(es: Seq<(Seq<char>, Seq<char>)>) -> bool {
    forall|i: int, j: int| 0 <= i < j < es.len() ==> es[i].0 != es[j].0
}

/// The induced map contains exactly the keys that occur in the sequence,
/// and its domain is finite.
pub proof fn lemma_kv_map_contains(es: Seq<(Seq<char>, Seq<char>)>, k: Seq<char>)
    ensures
        kv_map(es).dom().finite(),
        kv_map(es).contains_key(k) <==> exists|i: int| 0 <= i < es.len() && es[i].0 == k,
    decreases es.len(),
{
    if es.len() > 0 {
        lemma_kv_map_contains(es.drop_last(), k);
        if es.last().0 == k {
            assert(es[es.len() - 1].0 == k);
        } else {
            if exists|i: int| 0 <= i < es.drop_last().len() && es.drop_last()[i].0 == k {
                let i = choose|i: int| 0 <= i < es.drop_last().len() && es.drop_last()[i].0 == k;
                assert(es[i].0 == k);
            }
            if exists|i: int| 0 <= i < es.len() && es[i].0 == k {
                let i = choose|i: int| 0 <= i < es.len() && es[i].0 == k;
                assert(es.drop_last()[i].0 == k);
            }
        }
    }
}

/// Dropping the last pair keeps the keys pairwise distinct.
pub proof fn lemma_keys_distinct_drop_last(es: Seq<(Seq<char>, Seq<char>)>)
    requires
        keys_distinct(es),
        es.len() > 0,
    ensures
        keys_distinct(es.drop_last()),
{
    assert forall|i: int, j: int|
        0 <= i < j < es.drop_last().len() implies es.drop_last()[i].0 != es.drop_last()[j].0 by {
        assert(es[i].0 != es[j].0);
    }
}

/// Under distinct keys, the induced map sends each key in the sequence to the
/// value paired with it.
pub proof fn lemma_kv_map_index(es: Seq<(Seq<char>, Seq<char>)>, i: int)
    requires
        keys_distinct(es),
        0 <= i < es.len(),
    ensures
        kv_map(es).contains_key(es[i].0),
        kv_map(es)[es[i].0] == es[i].1,
    decreases es.len(),
{
    if i == es.len() - 1 {
    } else {
        lemma_keys_distinct_drop_last(es);
        lemma_kv_map_index(es.drop_last(), i);
        assert(es[i].0 != es[es.len() - 1].0);
    }
}

/// Under distinct keys, the induced map has exactly one entry per pair.
pub proof fn lemma_kv_map_len(es: Seq<(Seq<char>, Seq<char>)>)
    requires
        keys_distinct(es),
    ensures
        kv_map(es).dom().finite(),
        kv_map(es).len() == es.len(),
    decreases es.len(),
{
    lemma_kv_map_contains(es, Seq::empty());
    if es.len() > 0 {
        lemma_keys_distinct_drop_last(es);
        lemma_kv_map_len(es.drop_last());
        lemma_kv_map_contains(es.drop_last(), es.last().0);
        assert(!kv_map(es.drop_last()).contains_key(es.last().0));
        assert(kv_map(es).dom() =~= kv_map(es.drop_last()).dom().insert(es.last().0));
        vstd::set::axiom_set_insert_len(kv_map(es.drop_last()).dom(), es.last().0);
    }
}

/// Overwriting the value at a position whose key stays the same is, on the
/// induced map, an insert of that key.
pub proof fn lemma_kv_map_update(es: Seq<(Seq<char>, Seq<char>)>, i: int, v: Seq<char>)
    requires
        keys_distinct(es),
        0 <= i < es.len(),
    ensures
        kv_map(es.update(i, (es[i].0, v))) == kv_map(es).insert(es[i].0, v),
        keys_distinct(es.update(i, (es[i].0, v))),
    decreases es.len(),
{
    let k = es[i].0;
    let es2 = es.update(i, (k, v));
    assert forall|a: int, b: int|
        0 <= a < b < es2.len() implies es2[a].0 != es2[b].0 by {
        assert(es[a].0 != es[b].0);
        assert(es2[a].0 == es[a].0 && es2[b].0 == es[b].0);
    }
    if i == es.len() - 1 {
        assert(es2.drop_last() =~= es.drop_last());
        assert(kv_map(es2) =~= kv_map(es).insert(k, v));
    } else {
        lemma_keys_distinct_drop_last(es);
        lemma_kv_map_update(es.drop_last(), i, v);
        assert(es2.drop_last() =~= es.drop_last().update(i, (k, v)));
        assert(es2.last() == es.last());
        assert(es[i].0 != es[es.len() - 1].0);
        assert(kv_map(es2) =~= kv_map(es).insert(k, v));
    }
}

/// Removing a pair removes, on the induced map, exactly its key.
pub proof fn lemma_kv_map_remove(es: Seq<(Seq<char>, Seq<char>)>, i: int)
    requires
        keys_distinct(es),
        0 <= i < es.len(),
    ensures
        kv_map(es.remove(i)) == kv_map(es).remove(es[i].0),
        keys_distinct(es.remove(i)),
    decreases es.len(),
{
    let k = es[i].0;
    let es2 = es.remove(i);
    assert forall|a: int, b: int|
        0 <= a < b < es2.len() implies es2[a].0 != es2[b].0 by {
        let a0: int = if a < i { a } else { a + 1 };
        let b0: int = if b < i { b } else { b + 1 };
        assert(es2[a].0 == es[a0].0 && es2[b].0 == es[b0].0);
        assert(es[a0].0 != es[b0].0);
    }
    if i == es.len() - 1 {
        assert(es2 =~= es.drop_last());
        lemma_keys_distinct_drop_last(es);
        lemma_kv_map_contains(es.drop_last(), k);
        assert(!kv_map(es.drop_last()).contains_key(k));
        assert(kv_map(es2) =~= kv_map(es).remove(k));
    } else {
        lemma_keys_distinct_drop_last(es);
        lemma_kv_map_remove(es.drop_last(), i);
        assert(es2.drop_last() =~= es.drop_last().remove(i));
        assert(es2.last() == es.last());
        assert(es[i].0 != es[es.len() - 1].0);
        assert(kv_map(es2) =~= kv_map(es).remove(k));
    }
}

/// Law: writing a value and then reading the same key yields exactly the
/// value just written. `set` leaves the mapping `data.insert(k, v)`, and
/// `get` reports that mapping, so it returns `Some(v)` for `k`.
pub proof fn lemma_set_then_get(data: Map<Seq<char>, Seq<char>>, k: Seq<char>, v: Seq<char>)
    ensures
        data.insert(k, v).contains_key(k),
        data.insert(k, v)[k] == v,
{
}

/// Law: writing `v1` and then `v2` under the same key makes the second write
/// report `v1` as the previous value, and leaves the mapping as if only `v2`
/// had been written.
pub proof fn lemma_set_set_previous(
    data: Map<Seq<char>, Seq<char>>,
    k: Seq<char>,
    v1: Seq<char>,
    v2: Seq<char>,
)
    ensures
        data.insert(k, v1).contains_key(k),
        data.insert(k, v1)[k] == v1,
        data.insert(k, v1).insert(k, v2) == data.insert(k, v2),
{
    assert(data.insert(k, v1).insert(k, v2) =~= data.insert(k, v2));
}

/// Law: a key is never present right after it was deleted, nor after the
/// store was cleared. `delete` leaves the mapping `data.remove(k)` and
/// `clear` leaves it empty, and `contains` reports the mapping.
pub proof fn lemma_absent_after_delete(data: Map<Seq<char>, Seq<char>>, k: Seq<char>)
    ensures
        !data.remove(k).contains_key(k),
        !Map::<Seq<char>, Seq<char>>::empty().contains_key(k),
{
}

/// An in-memory mapping from text keys to text values, with timestamps that
/// record when the store was made and when it last changed.
pub struct KeyValueStore {
    data: Vec<(String, String)>,
    created_at: u64,
    updated_at: u64,
}

impl View for KeyValueStore {
    type V = StoreModel;

    closed spec fn view(&self) -> StoreModel {
        StoreModel {
            data: kv_map(self.entries()),
            created_at: self.created_at,
            updated_at: self.updated_at,
        }
    }
}

/// Relies on std::time::SystemTime::now for the current moment; the result is
/// converted to whole seconds since the unix epoch, zero where the clock
/// reports a time before the epoch. Nothing is assumed of the value: callers
/// state what holds of every outcome.
#[verifier::external_body]
fn now_unix_seconds() -> u64 {
    match std::time::SystemTime::now().duration_since(std::time::UNIX_EPOCH) {
        Ok(d) => d.as_secs(),
        Err(_) => 0,
    }
}

impl KeyValueStore {
    /// The key/value pairs as the store holds them, in storage order.
    pub closed spec fn entries(&self) -> Seq<(Seq<char>, Seq<char>)> {
        pairs_view(self.data@)
    }

    /// Assemble a store from pairs with distinct keys and its two timestamps.
    pub(crate) fn from_parts(data: Vec<(String, String)>, created_at: u64, updated_at: u64) -> (r:
        Self)
        requires
            keys_distinct(pairs_view(data@)),
            created_at <= updated_at,
        ensures
            r.wf(),
            r.entries() == pairs_view(data@),
            r@.created_at == created_at,
            r@.updated_at == updated_at,
    {
        KeyValueStore { data, created_at, updated_at }
    }

    /// Borrow the pairs as the store holds them.
    pub(crate) fn raw_entries(&self) -> (r: &Vec<(String, String)>)
        ensures
            pairs_view(r@) == self.entries(),
    {
        &self.data
    }

    /// The mapping of the view is exactly the map the entries induce.
    pub proof fn lemma_view_entries(&self)
        ensures
            self@.data == kv_map(self.entries()),
    {
    }

    /// Well-formedness: keys are pairwise distinct, and the store was not
    /// modified before it was created.
    pub open spec fn wf(&self) -> bool {
        &&& keys_distinct(self.entries())
        &&& self@.created_at <= self@.updated_at
    }

    /// Create an empty store; both timestamps are set to the same moment.
    pub fn new() -> (r: Self)
        ensures
            r.wf(),
            r@.data == Map::<Seq<char>, Seq<char>>::empty(),
            r.entries() == Seq::<(Seq<char>, Seq<char>)>::empty(),
            r@.created_at == r@.updated_at,
    {
        let now = now_unix_seconds();
        let r = KeyValueStore { data: Vec::new(), created_at: now, updated_at: now };
        proof {
            assert(r.entries() =~= Seq::<(Seq<char>, Seq<char>)>::empty());
        }
        r
    }

    /// The position of a key among the entries, if it is present.
    fn index_of(&self, key: &String) -> (r: Option<usize>)
        ensures
            match r {
                Some(i) => i < self.entries().len() && self.entries()[i as int].0 == key@,
                None => forall|j: int| 0 <= j < self.entries().len() ==> self.entries()[j].0 != key@,
            },
    {
        let n = self.data.len();
        let mut i: usize = 0;
        while i < n
            invariant
                n == self.data.len(),
                i <= n,
                forall|j: int| 0 <= j < i ==> self.entries()[j].0 != key@,
            decreases n - i,
        {
            if self.data[i].0 == *key {
                return Some(i);
            }
            i = i + 1;
        }
        None
    }

    /// Return the value stored under the key, or `None` where the key is
    /// absent. Reading changes nothing, the timestamps included.
    pub fn get(&self, key: &String) -> (r: Option<String>)
        requires
            self.wf(),
        ensures
            match r {
                Some(v) => self@.data.contains_key(key@) && v@ == self@.data[key@],
                None => !self@.data.contains_key(key@),
            },
    {
        match self.index_of(key) {
            Some(i) => {
                proof {
                    lemma_kv_map_index(self.entries(), i as int);
                }
                Some(self.data[i].1.clone())
            }
            None => {
                proof {
                    lemma_kv_map_contains(self.entries(), key@);
                }
                None
            }
        }
    }

    /// Whether the key is currently present in the mapping.
    pub fn contains(&self, key: &String) -> (r: bool)
        requires
            self.wf(),
        ensures
            r == self@.data.contains_key(key@),
    {
        proof {
            lemma_kv_map_contains(self.entries(), key@);
        }
        self.index_of(key).is_some()
    }

    /// The number of distinct keys currently present.
    pub fn len(&self) -> (n: usize)
        requires
            self.wf(),
        ensures
            n == self@.data.len(),
    {
        proof {
            lemma_kv_map_len(self.entries());
        }
        self.data.len()
    }

    /// Refresh the last-modified timestamp. The store records the later of
    /// the clock's reading and the current value, so the last-modified time
    /// never moves backwards even where the clock does.
    fn update_timestamp(&mut self)
        ensures
            final(self).entries() == old(self).entries(),
            final(self)@.data == old(self)@.data,
            final(self)@.created_at == old(self)@.created_at,
            final(self)@.updated_at >= old(self)@.updated_at,
            old(self).wf() ==> final(self).wf(),
    {
        let now = now_unix_seconds();
        if now > self.updated_at {
            self.updated_at = now;
        }
    }

    /// Insert the value under the key, overwriting any value already there;
    /// the prior value, if any, is returned. The last-modified timestamp is
    /// refreshed whether or not the key was present.
    pub fn set(&mut self, key: String, value: String) -> (prev: Option<String>)
        requires
            old(self).wf(),
        ensures
            final(self).wf(),
            final(self)@.data == old(self)@.data.insert(key@, value@),
            match prev {
                Some(p) => old(self)@.data.contains_key(key@) && p@ == old(self)@.data[key@],
                None => !old(self)@.data.contains_key(key@),
            },
            final(self)@.created_at == old(self)@.created_at,
            final(self)@.updated_at >= old(self)@.updated_at,
    {
        self.update_timestamp();
        let ghost es = self.entries();
        match self.index_of(&key) {
            Some(i) => {
                proof {
                    lemma_kv_map_index(es, i as int);
                    lemma_kv_map_contains(es, key@);
                }
                let prev_value = self.data[i].1.clone();
                let ghost kv = (key@, value@);
                self.data.set(i, (key, value));
                proof {
                    assert(self.entries() =~= es.update(i as int, kv));
                    lemma_kv_map_update(es, i as int, kv.1);
                }
                Some(prev_value)
            }
            None => {
                proof {
                    lemma_kv_map_contains(es, key@);
                }
                let ghost kv = (key@, value@);
                self.data.push((key, value));
                proof {
                    assert(self.entries() =~= es.push(kv));
                    assert(self.entries().drop_last() =~= es);
                    assert forall|a: int, b: int|
                        0 <= a < b < self.entries().len()
                        implies self.entries()[a].0 != self.entries()[b].0 by {
                        if b < es.len() {
                            assert(es[a].0 != es[b].0);
                        } else {
                            assert(es[a].0 != kv.0);
                        }
                    }
                }
                None
            }
        }
    }

    /// Remove the key if it is present and return the value it held, or
    /// `None` where it was absent. The last-modified timestamp is refreshed
    /// either way, also where nothing was removed.
    pub fn delete(&mut self, key: &String) -> (prev: Option<String>)
        requires
            old(self).wf(),
        ensures
            final(self).wf(),
            final(self)@.data == old(self)@.data.remove(key@),
            match prev {
                Some(p) => old(self)@.data.contains_key(key@) && p@ == old(self)@.data[key@],
                None => !old(self)@.data.contains_key(key@),
            },
            final(self)@.created_at == old(self)@.created_at,
            final(self)@.updated_at >= old(self)@.updated_at,
    {
        self.update_timestamp();
        let ghost es = self.entries();
        match self.index_of(key) {
            Some(i) => {
                proof {
                    lemma_kv_map_index(es, i as int);
                    lemma_kv_map_contains(es, key@);
                }
                let pair = self.data.remove(i);
                proof {
                    assert(self.entries() =~= es.remove(i as int));
                    lemma_kv_map_remove(es, i as int);
                }
                Some(pair.1)
            }
            None => {
                proof {
                    lemma_kv_map_contains(es, key@);
                    assert(kv_map(es).remove(key@) =~= kv_map(es));
                }
                None
            }
        }
    }

    /// Remove every entry. The last-modified timestamp is refreshed.
    pub fn clear(&mut self)
        requires
            old(self).wf(),
        ensures
            final(self).wf(),
            final(self)@.data == Map::<Seq<char>, Seq<char>>::empty(),
            final(self)@.data.len() == 0,
            final(self)@.created_at == old(self)@.created_at,
            final(self)@.updated_at >= old(self)@.updated_at,
    {
        self.update_timestamp();
        self.data.clear();
        proof {
            assert(self.entries() =~= Seq::<(Seq<char>, Seq<char>)>::empty());
            assert(kv_map(self.entries()) =~= Map::<Seq<char>, Seq<char>>::empty());
        }
    }

    /// A snapshot of all current keys, in storage order. Reading changes
    /// nothing.
    pub fn keys(&self) -> (r: Vec<String>)
        requires
            self.wf(),
        ensures
            r@.len() == self@.data.len(),
            forall|i: int| 0 <= i < r@.len() ==> r@[i]@ == self.entries()[i].0,
            forall|i: int| 0 <= i < r@.len() ==> self@.data.contains_key(#[trigger] r@[i]@),
            forall|k: Seq<char>|
                self@.data.contains_key(k) ==> exists|i: int| 0 <= i < r@.len() && r@[i]@ == k,
    {
        let n = self.data.len();
        let mut r: Vec<String> = Vec::new();
        let mut i: usize = 0;
        while i < n
            invariant
                n == self.data.len(),
                i <= n,
                r@.len() == i,
                forall|j: int| 0 <= j < i ==> r@[j]@ == self.entries()[j].0,
            decreases n - i,
        {
            r.push(self.data[i].0.clone());
            i = i + 1;
        }
        proof {
            lemma_kv_map_len(self.entries());
            assert forall|i: int| 0 <= i < r@.len() implies self@.data.contains_key(#[trigger] r@[i]@) by {
                lemma_kv_map_index(self.entries(), i);
            }
            assert forall|k: Seq<char>|
                self@.data.contains_key(k)
                implies exists|i: int| 0 <= i < r@.len() && r@[i]@ == k by {
                lemma_kv_map_contains(self.entries(), k);
                let i = choose|i: int| 0 <= i < self.entries().len() && self.entries()[i].0 == k;
                assert(r@[i]@ == k);
            }
        }
        r
    }

    /// The moment the store was created.
    pub fn created_at(&self) -> (t: u64)
        ensures
            t == self@.created_at,
    {
        self.created_at
    }

    /// The moment the store last changed.
    pub fn updated_at(&self) -> (t: u64)
        ensures
            t == self@.updated_at,
    {
        self.updated_at
    }
}

impl Default for KeyValueStore {
    /// An empty store, as `new` builds it.
    fn default() -> (r: Self)
        ensures
            r.wf(),
            r@.data == Map::<Seq<char>, Seq<char>>::empty(),
            r.entries() == Seq::<(Seq<char>, Seq<char>)>::empty(),
            r@.created_at == r@.updated_at,
    {
        KeyValueStore::new()
    }
}

} // verus!
