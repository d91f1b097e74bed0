//! A read-through map from asset key to the timing metadata computed for it.
//!
//! Entries are never evicted; writing a key that is present replaces its value.
use vstd::prelude::*;

verus! {

/// Map from asset key to a value, kept as a list of entries with distinct keys.
///
/// Keys are strings: a `HashMap` keyed by `String` gives no usable contract for
/// `get` and `insert` here, so the entries are a list whose well-formedness
/// keeps the keys distinct, and lookups compare keys one by one.
pub struct Cache<V> {
    entries: Vec<(String, V)>,
    contents: Ghost<Map<Seq<char>, V>>,
}

impl<V> View for Cache<V> {
    type V = Map<Seq<char>, V>;

    closed spec fn view(&self) -> Map<Seq<char>, V> {
        self.contents@
    }
}

impl<V> Cache<V> {
    /// The entries have distinct keys and hold exactly what the map holds.
    pub closed spec fn wf(&self) -> bool {
        &&& forall|i: int, j: int|
            0 <= i < j < self.entries.len() ==> self.entries@[i].0@ != self.entries@[j].0@
        &&& forall|i: int|
            0 <= i < self.entries.len() ==> self.contents@.contains_key(#[trigger] self.entries@[i].0@)
                && self.contents@[self.entries@[i].0@] == self.entries@[i].1
        &&& forall|k: Seq<char>|
            #[trigger] self.contents@.contains_key(k) ==> exists|i: int|
                0 <= i < self.entries.len() && self.entries@[i].0@ == k
    }

    /// An empty cache.
    pub fn new() -> (r: Cache<V>)
        ensures
            r.wf(),
            r@ == Map::<Seq<char>, V>::empty(),
    {
        Cache { entries: Vec::new(), contents: Ghost(Map::empty()) }
    }

    fn find(&self, key: &String) -> (r: Option<usize>)
        requires
            self.wf(),
        ensures
            r is None ==> forall|i: int|
                0 <= i < self.entries.len() ==> self.entries@[i].0@ != key@,
            r is Some ==> r->Some_0 < self.entries.len() && self.entries@[r->Some_0 as int].0@
                == key@,
    {
        let mut i: usize = 0;
        while i < self.entries.len()
            invariant
                i <= self.entries.len(),
                forall|j: int| 0 <= j < i ==> self.entries@[j].0@ != key@,
            decreases self.entries.len() - i,
        {
            if self.entries[i].0 == *key {
                return Some(i);
            }
            i = i + 1;
        }
        None
    }

    /// The value stored under `key`, if any.
    pub fn get(&self, key: &String) -> (r: Option<&V>)
        requires
            self.wf(),
        ensures
            r is Some <==> self@.contains_key(key@),
            r is Some ==> *r->Some_0 == self@[key@],
    {
        match self.find(key) {
            Some(i) => Some(&self.entries[i].1),
            None => None,
        }
    }

    /// Stores `val` under `key`, replacing what was there.
    pub fn put(&mut self, key: String, val: V)
        requires
            old(self).wf(),
        ensures
            final(self).wf(),
            final(self)@ == old(self)@.insert(key@, val),
    {
        let ghost k = key@;
        let ghost v = val;
        let ghost idx: int;
        match self.find(&key) {
            Some(i) => {
                proof {
                    idx = i as int;
                }
                self.entries.set(i, (key, val));
            },
            None => {
                proof {
                    idx = self.entries.len() as int;
                }
                self.entries.push((key, val));
            },
        }
        assert(self.entries@[idx].0@ == k);
        self.contents = Ghost(self.contents@.insert(k, v));
        assert forall|q: Seq<char>| #[trigger] self.contents@.contains_key(q) implies exists|i: int|
            0 <= i < self.entries.len() && self.entries@[i].0@ == q by {
            if q == k {
                assert(self.entries@[idx].0@ == q);
            } else {
                assert(old(self).contents@.contains_key(q));
                let j = choose|j: int| 0 <= j < old(self).entries.len() && old(self).entries@[j].0@ == q;
                assert(self.entries@[j].0@ == q);
            }
        }
    }
}

/// Two writes of the same key, in either order, leave the key present with
/// the value of the later write, and every other key as it was.
pub proof fn lemma_last_write_wins<V>(m: Map<Seq<char>, V>, k: Seq<char>, first: V, second: V)
    ensures
        m.insert(k, first).insert(k, second).contains_key(k),
        m.insert(k, first).insert(k, second)[k] == second,
        forall|q: Seq<char>|
            q != k ==> (#[trigger] m.insert(k, first).insert(k, second).contains_key(q)
                == m.contains_key(q)),
{
}

} // verus!
