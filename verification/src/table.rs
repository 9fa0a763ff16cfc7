//! A table keyed by strings, each key at most once: what the launcher keeps
//! in its catalog (editions by key, asset patterns by platform) and in its
//! state (installed patches by channel).
use vstd::prelude::*;
use crate::text::str_equal;

verus! {

/// Entry `i` of `entries` has key `k`.
pub open spec fn key_at<V>(entries: Seq<(String, V)>, k: Seq<char>, i: int) -> bool {
    0 <= i < entries.len() && entries[i].0@ == k
}

/// The map that a list of entries with distinct keys stands for.
pub open spec fn map_of<V>(entries: Seq<(String, V)>) -> Map<Seq<char>, V> {
    Map::new(
        |k: Seq<char>| exists|i: int| key_at(entries, k, i),
        |k: Seq<char>| entries[choose|i: int| key_at(entries, k, i)].1,
    )
}

/// No key occurs twice.
pub open spec fn distinct_keys<V>(entries: Seq<(String, V)>) -> bool {
    forall|i: int, j: int|
        0 <= i < entries.len() && 0 <= j < entries.len() && i != j ==> entries[i].0@
            != entries[j].0@
}

/// A map from strings to values, each key at most once, kept in the order
/// in which keys were first inserted.
pub struct KeyedTable<V> {
    entries: Vec<(String, V)>,
}

impl<V> View for KeyedTable<V> {
    type V = Map<Seq<char>, V>;

    closed spec fn view(&self) -> Map<Seq<char>, V> {
        map_of(self.entries@)
    }
}

proof fn lemma_map_of_at<V>(entries: Seq<(String, V)>, i: int)
    requires
        distinct_keys(entries),
        0 <= i < entries.len(),
    ensures
        map_of(entries).contains_key(entries[i].0@),
        map_of(entries)[entries[i].0@] == entries[i].1,
{
    let k = entries[i].0@;
    assert(key_at(entries, k, i));
    let j = choose|j: int| key_at(entries, k, j);
    assert(j == i);
}

impl<V> KeyedTable<V> {
    /// The value stored under `key`, if any: what `get` gives.
    pub open spec fn lookup(&self, key: Seq<char>) -> Option<V> {
        if self@.contains_key(key) {
            Some(self@[key])
        } else {
            None
        }
    }

    #[verifier::type_invariant]
    closed spec fn keys_are_distinct(self) -> bool {
        distinct_keys(self.entries@)
    }

    /// The entries, in the order their keys were first inserted.
    pub closed spec fn entry_seq(self) -> Seq<(String, V)> {
        self.entries@
    }

    /// An empty table.
    pub fn new() -> (r: Self)
        ensures
            r@ == Map::<Seq<char>, V>::empty(),
            r.entry_seq().len() == 0,
    {
        let r = KeyedTable { entries: Vec::new() };
        assert(r@ =~= Map::<Seq<char>, V>::empty());
        r
    }

    /// The number of keys. The table's entries have distinct keys, and each
    /// key of its map is the key of an entry.
    pub fn len(&self) -> (r: usize)
        ensures
            r == self.entry_seq().len(),
            self@.dom().finite(),
            r == self@.dom().len(),
            distinct_keys(self.entry_seq()),
            forall|k: Seq<char>|
                #[trigger] self@.contains_key(k) ==> exists|i: int| key_at(self.entry_seq(), k, i),
    {
        proof {
            use_type_invariant(self);
            lemma_dom_finite(self.entries@);
        }
        self.entries.len()
    }

    /// The key and the value of entry `i`; the map holds that value under that key.
    pub fn entry(&self, i: usize) -> (r: (&String, &V))
        requires
            i < self.entry_seq().len(),
        ensures
            *r.0 == self.entry_seq()[i as int].0,
            *r.1 == self.entry_seq()[i as int].1,
            self@.contains_key(r.0@),
            self@[r.0@] == *r.1,
    {
        proof {
            use_type_invariant(self);
            lemma_map_of_at(self.entries@, i as int);
        }
        (&self.entries[i].0, &self.entries[i].1)
    }

    fn find(&self, key: &str) -> (r: Option<usize>)
        ensures
            match r {
                Some(i) => key_at(self.entries@, key@, i as int),
                None => forall|i: int| !key_at(self.entries@, key@, i),
            },
    {
        let n = self.entries.len();
        for i in 0..n
            invariant
                n == self.entries@.len(),
                forall|j: int| 0 <= j < i ==> !key_at(self.entries@, key@, j),
        {
            if str_equal(self.entries[i].0.as_str(), key) {
                return Some(i);
            }
        }
        None
    }

    /// The value stored under `key`, if any (`HashMap::get`).
    pub fn get(&self, key: &str) -> (r: Option<&V>)
        ensures
            r == (if self@.contains_key(key@) {
                Some(&self@[key@])
            } else {
                None::<&V>
            }),
            match r {
                Some(v) => self.lookup(key@) == Some(*v),
                None => self.lookup(key@) is None,
            },
    {
        proof {
            use_type_invariant(self);
        }
        match self.find(key) {
            Some(i) => {
                proof {
                    lemma_map_of_at(self.entries@, i as int);
                }
                Some(&self.entries[i].1)
            },
            None => None,
        }
    }

    /// Whether `key` is stored.
    pub fn contains_key(&self, key: &str) -> (r: bool)
        ensures
            r == self@.contains_key(key@),
    {
        self.get(key).is_some()
    }

    /// Stores `value` under `key`, replacing and returning what was stored
    /// there before (`HashMap::insert`).
    pub fn insert(&mut self, key: String, value: V) -> (r: Option<V>)
        ensures
            final(self)@ == old(self)@.insert(key@, value),
            r == (if old(self)@.contains_key(key@) {
                Some(old(self)@[key@])
            } else {
                None::<V>
            }),
    {
        proof {
            use_type_invariant(&*self);
        }
        let ghost old_entries = self.entries@;
        match self.find(key.as_str()) {
            Some(i) => {
                proof {
                    lemma_map_of_at(old_entries, i as int);
                }
                let ghost k = key@;
                let mut entries: Vec<(String, V)> = Vec::new();
                std::mem::swap(&mut entries, &mut self.entries);
                let (_, old_value) = entries.remove(i);
                entries.insert(i, (key, value));
                let ghost new_entries = entries@;
                assert(new_entries == old_entries.update(i as int, new_entries[i as int]));
                proof {
                    lemma_update_entry(old_entries, i as int, new_entries[i as int]);
                }
                self.entries = entries;
                Some(old_value)
            },
            None => {
                let ghost entry = (key, value);
                proof {
                    lemma_push_entry(old_entries, entry);
                }
                let mut entries: Vec<(String, V)> = Vec::new();
                std::mem::swap(&mut entries, &mut self.entries);
                entries.push((key, value));
                self.entries = entries;
                None
            },
        }
    }
}


/// What a read gives back of a write: once `insert` has stored `value` under
/// `key` (its contract: the new map is the old one with `key` set to
/// `value`), `get` of `key` gives `value`, and `get` of any other key gives
/// what it gave before.
pub proof fn law_get_after_insert<V>(
    before: KeyedTable<V>,
    after: KeyedTable<V>,
    key: Seq<char>,
    value: V,
    other: Seq<char>,
)
    requires
        after@ == before@.insert(key, value),
    ensures
        after.lookup(key) == Some(value),
        other != key ==> after.lookup(other) == before.lookup(other),
{
}

proof fn lemma_dom_finite<V>(entries: Seq<(String, V)>)
    requires
        distinct_keys(entries),
    ensures
        map_of(entries).dom().finite(),
        map_of(entries).dom().len() == entries.len(),
    decreases entries.len(),
{
    let m = map_of(entries);
    if entries.len() == 0 {
        assert(m.dom() =~= Set::<Seq<char>>::empty());
    } else {
        let rest = entries.drop_last();
        let last = entries.last();
        assert(distinct_keys(rest));
        lemma_dom_finite(rest);
        assert forall|i: int| 0 <= i < rest.len() implies #[trigger] rest[i].0@ != last.0@ by {
            assert(rest[i] == entries[i]);
        }
        assert(m.dom() =~= map_of(rest).dom().insert(last.0@)) by {
            assert forall|k: Seq<char>| m.dom().contains(k) implies map_of(
                rest,
            ).dom().insert(last.0@).contains(k) by {
                let i = choose|i: int| key_at(entries, k, i);
                if i < rest.len() {
                    assert(key_at(rest, k, i));
                }
            }
            assert forall|k: Seq<char>| map_of(rest).dom().insert(last.0@).contains(
                k,
            ) implies m.dom().contains(k) by {
                if k == last.0@ {
                    assert(key_at(entries, k, entries.len() - 1));
                } else {
                    let i = choose|i: int| key_at(rest, k, i);
                    assert(key_at(entries, k, i));
                }
            }
        }
        assert(!map_of(rest).dom().contains(last.0@)) by {
            if map_of(rest).dom().contains(last.0@) {
                let i = choose|i: int| key_at(rest, last.0@, i);
                assert(entries[i].0@ == entries[entries.len() - 1].0@);
            }
        }
    }
}

proof fn lemma_push_entry<V>(entries: Seq<(String, V)>, entry: (String, V))
    requires
        distinct_keys(entries),
        forall|i: int| !key_at(entries, entry.0@, i),
    ensures
        distinct_keys(entries.push(entry)),
        map_of(entries.push(entry)) == map_of(entries).insert(entry.0@, entry.1),
{
    let e2 = entries.push(entry);
    let k = entry.0@;
    assert forall|i: int, j: int|
        0 <= i < e2.len() && 0 <= j < e2.len() && i != j implies e2[i].0@ != e2[j].0@ by {
        if i < entries.len() && j < entries.len() {
            assert(e2[i] == entries[i] && e2[j] == entries[j]);
        } else if i < entries.len() {
            assert(!key_at(entries, k, i));
        } else if j < entries.len() {
            assert(!key_at(entries, k, j));
        }
    }
    let m1 = map_of(entries).insert(k, entry.1);
    let m2 = map_of(e2);
    assert forall|q: Seq<char>| m2.dom().contains(q) <==> m1.dom().contains(q) by {
        if m2.dom().contains(q) {
            let i = choose|i: int| key_at(e2, q, i);
            if i < entries.len() {
                assert(key_at(entries, q, i));
            }
        }
        if m1.dom().contains(q) {
            if q == k {
                assert(key_at(e2, q, entries.len() as int));
            } else {
                let i = choose|i: int| key_at(entries, q, i);
                assert(key_at(e2, q, i));
            }
        }
    }
    assert forall|q: Seq<char>| m2.dom().contains(q) implies m2[q] == m1[q] by {
        let i = choose|i: int| key_at(e2, q, i);
        if q == k {
            lemma_map_of_at(e2, entries.len() as int);
        } else {
            assert(i < entries.len());
            assert(key_at(entries, q, i));
            lemma_map_of_at(entries, i);
            lemma_map_of_at(e2, i);
        }
    }
    assert(m2 =~= m1);
}

proof fn lemma_update_entry<V>(entries: Seq<(String, V)>, i: int, entry: (String, V))
    requires
        distinct_keys(entries),
        0 <= i < entries.len(),
        entries[i].0@ == entry.0@,
    ensures
        distinct_keys(entries.update(i, entry)),
        map_of(entries.update(i, entry)) == map_of(entries).insert(entry.0@, entry.1),
{
    let e2 = entries.update(i, entry);
    let k = entry.0@;
    assert forall|a: int, b: int|
        0 <= a < e2.len() && 0 <= b < e2.len() && a != b implies e2[a].0@ != e2[b].0@ by {
        assert(e2[a].0@ == entries[a].0@);
        assert(e2[b].0@ == entries[b].0@);
    }
    let m1 = map_of(entries).insert(k, entry.1);
    let m2 = map_of(e2);
    assert forall|q: Seq<char>| m2.dom().contains(q) <==> m1.dom().contains(q) by {
        if m2.dom().contains(q) {
            let j = choose|j: int| key_at(e2, q, j);
            assert(key_at(entries, q, j));
        }
        if m1.dom().contains(q) {
            if q == k {
                assert(key_at(e2, q, i));
            } else {
                let j = choose|j: int| key_at(entries, q, j);
                assert(key_at(e2, q, j));
            }
        }
    }
    assert forall|q: Seq<char>| m2.dom().contains(q) implies m2[q] == m1[q] by {
        let j = choose|j: int| key_at(e2, q, j);
        lemma_map_of_at(e2, j);
        if q != k {
            assert(j != i);
            assert(key_at(entries, q, j));
            lemma_map_of_at(entries, j);
        }
    }
    assert(m2 =~= m1);
}

} // verus!
