//! Name-keyed maps whose entries are kept in ascending key order.

use vstd::prelude::*;
use crate::text::{seq_less, str_eq, str_less, lemma_seq_less_irreflexive, lemma_seq_less_total,
    lemma_seq_less_transitive};

verus! {

/// A finite map from names to values, iterated in ascending name order.
#[derive(Debug)]
pub struct NameMap<V> {
    entries: Vec<(String, V)>,
}

/// Keys of an entry sequence.
pub open spec fn entry_keys<V>(s: Seq<(String, V)>) -> Seq<Seq<char>> {
    s.map_values(|e: (String, V)| e.0@)
}

/// Keys are strictly ascending.
pub open spec fn keys_ascending(keys: Seq<Seq<char>>) -> bool {
    forall|i: int, j: int| 0 <= i < j < keys.len() ==> seq_less(#[trigger] keys[i], #[trigger] keys[j])
}

/// The map denoted by an entry sequence.
pub open spec fn map_of<V>(s: Seq<(String, V)>) -> Map<Seq<char>, V>
    decreases s.len(),
{
    if s.len() == 0 {
        Map::empty()
    } else {
        map_of(s.drop_last()).insert(s.last().0@, s.last().1)
    }
}

/// Ascending keys are pairwise distinct.
pub proof fn lemma_ascending_distinct(keys: Seq<Seq<char>>, i: int, j: int)
    requires
        keys_ascending(keys),
        0 <= i < keys.len(),
        0 <= j < keys.len(),
        i != j,
    ensures
        keys[i] != keys[j],
{
    if i < j {
        assert(seq_less(keys[i], keys[j]));
        lemma_seq_less_irreflexive(keys[i]);
    } else {
        assert(seq_less(keys[j], keys[i]));
        lemma_seq_less_irreflexive(keys[j]);
    }
}

/// Domain and values of the denoted map, for distinct keys.
pub proof fn lemma_map_of<V>(s: Seq<(String, V)>)
    requires
        keys_ascending(entry_keys(s)),
    ensures
        forall|k: Seq<char>| #[trigger] map_of(s).contains_key(k) <==> exists|i: int| 0 <= i < s.len() && s[i].0@ == k,
        forall|i: int| 0 <= i < s.len() ==> map_of(s).contains_key(#[trigger] s[i].0@) && map_of(s)[s[i].0@] == s[i].1,
    decreases s.len(),
{
    if s.len() > 0 {
        let t = s.drop_last();
        assert(entry_keys(t) =~= entry_keys(s).drop_last());
        lemma_map_of(t);
        assert forall|i: int| 0 <= i < s.len() implies map_of(s).contains_key(#[trigger] s[i].0@) && map_of(s)[s[i].0@] == s[i].1 by {
            if i < s.len() - 1 {
                assert(entry_keys(s)[i] == s[i].0@);
                assert(entry_keys(s)[s.len() - 1] == s.last().0@);
                lemma_ascending_distinct(entry_keys(s), i, s.len() - 1);
                assert(t[i] == s[i]);
            }
        }
        assert forall|k: Seq<char>| #[trigger] map_of(s).contains_key(k) implies exists|i: int| 0 <= i < s.len() && s[i].0@ == k by {
            if k != s.last().0@ {
                assert(map_of(t).contains_key(k));
                let i = choose|i: int| 0 <= i < t.len() && t[i].0@ == k;
                assert(s[i] == t[i]);
            } else {
                assert(s[s.len() - 1].0@ == k);
            }
        }
    }
}

/// The denoted map is finite.
pub proof fn lemma_map_of_finite<V>(s: Seq<(String, V)>)
    ensures
        map_of(s).dom().finite(),
    decreases s.len(),
{
    if s.len() > 0 {
        lemma_map_of_finite(s.drop_last());
    }
}

impl<V> View for NameMap<V> {
    type V = Map<Seq<char>, V>;

    closed spec fn view(&self) -> Map<Seq<char>, V> {
        map_of(self.entries@)
    }
}

impl<V> NameMap<V> {
    /// Entries in ascending key order.
    pub closed spec fn entries_spec(&self) -> Seq<(String, V)> {
        self.entries@
    }

    /// Well-formedness: keys strictly ascending.
    pub open spec fn wf(&self) -> bool {
        keys_ascending(entry_keys(self.entries_spec()))
    }

    /// The view agrees with the ordered entries.
    pub proof fn lemma_view(&self)
        requires
            self.wf(),
        ensures
            self@ == map_of(self.entries_spec()),
            forall|k: Seq<char>| #[trigger] self@.contains_key(k) <==> exists|i: int|
                0 <= i < self.entries_spec().len() && self.entries_spec()[i].0@ == k,
            forall|i: int| 0 <= i < self.entries_spec().len() ==> self@.contains_key(#[trigger] self.entries_spec()[i].0@)
                && self@[self.entries_spec()[i].0@] == self.entries_spec()[i].1,
    {
        lemma_map_of(self.entries@);
    }

    /// The map has finitely many keys.
    pub proof fn lemma_finite(&self)
        ensures
            self@.dom().finite(),
    {
        lemma_map_of_finite(self.entries@);
    }

    /// Empty map.
    pub fn new() -> (r: Self)
        ensures
            r.wf(),
            r@ == Map::<Seq<char>, V>::empty(),
            r.entries_spec().len() == 0,
    {
        NameMap { entries: Vec::new() }
    }

    /// Number of entries.
    pub fn len(&self) -> (r: usize)
        requires
            self.wf(),
        ensures
            r == self.entries_spec().len(),
    {
        self.entries.len()
    }

    /// Position of `key` among the entries.
    fn position(&self, key: &str) -> (r: Option<usize>)
        requires
            self.wf(),
        ensures
            r matches Some(i) ==> i < self.entries@.len() && self.entries@[i as int].0@ == key@,
            r is None ==> forall|i: int| 0 <= i < self.entries@.len() ==> self.entries@[i].0@ != key@,
    {
        let mut i: usize = 0;
        while i < self.entries.len()
            invariant
                i <= self.entries@.len(),
                forall|j: int| 0 <= j < i ==> self.entries@[j].0@ != key@,
            decreases self.entries@.len() - i,
        {
            if str_eq(self.entries[i].0.as_str(), key) {
                return Some(i);
            }
            i = i + 1;
        }
        None
    }

    /// Whether `key` is present.
    pub fn contains_key(&self, key: &str) -> (r: bool)
        requires
            self.wf(),
        ensures
            r == self@.contains_key(key@),
    {
        proof {
            lemma_map_of(self.entries@);
        }
        self.position(key).is_some()
    }

    /// Value stored under `key`.
    pub fn get(&self, key: &str) -> (r: Option<&V>)
        requires
            self.wf(),
        ensures
            r is Some <==> self@.contains_key(key@),
            r matches Some(v) ==> *v == self@[key@],
    {
        proof {
            lemma_map_of(self.entries@);
        }
        match self.position(key) {
            Some(i) => Some(&self.entries[i].1),
            None => None,
        }
    }

    /// Entry at position `i` in ascending key order.
    pub fn entry_at(&self, i: usize) -> (r: (&String, &V))
        requires
            self.wf(),
            i < self.entries_spec().len(),
        ensures
            *r.0 == self.entries_spec()[i as int].0,
            *r.1 == self.entries_spec()[i as int].1,
    {
        let e = &self.entries[i];
        (&e.0, &e.1)
    }

    /// The entries, in ascending key order.
    pub fn into_entries(self) -> (r: Vec<(String, V)>)
        ensures
            r@ == self.entries_spec(),
    {
        self.entries
    }

    /// Remove and return the value stored under `key`.
    pub fn take(&mut self, key: &str) -> (r: Option<V>)
        requires
            old(self).wf(),
        ensures
            final(self).wf(),
            r is Some <==> old(self)@.contains_key(key@),
            r matches Some(v) ==> v == old(self)@[key@],
            final(self)@ == old(self)@.remove(key@),
    {
        proof {
            lemma_map_of(self.entries@);
        }
        match self.position(key) {
            Some(i) => {
                let ghost old_entries = self.entries@;
                let e = self.entries.remove(i);
                proof {
                    let s = self.entries@;
                    assert(s =~= old_entries.subrange(0, i as int) + old_entries.subrange(i + 1, old_entries.len() as int));
                    assert forall|a: int, b: int| 0 <= a < b < entry_keys(s).len() implies seq_less(#[trigger] entry_keys(s)[a], #[trigger] entry_keys(s)[b]) by {
                        let a2 = if a < i { a } else { a + 1 };
                        let b2 = if b < i { b } else { b + 1 };
                        assert(entry_keys(old_entries)[a2] == entry_keys(s)[a]);
                        assert(entry_keys(old_entries)[b2] == entry_keys(s)[b]);
                    }
                    lemma_map_of(s);
                    assert(map_of(s) =~= map_of(old_entries).remove(key@)) by {
                        assert forall|k: Seq<char>| #[trigger] map_of(s).contains_key(k) implies map_of(s)[k] == map_of(old_entries)[k] && k != key@ by {
                            let j = choose|j: int| 0 <= j < s.len() && s[j].0@ == k;
                            let j2 = if j < i { j } else { j + 1 };
                            assert(s[j] == old_entries[j2]);
                            if k == key@ {
                                assert(entry_keys(old_entries)[j2] == k);
                                assert(entry_keys(old_entries)[i as int] == k);
                                lemma_ascending_distinct(entry_keys(old_entries), i as int, j2);
                            }
                        }
                        assert forall|k: Seq<char>| map_of(old_entries).contains_key(k) && k != key@ implies #[trigger] map_of(s).contains_key(k) by {
                            let j2 = choose|j2: int| 0 <= j2 < old_entries.len() && old_entries[j2].0@ == k;
                            let j = if j2 < i { j2 } else { j2 - 1 };
                            assert(s[j] == old_entries[j2]);
                        }
                    }
                }
                Some(e.1)
            },
            None => {
                proof {
                    assert(map_of(self.entries@) =~= map_of(self.entries@).remove(key@));
                }
                None
            },
        }
    }

    /// Insert or replace the value stored under `key`.
    pub fn insert(&mut self, key: String, value: V)
        requires
            old(self).wf(),
        ensures
            final(self).wf(),
            final(self)@ == old(self)@.insert(key@, value),
    {
        let _ = self.take(key.as_str());
        let ghost base = self.entries@;
        proof {
            lemma_map_of(base);
        }
        let mut i: usize = 0;
        while i < self.entries.len()
            invariant
                i <= self.entries@.len(),
                self.entries@ == base,
                keys_ascending(entry_keys(base)),
                forall|j: int| 0 <= j < base.len() ==> base[j].0@ != key@,
                forall|j: int| 0 <= j < i ==> seq_less(base[j].0@, key@),
            ensures
                i <= base.len(),
                forall|j: int| 0 <= j < i ==> seq_less(base[j].0@, key@),
                i < base.len() ==> !seq_less(base[i as int].0@, key@),
            decreases self.entries@.len() - i,
        {
            if !str_less(self.entries[i].0.as_str(), key.as_str()) {
                break;
            }
            i = i + 1;
        }
        let ghost k = key@;
        self.entries.insert(i, (key, value));
        proof {
            let s = self.entries@;
            assert(s =~= base.subrange(0, i as int).push((s[i as int].0, value)) + base.subrange(i as int, base.len() as int));
            assert(s[i as int].0@ == k);
            assert forall|j: int| i <= j < base.len() implies seq_less(k, #[trigger] base[j].0@) by {
                assert(base[i as int].0@ != k);
                lemma_seq_less_total(base[i as int].0@, k);
                if j > i {
                    assert(entry_keys(base)[i as int] == base[i as int].0@);
                    assert(entry_keys(base)[j] == base[j].0@);
                    lemma_seq_less_transitive(k, base[i as int].0@, base[j].0@);
                }
            }
            assert forall|a: int, b: int| 0 <= a < b < entry_keys(s).len() implies seq_less(#[trigger] entry_keys(s)[a], #[trigger] entry_keys(s)[b]) by {
                assert(entry_keys(s)[a] == s[a].0@);
                assert(entry_keys(s)[b] == s[b].0@);
                if a < i && b < i {
                    assert(entry_keys(base)[a] == base[a].0@);
                    assert(entry_keys(base)[b] == base[b].0@);
                } else if a < i && b == i {
                } else if a < i && b > i {
                    lemma_seq_less_transitive(base[a].0@, k, base[b - 1].0@);
                } else if a == i {
                } else {
                    assert(entry_keys(base)[a - 1] == base[a - 1].0@);
                    assert(entry_keys(base)[b - 1] == base[b - 1].0@);
                }
            }
            lemma_map_of(s);
            assert(map_of(s) =~= map_of(base).insert(k, value)) by {
                assert forall|x: Seq<char>| #[trigger] map_of(s).contains_key(x) <==> map_of(base).insert(k, value).contains_key(x) by {
                    if map_of(s).contains_key(x) && x != k {
                        let j = choose|j: int| 0 <= j < s.len() && s[j].0@ == x;
                        let j2 = if j < i { j } else { j - 1 };
                        assert(base[j2] == s[j]);
                    }
                    if map_of(base).contains_key(x) {
                        let j2 = choose|j2: int| 0 <= j2 < base.len() && base[j2].0@ == x;
                        let j = if j2 < i { j2 } else { j2 + 1 };
                        assert(s[j] == base[j2]);
                    }
                    if x == k {
                        assert(s[i as int].0@ == k);
                    }
                }
                assert forall|x: Seq<char>| #[trigger] map_of(s).contains_key(x) implies map_of(s)[x] == map_of(base).insert(k, value)[x] by {
                    let j = choose|j: int| 0 <= j < s.len() && s[j].0@ == x;
                    if x == k {
                        if j != i {
                            lemma_ascending_distinct(entry_keys(s), i as int, j);
                        }
                    } else {
                        let j2 = if j < i { j } else { j - 1 };
                        assert(base[j2] == s[j]);
                    }
                }
            }
        }
    }
}

} // verus!
