//! Maps keyed by index name: the loaded indices and the cached index configurations of
//! the server are kept in them.

use vstd::prelude::*;

verus! {

/// A map from index names to values, each name present at most once.
pub struct NameMap<V> {
    entries: Vec<(String, V)>,
}

pub open spec fn names_of<V>(e: Seq<(String, V)>) -> Seq<Seq<char>> {
    e.map_values(|p: (String, V)| p.0@)
}

pub open spec fn has_name<V>(e: Seq<(String, V)>, k: Seq<char>) -> bool {
    exists|i: int| 0 <= i < e.len() && (#[trigger] e[i]).0@ == k
}

pub open spec fn index_of<V>(e: Seq<(String, V)>, k: Seq<char>) -> int {
    choose|i: int| 0 <= i < e.len() && (#[trigger] e[i]).0@ == k
}

pub open spec fn distinct_names<V>(e: Seq<(String, V)>) -> bool {
    forall|i: int, j: int|
        0 <= i < e.len() && 0 <= j < e.len() && i != j ==> (#[trigger] e[i]).0@ != (
        #[trigger] e[j]).0@
}

pub open spec fn map_of<V>(e: Seq<(String, V)>) -> Map<Seq<char>, V> {
    Map::new(|k: Seq<char>| has_name(e, k), |k: Seq<char>| e[index_of(e, k)].1)
}

impl<V> View for NameMap<V> {
    type V = Map<Seq<char>, V>;

    closed spec fn view(&self) -> Map<Seq<char>, V> {
        map_of(self.entries@)
    }
}

/// In a list with distinct names, the entry of a name is its only entry.
proof fn lemma_index_of<V>(e: Seq<(String, V)>, i: int)
    requires
        distinct_names(e),
        0 <= i < e.len(),
    ensures
        has_name(e, e[i].0@),
        index_of(e, e[i].0@) == i,
        map_of(e).contains_key(e[i].0@),
        map_of(e)[e[i].0@] == e[i].1,
{
    assert(has_name(e, e[i].0@));
}

fn key_of(name: &str) -> (s: String)
    ensures
        s@ == name@,
{
    broadcast use vstd::string::group_string_axioms;

    name.to_string()
}

impl<V> NameMap<V> {
    /// No name occurs twice.
    pub closed spec fn wf(&self) -> bool {
        distinct_names(self.entries@)
    }

    /// An empty map.
    pub fn new() -> (m: Self)
        ensures
            m.wf(),
            m@ == Map::<Seq<char>, V>::empty(),
    {
        let m = NameMap { entries: Vec::new() };
        assert(m@ =~= Map::<Seq<char>, V>::empty());
        m
    }

    /// Position of the entry named `key`.
    fn find(&self, key: &String) -> (r: Option<usize>)
        requires
            self.wf(),
        ensures
            match r {
                Some(i) => i < self.entries@.len() && self.entries@[i as int].0@ == key@,
                None => !has_name(self.entries@, key@),
            },
    {
        let n = self.entries.len();
        for i in 0..n
            invariant
                n == self.entries@.len(),
                forall|j: int| 0 <= j < i ==> (#[trigger] self.entries@[j]).0@ != key@,
        {
            if self.entries[i].0 == *key {
                return Some(i);
            }
        }
        None
    }

    /// The value of `name`, if present.
    pub fn get(&self, name: &str) -> (r: Option<&V>)
        requires
            self.wf(),
        ensures
            match r {
                Some(v) => self@.contains_key(name@) && *v == self@[name@],
                None => !self@.contains_key(name@),
            },
    {
        let key = key_of(name);
        match self.find(&key) {
            Some(i) => {
                proof {
                    lemma_index_of(self.entries@, i as int);
                }
                Some(&self.entries[i].1)
            },
            None => None,
        }
    }

    /// Whether `name` is present.
    pub fn contains(&self, name: &str) -> (b: bool)
        requires
            self.wf(),
        ensures
            b == self@.contains_key(name@),
    {
        self.get(name).is_some()
    }

    /// Sets the value of `name` (replacing the one it had).
    pub fn insert(&mut self, name: &str, value: V)
        requires
            old(self).wf(),
        ensures
            final(self).wf(),
            final(self)@ == old(self)@.insert(name@, value),
    {
        let key = key_of(name);
        let ghost e = self.entries@;
        match self.find(&key) {
            Some(i) => {
                self.entries.set(i, (key, value));
                proof {
                    let e2 = self.entries@;
                    assert forall|a: int, b: int|
                        0 <= a < e2.len() && 0 <= b < e2.len() && a != b implies (#[trigger] e2[a]).0@
                        != (#[trigger] e2[b]).0@ by {
                        if a != i && b != i {
                            assert(e[a] == e2[a] && e[b] == e2[b]);
                        } else if a == i {
                            assert(e[b] == e2[b]);
                            assert(e[i as int].0@ != e[b].0@);
                        } else {
                            assert(e[a] == e2[a]);
                            assert(e[i as int].0@ != e[a].0@);
                        }
                    }
                    assert forall|k: Seq<char>| #[trigger] map_of(e2).contains_key(k) == old(self)@.insert(
                        name@,
                        value,
                    ).contains_key(k) by {
                        if has_name(e, k) {
                            let j = index_of(e, k);
                            if j == i {
                                assert(e2[i as int].0@ == k);
                            } else {
                                assert(e2[j].0@ == k);
                            }
                        }
                        if has_name(e2, k) {
                            let j = index_of(e2, k);
                            if j != i {
                                assert(e[j].0@ == k);
                            }
                        }
                    }
                    assert forall|k: Seq<char>| #[trigger] map_of(e2).contains_key(k) implies map_of(
                        e2,
                    )[k] == old(self)@.insert(name@, value)[k] by {
                        let j = index_of(e2, k);
                        lemma_index_of(e2, j);
                        if j != i {
                            assert(e[j] == e2[j]);
                            lemma_index_of(e, j);
                        }
                    }
                    assert(map_of(e2) =~= old(self)@.insert(name@, value));
                }
            },
            None => {
                self.entries.push((key, value));
                proof {
                    let e2 = self.entries@;
                    let n = e.len() as int;
                    assert forall|a: int, b: int|
                        0 <= a < e2.len() && 0 <= b < e2.len() && a != b implies (#[trigger] e2[a]).0@
                        != (#[trigger] e2[b]).0@ by {
                        if a < n && b < n {
                            assert(e[a] == e2[a] && e[b] == e2[b]);
                        } else if a == n {
                            assert(e[b] == e2[b]);
                        } else {
                            assert(e[a] == e2[a]);
                        }
                    }
                    assert forall|k: Seq<char>| #[trigger] map_of(e2).contains_key(k) == old(self)@.insert(
                        name@,
                        value,
                    ).contains_key(k) by {
                        if has_name(e, k) {
                            let j = index_of(e, k);
                            assert(e2[j].0@ == k);
                        }
                        if k == name@ {
                            assert(e2[n].0@ == k);
                        }
                        if has_name(e2, k) {
                            let j = index_of(e2, k);
                            if j < n {
                                assert(e[j].0@ == k);
                            }
                        }
                    }
                    assert forall|k: Seq<char>| #[trigger] map_of(e2).contains_key(k) implies map_of(
                        e2,
                    )[k] == old(self)@.insert(name@, value)[k] by {
                        let j = index_of(e2, k);
                        lemma_index_of(e2, j);
                        if j < n {
                            assert(e[j] == e2[j]);
                            lemma_index_of(e, j);
                        }
                    }
                    assert(map_of(e2) =~= old(self)@.insert(name@, value));
                }
            },
        }
    }

    /// Removes `name`; tells whether it was present.
    pub fn remove(&mut self, name: &str) -> (b: bool)
        requires
            old(self).wf(),
        ensures
            final(self).wf(),
            b == old(self)@.contains_key(name@),
            final(self)@ == old(self)@.remove(name@),
    {
        let key = key_of(name);
        let ghost e = self.entries@;
        match self.find(&key) {
            Some(i) => {
                proof {
                    lemma_index_of(e, i as int);
                }
                let _ = self.entries.remove(i);
                proof {
                    let e2 = self.entries@;
                    assert forall|a: int, b: int|
                        0 <= a < e2.len() && 0 <= b < e2.len() && a != b implies (#[trigger] e2[a]).0@
                        != (#[trigger] e2[b]).0@ by {
                        let a0 = if a < i { a } else { a + 1 };
                        let b0 = if b < i { b } else { b + 1 };
                        assert(e2[a] == e[a0] && e2[b] == e[b0]);
                    }
                    assert forall|k: Seq<char>| #[trigger] map_of(e2).contains_key(k) == old(self)@.remove(
                        name@,
                    ).contains_key(k) by {
                        if has_name(e, k) && k != name@ {
                            let j = index_of(e, k);
                            if j < i {
                                assert(e2[j].0@ == k);
                            } else {
                                assert(j != i);
                                assert(e2[j - 1].0@ == k);
                            }
                        }
                        if has_name(e2, k) {
                            let j = index_of(e2, k);
                            let j0 = if j < i { j } else { j + 1 };
                            assert(e[j0].0@ == k);
                            assert(j0 != i);
                        }
                    }
                    assert forall|k: Seq<char>| #[trigger] map_of(e2).contains_key(k) implies map_of(
                        e2,
                    )[k] == old(self)@.remove(name@)[k] by {
                        let j = index_of(e2, k);
                        lemma_index_of(e2, j);
                        let j0 = if j < i { j } else { j + 1 };
                        assert(e2[j] == e[j0]);
                        lemma_index_of(e, j0);
                    }
                    assert(map_of(e2) =~= old(self)@.remove(name@));
                }
                true
            },
            None => {
                assert(old(self)@.remove(name@) =~= old(self)@);
                false
            },
        }
    }

    /// Number of names present.
    pub fn len(&self) -> (n: usize)
        requires
            self.wf(),
        ensures
            n == self@.len(),
    {
        proof {
            let e = self.entries@;
            let names = names_of(e);
            assert(names.no_duplicates()) by {
                assert forall|i: int, j: int|
                    0 <= i < names.len() && 0 <= j < names.len() && i != j implies names[i]
                    != names[j] by {
                    assert(e[i].0@ != e[j].0@);
                }
            }
            names.unique_seq_to_set();
            assert forall|k: Seq<char>| #[trigger] names.to_set().contains(k) == map_of(e).dom().contains(k) by {
                if names.to_set().contains(k) {
                    let i = choose|i: int| 0 <= i < names.len() && names[i] == k;
                    assert(e[i].0@ == k);
                }
                if map_of(e).dom().contains(k) {
                    let i = index_of(e, k);
                    assert(names[i] == k);
                }
            }
            assert(names.to_set() =~= map_of(e).dom());
        }
        self.entries.len()
    }
}

/// What a read gives back after writes: the value last inserted under a name, nothing
/// after its removal, and for every other name what it held before.
pub proof fn lemma_read_after_write<V>(m: Map<Seq<char>, V>, k: Seq<char>, v: V, other: Seq<char>)
    requires
        other != k,
    ensures
        m.insert(k, v).contains_key(k),
        m.insert(k, v)[k] == v,
        !m.remove(k).contains_key(k),
        m.insert(k, v).contains_key(other) == m.contains_key(other),
        m.contains_key(other) ==> m.insert(k, v)[other] == m[other],
        m.remove(k).contains_key(other) == m.contains_key(other),
        m.contains_key(other) ==> m.remove(k)[other] == m[other],
{
}

} // verus!
