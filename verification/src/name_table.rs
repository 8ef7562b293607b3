//! Tables of values keyed by names or other comparable keys.

use vstd::prelude::*;
use vstd::string::StringExecFns;

verus! {

/// A key that can be compared by value.
pub trait TableKey: View + Sized {
    /// Whether two keys have the same value.
    fn same_key(&self, other: &Self) -> (r: bool)
        ensures
            r == (self@ == other@);

    /// A copy of the key.
    fn copy_key(&self) -> (r: Self)
        ensures
            r@ == self@;
}

impl TableKey for String {
    fn same_key(&self, other: &Self) -> (r: bool) {
        *self == *other
    }

    fn copy_key(&self) -> (r: Self) {
        self.clone()
    }
}

/// A table of values keyed by name.
pub type NameTable<V> = KeyTable<String, V>;

/// A table of values keyed by `K`, where a later insertion under a key
/// replaces the earlier one.
pub struct KeyTable<K, V> {
    entries: Vec<(K, V)>,
}

impl<K: TableKey, V> KeyTable<K, V> {
    /// The value held under `name`.
    pub closed spec fn lookup(&self, name: K::V) -> Option<V> {
        if exists|i: int| 0 <= i < self.entries@.len() && self.entries@[i].0@ == name {
            let i = choose|i: int| 0 <= i < self.entries@.len() && self.entries@[i].0@ == name;
            Some(self.entries@[i].1)
        } else {
            None
        }
    }

    /// Names are held once.
    pub closed spec fn wf(&self) -> bool {
        forall|i: int, j: int|
            0 <= i < self.entries@.len() && 0 <= j < self.entries@.len() && i != j
                ==> self.entries@[i].0@ != self.entries@[j].0@
    }

    proof fn lemma_lookup_at(&self, i: int)
        requires
            self.wf(),
            0 <= i < self.entries@.len(),
        ensures
            self.lookup(self.entries@[i].0@) == Some(self.entries@[i].1),
    {
        let name = self.entries@[i].0@;
        assert(exists|k: int| 0 <= k < self.entries@.len() && self.entries@[k].0@ == name);
        let j = choose|j: int| 0 <= j < self.entries@.len() && self.entries@[j].0@ == name;
        assert(j == i);
    }

    proof fn lemma_lookup_none(&self, name: K::V)
        requires
            forall|k: int| 0 <= k < self.entries@.len() ==> self.entries@[k].0@ != name,
        ensures
            self.lookup(name) is None,
    {
    }

    /// An empty table.
    pub fn new() -> (r: Self)
        ensures
            r.wf(),
            forall|name: K::V| #[trigger] r.lookup(name) is None,
    {
        KeyTable { entries: Vec::new() }
    }

    /// Holds `value` under `name`, replacing what was held under it.
    pub fn insert(&mut self, key: K, value: V)
        requires
            old(self).wf(),
        ensures
            final(self).wf(),
            final(self).lookup(key@) == Some(value),
            forall|other: K::V|
                other != key@ ==> #[trigger] final(self).lookup(other) == old(self).lookup(other),
    {
        let ghost name = key@;
        let ghost g0 = *self;
        let mut i: usize = 0;
        while i < self.entries.len()
            invariant
                key@ == name,
                *self == g0,
                g0 == *old(self),
                g0.wf(),
                i <= self.entries@.len(),
                forall|k: int| 0 <= k < i ==> self.entries@[k].0@ != name,
            decreases self.entries@.len() - i,
        {
            if self.entries[i].0.same_key(&key) {
                self.entries.set(i, (key, value));
                proof {
                    assert forall|a: int, b: int|
                        0 <= a < self.entries@.len() && 0 <= b < self.entries@.len() && a != b
                            implies self.entries@[a].0@ != self.entries@[b].0@ by {
                        assert(g0.entries@[a].0@ != g0.entries@[b].0@);
                    }
                    self.lemma_lookup_at(i as int);
                    assert forall|other: K::V|
                        other != name implies #[trigger] self.lookup(other) == g0.lookup(other) by {
                        if exists|j: int| 0 <= j < g0.entries@.len() && g0.entries@[j].0@ == other {
                            let j = choose|j: int| 0 <= j < g0.entries@.len() && g0.entries@[j].0@ == other;
                            g0.lemma_lookup_at(j);
                            self.lemma_lookup_at(j);
                        } else {
                            assert forall|k: int| 0 <= k < self.entries@.len() implies self.entries@[k].0@ != other by {
                                if k != i as int {
                                    assert(self.entries@[k] == g0.entries@[k]);
                                }
                            }
                            self.lemma_lookup_none(other);
                        }
                    }
                }
                return;
            }
            i = i + 1;
        }
        self.entries.push((key, value));
        proof {
            let n = g0.entries@.len() as int;
            assert forall|a: int, b: int|
                0 <= a < self.entries@.len() && 0 <= b < self.entries@.len() && a != b
                    implies self.entries@[a].0@ != self.entries@[b].0@ by {
                if a < n && b < n {
                    assert(g0.entries@[a].0@ != g0.entries@[b].0@);
                }
            }
            self.lemma_lookup_at(n);
            assert forall|other: K::V|
                other != name implies #[trigger] self.lookup(other) == g0.lookup(other) by {
                if exists|j: int| 0 <= j < g0.entries@.len() && g0.entries@[j].0@ == other {
                    let j = choose|j: int| 0 <= j < g0.entries@.len() && g0.entries@[j].0@ == other;
                    g0.lemma_lookup_at(j);
                    self.lemma_lookup_at(j);
                } else {
                    self.lemma_lookup_none(other);
                }
            }
        }
    }

    /// Copies of the keys under which values are held, each once.
    pub fn keys(&self) -> (r: Vec<K>)
        requires
            self.wf(),
        ensures
            forall|i: int, j: int|
                0 <= i < r@.len() && 0 <= j < r@.len() && i != j ==> r@[i]@ != r@[j]@,
            forall|name: K::V|
                #[trigger] self.lookup(name) is Some <==> exists|i: int| 0 <= i < r@.len() && r@[i]@ == name,
    {
        let mut r: Vec<K> = Vec::new();
        let mut i: usize = 0;
        while i < self.entries.len()
            invariant
                self.wf(),
                i <= self.entries@.len(),
                r@.len() == i,
                forall|k: int| 0 <= k < i ==> (#[trigger] r@[k])@ == self.entries@[k].0@,
            decreases self.entries@.len() - i,
        {
            r.push(self.entries[i].0.copy_key());
            i = i + 1;
        }
        proof {
            assert forall|name: K::V| #[trigger] self.lookup(name) is Some <==> exists|k: int|
                0 <= k < r@.len() && r@[k]@ == name by {
                if exists|k: int| 0 <= k < r@.len() && r@[k]@ == name {
                    let k = choose|k: int| 0 <= k < r@.len() && r@[k]@ == name;
                    self.lemma_lookup_at(k);
                }
                if self.lookup(name) is Some {
                    let k = choose|k: int| 0 <= k < self.entries@.len() && self.entries@[k].0@ == name;
                    assert(r@[k]@ == name);
                }
            }
        }
        r
    }

    /// The value held under `name`.
    pub fn get(&self, key: &K) -> (r: Option<&V>)
        requires
            self.wf(),
        ensures
            match self.lookup(key@) {
                Some(v) => r == Some(&v),
                None => r is None,
            },
    {
        let mut i: usize = 0;
        while i < self.entries.len()
            invariant
                self.wf(),
                i <= self.entries@.len(),
                forall|k: int| 0 <= k < i ==> self.entries@[k].0@ != key@,
            decreases self.entries@.len() - i,
        {
            if self.entries[i].0.same_key(key) {
                proof {
                    self.lemma_lookup_at(i as int);
                }
                return Some(&self.entries[i].1);
            }
            i = i + 1;
        }
        None
    }
}

} // verus!
