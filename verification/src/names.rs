//! Tables keyed by name: `NameMap` (a name → value table that remembers the
//! order in which names were first added) and `NameSet`.
use vstd::prelude::*;
use crate::text::{lemma_sort_seq, sort_seq, sort_strings, str_equal, string_views, strictly_sorted};

verus! {

/// A table from names to values. Each name occurs at most once; the names
/// are kept in the order in which they were first inserted.
#[derive(Debug)]
pub struct NameMap<V> {
    entries: Vec<(String, V)>,
}

impl<V> NameMap<V> {
    /// The names, in table order.
    pub closed spec fn keys(&self) -> Seq<Seq<char>> {
        self.entries@.map_values(|e: (String, V)| e.0@)
    }

    /// The values, in table order (`values()[i]` belongs to `keys()[i]`).
    pub closed spec fn values(&self) -> Seq<V> {
        self.entries@.map_values(|e: (String, V)| e.1)
    }

    #[verifier::type_invariant]
    closed spec fn no_name_twice(&self) -> bool {
        self.keys().no_duplicates()
    }

    /// There is one value for each name.
    pub proof fn lemma_lengths(&self)
        ensures
            self.keys().len() == self.values().len(),
    {
    }

    /// The value stored under `k`, if any.
    pub open spec fn spec_get(&self, k: Seq<char>) -> Option<V> {
        if self.keys().contains(k) {
            Some(self.values()[self.keys().index_of(k)])
        } else {
            None
        }
    }

    /// An empty table.
    pub fn new() -> (r: Self)
        ensures
            r.keys() == Seq::<Seq<char>>::empty(),
            r.values() == Seq::<V>::empty(),
    {
        let r = NameMap { entries: Vec::new() };
        assert(r.keys() =~= Seq::<Seq<char>>::empty());
        assert(r.values() =~= Seq::<V>::empty());
        r
    }

    /// The number of names in the table.
    pub fn len(&self) -> (r: usize)
        ensures
            r == self.keys().len(),
            self.keys().len() == self.values().len(),
            self.keys().no_duplicates(),
    {
        proof {
            use_type_invariant(self);
        }
        self.entries.len()
    }

    /// The name at position `i`.
    pub fn key_at(&self, i: usize) -> (r: &String)
        requires
            i < self.keys().len(),
        ensures
            r@ == self.keys()[i as int],
    {
        &self.entries[i].0
    }

    /// The value at position `i`.
    pub fn value_at(&self, i: usize) -> (r: &V)
        requires
            i < self.keys().len(),
        ensures
            *r == self.values()[i as int],
    {
        &self.entries[i].1
    }

    /// The position of `k` among the names, if it is there.
    pub fn position(&self, k: &str) -> (r: Option<usize>)
        ensures
            match r {
                Some(i) => {
                    &&& self.keys().contains(k@)
                    &&& i == self.keys().index_of(k@)
                    &&& i < self.keys().len()
                    &&& self.keys()[i as int] == k@
                },
                None => !self.keys().contains(k@),
            },
    {
        proof {
            use_type_invariant(self);
        }
        let n = self.entries.len();
        for i in 0..n
            invariant
                n == self.keys().len(),
                self.keys().no_duplicates(),
                forall|j: int| 0 <= j < i ==> self.keys()[j] != k@,
        {
            if str_equal(self.entries[i].0.as_str(), k) {
                proof {
                    assert(self.keys()[i as int] == k@);
                    assert(self.keys().contains(k@));
                    self.keys().index_of_first_ensures(k@);
                }
                return Some(i);
            }
        }
        None
    }

    /// The value stored under `k`, if any.
    pub fn get(&self, k: &str) -> (r: Option<&V>)
        ensures
            match r {
                Some(v) => self.spec_get(k@) == Some(*v),
                None => self.spec_get(k@) is None,
            },
    {
        match self.position(k) {
            Some(i) => Some(&self.entries[i].1),
            None => None,
        }
    }

    /// Whether `k` is one of the names.
    pub fn contains_key(&self, k: &str) -> (r: bool)
        ensures
            r == self.keys().contains(k@),
    {
        self.position(k).is_some()
    }

    /// Stores `v` under `k`: a name already present keeps its position and
    /// gets the new value; a new name goes to the end.
    pub fn insert(&mut self, k: String, v: V)
        ensures
            old(self).keys().contains(k@) ==> {
                &&& final(self).keys() == old(self).keys()
                &&& final(self).values() == old(self).values().update(
                    old(self).keys().index_of(k@),
                    v,
                )
            },
            !old(self).keys().contains(k@) ==> {
                &&& final(self).keys() == old(self).keys().push(k@)
                &&& final(self).values() == old(self).values().push(v)
            },
            final(self)@ == old(self)@.insert(k@, v),
            final(self).spec_get(k@) == Some(v),
            forall|other: Seq<char>|
                other != k@ ==> final(self).spec_get(other) == old(self).spec_get(other),
    {
        proof {
            use_type_invariant(&*self);
        }
        let ghost kv = k@;
        match self.position(k.as_str()) {
            Some(i) => {
                let mut entries: Vec<(String, V)> = Vec::new();
                std::mem::swap(&mut entries, &mut self.entries);
                entries.set(i, (k, v));
                proof {
                    assert(entries@.map_values(|e: (String, V)| e.0@) =~= old(self).keys());
                }
                self.entries = entries;
                proof {
                    assert(self.keys() =~= old(self).keys());
                    assert(self.values() =~= old(self).values().update(i as int, v));
                }
            },
            None => {
                let mut entries: Vec<(String, V)> = Vec::new();
                std::mem::swap(&mut entries, &mut self.entries);
                entries.push((k, v));
                proof {
                    let nk = entries@.map_values(|e: (String, V)| e.0@);
                    assert(nk =~= old(self).keys().push(kv));
                    assert forall|a: int, b: int|
                        0 <= a < nk.len() && 0 <= b < nk.len() && a != b
                        implies nk[a] != nk[b] by {
                        if a == nk.len() - 1 {
                            assert(old(self).keys()[b] == nk[b]);
                        } else if b == nk.len() - 1 {
                            assert(old(self).keys()[a] == nk[a]);
                        }
                    }
                }
                self.entries = entries;
                proof {
                    assert(self.keys() =~= old(self).keys().push(kv));
                    assert(self.values() =~= old(self).values().push(v));
                }
            },
        }
        proof {
            lemma_get_after_insert(*old(self), *self, kv, v);
        }
    }

    /// The names, sorted into ascending order.
    pub fn sorted_keys(&self) -> (r: Vec<String>)
        ensures
            string_views(r@) == sort_seq(self.keys()),
            r@.len() == self.keys().len(),
            strictly_sorted(string_views(r@)),
            forall|s: Seq<char>| string_views(r@).contains(s) <==> self.keys().contains(s),
    {
        let names = self.key_list();
        proof {
            lemma_sort_seq(self.keys());
        }
        sort_strings(&names)
    }

    /// The names, in table order.
    pub fn key_list(&self) -> (r: Vec<String>)
        ensures
            string_views(r@) == self.keys(),
            self.keys().no_duplicates(),
    {
        proof {
            use_type_invariant(self);
        }
        let mut out: Vec<String> = Vec::new();
        let n = self.entries.len();
        for i in 0..n
            invariant
                n == self.keys().len(),
                string_views(out@) == self.keys().take(i as int),
        {
            let ghost before = out@;
            let name = self.entries[i].0.clone();
            assert(name@ == self.keys()[i as int]);
            out.push(name);
            assert(out@ == before.push(name));
            assert(string_views(out@) =~= string_views(before).push(name@));
            assert(string_views(out@) =~= self.keys().take(i + 1));
        }
        assert(self.keys().take(n as int) =~= self.keys());
        out
    }
}

impl<V> View for NameMap<V> {
    type V = Map<Seq<char>, V>;

    /// The table as a map from names to values.
    open spec fn view(&self) -> Map<Seq<char>, V> {
        Map::new(|k: Seq<char>| self.keys().contains(k), |k: Seq<char>| self.spec_get(k)->0)
    }
}

/// A set of names, kept in the order in which they were first added.
#[derive(Debug)]
pub struct NameSet {
    names: NameMap<()>,
}

impl NameSet {
    /// The names, in order of first insertion.
    pub closed spec fn elems(&self) -> Seq<Seq<char>> {
        self.names.keys()
    }

    /// An empty set.
    pub fn new() -> (r: Self)
        ensures
            r.elems() == Seq::<Seq<char>>::empty(),
    {
        NameSet { names: NameMap::new() }
    }

    /// The number of names in the set.
    pub fn len(&self) -> (r: usize)
        ensures
            r == self.elems().len(),
            self.elems().no_duplicates(),
    {
        self.names.len()
    }

    /// Whether `k` is in the set.
    pub fn contains(&self, k: &str) -> (r: bool)
        ensures
            r == self.elems().contains(k@),
    {
        self.names.contains_key(k)
    }

    /// Adds `k`; a name already there stays where it was.
    pub fn insert(&mut self, k: String)
        ensures
            old(self).elems().contains(k@) ==> final(self).elems() == old(self).elems(),
            !old(self).elems().contains(k@) ==> final(self).elems() == old(self).elems().push(
                k@,
            ),
    {
        self.names.insert(k, ());
    }

    /// The names, sorted into ascending order.
    pub fn sorted(&self) -> (r: Vec<String>)
        ensures
            string_views(r@) == sort_seq(self.elems()),
            r@.len() == self.elems().len(),
            strictly_sorted(string_views(r@)),
            forall|s: Seq<char>| string_views(r@).contains(s) <==> self.elems().contains(s),
    {
        self.names.sorted_keys()
    }
}

impl View for NameSet {
    type V = Set<Seq<char>>;

    /// The names as a set.
    open spec fn view(&self) -> Set<Seq<char>> {
        self.elems().to_set()
    }
}

/// What `insert` does to the keys and values, seen through `spec_get`.
proof fn lemma_get_after_insert<V>(before: NameMap<V>, after: NameMap<V>, name: Seq<char>, recipe: V)
    requires
        before.keys().no_duplicates(),
        before.keys().len() == before.values().len(),
        before.keys().contains(name) ==> {
            &&& after.keys() == before.keys()
            &&& after.values() == before.values().update(
                before.keys().index_of(name),
                recipe,
            )
        },
        !before.keys().contains(name) ==> {
            &&& after.keys() == before.keys().push(name)
            &&& after.values() == before.values().push(recipe)
        },
    ensures
        after.spec_get(name) == Some(recipe),
        after@ == before@.insert(name, recipe),
        forall|other: Seq<char>|
            other != name ==> after.spec_get(other) == before.spec_get(other),
{
    let bk = before.keys();
    let ak = after.keys();
    if bk.contains(name) {
        let i = bk.index_of(name);
        assert(ak[i] == name);
        assert(ak.index_of(name) == i);
    } else {
        assert(ak[bk.len() as int] == name);
        assert(ak.contains(name));
        assert(ak.index_of(name) == bk.len()) by {
            let j = ak.index_of(name);
            if j < bk.len() {
                assert(bk[j] == name);
            }
        }
    }
    assert forall|other: Seq<char>| other != name implies #[trigger] after.spec_get(other)
        == before.spec_get(other) by {
        if bk.contains(other) {
            let i = bk.index_of(other);
            assert(ak[i] == other);
            assert(ak.contains(other));
            assert(ak.index_of(other) == i) by {
                let j = ak.index_of(other);
                if j != i {
                    if j < bk.len() {
                        assert(bk[j] == other);
                    }
                }
            }
        } else {
            if ak.contains(other) {
                let j = ak.index_of(other);
                if j < bk.len() {
                    assert(bk[j] == other);
                }
            }
        }
    }
    assert(after@ =~= before@.insert(name, recipe)) by {
        assert forall|o: Seq<char>| #[trigger] after.keys().contains(o) <==> before@.insert(name, recipe).dom().contains(o) by {
            if o != name {
                assert(after.spec_get(o) == before.spec_get(o));
            }
        }
        assert forall|o: Seq<char>| after.keys().contains(o) implies #[trigger] after@[o] == before@.insert(name, recipe)[o] by {
            if o != name {
                assert(after.spec_get(o) == before.spec_get(o));
            }
        }
    }
}

} // verus!
