//! A map from names to values in insertion order, with no name twice.

use vstd::prelude::*;
use crate::text::str_eq;

verus! {

/// A sequence with one more item at its end holds what it held before, and
/// that item.
pub proof fn lemma_push_contains<T>(s: Seq<T>, x: T, k: T)
    ensures
        s.push(x).contains(k) <==> (s.contains(k) || k == x),
{
    if s.contains(k) {
        let j = s.index_of(k);
        assert(s.push(x)[j] == k);
    }
    if k == x {
        assert(s.push(x)[s.len() as int] == k);
    }
    if s.push(x).contains(k) {
        let j = s.push(x).index_of(k);
        if j < s.len() {
            assert(s[j] == k);
        }
    }
}

/// The first `i + 1` items of a sequence are its first `i` items and the
/// item at `i`: they hold what the first `i` hold, and that item.
pub proof fn lemma_take_one_more<T>(s: Seq<T>, i: int)
    requires
        0 <= i < s.len(),
    ensures
        s.take(i + 1) == s.take(i).push(s[i]),
        forall|k: T| #[trigger] s.take(i + 1).contains(k) <==> (s.take(i).contains(k) || k == s[i]),
{
    assert(s.take(i + 1) =~= s.take(i).push(s[i]));
    assert forall|k: T| #[trigger] s.take(i + 1).contains(k) <==> (s.take(i).contains(k) || k
        == s[i]) by {
        lemma_push_contains(s.take(i), s[i], k);
    }
}

/// A map from names to values that remembers the order in which the names
/// were first inserted.
///
/// No name occurs twice. The view is the mathematical map from names to
/// values; `keys` and `values` give the entries in insertion order.
#[derive(Debug, PartialEq)]
pub struct NameMap<V> {
    pub(crate) entries: Vec<(String, V)>,
}

impl<V> View for NameMap<V> {
    type V = Map<Seq<char>, V>;

    open spec fn view(&self) -> Map<Seq<char>, V> {
        Map::new(
            |k: Seq<char>| self.keys().contains(k),
            |k: Seq<char>| self.values()[self.keys().index_of(k)],
        )
    }
}

impl<V: Clone> Clone for NameMap<V> {
    /// A map with the same names in the same order, each with a clone of
    /// its value.
    fn clone(&self) -> (copy: Self)
        ensures
            copy.wf(),
            copy.keys() == self.keys(),
            forall|i: int|
                0 <= i < self.values().len() ==> cloned(self.values()[i], #[trigger] copy.values()[i]),
    {
        proof {
            use_type_invariant(self);
        }
        let mut entries: Vec<(String, V)> = Vec::new();
        let n: usize = self.entries.len();
        let mut i: usize = 0;
        while i < n
            invariant
                n == self.entries@.len(),
                i <= n,
                entries@.len() == i,
                forall|j: int| 0 <= j < i ==> (#[trigger] entries@[j]).0@ == self.entries@[j].0@,
                forall|j: int| 0 <= j < i ==> cloned(self.entries@[j].1, (#[trigger] entries@[j]).1),
            decreases n - i,
        {
            let name = self.entries[i].0.clone();
            let value = self.entries[i].1.clone();
            entries.push((name, value));
            i += 1;
        }
        proof {
            let keys = Seq::new(entries@.len(), |j: int| entries@[j].0@);
            assert(keys =~= self.keys());
        }
        let copy = NameMap { entries };
        assert(copy.keys() =~= self.keys());
        copy
    }
}

impl<V> NameMap<V> {
    /// The names, in insertion order.
    pub open(crate) spec fn keys(&self) -> Seq<Seq<char>> {
        Seq::new(self.entries@.len(), |i: int| self.entries@[i].0@)
    }

    /// The values, in the order of their names.
    pub open(crate) spec fn values(&self) -> Seq<V> {
        Seq::new(self.entries@.len(), |i: int| self.entries@[i].1)
    }

    /// Every name occurs once, and each has its value.
    pub open spec fn wf(&self) -> bool {
        &&& self.keys().no_duplicates()
        &&& self.keys().len() == self.values().len()
    }

    #[verifier::type_invariant]
    pub open(crate) spec fn unique_names(&self) -> bool {
        self.keys().no_duplicates()
    }

    /// An empty map.
    pub fn new() -> (m: Self)
        ensures
            m.wf(),
            m.keys() == Seq::<Seq<char>>::empty(),
            m.values() == Seq::<V>::empty(),
            m@ == Map::<Seq<char>, V>::empty(),
    {
        let m = NameMap { entries: Vec::new() };
        assert(m.keys() =~= Seq::<Seq<char>>::empty());
        assert(m.values() =~= Seq::<V>::empty());
        assert(m@ =~= Map::<Seq<char>, V>::empty());
        m
    }

    /// Number of entries.
    pub fn len(&self) -> (n: usize)
        ensures
            self.wf(),
            n == self.keys().len(),
            n == self.values().len(),
    {
        proof {
            use_type_invariant(self);
        }
        self.entries.len()
    }

    /// The name of the entry at position `i`.
    pub fn key(&self, i: usize) -> (k: &String)
        requires
            i < self.keys().len(),
        ensures
            k@ == self.keys()[i as int],
    {
        &self.entries[i].0
    }

    /// The value of the entry at position `i`.
    pub fn value(&self, i: usize) -> (v: &V)
        requires
            i < self.keys().len(),
        ensures
            *v == self.values()[i as int],
            self.wf(),
            self@.contains_key(self.keys()[i as int]),
            self@[self.keys()[i as int]] == *v,
    {
        proof {
            use_type_invariant(self);
            self.lemma_entry(i as int);
        }
        &self.entries[i].1
    }

    /// In a well-formed map, the entry at position `i` is what the view
    /// holds under the name at position `i`.
    pub proof fn lemma_entry(&self, i: int)
        requires
            self.wf(),
            0 <= i < self.keys().len(),
        ensures
            self@.contains_key(self.keys()[i]),
            self@[self.keys()[i]] == self.values()[i],
            self.keys().index_of(self.keys()[i]) == i,
    {
        let k = self.keys()[i];
        assert(self.keys().contains(k));
        let j = self.keys().index_of(k);
        assert(self.keys()[j] == k);
    }

    /// In a well-formed map, a name that the view holds stands at one
    /// position, with its value.
    pub proof fn lemma_lookup(&self, name: Seq<char>)
        requires
            self.wf(),
            self@.contains_key(name),
        ensures
            0 <= self.keys().index_of(name) < self.keys().len(),
            self.keys()[self.keys().index_of(name)] == name,
            self.values()[self.keys().index_of(name)] == self@[name],
    {
        let i = self.keys().index_of(name);
        assert(self.keys().contains(name));
        self.lemma_entry(i);
    }

    /// The position of `name`, if the map holds it.
    pub fn position(&self, name: &str) -> (at: Option<usize>)
        ensures
            self.wf(),
            match at {
                Some(i) => i < self.keys().len() && self.keys()[i as int] == name@,
                None => !self.keys().contains(name@),
            },
            at is Some <==> self@.contains_key(name@),
    {
        proof {
            use_type_invariant(self);
        }
        let n: usize = self.entries.len();
        let mut i: usize = 0;
        while i < n
            invariant
                self.wf(),
                n == self.entries@.len(),
                i <= n,
                forall|j: int| 0 <= j < i ==> self.keys()[j] != name@,
            decreases n - i,
        {
            if str_eq(self.entries[i].0.as_str(), name) {
                assert(self.keys()[i as int] == name@);
                return Some(i);
            }
            i += 1;
        }
        None
    }

    /// Whether the map holds `name`.
    pub fn contains_key(&self, name: &str) -> (held: bool)
        ensures
            held == self@.contains_key(name@),
    {
        self.position(name).is_some()
    }

    /// The value under `name`, if the map holds it.
    pub fn get(&self, name: &str) -> (found: Option<&V>)
        ensures
            match found {
                Some(v) => self@.contains_key(name@) && *v == self@[name@],
                None => !self@.contains_key(name@),
            },
    {
        match self.position(name) {
            Some(i) => Some(self.value(i)),
            None => None,
        }
    }

    /// Puts `value` under `name`. A name that the map already holds keeps
    /// its position and gets the new value; a new name goes to the end.
    /// Returns the position of the entry.
    pub fn insert(&mut self, name: String, value: V) -> (at: usize)
        ensures
            final(self).wf(),
            final(self)@ == old(self)@.insert(name@, value),
            at < final(self).keys().len(),
            final(self).keys()[at as int] == name@,
            final(self).values()[at as int] == value,
            old(self)@.contains_key(name@) ==> {
                &&& final(self).keys() == old(self).keys()
                &&& final(self).values() == old(self).values().update(at as int, value)
            },
            !old(self)@.contains_key(name@) ==> {
                &&& final(self).keys() == old(self).keys().push(name@)
                &&& final(self).values() == old(self).values().push(value)
            },
    {
        let found = self.position(name.as_str());
        let mut entries: Vec<(String, V)> = Vec::new();
        core::mem::swap(&mut self.entries, &mut entries);
        let at: usize = match found {
            Some(i) => {
                entries[i].1 = value;
                i
            },
            None => {
                let n: usize = entries.len();
                entries.push((name, value));
                n
            },
        };
        proof {
            let keys = Seq::new(entries@.len(), |i: int| entries@[i].0@);
            if found is Some {
                assert(keys =~= old(self).keys());
            } else {
                assert(keys =~= old(self).keys().push(name@));
                assert(!old(self).keys().contains(name@));
            }
            assert(keys.no_duplicates());
        }
        self.entries = entries;
        proof {
            if found is Some {
                assert(self.keys() =~= old(self).keys());
                assert(self.values() =~= old(self).values().update(at as int, value));
            } else {
                assert(self.keys() =~= old(self).keys().push(name@));
                assert(self.values() =~= old(self).values().push(value));
            }
            let want = old(self)@.insert(name@, value);
            assert forall|k: Seq<char>| self@.dom().contains(k) <==> want.dom().contains(k) by {
                if k == name@ {
                    assert(self.keys()[at as int] == k);
                } else if old(self).keys().contains(k) {
                    let j = old(self).keys().index_of(k);
                    assert(self.keys()[j] == k);
                }
            }
            assert forall|k: Seq<char>| self@.dom().contains(k) implies self@[k] == want[k] by {
                let j = self.keys().index_of(k);
                self.lemma_entry(j);
                if k != name@ {
                    old(self).lemma_entry(j);
                }
            }
            assert(self@ =~= want);
        }
        at
    }

    /// Takes the map apart into its entries, in insertion order.
    pub fn into_entries(self) -> (entries: Vec<(String, V)>)
        ensures
            self.wf(),
            entries@.len() == self.keys().len(),
            forall|i: int| 0 <= i < entries@.len() ==> (#[trigger] entries@[i]).0@ == self.keys()[i],
            forall|i: int| 0 <= i < entries@.len() ==> (#[trigger] entries@[i]).1 == self.values()[i],
    {
        proof {
            use_type_invariant(&self);
        }
        self.entries
    }

    /// Puts `value` at position `i` and returns the value that was there.
    /// The names stay as they are.
    pub fn replace_value(&mut self, i: usize, value: V) -> (previous: V)
        requires
            i < old(self).keys().len(),
        ensures
            final(self).wf(),
            previous == old(self).values()[i as int],
            final(self).keys() == old(self).keys(),
            final(self).values() == old(self).values().update(i as int, value),
            final(self)@ == old(self)@.insert(old(self).keys()[i as int], value),
    {
        proof {
            use_type_invariant(&*self);
        }
        let mut entries: Vec<(String, V)> = Vec::new();
        core::mem::swap(&mut self.entries, &mut entries);
        let mut held = value;
        core::mem::swap(&mut entries[i].1, &mut held);
        proof {
            let keys = Seq::new(entries@.len(), |j: int| entries@[j].0@);
            assert(keys =~= old(self).keys());
        }
        self.entries = entries;
        proof {
            assert(self.keys() =~= old(self).keys());
            assert(self.values() =~= old(self).values().update(i as int, value));
            let name = old(self).keys()[i as int];
            let want = old(self)@.insert(name, value);
            assert forall|k: Seq<char>| self@.dom().contains(k) <==> want.dom().contains(k) by {
                if k == name {
                    assert(self.keys()[i as int] == k);
                }
            }
            assert forall|k: Seq<char>| self@.dom().contains(k) implies self@[k] == want[k] by {
                let j = self.keys().index_of(k);
                self.lemma_entry(j);
                old(self).lemma_entry(j);
                old(self).lemma_entry(i as int);
            }
            assert(self@ =~= want);
        }
        held
    }
}

} // verus!
