//! A map keyed by name that remembers the order in which names were added.

use crate::utils::text::same_text;
use vstd::prelude::*;

verus! {

/// The map that a sequence of named entries stands for.
pub open spec fn entries_map<V>(s: Seq<(Seq<char>, V)>) -> Map<Seq<char>, V> {
    Map::new(
        |k: Seq<char>| exists|i: int| 0 <= i < s.len() && #[trigger] s[i].0 == k,
        |k: Seq<char>| s[choose|i: int| 0 <= i < s.len() && #[trigger] s[i].0 == k].1,
    )
}

/// No name occurs twice in the sequence.
pub open spec fn distinct_names<V>(s: Seq<(Seq<char>, V)>) -> bool {
    forall|i: int, j: int| 0 <= i < j < s.len() ==> #[trigger] s[i].0 != #[trigger] s[j].0
}

/// In a sequence of distinct names, the entry at `i` is the one its name maps to.
pub proof fn lemma_entry_at<V>(s: Seq<(Seq<char>, V)>, i: int)
    requires
        distinct_names(s),
        0 <= i < s.len(),
    ensures
        entries_map(s).contains_key(s[i].0),
        entries_map(s)[s[i].0] == s[i].1,
{
    let k = s[i].0;
    let j = choose|j: int| 0 <= j < s.len() && #[trigger] s[j].0 == k;
    assert(j == i);
}

/// A name maps to something exactly when some entry carries it.
pub proof fn lemma_contains<V>(s: Seq<(Seq<char>, V)>, k: Seq<char>)
    ensures
        entries_map(s).contains_key(k) <==> exists|i: int| 0 <= i < s.len() && #[trigger] s[i].0 == k,
{
}

/// Appending an entry under a fresh name inserts it into the map.
pub proof fn lemma_push<V>(s: Seq<(Seq<char>, V)>, k: Seq<char>, v: V)
    requires
        distinct_names(s),
        !entries_map(s).contains_key(k),
    ensures
        distinct_names(s.push((k, v))),
        entries_map(s.push((k, v))) == entries_map(s).insert(k, v),
{
    let t = s.push((k, v));
    assert forall|i: int, j: int| 0 <= i < j < t.len() implies #[trigger] t[i].0
        != #[trigger] t[j].0 by {
        if j == s.len() {
            assert(s[i].0 != k);
        } else {
            assert(s[i].0 != s[j].0);
        }
    }
    assert forall|n: Seq<char>| #[trigger]
        entries_map(t).contains_key(n) <==> entries_map(s).insert(k, v).contains_key(n) by {
        if entries_map(t).contains_key(n) {
            let i = choose|i: int| 0 <= i < t.len() && #[trigger] t[i].0 == n;
            if i < s.len() {
                assert(s[i].0 == n);
            }
        }
        if entries_map(s).contains_key(n) {
            let i = choose|i: int| 0 <= i < s.len() && #[trigger] s[i].0 == n;
            assert(t[i].0 == n);
        }
        if n == k {
            assert(t[s.len() as int].0 == n);
        }
    }
    assert forall|n: Seq<char>| entries_map(t).contains_key(n) implies #[trigger] entries_map(
        t,
    )[n] == entries_map(s).insert(k, v)[n] by {
        let i = choose|i: int| 0 <= i < t.len() && #[trigger] t[i].0 == n;
        lemma_entry_at(t, i);
        if i < s.len() {
            assert(s[i].0 == n);
            lemma_entry_at(s, i);
        }
    }
    assert(entries_map(t) =~= entries_map(s).insert(k, v));
}

/// Replacing the value of the entry at `i` inserts the new value under its name.
pub proof fn lemma_update<V>(s: Seq<(Seq<char>, V)>, i: int, v: V)
    requires
        distinct_names(s),
        0 <= i < s.len(),
    ensures
        distinct_names(s.update(i, (s[i].0, v))),
        entries_map(s.update(i, (s[i].0, v))) == entries_map(s).insert(s[i].0, v),
{
    let k = s[i].0;
    let t = s.update(i, (k, v));
    assert forall|a: int, b: int| 0 <= a < b < t.len() implies #[trigger] t[a].0
        != #[trigger] t[b].0 by {
        assert(s[a].0 != s[b].0);
    }
    assert forall|n: Seq<char>| #[trigger]
        entries_map(t).contains_key(n) <==> entries_map(s).insert(k, v).contains_key(n) by {
        if entries_map(t).contains_key(n) {
            let j = choose|j: int| 0 <= j < t.len() && #[trigger] t[j].0 == n;
            assert(s[j].0 == n);
        }
        if entries_map(s).contains_key(n) {
            let j = choose|j: int| 0 <= j < s.len() && #[trigger] s[j].0 == n;
            assert(t[j].0 == n);
        }
        if n == k {
            assert(t[i].0 == n);
        }
    }
    assert forall|n: Seq<char>| entries_map(t).contains_key(n) implies #[trigger] entries_map(
        t,
    )[n] == entries_map(s).insert(k, v)[n] by {
        let j = choose|j: int| 0 <= j < t.len() && #[trigger] t[j].0 == n;
        lemma_entry_at(t, j);
        assert(s[j].0 == n);
        lemma_entry_at(s, j);
    }
    assert(entries_map(t) =~= entries_map(s).insert(k, v));
}

/// A name-keyed map over a vector of entries, each name held once.
#[derive(Debug)]
pub struct NameMap<V> {
    entries: Vec<(String, V)>,
}

impl<V> NameMap<V> {
    /// The entries in the order in which their names were first inserted.
    pub closed spec fn entries(&self) -> Seq<(Seq<char>, V)> {
        self.entries@.map_values(|e: (String, V)| (e.0@, e.1))
    }

    /// Every name is held once.
    #[verifier::type_invariant]
    pub open spec fn wf(&self) -> bool {
        distinct_names(self.entries())
    }

    /// The map from name to value.
    pub open spec fn view(&self) -> Map<Seq<char>, V> {
        entries_map(self.entries())
    }

    pub fn new() -> (m: Self)
        ensures
            m.entries() == Seq::<(Seq<char>, V)>::empty(),
            m@ == Map::<Seq<char>, V>::empty(),
    {
        let m = NameMap { entries: Vec::new() };
        assert(m.entries() =~= Seq::<(Seq<char>, V)>::empty());
        assert(m@ =~= Map::<Seq<char>, V>::empty());
        m
    }

    pub fn len(&self) -> (n: usize)
        ensures
            n == self.entries().len(),
    {
        self.entries.len()
    }

    /// The position of `name` among the entries, if it has one.
    pub fn position(&self, name: &str) -> (r: Option<usize>)
        ensures
            distinct_names(self.entries()),
            match r {
                Some(i) => i < self.entries().len() && self.entries()[i as int].0 == name@,
                None => !self@.contains_key(name@),
            },
    {
        proof {
            use_type_invariant(self);
        }
        let mut i: usize = 0;
        while i < self.entries.len()
            invariant
                0 <= i <= self.entries.len(),
                distinct_names(self.entries()),
                forall|j: int| 0 <= j < i ==> (#[trigger] self.entries()[j]).0 != name@,
            decreases self.entries.len() - i,
        {
            if same_text(self.entries[i].0.as_str(), name) {
                return Some(i);
            }
            i += 1;
        }
        None
    }

    pub fn contains_key(&self, name: &str) -> (r: bool)
        ensures
            r == self@.contains_key(name@),
    {
        let found = self.position(name);
        proof {
            lemma_contains(self.entries(), name@);
        }
        found.is_some()
    }

    /// The value held under `name`, if any.
    pub fn get(&self, name: &str) -> (r: Option<&V>)
        ensures
            match r {
                Some(v) => self@.contains_key(name@) && *v == self@[name@],
                None => !self@.contains_key(name@),
            },
    {
        match self.position(name) {
            Some(i) => {
                proof {
                    lemma_entry_at(self.entries(), i as int);
                }
                Some(&self.entries[i].1)
            },
            None => None,
        }
    }

    /// The name of the entry at `i`.
    pub fn name_at(&self, i: usize) -> (name: &String)
        requires
            i < self.entries().len(),
        ensures
            name@ == self.entries()[i as int].0,
            self@.contains_key(name@),
            self@[name@] == self.entries()[i as int].1,
    {
        proof {
            use_type_invariant(self);
            lemma_entry_at(self.entries(), i as int);
        }
        &self.entries[i].0
    }

    /// The value of the entry at `i`.
    pub fn value_at(&self, i: usize) -> (value: &V)
        requires
            i < self.entries().len(),
        ensures
            *value == self.entries()[i as int].1,
            self@.contains_key(self.entries()[i as int].0),
            self@[self.entries()[i as int].0] == *value,
    {
        proof {
            use_type_invariant(self);
            lemma_entry_at(self.entries(), i as int);
        }
        &self.entries[i].1
    }

    /// Puts `value` under `name`: an entry that already carries the name keeps
    /// its place and takes the new value, a new name goes to the end.
    pub fn insert(&mut self, name: String, value: V)
        ensures
            final(self)@ == old(self)@.insert(name@, value),
            old(self)@.contains_key(name@) ==> exists|i: int|
                0 <= i < old(self).entries().len() && #[trigger] old(self).entries()[i].0 == name@
                    && final(self).entries() == old(self).entries().update(i, (name@, value)),
            !old(self)@.contains_key(name@) ==> final(self).entries() == old(self).entries().push(
                (name@, value),
            ),
    {
        let found = self.position(name.as_str());
        let ghost before = self.entries();
        let mut entries: Vec<(String, V)> = Vec::new();
        core::mem::swap(&mut self.entries, &mut entries);
        assert(entries@.map_values(|e: (String, V)| (e.0@, e.1)) == before);
        match found {
            Some(i) => {
                proof {
                    lemma_update(before, i as int, value);
                    lemma_contains(before, name@);
                }
                entries.set(i, (name, value));
                assert(entries@.map_values(|e: (String, V)| (e.0@, e.1)) =~= before.update(
                    i as int,
                    (name@, value),
                ));
            },
            None => {
                proof {
                    lemma_push(before, name@, value);
                }
                entries.push((name, value));
                assert(entries@.map_values(|e: (String, V)| (e.0@, e.1)) =~= before.push(
                    (name@, value),
                ));
            },
        }
        core::mem::swap(&mut self.entries, &mut entries);
    }
}

impl<V: Clone> Clone for NameMap<V> {
    /// Copies the map entry by entry, each value by its own `clone`.
    fn clone(&self) -> (r: Self)
        ensures
            r.entries().len() == self.entries().len(),
            forall|i: int|
                0 <= i < self.entries().len() ==> (#[trigger] r.entries()[i]).0
                    == self.entries()[i].0 && cloned(self.entries()[i].1, r.entries()[i].1),
    {
        proof {
            use_type_invariant(self);
        }
        let mut out: Vec<(String, V)> = Vec::new();
        let mut i: usize = 0;
        while i < self.entries.len()
            invariant
                0 <= i <= self.entries.len(),
                out.len() == i,
                forall|j: int|
                    0 <= j < i ==> (#[trigger] out@[j]).0@ == self.entries@[j].0@ && cloned(
                        self.entries@[j].1,
                        out@[j].1,
                    ),
            decreases self.entries.len() - i,
        {
            let name = self.entries[i].0.clone();
            let value = self.entries[i].1.clone();
            out.push((name, value));
            i += 1;
        }
        proof {
            let copied = out@.map_values(|e: (String, V)| (e.0@, e.1));
            assert forall|a: int, b: int| 0 <= a < b < copied.len() implies #[trigger] copied[a].0
                != #[trigger] copied[b].0 by {
                assert(self.entries()[a].0 != self.entries()[b].0);
            }
        }
        NameMap { entries: out }
    }
}

} // verus!
