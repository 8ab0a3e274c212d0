//! Name-keyed collections for one cascade pass.
//!
//! Property names are opaque, comparable strings. `NameSet` is a set of
//! names; `NameTable` maps names to values, keyed by the name's characters.
//! Both are association lists, so that iteration order is deterministic and
//! fully described by their sequence of entries.

use vstd::prelude::*;

verus! {

/// The set of name views that a sequence of strings holds.
pub open spec fn set_of_names(items: Seq<String>) -> Set<Seq<char>> {
    Set::new(|k: Seq<char>| exists|i: int| 0 <= i < items.len() && items[i]@ == k)
}

/// A set of property names.
pub struct NameSet {
    pub items: Vec<String>,
}

impl NameSet {
    pub open spec fn as_set(self) -> Set<Seq<char>> {
        set_of_names(self.items@)
    }

    pub fn new() -> (r: NameSet)
        ensures
            r.as_set() == Set::<Seq<char>>::empty(),
            r.items@.len() == 0,
    {
        let r = NameSet { items: Vec::new() };
        proof {
            assert(r.as_set() =~= Set::<Seq<char>>::empty());
        }
        r
    }

    pub fn contains(&self, name: &String) -> (r: bool)
        ensures
            r == self.as_set().contains(name@),
    {
        let mut i: usize = 0;
        while i < self.items.len()
            invariant
                i <= self.items@.len(),
                forall|j: int| 0 <= j < i ==> self.items@[j]@ != name@,
            decreases self.items@.len() - i,
        {
            if self.items[i] == *name {
                return true;
            }
            i = i + 1;
        }
        false
    }

    /// Adds a name; already-present names are not duplicated.
    pub fn insert(&mut self, name: String)
        ensures
            final(self).as_set() == old(self).as_set().insert(name@),
    {
        let ghost items0 = self.items@;
        if !self.contains(&name) {
            self.items.push(name);
            proof {
                assert forall|k: Seq<char>|
                    old(self).as_set().insert(name@).contains(k) implies self.as_set().contains(
                    k,
                ) by {
                    if k == name@ {
                        assert(self.items@[items0.len() as int]@ == k);
                    } else {
                        let i = choose|i: int| 0 <= i < items0.len() && items0[i]@ == k;
                        assert(self.items@[i]@ == k);
                    }
                }
                assert forall|k: Seq<char>| self.as_set().contains(k) implies old(
                    self,
                ).as_set().insert(name@).contains(k) by {
                    let i = choose|i: int| 0 <= i < self.items@.len() && self.items@[i]@ == k;
                    if i < items0.len() {
                        assert(items0[i]@ == k);
                    }
                }
                assert(self.as_set() =~= old(self).as_set().insert(name@));
            }
        } else {
            proof {
                assert(self.as_set() =~= old(self).as_set().insert(name@));
            }
        }
    }
}

/// The map that an association sequence denotes; later entries win.
pub open spec fn assoc_map<V>(s: Seq<(String, V)>) -> Map<Seq<char>, V>
    decreases s.len(),
{
    if s.len() == 0 {
        Map::empty()
    } else {
        assoc_map(s.drop_last()).insert(s.last().0@, s.last().1)
    }
}

/// No two entries of `s` share a key.
pub open spec fn distinct_keys<V>(s: Seq<(String, V)>) -> bool {
    forall|i: int, j: int| 0 <= i < j < s.len() ==> s[i].0@ != s[j].0@
}

pub proof fn lemma_assoc_contains<V>(s: Seq<(String, V)>, k: Seq<char>)
    ensures
        assoc_map(s).contains_key(k) <==> exists|i: int| 0 <= i < s.len() && s[i].0@ == k,
    decreases s.len(),
{
    if s.len() == 0 {
    } else {
        lemma_assoc_contains(s.drop_last(), k);
        if s.last().0@ == k {
            assert(s[s.len() - 1].0@ == k);
        } else if assoc_map(s).contains_key(k) {
            let i = choose|i: int| 0 <= i < s.drop_last().len() && s.drop_last()[i].0@ == k;
            assert(s[i].0@ == k);
        } else if exists|i: int| 0 <= i < s.len() && s[i].0@ == k {
            let i = choose|i: int| 0 <= i < s.len() && s[i].0@ == k;
            assert(i < s.len() - 1);
            assert(s.drop_last()[i].0@ == k);
        }
    }
}

/// If entry `i` holds key `k` and no later entry does, the map holds its value.
pub proof fn lemma_assoc_get_last<V>(s: Seq<(String, V)>, k: Seq<char>, i: int)
    requires
        0 <= i < s.len(),
        s[i].0@ == k,
        forall|j: int| i < j < s.len() ==> s[j].0@ != k,
    ensures
        assoc_map(s).contains_key(k),
        assoc_map(s)[k] == s[i].1,
    decreases s.len(),
{
    if i == s.len() - 1 {
    } else {
        assert(s.drop_last()[i].0@ == k);
        lemma_assoc_get_last(s.drop_last(), k, i);
        assert(s.last().0@ != k);
    }
}

pub proof fn lemma_assoc_push<V>(s: Seq<(String, V)>, name: String, v: V)
    ensures
        assoc_map(s.push((name, v))) == assoc_map(s).insert(name@, v),
{
    assert(s.push((name, v)).drop_last() =~= s);
    assert(s.push((name, v)).last() == (name, v));
}

pub proof fn lemma_assoc_remove_at<V>(s: Seq<(String, V)>, i: int, k: Seq<char>)
    requires
        0 <= i < s.len(),
        s[i].0@ == k,
        forall|j: int| 0 <= j < s.len() && j != i ==> s[j].0@ != k,
    ensures
        assoc_map(s.remove(i)) == assoc_map(s).remove(k),
    decreases s.len(),
{
    if i == s.len() - 1 {
        assert(s.remove(i) =~= s.drop_last());
        lemma_assoc_contains(s.drop_last(), k);
        assert(!assoc_map(s.drop_last()).contains_key(k));
        assert(assoc_map(s.drop_last()).insert(k, s.last().1).remove(k) =~= assoc_map(
            s.drop_last(),
        ));
    } else {
        let sd = s.drop_last();
        assert(sd[i].0@ == k);
        assert(forall|j: int| 0 <= j < sd.len() && j != i ==> sd[j].0@ != k);
        lemma_assoc_remove_at(sd, i, k);
        assert(s.remove(i).drop_last() =~= sd.remove(i));
        assert(s.remove(i).last() == s.last());
        assert(s.last().0@ != k);
        assert(assoc_map(sd).remove(k).insert(s.last().0@, s.last().1) =~= assoc_map(sd).insert(
            s.last().0@,
            s.last().1,
        ).remove(k));
    }
}

pub proof fn lemma_distinct_remove<V>(s: Seq<(String, V)>, i: int)
    requires
        0 <= i < s.len(),
        distinct_keys(s),
    ensures
        distinct_keys(s.remove(i)),
{
    let sr = s.remove(i);
    assert forall|a: int, b: int| 0 <= a < b < sr.len() implies sr[a].0@ != sr[b].0@ by {
        let a0: int = if a < i {
            a
        } else {
            a + 1
        };
        let b0: int = if b < i {
            b
        } else {
            b + 1
        };
        assert(sr[a] == s[a0]);
        assert(sr[b] == s[b0]);
    }
}

pub proof fn lemma_distinct_push<V>(s: Seq<(String, V)>, name: String, v: V)
    requires
        distinct_keys(s),
        forall|j: int| 0 <= j < s.len() ==> s[j].0@ != name@,
    ensures
        distinct_keys(s.push((name, v))),
{
    let sp = s.push((name, v));
    assert forall|a: int, b: int| 0 <= a < b < sp.len() implies sp[a].0@ != sp[b].0@ by {
        if b < s.len() {
            assert(sp[a] == s[a]);
            assert(sp[b] == s[b]);
        } else {
            assert(sp[a] == s[a]);
            assert(sp[b] == (name, v));
        }
    }
}

/// A map from property names to values of type `V`.
pub struct NameTable<V> {
    pub entries: Vec<(String, V)>,
}

impl<V> NameTable<V> {
    pub open spec fn as_map(self) -> Map<Seq<char>, V> {
        assoc_map(self.entries@)
    }

    /// No two entries share a key.
    pub open spec fn wf(self) -> bool {
        distinct_keys(self.entries@)
    }

    pub fn new() -> (r: NameTable<V>)
        ensures
            r.as_map() == Map::<Seq<char>, V>::empty(),
            r.wf(),
            r.entries@.len() == 0,
    {
        NameTable { entries: Vec::new() }
    }

    pub fn get<'a>(&'a self, name: &String) -> (r: Option<&'a V>)
        ensures
            match r {
                Some(v) => self.as_map().contains_key(name@) && *v == self.as_map()[name@],
                None => !self.as_map().contains_key(name@),
            },
    {
        let mut i: usize = self.entries.len();
        while i > 0
            invariant
                i <= self.entries@.len(),
                forall|j: int| i <= j < self.entries@.len() ==> self.entries@[j].0@ != name@,
            decreases i,
        {
            i = i - 1;
            let pair = &self.entries[i];
            if pair.0 == *name {
                proof {
                    lemma_assoc_get_last(self.entries@, name@, i as int);
                }
                return Some(&pair.1);
            }
        }
        proof {
            lemma_assoc_contains(self.entries@, name@);
        }
        None
    }

    pub fn contains_key(&self, name: &String) -> (r: bool)
        ensures
            r == self.as_map().contains_key(name@),
    {
        match self.get(name) {
            Some(_) => true,
            None => false,
        }
    }

    /// Binds `name` to `v`, replacing any earlier binding.
    pub fn insert(&mut self, name: String, v: V)
        requires
            old(self).wf(),
        ensures
            final(self).wf(),
            final(self).as_map() == old(self).as_map().insert(name@, v),
    {
        let ghost s0 = self.entries@;
        let mut i: usize = self.entries.len();
        while i > 0
            invariant
                i <= self.entries@.len(),
                self.entries@ == s0,
                s0 == old(self).entries@,
                distinct_keys(s0),
                forall|j: int| i <= j < s0.len() ==> s0[j].0@ != name@,
            decreases i,
        {
            i = i - 1;
            let pair = &self.entries[i];
            if pair.0 == name {
                proof {
                    assert(forall|j: int| 0 <= j < s0.len() && j != i ==> s0[j].0@ != name@);
                    lemma_assoc_remove_at(s0, i as int, name@);
                    lemma_distinct_remove(s0, i as int);
                }
                self.entries.remove(i);
                let ghost s1 = self.entries@;
                self.entries.push((name, v));
                proof {
                    lemma_assoc_push(s1, name, v);
                    lemma_assoc_contains(s1, name@);
                    assert(forall|j: int| 0 <= j < s1.len() ==> s1[j].0@ != name@);
                    lemma_distinct_push(s1, name, v);
                    assert(assoc_map(s0).remove(name@).insert(name@, v) =~= assoc_map(s0).insert(
                        name@,
                        v,
                    ));
                }
                return ;
            }
        }
        proof {
            lemma_assoc_push(s0, name, v);
            lemma_distinct_push(s0, name, v);
        }
        self.entries.push((name, v));
    }

    /// Drops the binding of `name`, if any.
    pub fn remove(&mut self, name: &String)
        requires
            old(self).wf(),
        ensures
            final(self).wf(),
            final(self).as_map() == old(self).as_map().remove(name@),
    {
        let ghost s0 = self.entries@;
        let mut i: usize = self.entries.len();
        while i > 0
            invariant
                i <= self.entries@.len(),
                self.entries@ == s0,
                s0 == old(self).entries@,
                distinct_keys(s0),
                forall|j: int| i <= j < s0.len() ==> s0[j].0@ != name@,
            decreases i,
        {
            i = i - 1;
            let pair = &self.entries[i];
            if pair.0 == *name {
                proof {
                    assert(forall|j: int| 0 <= j < s0.len() && j != i ==> s0[j].0@ != name@);
                    lemma_assoc_remove_at(s0, i as int, name@);
                    lemma_distinct_remove(s0, i as int);
                }
                self.entries.remove(i);
                return ;
            }
        }
        proof {
            lemma_assoc_contains(s0, name@);
            assert(old(self).as_map().remove(name@) =~= old(self).as_map());
        }
    }
}

} // verus!
