//! A scope: names bound to values, each name at most once.

use vstd::prelude::*;

verus! {

/// The map that a list of bindings stands for (a later binding of a name
/// wins, though in a scope no name occurs twice).
pub open spec fn assoc<V: View>(s: Seq<(String, V)>) -> Map<Seq<char>, V::V>
    decreases s.len(),
{
    if s.len() == 0 {
        Map::empty()
    } else {
        assoc(s.drop_last()).insert(s.last().0@, s.last().1@)
    }
}

/// No name is bound twice.
pub open spec fn keys_unique<V>(s: Seq<(String, V)>) -> bool {
    forall|i: int, j: int| 0 <= i < j < s.len() ==> s[i].0@ != s[j].0@
}

pub proof fn lemma_assoc_lookup<V: View>(s: Seq<(String, V)>, i: int)
    requires
        keys_unique(s),
        0 <= i < s.len(),
    ensures
        assoc(s).contains_key(s[i].0@),
        assoc(s)[s[i].0@] == s[i].1@,
    decreases s.len(),
{
    if i < s.len() - 1 {
        let dl = s.drop_last();
        assert(dl[i] == s[i]);
        lemma_assoc_lookup(dl, i);
    }
}

pub proof fn lemma_assoc_absent<V: View>(s: Seq<(String, V)>, k: Seq<char>)
    requires
        forall|i: int| 0 <= i < s.len() ==> s[i].0@ != k,
    ensures
        !assoc(s).contains_key(k),
    decreases s.len(),
{
    if s.len() > 0 {
        let dl = s.drop_last();
        assert forall|i: int| 0 <= i < dl.len() implies dl[i].0@ != k by {
            assert(dl[i] == s[i]);
        }
        lemma_assoc_absent(dl, k);
    }
}

pub proof fn lemma_assoc_update<V: View>(s: Seq<(String, V)>, i: int, e: (String, V))
    requires
        keys_unique(s),
        0 <= i < s.len(),
        s[i].0@ == e.0@,
    ensures
        assoc(s.update(i, e)) == assoc(s).insert(e.0@, e.1@),
    decreases s.len(),
{
    let u = s.update(i, e);
    let dl = s.drop_last();
    if i == s.len() - 1 {
        assert(u.drop_last() =~= dl);
        assert(assoc(u) =~= assoc(s).insert(e.0@, e.1@));
    } else {
        assert(u.drop_last() =~= dl.update(i, e));
        assert(keys_unique(dl));
        assert(dl[i] == s[i]);
        lemma_assoc_update(dl, i, e);
        assert(s.last().0@ != s[i].0@);
        assert(assoc(u) =~= assoc(s).insert(e.0@, e.1@));
    }
}

pub proof fn lemma_assoc_len<V: View>(s: Seq<(String, V)>)
    requires
        keys_unique(s),
    ensures
        assoc(s).dom().finite(),
        assoc(s).dom().len() == s.len(),
    decreases s.len(),
{
    if s.len() > 0 {
        let dl = s.drop_last();
        assert(keys_unique(dl));
        lemma_assoc_len(dl);
        assert forall|i: int| 0 <= i < dl.len() implies dl[i].0@ != s.last().0@ by {
            assert(dl[i] == s[i]);
        }
        lemma_assoc_absent(dl, s.last().0@);
    }
}

/// Names bound to values.
pub struct Scope<V> {
    entries: Vec<(String, V)>,
}

impl<V: View> Scope<V> {
    /// The bindings as a map.
    pub closed spec fn map(&self) -> Map<Seq<char>, V::V> {
        assoc(self.entries@)
    }

    /// No name is bound twice.
    pub closed spec fn wf(&self) -> bool {
        keys_unique(self.entries@)
    }

    pub fn new() -> (s: Self)
        ensures
            s.wf(),
            s.map() == Map::<Seq<char>, V::V>::empty(),
    {
        Scope { entries: Vec::new() }
    }

    /// The index of the binding of `name`, if any.
    fn find(&self, name: &String) -> (r: Option<usize>)
        ensures
            match r {
                Some(i) => i < self.entries@.len() && self.entries@[i as int].0@ == name@,
                None => forall|i: int| 0 <= i < self.entries@.len() ==> self.entries@[i].0@ != name@,
            },
    {
        let mut i: usize = 0;
        while i < self.entries.len()
            invariant
                i <= self.entries@.len(),
                forall|j: int| 0 <= j < i ==> self.entries@[j].0@ != name@,
            decreases self.entries.len() - i,
        {
            if self.entries[i].0 == *name {
                return Some(i);
            }
            i = i + 1;
        }
        None
    }

    /// The value bound to `name`, if any.
    pub fn get(&self, name: &String) -> (r: Option<&V>)
        requires
            self.wf(),
        ensures
            match r {
                Some(v) => self.map().contains_key(name@) && self.map()[name@] == v@,
                None => !self.map().contains_key(name@),
            },
    {
        match self.find(name) {
            Some(i) => {
                proof {
                    lemma_assoc_lookup(self.entries@, i as int);
                }
                Some(&self.entries[i].1)
            },
            None => {
                proof {
                    lemma_assoc_absent(self.entries@, name@);
                }
                None
            },
        }
    }

    /// Binds `name` to `v`, replacing any binding of `name`.
    pub fn insert(&mut self, name: String, v: V)
        requires
            old(self).wf(),
        ensures
            final(self).wf(),
            final(self).map() == old(self).map().insert(name@, v@),
    {
        match self.find(&name) {
            Some(i) => {
                let ghost e = (name, v);
                proof {
                    lemma_assoc_update(self.entries@, i as int, e);
                }
                self.entries[i] = (name, v);
                assert(self.entries@ =~= old(self).entries@.update(i as int, e));
            },
            None => {
                self.entries.push((name, v));
                assert(self.entries@.drop_last() =~= old(self).entries@);
            },
        }
    }

    /// The number of names bound.
    pub fn len(&self) -> (n: usize)
        requires
            self.wf(),
        ensures
            n == self.map().dom().len(),
            self.map().dom().finite(),
    {
        proof {
            lemma_assoc_len(self.entries@);
        }
        self.entries.len()
    }
}

} // verus!
