//! The lexical environment: a mapping from symbol name to stack-slot index.
//! Scoping is snapshot-per-scope: a child scope is a copy of its parent with
//! bindings added, so nothing a child adds is visible outside it.

use vstd::prelude::*;
use crate::bytes::bytes_eq;

verus! {

/// The map described by a stack of bindings, later entries shadowing earlier
/// ones.
pub open spec fn map_of(s: Seq<(Seq<u8>, usize)>) -> Map<Seq<u8>, usize>
    decreases s.len(),
{
    if s.len() == 0 {
        Map::empty()
    } else {
        map_of(s.drop_last()).insert(s.last().0, s.last().1)
    }
}

proof fn lemma_map_of_found(s: Seq<(Seq<u8>, usize)>, j: int)
    requires
        0 <= j < s.len(),
        forall|k: int| j < k < s.len() ==> s[k].0 != s[j].0,
    ensures
        map_of(s).contains_key(s[j].0),
        map_of(s)[s[j].0] == s[j].1,
    decreases s.len(),
{
    if j == s.len() - 1 {
        assert(s.last() == s[j]);
    } else {
        assert(s.drop_last()[j] == s[j]);
        assert(forall|k: int|
            j < k < s.drop_last().len() ==> s.drop_last()[k] == s[k] && s[k].0 != s[j].0);
        lemma_map_of_found(s.drop_last(), j);
        assert(s.last().0 != s[j].0);
    }
}

proof fn lemma_map_of_absent(s: Seq<(Seq<u8>, usize)>, key: Seq<u8>)
    requires
        forall|k: int| 0 <= k < s.len() ==> s[k].0 != key,
    ensures
        !map_of(s).contains_key(key),
    decreases s.len(),
{
    if s.len() > 0 {
        assert(forall|k: int| 0 <= k < s.drop_last().len() ==> s.drop_last()[k] == s[k]);
        lemma_map_of_absent(s.drop_last(), key);
        assert(s.last().0 != key);
    }
}

/// An immutable mapping from symbol name to the stack slot holding its value.
pub struct Environment {
    entries: Vec<(Vec<u8>, usize)>,
}

impl Environment {
    /// The bindings in the order they were added.
    pub closed spec fn stack(&self) -> Seq<(Seq<u8>, usize)> {
        Seq::new(self.entries@.len(), |i: int| (self.entries@[i].0@, self.entries@[i].1))
    }

    pub fn new() -> (r: Self)
        ensures
            r.stack() =~= Seq::<(Seq<u8>, usize)>::empty(),
            r@ == Map::<Seq<u8>, usize>::empty(),
    {
        let r = Environment { entries: Vec::new() };
        proof {
            assert(r.stack() =~= Seq::<(Seq<u8>, usize)>::empty());
        }
        r
    }

    /// A copy of this environment, the seed of a child scope.
    pub fn duplicate(&self) -> (r: Self)
        ensures
            r.stack() == self.stack(),
            r@ == self@,
    {
        let mut entries: Vec<(Vec<u8>, usize)> = Vec::new();
        let mut i: usize = 0;
        while i < self.entries.len()
            invariant
                i <= self.entries@.len(),
                entries@.len() == i,
                forall|j: int| #![all_triggers]
                    0 <= j < i ==> entries@[j].0@ == self.entries@[j].0@ && entries@[j].1
                        == self.entries@[j].1,
            decreases self.entries@.len() - i,
        {
            let name = self.entries[i].0.clone();
            proof {
                assert(name@ =~= self.entries@[i as int].0@);
            }
            let slot = self.entries[i].1;
            entries.push((name, slot));
            i = i + 1;
        }
        let r = Environment { entries };
        proof {
            assert(r.stack() =~= self.stack());
        }
        r
    }

    /// Adds a binding; a later binding for the same name shadows an earlier
    /// one.
    pub fn bind(&mut self, name: Vec<u8>, slot: usize)
        ensures
            final(self).stack() == old(self).stack().push((name@, slot)),
            final(self)@ == old(self)@.insert(name@, slot),
    {
        let ghost s0 = self.stack();
        self.entries.push((name, slot));
        proof {
            assert(self.stack() =~= s0.push((name@, slot)));
            assert(self.stack().drop_last() =~= s0);
        }
    }

    /// The stack slot bound to `name`, if any.
    pub fn resolve(&self, name: &[u8]) -> (r: Option<usize>)
        ensures
            match r {
                Some(slot) => self@.contains_key(name@) && self@[name@] == slot,
                None => !self@.contains_key(name@),
            },
    {
        let mut j = self.entries.len();
        while j > 0
            invariant
                j <= self.entries@.len(),
                forall|k: int| j <= k < self.stack().len() ==> self.stack()[k].0 != name@,
            decreases j,
        {
            j = j - 1;
            if bytes_eq(name, self.entries[j].0.as_slice()) {
                proof {
                    assert(self.stack()[j as int].0 == name@);
                    lemma_map_of_found(self.stack(), j as int);
                }
                return Some(self.entries[j].1);
            }
        }
        proof {
            lemma_map_of_absent(self.stack(), name@);
        }
        None
    }

    /// Whether `name` is bound.
    pub fn contains(&self, name: &[u8]) -> (r: bool)
        ensures
            r == self@.contains_key(name@),
    {
        self.resolve(name).is_some()
    }
}

impl View for Environment {
    type V = Map<Seq<u8>, usize>;

    closed spec fn view(&self) -> Map<Seq<u8>, usize> {
        map_of(self.stack())
    }
}

} // verus!
