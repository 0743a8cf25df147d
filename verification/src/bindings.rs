//! A table from names to values in which a later binding of a name takes
//! the place of an earlier one.

use vstd::prelude::*;
use crate::ast::{names_view, Name};
use crate::semantics::bind;

verus! {

/// The map that a run of bindings stands for: the last binding of each name.
pub open spec fn bound<T>(entries: Seq<(Name, T)>) -> Map<Seq<char>, T>
    decreases entries.len(),
{
    if entries.len() == 0 {
        Map::empty()
    } else {
        bound(entries.drop_last()).insert(entries.last().0@, entries.last().1)
    }
}

/// A name that none of the entries from `from` on binds is bound by the
/// whole run as it is by the entries before `from`.
pub proof fn lemma_bound_skips<T>(entries: Seq<(Name, T)>, from: int, name: Seq<char>)
    requires
        0 <= from <= entries.len(),
        forall|j: int| from <= j < entries.len() ==> (#[trigger] entries[j]).0@ != name,
    ensures
        bound(entries).contains_key(name) == bound(entries.take(from)).contains_key(name),
        bound(entries).contains_key(name) ==> bound(entries)[name] == bound(entries.take(from))[name],
    decreases entries.len() - from,
{
    if from == entries.len() {
        assert(entries.take(from) =~= entries);
    } else {
        let shorter = entries.drop_last();
        assert(entries.last() == entries[entries.len() - 1]);
        assert(shorter.take(from) =~= entries.take(from));
        assert forall|j: int| from <= j < shorter.len() implies (#[trigger] shorter[j]).0@
            != name by {
            assert(shorter[j] == entries[j]);
        }
        lemma_bound_skips(shorter, from, name);
    }
}

/// Bindings in the order in which they were made. The latest binding of
/// a name is the one that counts.
#[derive(Debug, PartialEq, Eq)]
pub struct Bindings<T> {
    pub entries: Vec<(Name, T)>,
}

impl<T> View for Bindings<T> {
    type V = Map<Seq<char>, T>;

    open spec fn view(&self) -> Map<Seq<char>, T> {
        bound(self.entries@)
    }
}

impl<T: Copy> Clone for Bindings<T> {
    fn clone(&self) -> (copy: Bindings<T>)
        ensures
            copy@ == self@,
    {
        let mut copy = Bindings::new();
        let mut i: usize = 0;
        while i < self.entries.len()
            invariant
                i <= self.entries.len(),
                copy@ == bound(self.entries@.take(i as int)),
            decreases self.entries.len() - i,
        {
            assert(self.entries@.take(i + 1).drop_last() =~= self.entries@.take(i as int));
            copy.insert(self.entries[i].0.clone(), self.entries[i].1);
            i += 1;
        }
        assert(self.entries@.take(i as int) =~= self.entries@);
        copy
    }
}

impl<T: Copy> Bindings<T> {
    /// A table that binds nothing.
    pub fn new() -> (bindings: Bindings<T>)
        ensures
            bindings@ == Map::<Seq<char>, T>::empty(),
    {
        Bindings { entries: Vec::new() }
    }

    /// Binds `name` to `value`, in place of what it was bound to.
    pub fn insert(&mut self, name: Name, value: T)
        ensures
            final(self)@ == old(self)@.insert(name@, value),
    {
        self.entries.push((name, value));
        assert(self.entries@.drop_last() =~= old(self).entries@);
    }

    /// The value that `name` is bound to.
    pub fn get(&self, name: &Name) -> (value: Option<T>)
        ensures
            value == if self@.contains_key(name@) {
                Some(self@[name@])
            } else {
                None
            },
    {
        let mut i: usize = self.entries.len();
        while i > 0
            invariant
                i <= self.entries.len(),
                forall|j: int| i <= j < self.entries.len() ==> (#[trigger] self.entries@[j]).0@ != name@,
            decreases i,
        {
            i -= 1;
            if self.entries[i].0.equals(name) {
                proof {
                    lemma_bound_skips(self.entries@, i + 1, name@);
                    assert(self.entries@.take(i + 1).drop_last() =~= self.entries@.take(i as int));
                }
                return Some(self.entries[i].1);
            }
        }
        proof {
            lemma_bound_skips(self.entries@, 0, name@);
        }
        None
    }

}

impl Bindings<i64> {
    /// The table of a call: each parameter bound to its argument.
    pub fn bind(params: &Vec<Name>, values: &Vec<i64>) -> (bindings: Bindings<i64>)
        requires
            params.len() == values.len(),
        ensures
            bindings@ == bind(names_view(params@), values@),
    {
        let mut bindings = Bindings::new();
        let mut i: usize = 0;
        while i < params.len()
            invariant
                i <= params.len(),
                params.len() == values.len(),
                bindings@ == bind(names_view(params@).take(i as int), values@.take(i as int)),
            decreases params.len() - i,
        {
            proof {
                let names = names_view(params@);
                assert(names.take(i + 1).drop_last() =~= names.take(i as int));
                assert(values@.take(i + 1).drop_last() =~= values@.take(i as int));
                assert(names.take(i + 1).last() == params[i as int]@);
            }
            bindings.insert(params[i].clone(), values[i]);
            i += 1;
        }
        proof {
            assert(names_view(params@).take(i as int) =~= names_view(params@));
            assert(values@.take(i as int) =~= values@);
        }
        bindings
    }
}

} // verus!
