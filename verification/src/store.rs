//! The ordered list of active sort specifications.

use crate::entities::SortSpecification;
use vstd::prelude::*;

verus! {

/// The specifications of a list without those that have a given identifier,
/// the others in their order.
pub open spec fn without_id(sorts: Seq<SortSpecification>, id: Seq<char>) -> Seq<
    SortSpecification,
>
    decreases sorts.len(),
{
    if sorts.len() == 0 {
        sorts
    } else if sorts.last().id@ == id {
        without_id(sorts.drop_last(), id)
    } else {
        without_id(sorts.drop_last(), id).push(sorts.last())
    }
}

/// The list with the specification at place `from` moved to place `to`,
/// and the list as it is where either place lies outside it.
pub open spec fn moved(sorts: Seq<SortSpecification>, from: int, to: int) -> Seq<
    SortSpecification,
> {
    if 0 <= from < sorts.len() && 0 <= to < sorts.len() {
        sorts.remove(from).insert(to, sorts[from])
    } else {
        sorts
    }
}

/// What is left of a list takes nothing from a list that lacks the
/// identifier, and holds no specification with it.
pub proof fn lemma_without_id(sorts: Seq<SortSpecification>, id: Seq<char>)
    ensures
        without_id(sorts, id).len() <= sorts.len(),
        forall|i: int|
            0 <= i < without_id(sorts, id).len() ==> (#[trigger] without_id(sorts, id)[i]).id@
                != id,
        (forall|i: int| 0 <= i < sorts.len() ==> (#[trigger] sorts[i]).id@ != id) ==> without_id(
            sorts,
            id,
        ) == sorts,
    decreases sorts.len(),
{
    if sorts.len() > 0 {
        let shorter = sorts.drop_last();
        lemma_without_id(shorter, id);
        if forall|i: int| 0 <= i < sorts.len() ==> (#[trigger] sorts[i]).id@ != id {
            assert forall|i: int| 0 <= i < shorter.len() implies (#[trigger] shorter[i]).id@
                != id by {
                assert(shorter[i] == sorts[i]);
            }
            assert(sorts.last() == sorts[sorts.len() - 1]);
            assert(shorter.push(sorts.last()) =~= sorts);
        }
    }
}

/// The ordered list of active sort specifications. The place of a
/// specification is its priority: the first is the primary key.
///
/// The store takes any specification: whether its field exists is decided
/// where the specification is used, so that a specification outlives the
/// field it names and is then without effect.
pub struct SortStore {
    sorts: Vec<SortSpecification>,
}

impl View for SortStore {
    type V = Seq<SortSpecification>;

    closed spec fn view(&self) -> Seq<SortSpecification> {
        self.sorts@
    }
}

impl SortStore {
    /// A store without specifications.
    pub fn new() -> (store: SortStore)
        ensures
            store@ == Seq::<SortSpecification>::empty(),
    {
        SortStore { sorts: Vec::new() }
    }

    /// A store that holds the given list.
    pub fn from_sorts(sorts: Vec<SortSpecification>) -> (store: SortStore)
        ensures
            store@ == sorts@,
    {
        SortStore { sorts }
    }

    /// The list, first priority first.
    pub fn sorts(&self) -> (list: &[SortSpecification])
        ensures
            list@ == self@,
    {
        self.sorts.as_slice()
    }

    /// The number of specifications.
    pub fn len(&self) -> (n: usize)
        ensures
            n == self@.len(),
    {
        self.sorts.len()
    }

    /// Appends a specification, which gets the lowest priority, and gives
    /// the list as it then is.
    pub fn append(&mut self, sort: SortSpecification) -> (list: &[SortSpecification])
        ensures
            final(self)@ == old(self)@.push(sort),
            list@ == final(self)@,
    {
        self.sorts.push(sort);
        self.sorts.as_slice()
    }

    /// Removes the specifications with the given identifier, and gives the
    /// list as it then is.
    pub fn remove(&mut self, id: &String) -> (list: &[SortSpecification])
        ensures
            final(self)@ == without_id(old(self)@, id@),
            list@ == final(self)@,
    {
        let ghost input = self.sorts@;
        let ghost done: int = 0;
        let mut i: usize = 0;
        assert(input.take(0) =~= Seq::<SortSpecification>::empty());
        assert(input.skip(0) =~= input);
        while i < self.sorts.len()
            invariant
                0 <= done <= input.len(),
                i <= self.sorts.len(),
                i == without_id(input.take(done), id@).len(),
                self.sorts@ == without_id(input.take(done), id@) + input.skip(done),
            decreases self.sorts.len() - i,
        {
            proof {
                assert(self.sorts@[i as int] == input[done]);
                assert(input.take(done + 1).drop_last() =~= input.take(done));
                assert(input.take(done + 1).last() == input[done]);
            }
            if self.sorts[i].id == *id {
                self.sorts.remove(i);
                proof {
                    assert(self.sorts@ =~= without_id(input.take(done + 1), id@)
                        + input.skip(done + 1));
                }
            } else {
                i += 1;
                proof {
                    assert(self.sorts@ =~= without_id(input.take(done + 1), id@)
                        + input.skip(done + 1));
                }
            }
            proof {
                done = done + 1;
            }
        }
        proof {
            assert(done == input.len());
            assert(input.take(done) =~= input);
            assert(self.sorts@ =~= without_id(input, id@));
        }
        self.sorts.as_slice()
    }

    /// Moves the specification at place `from` to place `to`, the others
    /// keeping their order, and gives the list as it then is. Where either
    /// place lies outside the list, the list stays as it is.
    pub fn reorder(&mut self, from: usize, to: usize) -> (list: &[SortSpecification])
        ensures
            final(self)@ == moved(old(self)@, from as int, to as int),
            list@ == final(self)@,
    {
        if from < self.sorts.len() && to < self.sorts.len() {
            let sort = self.sorts.remove(from);
            self.sorts.insert(to, sort);
        }
        self.sorts.as_slice()
    }
}

} // verus!
