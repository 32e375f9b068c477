use vstd::prelude::*;

verus! {

/// A set of items with approximate membership, as duplicate detection needs
/// it. What it answers is a function of its state and the item.
///
/// The spec functions are what the contracts of the methods speak of; an
/// implementation gives them their bodies.
pub trait DuplicateSet<T>: Clone {
    /// What the answers of a set depend on.
    type State;

    /// The state of a set.
    open spec fn state(&self) -> Self::State {
        arbitrary()
    }

    /// What the methods ask of a set, and keep.
    open spec fn wf(&self) -> bool {
        true
    }

    /// The state of the set that `empty` makes.
    open spec fn spec_empty() -> Self::State {
        arbitrary()
    }

    /// What `contains` answers for `item` in a set of state `state`.
    open spec fn spec_contains(state: Self::State, item: &T) -> bool {
        arbitrary()
    }

    /// The state after an insertion of `item`.
    open spec fn spec_insert(state: Self::State, item: &T) -> Self::State {
        arbitrary()
    }

    /// A set that holds nothing yet.
    fn empty() -> (s: Self)
        ensures
            s.wf(),
            s.state() == Self::spec_empty(),
    ;

    /// Inserts `item` and says whether the set held it before.
    fn insert(&mut self, item: &T) -> (present: bool)
        requires
            old(self).wf(),
        ensures
            final(self).wf(),
            present == Self::spec_contains(old(self).state(), item),
            final(self).state() == Self::spec_insert(old(self).state(), item),
    ;

    fn contains(&self, item: &T) -> (present: bool)
        requires
            self.wf(),
        ensures
            present == Self::spec_contains(self.state(), item),
    ;
}

/// The set that never holds anything: with it, nothing counts as a duplicate.
#[derive(Clone, Default)]
pub struct AlwaysEmptySet;

impl<T> DuplicateSet<T> for AlwaysEmptySet {
    type State = ();

    open spec fn state(&self) -> () {
        ()
    }

    open spec fn spec_empty() -> () {
        ()
    }

    open spec fn spec_contains(state: (), item: &T) -> bool {
        false
    }

    open spec fn spec_insert(state: (), item: &T) -> () {
        ()
    }

    fn empty() -> (s: Self) {
        AlwaysEmptySet
    }

    fn insert(&mut self, _item: &T) -> (present: bool) {
        false
    }

    fn contains(&self, _item: &T) -> (present: bool) {
        false
    }
}

} // verus!
