//! Generation numbers of changesets.

use vstd::prelude::*;

verus! {

/// Generation number of a changeset: one more than the largest generation
/// number among its parents, and 1 for a changeset without parents.
#[derive(Debug, Clone, Copy, PartialEq, Eq, Structural, PartialOrd, Ord, Hash)]
pub struct Generation(u64);

impl View for Generation {
    type V = nat;

    closed spec fn view(&self) -> nat {
        self.0 as nat
    }
}

impl Generation {
    /// Creates a generation number.
    pub fn new(gen: u64) -> (g: Self)
        ensures
            g@ == gen as nat,
    {
        Generation(gen)
    }

    /// The largest generation number there is.
    pub fn max_gen() -> (g: Self)
        ensures
            g@ == u64::MAX as nat,
    {
        Generation(u64::MAX)
    }

    /// The generation number.
    pub fn value(&self) -> (gen: u64)
        ensures
            gen as nat == self@,
    {
        self.0
    }

    /// How far this generation lies above `other`; `None` if it lies below.
    pub fn difference_from(&self, other: Generation) -> (d: Option<u64>)
        ensures
            self@ >= other@ ==> d == Some((self@ - other@) as u64),
            self@ < other@ ==> d.is_none(),
    {
        self.0.checked_sub(other.0)
    }
}

} // verus!
