//! A cursor that a front end moves along one side of the board.

use vstd::prelude::*;

verus! {

/// A position along one side of a board: an index that stays below `max`.
#[derive(Clone, Copy, Debug, PartialEq, Eq, Structural)]
pub struct BoundedIndex {
    pub index: usize,
    pub max: usize,
}

/// Where an index that stands at `index` below `max` stands after a move
/// forward by `steps`: at `index + steps` if that is still below `max`,
/// else where it stood.
pub open spec fn moved_forward(index: int, max: int, steps: int) -> int {
    if index + steps < max {
        index + steps
    } else {
        index
    }
}

/// Where an index that stands at `index` stands after a move back by
/// `steps`: at `index - steps`, or at zero if that would be less.
pub open spec fn moved_back(index: int, steps: int) -> int {
    if index >= steps {
        index - steps
    } else {
        0
    }
}

impl core::ops::AddAssign<usize> for BoundedIndex {
    /// Moves forward by `other`, unless that would leave the side.
    fn add_assign(&mut self, other: usize)
        ensures
            final(self).max == old(self).max,
            final(self).index == moved_forward(
                old(self).index as int,
                old(self).max as int,
                other as int,
            ),
    {
        let new = self.index.saturating_add(other);
        *self = Self { max: self.max, index: if new < self.max { new } else { self.index } };
    }
}

impl core::ops::SubAssign<usize> for BoundedIndex {
    /// Moves back by `other`, at most to the start of the side.
    fn sub_assign(&mut self, other: usize)
        ensures
            final(self).max == old(self).max,
            final(self).index == moved_back(old(self).index as int, other as int),
    {
        *self = Self { max: self.max, index: self.index.saturating_sub(other) };
    }
}

} // verus!
