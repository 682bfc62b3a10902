//! Which of two neighbouring strips to try first when a straight move fails.

use vstd::prelude::*;

verus! {

/// An order of trial as a mathematical value: the strip to test first with
/// the correction that goes with it, then the other.
pub struct ShufflePlan {
    pub index1: int,
    pub shuffle1: int,
    pub index2: int,
    pub shuffle2: int,
}

/// The plan for a footprint whose low edge is `min_diff` short of the next
/// tile boundary and whose high edge is `max_diff` past the last one. Where
/// less is left on the low side than has crossed on the high side, the high
/// strip is tried first, with a correction of +2; otherwise the low strip,
/// with -2.
pub open spec fn shuffle_plan(min_diff: int, max_diff: int) -> ShufflePlan {
    if min_diff < max_diff {
        ShufflePlan { index1: 1, shuffle1: 2, index2: 0, shuffle2: -2 }
    } else {
        ShufflePlan { index1: 0, shuffle1: -2, index2: 1, shuffle2: 2 }
    }
}

/// An order of trial for two neighbouring strips.
pub struct Shuffle {
    index1: usize,
    shuffle1: i8,
    index2: usize,
    shuffle2: i8,
}

impl View for Shuffle {
    type V = ShufflePlan;

    closed spec fn view(&self) -> ShufflePlan {
        ShufflePlan {
            index1: self.index1 as int,
            shuffle1: self.shuffle1 as int,
            index2: self.index2 as int,
            shuffle2: self.shuffle2 as int,
        }
    }
}

impl Shuffle {
    /// The order of trial for a footprint whose low edge is `min_diff` short
    /// of the next tile boundary and whose high edge is `max_diff` past the
    /// last one.
    pub fn get_shuffle(min_diff: i32, max_diff: i32) -> (r: Shuffle)
        ensures
            r@ == shuffle_plan(min_diff as int, max_diff as int),
    {
        if min_diff < max_diff {
            Shuffle { index1: 1, shuffle1: 2, index2: 0, shuffle2: -2 }
        } else {
            Shuffle { index1: 0, shuffle1: -2, index2: 1, shuffle2: 2 }
        }
    }

    /// The strip to test first and its correction.
    pub fn first(&self) -> (r: (usize, i8))
        ensures
            r.0 == self@.index1,
            r.1 == self@.shuffle1,
    {
        (self.index1, self.shuffle1)
    }

    /// The strip to test second and its correction.
    pub fn second(&self) -> (r: (usize, i8))
        ensures
            r.0 == self@.index2,
            r.1 == self@.shuffle2,
    {
        (self.index2, self.shuffle2)
    }
}

} // verus!
