//! Source ranges.

use vstd::prelude::*;

verus! {

/// The range of source positions that a token or a node covers.
#[derive(Clone, Copy, Debug, PartialEq, Eq, Hash, Structural)]
pub struct Location {
    pub start: usize,
    pub end: usize,
}

impl Location {
    /// The range from the start of `self` to the later of the two ends.
    pub open spec fn merged(self, other: Location) -> Location {
        Location {
            start: self.start,
            end: if self.end >= other.end {
                self.end
            } else {
                other.end
            },
        }
    }

    /// The empty range at `at`.
    pub open spec fn point(at: usize) -> Location {
        Location { start: at, end: at }
    }

    pub fn new(start: usize, end: usize) -> (location: Location)
        ensures
            location == (Location { start, end }),
    {
        Location { start, end }
    }

    /// Extends `self` so that it also reaches the end of `other`.
    pub fn merge(self, other: Location) -> (location: Location)
        ensures
            location == self.merged(other),
    {
        let end: usize = if self.end >= other.end {
            self.end
        } else {
            other.end
        };
        Location { start: self.start, end }
    }
}

} // verus!
