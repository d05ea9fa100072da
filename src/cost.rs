use vstd::prelude::*;

verus! {

/// An aggregate cost: a non-negative machine integer.
#[derive(Debug, Clone, Copy, PartialEq, Eq, PartialOrd, Ord, Structural)]
pub struct Cost(pub usize);

impl Cost {
    pub fn new(c: usize) -> (r: Cost)
        ensures
            r.0 == c,
    {
        Cost(c)
    }

    /// The number of cost units.
    pub fn value(&self) -> (r: usize)
        ensures
            r == self.0,
    {
        self.0
    }

    /// The sum of two costs, or `None` when it does not fit.
    pub fn checked_add(self, rhs: Cost) -> (r: Option<Cost>)
        ensures
            self.0 + rhs.0 <= usize::MAX ==> r == Some(Cost((self.0 + rhs.0) as usize)),
            self.0 + rhs.0 > usize::MAX ==> r is None,
    {
        match self.0.checked_add(rhs.0) {
            Some(s) => Some(Cost(s)),
            None => None,
        }
    }

    /// Whether this cost is above `limit`.
    pub fn exceeds(&self, limit: &Cost) -> (r: bool)
        ensures
            r == (self.0 > limit.0),
    {
        self.0 > limit.0
    }
}

} // verus!
