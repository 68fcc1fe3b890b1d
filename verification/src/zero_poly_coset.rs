//! The vanishing polynomial of the trace domain, inverted over the
//! extended domain.

use vstd::prelude::*;

verus! {

/// The inverses of the vanishing polynomial of the trace domain over the
/// extended domain. Along that domain the polynomial takes as many values
/// as the blow-up factor and then repeats, so one period is kept.
pub struct ZeroPolyOnCoset {
    /// One period of the inverses.
    pub inverses: Vec<u64>,
}

impl ZeroPolyOnCoset {
    /// The inverse at the point with index `i`, for any table that is not empty.
    pub open spec fn inverse_at(inverses: Seq<u64>, i: int) -> u64 {
        inverses[i % (inverses.len() as int)]
    }

    /// The inverse of the vanishing polynomial at the `i`-th point of the
    /// extended domain.
    pub fn eval_inverse(&self, i: usize) -> (inv: u64)
        requires
            self.inverses@.len() > 0,
        ensures
            inv == Self::inverse_at(self.inverses@, i as int),
    {
        self.inverses[i % self.inverses.len()]
    }
}

} // verus!
