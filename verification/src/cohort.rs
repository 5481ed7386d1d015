//! Age-bracketed population of one cell (or of a whole civ): infants,
//! juveniles, fertile adults and elders, each a non-negative Q32.32
//! head count.

use crate::arith::{fits, Real};
use vstd::prelude::*;

verus! {

/// Head counts per age bracket.
#[derive(Debug, Clone, Copy, PartialEq, Eq, Structural)]
pub struct Cohort {
    pub infant: Real,
    pub juvenile: Real,
    pub fertile: Real,
    pub elder: Real,
}

/// Sum of the four brackets.
pub open spec fn cohort_total(c: Cohort) -> int {
    c.infant@ + c.juvenile@ + c.fertile@ + c.elder@
}

impl Cohort {
    /// Every bracket is non-negative and the total is representable.
    pub open spec fn wf(&self) -> bool {
        &&& self.infant@ >= 0
        &&& self.juvenile@ >= 0
        &&& self.fertile@ >= 0
        &&& self.elder@ >= 0
        &&& fits(cohort_total(*self))
    }

    /// The empty cohort.
    pub fn zero() -> (c: Cohort)
        ensures
            cohort_total(c) == 0,
            c.infant@ == 0 && c.juvenile@ == 0 && c.fertile@ == 0 && c.elder@ == 0,
            c.wf(),
    {
        let z = Real::zero();
        Cohort { infant: z, juvenile: z, fertile: z, elder: z }
    }

    /// Total head count.
    pub fn total(&self) -> (t: Real)
        requires
            self.wf(),
        ensures
            t@ == cohort_total(*self),
    {
        self.infant.add(self.juvenile).add(self.fertile).add(self.elder)
    }

    /// Add `n` to the fertile bracket.
    pub fn add_fertile(&mut self, n: Real)
        requires
            old(self).wf(),
            n@ >= 0,
            fits(cohort_total(*old(self)) + n@),
        ensures
            *final(self) == (Cohort { fertile: Real { bits: (old(self).fertile@ + n@) as i64 }, ..*old(self) }),
            cohort_total(*final(self)) == cohort_total(*old(self)) + n@,
            final(self).wf(),
    {
        self.fertile = self.fertile.add(n);
    }
}

} // verus!
