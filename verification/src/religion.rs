//! The three-axis religion vector a civ carries: theology, ritual and
//! sacred time, each in `[-1, 1]`.

use crate::arith::Real;
use crate::cosmology::unit_range;
use vstd::prelude::*;

verus! {

/// A civ's religion vector.
#[derive(Debug, Clone, Copy, PartialEq, Eq, Structural)]
pub struct Religion {
    pub theology: Real,
    pub ritual: Real,
    pub sacred_time: Real,
}

impl Religion {
    /// Every axis lies in `[-1, 1]`.
    pub open spec fn wf(&self) -> bool {
        &&& unit_range(self.theology@)
        &&& unit_range(self.ritual@)
        &&& unit_range(self.sacred_time@)
    }

    /// The neutral religion: every axis zero.
    pub fn neutral() -> (r: Religion)
        ensures
            r.theology@ == 0,
            r.ritual@ == 0,
            r.sacred_time@ == 0,
            r.wf(),
    {
        Religion { theology: Real::zero(), ritual: Real::zero(), sacred_time: Real::zero() }
    }
}

} // verus!
