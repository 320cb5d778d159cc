use vstd::prelude::*;
use crate::error::Error;
use crate::interval::Interval;

verus! {

/// The intervals of a scale above its unison; the last is the equave, the
/// interval at which the scale repeats.
#[derive(Debug)]
pub struct Scale {
    intervals: Vec<Interval>,
}

impl Scale {
    #[verifier::type_invariant]
    spec fn inv(self) -> bool {
        self.intervals@.len() > 0
    }

    pub closed spec fn spec_intervals(&self) -> Seq<Interval> {
        self.intervals@
    }

    /// Fails when there is no interval.
    pub fn new(intervals: Vec<Interval>) -> (r: Result<Self, Error>)
        ensures
            intervals@.len() == 0 ==> (r matches Err(e) && e == Error::EmptyScale),
            intervals@.len() > 0 ==> (r matches Ok(s) && s.spec_intervals() == intervals@),
    {
        if intervals.len() == 0 {
            return Err(Error::EmptyScale);
        }
        Ok(Scale { intervals })
    }

    pub fn intervals(&self) -> (r: &Vec<Interval>)
        ensures
            r@ == self.spec_intervals(),
            r@.len() > 0,
    {
        proof {
            use_type_invariant(self);
        }
        &self.intervals
    }
}

} // verus!
