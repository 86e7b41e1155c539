use vstd::prelude::*;

verus! {

/// One reported violation: a period and the offending ids (rooms for
/// conflict and straddle reports, a class index for capacity reports).
#[derive(Clone, Debug)]
pub struct Violations {
    pub period: usize,
    pub ids: Vec<usize>,
}

impl Violations {
    pub fn new(period: usize, ids: Vec<usize>) -> (v: Violations)
        ensures
            v.period == period,
            v.ids@ == ids@,
    {
        Violations { period, ids }
    }
}

} // verus!
