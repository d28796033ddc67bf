use vstd::prelude::*;
use crate::decimal::Decimal;

verus! {

/// The normalized record for one benchmark: a primary value plus optional
/// lower and upper bounds, all expressed in nanoseconds. A parser that
/// cannot supply bounds leaves them absent rather than fabricating them.
#[derive(Clone, Copy, Debug, PartialEq, Eq)]
pub struct JsonMetric {
    pub value: Decimal,
    pub lower_bound: Option<Decimal>,
    pub upper_bound: Option<Decimal>,
}

impl JsonMetric {
    /// Values are representable, and when both bounds are present they
    /// bracket the primary value.
    pub open spec fn wf(self) -> bool {
        &&& self.value.wf()
        &&& (self.lower_bound matches Some(l) ==> l.wf())
        &&& (self.upper_bound matches Some(u) ==> u.wf())
        &&& (self.lower_bound matches Some(l) ==> (self.upper_bound matches Some(u)
            ==> l.le_value(self.value) && self.value.le_value(u)))
    }

    /// A record with absent bounds.
    pub fn new(value: Decimal) -> (r: JsonMetric)
        requires
            value.wf(),
        ensures
            r == (JsonMetric { value, lower_bound: None, upper_bound: None }),
            r.wf(),
    {
        JsonMetric { value, lower_bound: None, upper_bound: None }
    }
}

} // verus!
