//! Shared agent attributes: the per-agent speed limit and the
//! strength/range pair that parameterises each force kind.

use vstd::prelude::*;
use crate::fixed::{RANGE_LIMIT, SPEED_LIMIT, STRENGTH_LIMIT};

verus! {

/// Speed limit of an agent, in fixed-point units per second.
#[derive(Clone, Copy, PartialEq, Eq, Structural)]
pub struct MaxSpeed(pub i64);

impl MaxSpeed {
    pub fn new(speed: i64) -> (m: MaxSpeed)
        requires
            0 <= speed <= SPEED_LIMIT,
        ensures
            m.0 == speed,
    {
        MaxSpeed(speed)
    }
}

/// Strength and cutoff radius of one force kind, attached to the agent
/// that reacts to it.
#[derive(Clone, Copy, PartialEq, Eq, Structural)]
pub struct ForceParams {
    pub strength: i64,
    pub range: i64,
}

/// Force parameters are nonnegative and bounded.
pub open spec fn params_wf(p: ForceParams) -> bool {
    &&& 0 <= p.strength <= STRENGTH_LIMIT as int
    &&& 0 <= p.range <= RANGE_LIMIT as int
}

impl ForceParams {
    pub fn new(strength: i64, range: i64) -> (p: ForceParams)
        requires
            0 <= strength <= STRENGTH_LIMIT,
            0 <= range <= RANGE_LIMIT,
        ensures
            p.strength == strength,
            p.range == range,
            params_wf(p),
    {
        ForceParams { strength, range }
    }
}

} // verus!
