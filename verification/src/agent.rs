//! Agents and their behaviour parameters.

use vstd::prelude::*;
use crate::fixed::{finite, LIMIT};
use crate::vec3::Vec3;

verus! {

/// The behaviour parameters of one agent, fixed for its lifetime.
#[derive(Clone, Copy, Debug, PartialEq, Eq, Structural)]
pub struct Params {
    /// Largest speed the agent may reach.
    pub max_speed: i64,
    /// Largest steering acceleration the agent may apply.
    pub max_force: i64,
    /// Distance up to which other agents influence alignment and cohesion.
    pub perception_radius: i64,
    /// Distance below which other agents repel.
    pub separation_radius: i64,
    pub separation_weight: i64,
    pub alignment_weight: i64,
    pub cohesion_weight: i64,
}

impl Params {
    /// Every parameter is a non-negative finite value.
    pub open spec fn valid(self) -> bool {
        &&& 0 <= self.max_speed <= LIMIT
        &&& 0 <= self.max_force <= LIMIT
        &&& 0 <= self.perception_radius <= LIMIT
        &&& 0 <= self.separation_radius <= LIMIT
        &&& 0 <= self.separation_weight <= LIMIT
        &&& 0 <= self.alignment_weight <= LIMIT
        &&& 0 <= self.cohesion_weight <= LIMIT
    }

    pub fn is_valid(&self) -> (b: bool)
        ensures
            b == self.valid(),
    {
        0 <= self.max_speed && self.max_speed <= LIMIT && 0 <= self.max_force && self.max_force
            <= LIMIT && 0 <= self.perception_radius && self.perception_radius <= LIMIT && 0
            <= self.separation_radius && self.separation_radius <= LIMIT && 0
            <= self.separation_weight && self.separation_weight <= LIMIT && 0
            <= self.alignment_weight && self.alignment_weight <= LIMIT && 0
            <= self.cohesion_weight && self.cohesion_weight <= LIMIT
    }
}

/// One simulated agent.
#[derive(Clone, Copy, Debug, PartialEq, Eq, Structural)]
pub struct Agent {
    /// Stable identity, assigned at creation.
    pub id: u64,
    pub position: Vec3,
    pub velocity: Vec3,
    pub params: Params,
}

impl Agent {
    /// Position and velocity are finite.
    pub open spec fn finite(self) -> bool {
        self.position@.finite() && self.velocity@.finite()
    }

    /// Position, velocity and parameters are all in range.
    pub open spec fn valid(self) -> bool {
        self.finite() && self.params.valid()
    }

    pub fn is_finite(&self) -> (b: bool)
        ensures
            b == self.finite(),
    {
        self.position.is_finite() && self.velocity.is_finite()
    }

    pub fn is_valid(&self) -> (b: bool)
        ensures
            b == self.valid(),
    {
        self.is_finite() && self.params.is_valid()
    }
}

/// Every agent of the sequence has finite position and velocity.
pub open spec fn all_finite(agents: Seq<Agent>) -> bool {
    forall|i: int| 0 <= i < agents.len() ==> (#[trigger] agents[i]).finite()
}

/// Every agent of the sequence is valid.
pub open spec fn all_valid(agents: Seq<Agent>) -> bool {
    forall|i: int| 0 <= i < agents.len() ==> (#[trigger] agents[i]).valid()
}

} // verus!
