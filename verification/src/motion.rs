//! Integration of one agent over one tick.

use vstd::prelude::*;
use crate::agent::Agent;
use crate::fixed::LIMIT;
use crate::vec3::{lemma_clamped_length, Vec3, Wide, V3};

verus! {

/// The stored vector whose components are those of `v`.
pub open spec fn stored(v: V3) -> Vec3 {
    Vec3 { x: v.x as i64, y: v.y as i64, z: v.z as i64 }
}

/// The agent `a` after one tick of length `dt` under acceleration `acc`:
/// the velocity gains `acc * dt` and is clamped to the maximum speed, then
/// the position gains the new velocity times `dt`. `None` when an input is
/// out of range or the new velocity or position is not finite.
pub open spec fn moved(a: Agent, acc: V3, dt: int) -> Option<Agent> {
    if !a.valid() || !acc.finite() || !(1 <= dt <= LIMIT) {
        None
    } else {
        let raw = a.velocity@.plus(acc.scaled(dt));
        if !raw.finite() {
            None
        } else {
            let v = raw.clamped(a.params.max_speed as int);
            let p = a.position@.plus(v.scaled(dt));
            if !p.finite() {
                None
            } else {
                Some(Agent { id: a.id, position: stored(p), velocity: stored(v), params: a.params })
            }
        }
    }
}

/// A moved agent is valid, keeps identity and parameters, and is no faster
/// than its maximum speed.
pub proof fn lemma_moved_agent(a: Agent, acc: V3, dt: int)
    requires
        moved(a, acc, dt).is_some(),
    ensures
        moved(a, acc, dt).unwrap().valid(),
        moved(a, acc, dt).unwrap().id == a.id,
        moved(a, acc, dt).unwrap().params == a.params,
        moved(a, acc, dt).unwrap().velocity@.norm2() <= a.params.max_speed * a.params.max_speed,
{
    let raw = a.velocity@.plus(acc.scaled(dt));
    lemma_clamped_length(raw, a.params.max_speed as int);
}

/// Advances `agent` by one tick of length `dt` under `acceleration`.
pub fn integrate(agent: &Agent, acceleration: Vec3, dt: i64) -> (r: Option<Agent>)
    ensures
        r == moved(*agent, acceleration@, dt as int),
        r matches Some(b) ==> b.valid() && b.id == agent.id && b.params == agent.params
            && b.velocity@.norm2() <= agent.params.max_speed * agent.params.max_speed,
{
    if !agent.is_valid() || !acceleration.is_finite() || dt < 1 || dt > LIMIT {
        return None;
    }
    let gain = Wide::of(acceleration).scaled(dt);
    let raw = Wide {
        x: agent.velocity.x as i128 + gain.x,
        y: agent.velocity.y as i128 + gain.y,
        z: agent.velocity.z as i128 + gain.z,
    };
    let raw = match raw.narrow() {
        None => { return None; },
        Some(v) => v,
    };
    let velocity = Wide::of(raw).clamped(agent.params.max_speed);
    let step = Wide::of(velocity).scaled(dt);
    let position = Wide {
        x: agent.position.x as i128 + step.x,
        y: agent.position.y as i128 + step.y,
        z: agent.position.z as i128 + step.z,
    };
    match position.narrow() {
        None => None,
        Some(position) => {
            proof {
                lemma_moved_agent(*agent, acceleration@, dt as int);
            }
            Some(Agent { id: agent.id, position, velocity, params: agent.params })
        },
    }
}

} // verus!
