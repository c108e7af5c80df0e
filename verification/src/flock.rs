//! The three flocking rules and their combination into one steering
//! acceleration.
//!
//! Every function here is pure. A result of `None` reports a numerical
//! anomaly: an input out of range, or a contribution that left the finite
//! range.

use vstd::prelude::*;
use crate::agent::{all_finite, Agent};
use crate::fixed::{lemma_quotient_bound, quot, LIMIT, ONE};
use crate::vec3::{
    lemma_clamped_length, lemma_nonzero_length, lemma_square_range, models, Vec3, Wide, V3,
};

verus! {

/// `n` lies within the perception radius of `a`.
pub open spec fn perceives(a: Agent, n: Agent) -> bool {
    a.position@.dist2(n.position@) <= a.params.perception_radius * a.params.perception_radius
}

/// `n` lies closer to `a` than the separation radius, but not at distance zero.
pub open spec fn crowds(a: Agent, n: Agent) -> bool {
    0 < a.position@.dist2(n.position@) < a.params.separation_radius * a.params.separation_radius
}

/// The push that `n` exerts on `a`: the offset from `n` to `a`, divided by
/// the squared distance, so that its length is the inverse of the distance.
pub open spec fn repulsion(a: Agent, n: Agent) -> V3 {
    if crowds(a, n) {
        a.position@.minus(n.position@).times(ONE * ONE).over(a.position@.dist2(n.position@))
    } else {
        V3::zero()
    }
}

/// Sum of the pushes of all of `ns` on `a`.
pub open spec fn total_repulsion(a: Agent, ns: Seq<Agent>) -> V3
    decreases ns.len(),
{
    if ns.len() == 0 {
        V3::zero()
    } else {
        total_repulsion(a, ns.drop_last()).plus(repulsion(a, ns.last()))
    }
}

/// Number of members of `ns` that `a` perceives.
pub open spec fn flockmates(a: Agent, ns: Seq<Agent>) -> int
    decreases ns.len(),
{
    if ns.len() == 0 {
        0
    } else {
        flockmates(a, ns.drop_last()) + if perceives(a, ns.last()) {
            1int
        } else {
            0int
        }
    }
}

/// Sum of the velocities of the members of `ns` that `a` perceives.
pub open spec fn velocity_sum(a: Agent, ns: Seq<Agent>) -> V3
    decreases ns.len(),
{
    if ns.len() == 0 {
        V3::zero()
    } else if perceives(a, ns.last()) {
        velocity_sum(a, ns.drop_last()).plus(ns.last().velocity@)
    } else {
        velocity_sum(a, ns.drop_last())
    }
}

/// Sum of the positions of the members of `ns` that `a` perceives.
pub open spec fn position_sum(a: Agent, ns: Seq<Agent>) -> V3
    decreases ns.len(),
{
    if ns.len() == 0 {
        V3::zero()
    } else if perceives(a, ns.last()) {
        position_sum(a, ns.drop_last()).plus(ns.last().position@)
    } else {
        position_sum(a, ns.drop_last())
    }
}

/// Steering from `own` toward the mean `sum / k`, weighted by `w`; `None`
/// when it is not finite.
pub open spec fn toward_mean(sum: V3, k: int, own: V3, w: int) -> Option<V3> {
    let s = sum.over(k).minus(own).scaled(w);
    if s.finite() {
        Some(s)
    } else {
        None
    }
}

/// The separation contribution: the summed pushes, rescaled to the length
/// of the separation weight.
pub open spec fn separation_force(a: Agent, ns: Seq<Agent>) -> Option<V3> {
    if !a.valid() || !all_finite(ns) {
        None
    } else {
        let acc = total_repulsion(a, ns);
        if acc == V3::zero() {
            Some(V3::zero())
        } else if !acc.finite() {
            None
        } else {
            Some(acc.resized(a.params.separation_weight as int))
        }
    }
}

/// The alignment contribution: mean perceived velocity minus own velocity,
/// weighted.
pub open spec fn alignment_force(a: Agent, ns: Seq<Agent>) -> Option<V3> {
    if !a.valid() || !all_finite(ns) {
        None
    } else if flockmates(a, ns) == 0 {
        Some(V3::zero())
    } else {
        toward_mean(
            velocity_sum(a, ns),
            flockmates(a, ns),
            a.velocity@,
            a.params.alignment_weight as int,
        )
    }
}

/// The cohesion contribution: mean perceived position minus own position,
/// weighted.
pub open spec fn cohesion_force(a: Agent, ns: Seq<Agent>) -> Option<V3> {
    if !a.valid() || !all_finite(ns) {
        None
    } else if flockmates(a, ns) == 0 {
        Some(V3::zero())
    } else {
        toward_mean(
            position_sum(a, ns),
            flockmates(a, ns),
            a.position@,
            a.params.cohesion_weight as int,
        )
    }
}

/// The steering acceleration: the three contributions summed, then clamped
/// to the agent's maximum force.
pub open spec fn steering(a: Agent, ns: Seq<Agent>) -> Option<V3> {
    match (separation_force(a, ns), alignment_force(a, ns), cohesion_force(a, ns)) {
        (Some(s), Some(l), Some(c)) => Some(s.plus(l).plus(c).clamped(a.params.max_force as int)),
        _ => None,
    }
}

/// With nobody around, a valid agent does not steer.
pub proof fn lemma_steering_alone(a: Agent)
    requires
        a.valid(),
    ensures
        steering(a, Seq::<Agent>::empty()) == Some(V3::zero()),
{
    let ns = Seq::<Agent>::empty();
    assert(all_finite(ns));
    let m = a.params.max_force as int;
    assert(0 <= m * m) by (nonlinear_arith);
    assert(total_repulsion(a, ns) == V3::zero());
    assert(flockmates(a, ns) == 0);
    assert(separation_force(a, ns) == Some(V3::zero()));
    assert(alignment_force(a, ns) == Some(V3::zero()));
    assert(cohesion_force(a, ns) == Some(V3::zero()));
    assert(V3::zero().plus(V3::zero()).plus(V3::zero()) == V3::zero());
    assert(V3::zero().norm2() == 0);
    assert(V3::zero().clamped(m) == V3::zero());
}

/// A steering acceleration never exceeds the agent's maximum force.
pub proof fn lemma_steering_bounded(a: Agent, ns: Seq<Agent>)
    requires
        steering(a, ns).is_some(),
    ensures
        steering(a, ns).unwrap().norm2() <= a.params.max_force * a.params.max_force,
        steering(a, ns).unwrap().finite(),
{
    let s = separation_force(a, ns).unwrap();
    let l = alignment_force(a, ns).unwrap();
    let c = cohesion_force(a, ns).unwrap();
    lemma_clamped_length(s.plus(l).plus(c), a.params.max_force as int);
}

/// The prefix of length `i + 1` extends the prefix of length `i` by element `i`.
proof fn lemma_take_step(ns: Seq<Agent>, i: int)
    requires
        0 <= i < ns.len(),
    ensures
        ns.take(i + 1).drop_last() == ns.take(i),
        ns.take(i + 1).last() == ns[i],
        ns.take(i + 1).len() == i + 1,
{
    assert(ns.take(i + 1).drop_last() =~= ns.take(i));
}

/// Computes the separation contribution for `agent` among `neighbors`.
pub fn separation(agent: &Agent, neighbors: &Vec<Agent>) -> (r: Option<Vec3>)
    ensures
        models(r, separation_force(*agent, neighbors@)),
{
    if !agent.is_valid() {
        return None;
    }
    let reach: i128 = agent.params.separation_radius as i128;
    proof {
        lemma_square_range(reach as int, 1_000_000_000_000);
    }
    let reach2: i128 = reach * reach;
    let mut acc = Wide::zero();
    let mut i: usize = 0;
    while i < neighbors.len()
        invariant
            i <= neighbors.len(),
            agent.valid(),
            reach2 == agent.params.separation_radius * agent.params.separation_radius,
            all_finite(neighbors@.take(i as int)),
            acc@ == total_repulsion(*agent, neighbors@.take(i as int)),
            acc@.within(i * 1_000_000),
        decreases neighbors.len() - i,
    {
        let n = neighbors[i];
        if !n.is_finite() {
            return None;
        }
        let d = Wide::between(agent.position, n.position);
        let d2: i128 = d.norm2();
        let mut push = Wide::zero();
        if 0 < d2 && d2 < reach2 {
            proof {
                lemma_push_bound(d@);
                assert(ONE * ONE == 1_000_000);
            }
            push =
            Wide {
                x: quot(d.x * 1_000_000, d2),
                y: quot(d.y * 1_000_000, d2),
                z: quot(d.z * 1_000_000, d2),
            };
        }
        proof {
            lemma_take_step(neighbors@, i as int);
            assert(push@ == repulsion(*agent, n));
            assert forall|j: int| 0 <= j < i + 1 implies (#[trigger] neighbors@.take(
                i + 1,
            )[j]).finite() by {
                if j < i {
                    assert(neighbors@.take(i as int)[j].finite());
                }
            }
        }
        acc = Wide { x: acc.x + push.x, y: acc.y + push.y, z: acc.z + push.z };
        i += 1;
    }
    proof {
        assert(neighbors@.take(i as int) =~= neighbors@);
    }
    if acc.x == 0 && acc.y == 0 && acc.z == 0 {
        return Some(Vec3::zero());
    }
    match acc.narrow() {
        None => None,
        Some(_) => {
            proof {
                lemma_nonzero_length(acc@);
            }
            Some(acc.resized(agent.params.separation_weight))
        },
    }
}

/// Each component of a push has magnitude at most one unit, since
/// `|c| <= c * c <= d.norm2()` for every component `c` of the offset `d`.
proof fn lemma_push_bound(d: V3)
    requires
        d.norm2() > 0,
    ensures
        d.times(1_000_000).over(d.norm2()).within(1_000_000),
{
    assert(d.x * d.x >= 0 && d.y * d.y >= 0 && d.z * d.z >= 0) by (nonlinear_arith);
    assert(-(d.x * d.x) <= d.x <= d.x * d.x) by (nonlinear_arith);
    assert(-(d.y * d.y) <= d.y <= d.y * d.y) by (nonlinear_arith);
    assert(-(d.z * d.z) <= d.z <= d.z * d.z) by (nonlinear_arith);
    lemma_quotient_bound(d.x * 1_000_000, d.norm2(), 1_000_000);
    lemma_quotient_bound(d.y * 1_000_000, d.norm2(), 1_000_000);
    lemma_quotient_bound(d.z * 1_000_000, d.norm2(), 1_000_000);
}

/// The perceived count and the perceived velocity and position sums.
struct Tally {
    count: usize,
    velocities: Wide,
    positions: Wide,
}

/// Walks `neighbors` once and tallies those that `agent` perceives; `None`
/// when the agent is not valid or a neighbour is not finite.
fn tally(agent: &Agent, neighbors: &Vec<Agent>) -> (r: Option<Tally>)
    ensures
        r.is_some() <==> agent.valid() && all_finite(neighbors@),
        r matches Some(t) ==> {
            &&& t.count == flockmates(*agent, neighbors@)
            &&& t.velocities@ == velocity_sum(*agent, neighbors@)
            &&& t.positions@ == position_sum(*agent, neighbors@)
            &&& t.velocities@.within(t.count * LIMIT)
            &&& t.positions@.within(t.count * LIMIT)
        },
{
    if !agent.is_valid() {
        return None;
    }
    let reach: i128 = agent.params.perception_radius as i128;
    proof {
        lemma_square_range(reach as int, 1_000_000_000_000);
    }
    let reach2: i128 = reach * reach;
    let mut t = Tally { count: 0, velocities: Wide::zero(), positions: Wide::zero() };
    let mut i: usize = 0;
    while i < neighbors.len()
        invariant
            i <= neighbors.len(),
            agent.valid(),
            reach2 == agent.params.perception_radius * agent.params.perception_radius,
            all_finite(neighbors@.take(i as int)),
            t.count <= i,
            t.count == flockmates(*agent, neighbors@.take(i as int)),
            t.velocities@ == velocity_sum(*agent, neighbors@.take(i as int)),
            t.positions@ == position_sum(*agent, neighbors@.take(i as int)),
            t.velocities@.within(t.count * LIMIT),
            t.positions@.within(t.count * LIMIT),
        decreases neighbors.len() - i,
    {
        let n = neighbors[i];
        if !n.is_finite() {
            return None;
        }
        let d = Wide::between(agent.position, n.position);
        let d2: i128 = d.norm2();
        proof {
            lemma_take_step(neighbors@, i as int);
            assert forall|j: int| 0 <= j < i + 1 implies (#[trigger] neighbors@.take(
                i + 1,
            )[j]).finite() by {
                if j < i {
                    assert(neighbors@.take(i as int)[j].finite());
                }
            }
        }
        if d2 <= reach2 {
            t =
            Tally {
                count: t.count + 1,
                velocities: Wide {
                    x: t.velocities.x + n.velocity.x as i128,
                    y: t.velocities.y + n.velocity.y as i128,
                    z: t.velocities.z + n.velocity.z as i128,
                },
                positions: Wide {
                    x: t.positions.x + n.position.x as i128,
                    y: t.positions.y + n.position.y as i128,
                    z: t.positions.z + n.position.z as i128,
                },
            };
        }
        i += 1;
    }
    proof {
        assert(neighbors@.take(i as int) =~= neighbors@);
    }
    Some(t)
}

/// Computes the weighted steering from `own` toward the mean `sum / count`.
fn steer_toward_mean(sum: Wide, count: usize, own: Vec3, weight: i64) -> (r: Option<Vec3>)
    requires
        count > 0,
        sum@.within(count * LIMIT),
        own@.finite(),
        0 <= weight <= LIMIT,
    ensures
        models(r, toward_mean(sum@, count as int, own@, weight as int)),
{
    let k: i128 = count as i128;
    proof {
        lemma_quotient_bound(sum.x as int, k as int, LIMIT as int);
        lemma_quotient_bound(sum.y as int, k as int, LIMIT as int);
        lemma_quotient_bound(sum.z as int, k as int, LIMIT as int);
    }
    let mean = Wide { x: quot(sum.x, k), y: quot(sum.y, k), z: quot(sum.z, k) };
    let offset = Wide {
        x: mean.x - own.x as i128,
        y: mean.y - own.y as i128,
        z: mean.z - own.z as i128,
    };
    offset.scaled(weight).narrow()
}

/// Computes the alignment contribution for `agent` among `neighbors`.
pub fn alignment(agent: &Agent, neighbors: &Vec<Agent>) -> (r: Option<Vec3>)
    ensures
        models(r, alignment_force(*agent, neighbors@)),
{
    match tally(agent, neighbors) {
        None => None,
        Some(t) => {
            if t.count == 0 {
                Some(Vec3::zero())
            } else {
                steer_toward_mean(
                    t.velocities,
                    t.count,
                    agent.velocity,
                    agent.params.alignment_weight,
                )
            }
        },
    }
}

/// Computes the cohesion contribution for `agent` among `neighbors`.
pub fn cohesion(agent: &Agent, neighbors: &Vec<Agent>) -> (r: Option<Vec3>)
    ensures
        models(r, cohesion_force(*agent, neighbors@)),
{
    match tally(agent, neighbors) {
        None => None,
        Some(t) => {
            if t.count == 0 {
                Some(Vec3::zero())
            } else {
                steer_toward_mean(
                    t.positions,
                    t.count,
                    agent.position,
                    agent.params.cohesion_weight,
                )
            }
        },
    }
}

/// Computes the steering acceleration of `agent` among `neighbors`: the sum
/// of the three contributions, clamped to the agent's maximum force.
///
/// The agent itself may be among `neighbors`: at distance zero it exerts no
/// push, and it counts toward the means like any other agent in sight.
pub fn steer(agent: &Agent, neighbors: &Vec<Agent>) -> (r: Option<Vec3>)
    ensures
        models(r, steering(*agent, neighbors@)),
        agent.valid() && neighbors@.len() == 0 ==> r == Some(Vec3 { x: 0, y: 0, z: 0 }),
        r matches Some(v) ==> v@.finite() && v@.norm2() <= agent.params.max_force
            * agent.params.max_force,
{
    proof {
        if agent.valid() && neighbors@.len() == 0 {
            assert(neighbors@ =~= Seq::<Agent>::empty());
            lemma_steering_alone(*agent);
        }
        if steering(*agent, neighbors@).is_some() {
            lemma_steering_bounded(*agent, neighbors@);
        }
    }
    let s = match separation(agent, neighbors) {
        None => { return None; },
        Some(v) => v,
    };
    let l = match alignment(agent, neighbors) {
        None => { return None; },
        Some(v) => v,
    };
    let c = match cohesion(agent, neighbors) {
        None => { return None; },
        Some(v) => v,
    };
    proof {
        lemma_contributions_finite(*agent, neighbors@);
    }
    let total = Wide {
        x: s.x as i128 + l.x as i128 + c.x as i128,
        y: s.y as i128 + l.y as i128 + c.y as i128,
        z: s.z as i128 + l.z as i128 + c.z as i128,
    };
    Some(total.clamped(agent.params.max_force))
}

/// Each contribution that exists is finite.
pub proof fn lemma_contributions_finite(a: Agent, ns: Seq<Agent>)
    ensures
        separation_force(a, ns) matches Some(v) ==> v.finite(),
        alignment_force(a, ns) matches Some(v) ==> v.finite(),
        cohesion_force(a, ns) matches Some(v) ==> v.finite(),
{
    if a.valid() && all_finite(ns) {
        let acc = total_repulsion(a, ns);
        if acc != V3::zero() && acc.finite() {
            lemma_nonzero_length(acc);
            crate::vec3::lemma_resized_length(acc, a.params.separation_weight as int);
        }
    }
}

} // verus!
