use vstd::prelude::*;
use crate::fixed::LIMIT;
use crate::vector::Vec2;

verus! {

/// What an agent does in the simulation.
#[derive(Clone, Copy, Debug, PartialEq, Eq, Structural)]
pub enum Role {
    Prey,
    Predator,
    Neutral,
}

/// One simulated point mass.
#[derive(Clone, Copy, Debug, PartialEq, Eq, Structural)]
pub struct Agent {
    pub id: u64,
    pub position: Vec2,
    pub velocity: Vec2,
    pub role: Role,
}

/// One entry of a neighbour snapshot: what other agents may read of an agent.
#[derive(Clone, Copy, Debug, PartialEq, Eq, Structural)]
pub struct Boid {
    pub id: u64,
    pub velocity: Vec2,
    pub position: Vec2,
}

/// Flocking coefficients, radii and the speed limit, all in thousandths.
#[derive(Clone, Copy, Debug, PartialEq, Eq, Structural)]
pub struct FlockParams {
    pub alignment_strength: i64,
    pub cohesion_strength: i64,
    pub avoidance_strength: i64,
    pub gravity_strength: i64,
    pub max_speed: i64,
    pub neighbor_radius: i64,
    pub avoidance_radius: i64,
}

/// Predator pull and kill distance, in thousandths.
#[derive(Clone, Copy, Debug, PartialEq, Eq, Structural)]
pub struct HuntParams {
    pub hunt_strength: i64,
    pub kill_radius: i64,
}

pub open spec fn in_param_range(v: i64) -> bool {
    0 <= v <= LIMIT
}

impl FlockParams {
    pub open spec fn valid(self) -> bool {
        &&& in_param_range(self.alignment_strength)
        &&& in_param_range(self.cohesion_strength)
        &&& in_param_range(self.avoidance_strength)
        &&& in_param_range(self.gravity_strength)
        &&& in_param_range(self.max_speed)
        &&& in_param_range(self.neighbor_radius)
        &&& in_param_range(self.avoidance_radius)
    }
}

impl HuntParams {
    pub open spec fn valid(self) -> bool {
        in_param_range(self.hunt_strength) && in_param_range(self.kill_radius)
    }
}

pub open spec fn boid_of(a: Agent) -> Boid {
    Boid { id: a.id, velocity: a.velocity, position: a.position }
}

/// The flocking snapshot: every agent, in order.
pub open spec fn snapshot_of(agents: Seq<Agent>) -> Seq<Boid> {
    agents.map_values(|a: Agent| boid_of(a))
}

/// The hunting snapshot: the prey, in order.
pub open spec fn prey_snapshot_of(agents: Seq<Agent>) -> Seq<Boid>
    decreases agents.len(),
{
    if agents.len() == 0 {
        Seq::empty()
    } else {
        let rest = prey_snapshot_of(agents.drop_last());
        if agents.last().role == Role::Prey {
            rest.push(boid_of(agents.last()))
        } else {
            rest
        }
    }
}

/// Every agent's position and velocity lie within `bound` on each axis.
pub open spec fn all_within(agents: Seq<Agent>, bound: int) -> bool {
    forall|k: int|
        0 <= k < agents.len() ==> (#[trigger] agents[k]).position.within(bound)
            && agents[k].velocity.within(bound)
}

pub open spec fn boids_within(boids: Seq<Boid>, bound: int) -> bool {
    forall|k: int|
        0 <= k < boids.len() ==> (#[trigger] boids[k]).position.within(bound)
            && boids[k].velocity.within(bound)
}

pub proof fn lemma_prey_snapshot_within(agents: Seq<Agent>, bound: int)
    requires
        all_within(agents, bound),
    ensures
        boids_within(prey_snapshot_of(agents), bound),
    decreases agents.len(),
{
    if agents.len() > 0 {
        assert(all_within(agents.drop_last(), bound)) by {
            assert forall|k: int| 0 <= k < agents.drop_last().len() implies
                (#[trigger] agents.drop_last()[k]).position.within(bound)
                && agents.drop_last()[k].velocity.within(bound) by {
                assert(agents.drop_last()[k] == agents[k]);
            }
        }
        lemma_prey_snapshot_within(agents.drop_last(), bound);
        let rest = prey_snapshot_of(agents.drop_last());
        if agents.last().role == Role::Prey {
            let s = rest.push(boid_of(agents.last()));
            assert forall|k: int| 0 <= k < s.len() implies
                (#[trigger] s[k]).position.within(bound) && s[k].velocity.within(bound) by {
                if k < rest.len() {
                    assert(s[k] == rest[k]);
                }
            }
        }
    }
}

/// The flocking snapshot of `agents`.
pub fn build_snapshot(agents: &Vec<Agent>) -> (r: Vec<Boid>)
    ensures
        r@ == snapshot_of(agents@),
{
    let mut r: Vec<Boid> = Vec::new();
    let mut i: usize = 0;
    while i < agents.len()
        invariant
            i <= agents.len(),
            r@ =~= snapshot_of(agents@.take(i as int)),
        decreases agents.len() - i,
    {
        let a = agents[i];
        r.push(Boid { id: a.id, velocity: a.velocity, position: a.position });
        i = i + 1;
        assert(r@ =~= snapshot_of(agents@.take(i as int)));
    }
    assert(agents@.take(i as int) =~= agents@);
    r
}

/// The hunting snapshot of `agents`: the prey alone, in order.
pub fn build_prey_snapshot(agents: &Vec<Agent>) -> (r: Vec<Boid>)
    ensures
        r@ == prey_snapshot_of(agents@),
{
    let mut r: Vec<Boid> = Vec::new();
    let mut i: usize = 0;
    while i < agents.len()
        invariant
            i <= agents.len(),
            r@ == prey_snapshot_of(agents@.take(i as int)),
        decreases agents.len() - i,
    {
        let a = agents[i];
        assert(agents@.take(i + 1).drop_last() =~= agents@.take(i as int));
        if a.role == Role::Prey {
            r.push(Boid { id: a.id, velocity: a.velocity, position: a.position });
        }
        i = i + 1;
    }
    assert(agents@.take(i as int) =~= agents@);
    r
}

} // verus!
