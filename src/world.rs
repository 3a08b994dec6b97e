use vstd::prelude::*;
use crate::fixed::{ONE, LIMIT};
use crate::vector::{Vec2, norm2};
use crate::model::{Agent, Role, FlockParams, HuntParams, all_within};
use crate::steering::{flocked, flock};
use crate::hunting::{hunted, kills_of, hunt};
use crate::motion::{Viewport, MICROS, moved, wrapped, integrate, wrap, velocities_within};

verus! {

/// The rectangle that agents are spawned in, bounds included.
#[derive(Clone, Copy, Debug, PartialEq, Eq, Structural)]
pub struct Rect {
    pub min_x: i64,
    pub max_x: i64,
    pub min_y: i64,
    pub max_y: i64,
}

impl Rect {
    pub open spec fn valid(self) -> bool {
        &&& -LIMIT <= self.min_x < self.max_x <= LIMIT
        &&& -LIMIT <= self.min_y < self.max_y <= LIMIT
    }

    pub open spec fn contains(self, p: Vec2) -> bool {
        self.min_x <= p.x <= self.max_x && self.min_y <= p.y <= self.max_y
    }
}

pub open spec fn has_id(s: Seq<Agent>, id: u64) -> bool {
    exists|i: int| 0 <= i < s.len() && (#[trigger] s[i]).id == id
}

pub open spec fn unique_ids(s: Seq<Agent>) -> bool {
    forall|i: int, j: int| 0 <= i < j < s.len() ==> (#[trigger] s[i]).id != (#[trigger] s[j]).id
}

/// `s` without the agent that carries `id`; unchanged when none does.
pub open spec fn without(s: Seq<Agent>, id: u64) -> Seq<Agent> {
    if has_id(s, id) {
        s.remove(choose|i: int| 0 <= i < s.len() && (#[trigger] s[i]).id == id)
    } else {
        s
    }
}

/// `s` after removing each id of `kills` in turn.
pub open spec fn drained(s: Seq<Agent>, kills: Seq<u64>) -> Seq<Agent>
    decreases kills.len(),
{
    if kills.len() == 0 {
        s
    } else {
        without(drained(s, kills.drop_last()), kills.last())
    }
}

/// The agents after one physics tick: hunting, removal of the kills, flocking,
/// integration over `dt` microseconds, and the wrap.
pub open spec fn tick_spec(
    s: Seq<Agent>,
    flock_params: FlockParams,
    hunt_params: HuntParams,
    view: Viewport,
    dt: int,
) -> Seq<Agent> {
    let h = hunted(s, hunt_params);
    let d = drained(h, kills_of(s, hunt_params));
    wrapped(moved(flocked(d, flock_params), dt), view)
}

/// Removal facts: the agent with `id` goes and nothing else, so removing it a
/// second time, or removing an id that no agent carries, changes nothing.
pub proof fn lemma_without(s: Seq<Agent>, id: u64)
    requires
        unique_ids(s),
    ensures
        !has_id(without(s, id), id),
        unique_ids(without(s, id)),
        without(without(s, id), id) == without(s, id),
        has_id(s, id) ==> without(s, id).len() == s.len() - 1,
        !has_id(s, id) ==> without(s, id) == s,
        forall|a: Agent| #[trigger] without(s, id).contains(a) ==> s.contains(a),
{
    if has_id(s, id) {
        let i = choose|i: int| 0 <= i < s.len() && (#[trigger] s[i]).id == id;
        let r = s.remove(i);
        assert forall|k: int| 0 <= k < r.len() implies (#[trigger] r[k]).id != id by {
            if k < i {
                assert(r[k] == s[k]);
            } else {
                assert(r[k] == s[k + 1]);
            }
        }
        assert forall|a: Agent| #[trigger] r.contains(a) implies s.contains(a) by {
            let k = choose|k: int| 0 <= k < r.len() && r[k] == a;
            if k < i {
                assert(s[k] == a);
            } else {
                assert(s[k + 1] == a);
            }
        }
        assert forall|p: int, q: int| 0 <= p < q < r.len() implies (#[trigger] r[p]).id
            != (#[trigger] r[q]).id by {
            let p2 = if p < i { p } else { p + 1 };
            let q2 = if q < i { q } else { q + 1 };
            assert(r[p] == s[p2] && r[q] == s[q2]);
        }
    }
}

proof fn lemma_drained(s: Seq<Agent>, kills: Seq<u64>, bound: int)
    requires
        unique_ids(s),
        all_within(s, bound),
    ensures
        unique_ids(drained(s, kills)),
        all_within(drained(s, kills), bound),
        forall|a: Agent| #[trigger] drained(s, kills).contains(a) ==> s.contains(a),
    decreases kills.len(),
{
    if kills.len() > 0 {
        lemma_drained(s, kills.drop_last(), bound);
        let d = drained(s, kills.drop_last());
        lemma_without(d, kills.last());
        let r = without(d, kills.last());
        assert forall|k: int| 0 <= k < r.len() implies (#[trigger] r[k]).position.within(bound)
            && r[k].velocity.within(bound) by {
            assert(r.contains(r[k]));
            assert(d.contains(r[k]));
        }
    }
}

/// The tick is a function of its inputs: equal states, parameters, viewport
/// and time step give equal results.
pub proof fn lemma_tick_deterministic(
    s1: Seq<Agent>,
    s2: Seq<Agent>,
    flock_params: FlockParams,
    hunt_params: HuntParams,
    view: Viewport,
    dt: int,
)
    requires
        s1 == s2,
    ensures
        tick_spec(s1, flock_params, hunt_params, view, dt) == tick_spec(s2, flock_params, hunt_params, view, dt),
{
}

/// Relies on rand::thread_rng and rand::Rng::gen_range over an inclusive
/// range: the value drawn lies in the range, and gen_range panics only on an
/// empty one.
#[verifier::external_body]
fn random_in(lo: i64, hi: i64) -> (r: i64)
    requires
        lo <= hi,
    ensures
        lo <= r <= hi,
{
    rand::Rng::gen_range(&mut rand::thread_rng(), lo..=hi)
}

/// The simulation: its agents and the parameters the next tick uses.
pub struct World {
    agents: Vec<Agent>,
    flock_params: FlockParams,
    hunt_params: HuntParams,
}

impl World {
    pub closed spec fn agents(self) -> Seq<Agent> {
        self.agents@
    }

    pub closed spec fn spec_flock_params(self) -> FlockParams {
        self.flock_params
    }

    pub closed spec fn spec_hunt_params(self) -> HuntParams {
        self.hunt_params
    }

    pub open spec fn wf(self) -> bool {
        &&& unique_ids(self.agents())
        &&& all_within(self.agents(), LIMIT as int)
        &&& self.spec_flock_params().valid()
        &&& self.spec_hunt_params().valid()
    }

    /// An empty world with the given parameters.
    pub fn new(flock_params: FlockParams, hunt_params: HuntParams) -> (w: World)
        requires
            flock_params.valid(),
            hunt_params.valid(),
        ensures
            w.wf(),
            w.agents() == Seq::<Agent>::empty(),
            w.spec_flock_params() == flock_params,
            w.spec_hunt_params() == hunt_params,
    {
        World { agents: Vec::new(), flock_params, hunt_params }
    }

    /// A world holding `agents` as given.
    pub fn from_agents(agents: Vec<Agent>, flock_params: FlockParams, hunt_params: HuntParams) -> (w: World)
        requires
            unique_ids(agents@),
            all_within(agents@, LIMIT as int),
            flock_params.valid(),
            hunt_params.valid(),
        ensures
            w.wf(),
            w.agents() == agents@,
            w.spec_flock_params() == flock_params,
            w.spec_hunt_params() == hunt_params,
    {
        World { agents, flock_params, hunt_params }
    }

    /// A copy of every agent, for rendering.
    pub fn read_agents(&self) -> (r: Vec<Agent>)
        ensures
            r@ == self.agents(),
    {
        let mut r: Vec<Agent> = Vec::new();
        let mut i: usize = 0;
        while i < self.agents.len()
            invariant
                i <= self.agents@.len(),
                r@ =~= self.agents@.take(i as int),
            decreases self.agents@.len() - i,
        {
            r.push(self.agents[i]);
            i = i + 1;
        }
        assert(self.agents@.take(i as int) =~= self.agents@);
        r
    }

    pub fn len(&self) -> (n: usize)
        ensures
            n == self.agents().len(),
    {
        self.agents.len()
    }

    pub fn flock_params(&self) -> (p: FlockParams)
        ensures
            p == self.spec_flock_params(),
    {
        self.flock_params
    }

    pub fn hunt_params(&self) -> (p: HuntParams)
        ensures
            p == self.spec_hunt_params(),
    {
        self.hunt_params
    }

    /// Replaces the flocking parameters; the next tick uses them.
    pub fn set_flock_params(&mut self, params: FlockParams)
        requires
            old(self).wf(),
            params.valid(),
        ensures
            final(self).wf(),
            final(self).agents() == old(self).agents(),
            final(self).spec_flock_params() == params,
            final(self).spec_hunt_params() == old(self).spec_hunt_params(),
    {
        self.flock_params = params;
    }

    /// Replaces the hunting parameters; the next tick uses them.
    pub fn set_hunt_params(&mut self, params: HuntParams)
        requires
            old(self).wf(),
            params.valid(),
        ensures
            final(self).wf(),
            final(self).agents() == old(self).agents(),
            final(self).spec_flock_params() == old(self).spec_flock_params(),
            final(self).spec_hunt_params() == params,
    {
        self.hunt_params = params;
    }

    /// Removes the agent that carries `id`, if any.
    pub fn remove_agent(&mut self, id: u64)
        requires
            old(self).wf(),
        ensures
            final(self).wf(),
            final(self).agents() == without(old(self).agents(), id),
            final(self).spec_flock_params() == old(self).spec_flock_params(),
            final(self).spec_hunt_params() == old(self).spec_hunt_params(),
    {
        proof {
            lemma_drained(self.agents@, seq![id], LIMIT as int);
            assert(seq![id].drop_last() =~= Seq::<u64>::empty());
        }
        remove_id(&mut self.agents, id);
    }

    /// Advances the simulation one physics step of `dt` microseconds inside
    /// the wrap-around `view`.
    pub fn tick(&mut self, dt: i64, view: &Viewport)
        requires
            old(self).wf(),
            view.valid(),
            0 <= dt <= MICROS,
        ensures
            final(self).wf(),
            final(self).agents() == tick_spec(
                old(self).agents(),
                old(self).spec_flock_params(),
                old(self).spec_hunt_params(),
                *view,
                dt as int,
            ),
            forall|k: int| 0 <= k < final(self).agents().len() ==> norm2(
                (#[trigger] final(self).agents()[k]).velocity.x as int,
                final(self).agents()[k].velocity.y as int,
            ) <= old(self).spec_flock_params().max_speed * old(self).spec_flock_params().max_speed,
            final(self).spec_flock_params() == old(self).spec_flock_params(),
            final(self).spec_hunt_params() == old(self).spec_hunt_params(),
    {
        let ghost s0 = self.agents@;
        let kills = hunt(&mut self.agents, &self.hunt_params);
        let ghost s1 = self.agents@;
        proof {
            assert forall|i: int, j: int| 0 <= i < j < s1.len() implies (#[trigger] s1[i]).id
                != (#[trigger] s1[j]).id by {
                assert(s1[i].id == s0[i].id && s1[j].id == s0[j].id);
            }
        }
        drain(&mut self.agents, &kills);
        proof {
            lemma_drained(s1, kills@, 2 * LIMIT);
        }
        let ghost s2 = self.agents@;
        flock(&mut self.agents, &self.flock_params);
        let ghost s3 = self.agents@;
        proof {
            assert forall|k: int| 0 <= k < s3.len() implies (#[trigger] s3[k]).position.within(2 * LIMIT) by {
                assert(s3[k].position == s2[k].position);
            }
            assert(velocities_within(s3, LIMIT as int));
        }
        integrate(&mut self.agents, dt);
        wrap(&mut self.agents, view);
        proof {
            let s5 = self.agents@;
            assert forall|i: int, j: int| 0 <= i < j < s5.len() implies (#[trigger] s5[i]).id
                != (#[trigger] s5[j]).id by {
                assert(s5[i].id == s2[i].id && s5[j].id == s2[j].id);
            }
            assert forall|k: int| 0 <= k < s5.len() implies (#[trigger] s5[k]).position.within(LIMIT as int)
                && s5[k].velocity.within(LIMIT as int) by {
                assert(s5[k].velocity == s3[k].velocity);
            }
        }
    }

    /// Clears the world and spawns `prey` prey and then `predators` predators,
    /// with ids counted from zero, at random positions within `spawn` and with
    /// random velocities of at most one unit per second on each axis.
    pub fn reset(&mut self, prey: u32, predators: u32, spawn: &Rect)
        requires
            old(self).wf(),
            spawn.valid(),
        ensures
            final(self).wf(),
            final(self).agents().len() == prey + predators,
            forall|k: int| 0 <= k < final(self).agents().len() ==> {
                let a = #[trigger] final(self).agents()[k];
                &&& a.id == k
                &&& a.role == if k < prey { Role::Prey } else { Role::Predator }
                &&& spawn.contains(a.position)
                &&& a.velocity.within(ONE as int)
            },
            final(self).spec_flock_params() == old(self).spec_flock_params(),
            final(self).spec_hunt_params() == old(self).spec_hunt_params(),
    {
        let total: u64 = prey as u64 + predators as u64;
        let mut agents: Vec<Agent> = Vec::new();
        let mut k: u64 = 0;
        while k < total
            invariant
                total == prey + predators,
                spawn.valid(),
                k <= total,
                agents@.len() == k,
                forall|j: int| 0 <= j < k ==> {
                    let a = #[trigger] agents@[j];
                    &&& a.id == j
                    &&& a.role == if j < prey { Role::Prey } else { Role::Predator }
                    &&& spawn.contains(a.position)
                    &&& a.velocity.within(ONE as int)
                },
            decreases total - k,
        {
            let role = if k < prey as u64 { Role::Prey } else { Role::Predator };
            let velocity = Vec2 { x: random_in(-ONE, ONE), y: random_in(-ONE, ONE) };
            let position = Vec2 {
                x: random_in(spawn.min_x, spawn.max_x),
                y: random_in(spawn.min_y, spawn.max_y),
            };
            agents.push(Agent { id: k, position, velocity, role });
            k = k + 1;
        }
        self.agents = agents;
        proof {
            let s = self.agents@;
            assert forall|k: int| 0 <= k < s.len() implies (#[trigger] s[k]).position.within(LIMIT as int)
                && s[k].velocity.within(LIMIT as int) by {
                assert(spawn.contains(s[k].position));
            }
        }
    }
}

/// Removes from `agents` the agent that carries `id`, if any.
fn remove_id(agents: &mut Vec<Agent>, id: u64)
    requires
        unique_ids(old(agents)@),
    ensures
        final(agents)@ == without(old(agents)@, id),
{
    let mut i: usize = 0;
    while i < agents.len()
        invariant
            agents@ == old(agents)@,
            unique_ids(agents@),
            i <= agents@.len(),
            forall|k: int| 0 <= k < i ==> (#[trigger] agents@[k]).id != id,
        decreases agents@.len() - i,
    {
        if agents[i].id == id {
            proof {
                let s = agents@;
                let c = choose|c: int| 0 <= c < s.len() && (#[trigger] s[c]).id == id;
                assert(s[i as int].id == id);
                if c != i {
                    if c < i {
                        assert(s[c].id != s[i as int].id);
                    } else {
                        assert(s[i as int].id != s[c].id);
                    }
                }
            }
            agents.remove(i);
            return;
        }
        i = i + 1;
    }
}

/// Removes every id of `kills` in turn.
fn drain(agents: &mut Vec<Agent>, kills: &Vec<u64>)
    requires
        unique_ids(old(agents)@),
        all_within(old(agents)@, 2 * LIMIT),
    ensures
        final(agents)@ == drained(old(agents)@, kills@),
{
    let ghost before = agents@;
    let mut j: usize = 0;
    while j < kills.len()
        invariant
            j <= kills@.len(),
            unique_ids(before),
            all_within(before, 2 * LIMIT),
            agents@ == drained(before, kills@.take(j as int)),
        decreases kills@.len() - j,
    {
        proof {
            lemma_drained(before, kills@.take(j as int), 2 * LIMIT);
            assert(kills@.take(j + 1).drop_last() =~= kills@.take(j as int));
        }
        remove_id(agents, kills[j]);
        j = j + 1;
    }
    assert(kills@.take(j as int) =~= kills@);
}

} // verus!
