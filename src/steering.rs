use vstd::prelude::*;
use crate::fixed::{abs, tdiv, ONE, LIMIT, lemma_tdiv_bound, lemma_tdiv_average, div_toward_zero};
use crate::vector::{Vec2, norm2, clamp_len, clamp_wide, WIDE};
use crate::motion::velocities_within;
use crate::model::{Agent, Boid, FlockParams, snapshot_of, boids_within, all_within, build_snapshot};

verus! {

/// Sums over the neighbours of one agent.
pub struct Neighborhood {
    pub count: int,
    pub align: (int, int),
    pub cohesion: (int, int),
    pub avoid: (int, int),
}

/// The neighbours of the agent `id` at `p` among `snap`: every other entry no
/// farther than `radius2` (squared); those nearer than `avoid2` also push away.
pub open spec fn gather(id: u64, p: Vec2, snap: Seq<Boid>, radius2: int, avoid2: int) -> Neighborhood
    decreases snap.len(),
{
    if snap.len() == 0 {
        Neighborhood { count: 0, align: (0, 0), cohesion: (0, 0), avoid: (0, 0) }
    } else {
        let g = gather(id, p, snap.drop_last(), radius2, avoid2);
        let b = snap.last();
        let ox = p.x - b.position.x;
        let oy = p.y - b.position.y;
        let d2 = norm2(ox, oy);
        if b.id == id || d2 > radius2 {
            g
        } else {
            Neighborhood {
                count: g.count + 1,
                align: (g.align.0 + b.velocity.x, g.align.1 + b.velocity.y),
                cohesion: (g.cohesion.0 + b.position.x, g.cohesion.1 + b.position.y),
                avoid: if d2 < avoid2 {
                    (g.avoid.0 + ox, g.avoid.1 + oy)
                } else {
                    g.avoid
                },
            }
        }
    }
}

/// A sum over `n` neighbours, averaged, then scaled by the fixed-point `s`
/// (averaging first keeps the intermediate values small; each division
/// rounds toward zero).
pub open spec fn average_scaled(sum: int, n: int, s: int) -> int {
    tdiv(tdiv(sum, n) * s, ONE as int)
}

/// The steering of the agent `id` at `p` moving at `v` against `snap`: its own
/// velocity when it has no neighbour; else the sum of alignment, cohesion,
/// avoidance and gravity, each clamped to its own strength.
pub open spec fn steer_spec(id: u64, v: Vec2, p: Vec2, snap: Seq<Boid>, params: FlockParams) -> (int, int) {
    let g = gather(
        id,
        p,
        snap,
        params.neighbor_radius * params.neighbor_radius,
        params.avoidance_radius * params.avoidance_radius,
    );
    if g.count == 0 {
        (v.x as int, v.y as int)
    } else {
        let n = g.count;
        let sa = params.alignment_strength as int;
        let sc = params.cohesion_strength as int;
        let so = params.avoidance_strength as int;
        let sg = params.gravity_strength as int;
        let a = clamp_len(average_scaled(g.align.0, n, sa), average_scaled(g.align.1, n, sa), sa);
        let c = clamp_len(
            average_scaled(g.cohesion.0 - p.x, n, sc),
            average_scaled(g.cohesion.1 - p.y, n, sc),
            sc,
        );
        let o = clamp_len(average_scaled(g.avoid.0, n, so), average_scaled(g.avoid.1, n, so), so);
        let gr = clamp_len(tdiv(-p.x * sg, ONE as int), tdiv(-p.y * sg, ONE as int), sg);
        (a.0 + c.0 + o.0 + gr.0, a.1 + c.1 + o.1 + gr.1)
    }
}

/// The velocity after one flocking step. Clamp order: each of the four forces
/// is clamped to its own strength inside the steering; the steering, scaled
/// by the speed, is added to the velocity unclamped; the resulting velocity is
/// clamped to the speed.
pub open spec fn flocked_velocity(a: Agent, snap: Seq<Boid>, params: FlockParams) -> (int, int) {
    let s = steer_spec(a.id, a.velocity, a.position, snap, params);
    let speed = params.max_speed as int;
    clamp_len(
        a.velocity.x + tdiv(s.0 * speed, ONE as int),
        a.velocity.y + tdiv(s.1 * speed, ONE as int),
        speed,
    )
}

pub open spec fn with_velocity(a: Agent, v: (int, int)) -> Agent {
    Agent { velocity: Vec2 { x: v.0 as i64, y: v.1 as i64 }, ..a }
}

/// `agents` with those at indices `lo..hi` given their flocked velocity
/// against `snap`: the share of one worker.
pub open spec fn flocked_range(agents: Seq<Agent>, snap: Seq<Boid>, lo: int, hi: int, params: FlockParams) -> Seq<Agent> {
    Seq::new(
        agents.len(),
        |i: int|
            if lo <= i < hi {
                with_velocity(agents[i], flocked_velocity(agents[i], snap, params))
            } else {
                agents[i]
            },
    )
}

/// Splitting the flocking step between workers does not change its outcome:
/// with the snapshot taken first, doing the agents before `m` and those from
/// `m` on, in either order, gives the flocking step of all agents.
pub proof fn lemma_flock_split(agents: Seq<Agent>, m: int, params: FlockParams)
    requires
        0 <= m <= agents.len(),
    ensures
        ({
            let snap = snapshot_of(agents);
            let n = agents.len() as int;
            &&& flocked_range(flocked_range(agents, snap, 0, m, params), snap, m, n, params)
                == flocked(agents, params)
            &&& flocked_range(flocked_range(agents, snap, m, n, params), snap, 0, m, params)
                == flocked(agents, params)
        }),
{
    let snap = snapshot_of(agents);
    let n = agents.len() as int;
    assert(flocked_range(flocked_range(agents, snap, 0, m, params), snap, m, n, params)
        =~= flocked(agents, params));
    assert(flocked_range(flocked_range(agents, snap, m, n, params), snap, 0, m, params)
        =~= flocked(agents, params));
}

/// Every agent after one flocking step against the snapshot of all agents.
pub open spec fn flocked(agents: Seq<Agent>, params: FlockParams) -> Seq<Agent> {
    Seq::new(
        agents.len(),
        |i: int| with_velocity(agents[i], flocked_velocity(agents[i], snapshot_of(agents), params)),
    )
}

/// No entry of `snap` but the agent itself lies within `radius2` (squared) of `p`.
pub open spec fn isolated(id: u64, p: Vec2, snap: Seq<Boid>, radius2: int) -> bool {
    forall|k: int|
        0 <= k < snap.len() ==> (#[trigger] snap[k]).id == id
            || norm2(p.x - snap[k].position.x, p.y - snap[k].position.y) > radius2
}

proof fn lemma_isolated_gather(id: u64, p: Vec2, snap: Seq<Boid>, radius2: int, avoid2: int)
    requires
        isolated(id, p, snap, radius2),
    ensures
        gather(id, p, snap, radius2, avoid2).count == 0,
    decreases snap.len(),
{
    if snap.len() > 0 {
        let rest = snap.drop_last();
        assert forall|k: int| 0 <= k < rest.len() implies (#[trigger] rest[k]).id == id
            || norm2(p.x - rest[k].position.x, p.y - rest[k].position.y) > radius2 by {
            assert(rest[k] == snap[k]);
        }
        lemma_isolated_gather(id, p, rest, radius2, avoid2);
        assert(snap.last() == snap[snap.len() - 1]);
    }
}

/// An agent with no neighbour within the neighbour radius keeps its velocity
/// as its steering, so it goes on in a straight line.
pub proof fn lemma_isolated_keeps_velocity(id: u64, v: Vec2, p: Vec2, snap: Seq<Boid>, params: FlockParams)
    requires
        isolated(id, p, snap, params.neighbor_radius * params.neighbor_radius),
    ensures
        steer_spec(id, v, p, snap, params) == (v.x as int, v.y as int),
{
    lemma_isolated_gather(
        id,
        p,
        snap,
        params.neighbor_radius * params.neighbor_radius,
        params.avoidance_radius * params.avoidance_radius,
    );
}

/// Averages a sum over `n` neighbours and scales it by `s`.
fn average_scaled_exec(sum: i128, n: i128, s: i64) -> (r: i128)
    requires
        1 <= n <= 0x1_0000_0000_0000_0000,
        abs(sum as int) <= n * (4 * LIMIT),
        0 <= s <= LIMIT,
    ensures
        r == average_scaled(sum as int, n as int, s as int),
        abs(r as int) <= WIDE,
{
    proof {
        lemma_tdiv_average(sum as int, n as int, 4 * LIMIT);
        assert(n * (4 * LIMIT) <= 0x1_0000_0000_0000_0000 * (4 * LIMIT)) by (nonlinear_arith)
            requires 1 <= n <= 0x1_0000_0000_0000_0000;
    }
    let q: i128 = div_toward_zero(sum, n);
    assert(abs(q * s) <= 4 * LIMIT * LIMIT) by (nonlinear_arith)
        requires abs(q as int) <= 4 * LIMIT, 0 <= s <= LIMIT;
    proof {
        lemma_tdiv_bound(q * s, ONE as int);
    }
    div_toward_zero(q * (s as i128), ONE as i128)
}

/// The steering acceleration of one agent against a snapshot.
pub fn steer(id: u64, velocity: Vec2, position: Vec2, boids: &Vec<Boid>, params: &FlockParams) -> (r: Vec2)
    requires
        params.valid(),
        velocity.within(2 * LIMIT),
        position.within(2 * LIMIT),
        boids_within(boids@, 2 * LIMIT),
    ensures
        (r.x as int, r.y as int) == steer_spec(id, velocity, position, boids@, *params),
        r.within(4 * LIMIT),
{
    let nr: i128 = params.neighbor_radius as i128;
    let ar: i128 = params.avoidance_radius as i128;
    assert(0 <= nr * nr <= LIMIT * LIMIT && 0 <= ar * ar <= LIMIT * LIMIT) by (nonlinear_arith)
        requires 0 <= nr <= LIMIT, 0 <= ar <= LIMIT;
    let radius2: i128 = nr * nr;
    let avoid2: i128 = ar * ar;
    let px: i128 = position.x as i128;
    let py: i128 = position.y as i128;
    let mut count: i128 = 0;
    let mut ax: i128 = 0;
    let mut ay: i128 = 0;
    let mut cx: i128 = 0;
    let mut cy: i128 = 0;
    let mut ox: i128 = 0;
    let mut oy: i128 = 0;
    let mut i: usize = 0;
    while i < boids.len()
        invariant
            i <= boids.len(),
            radius2 == params.neighbor_radius * params.neighbor_radius,
            avoid2 == params.avoidance_radius * params.avoidance_radius,
            px == position.x,
            py == position.y,
            position.within(2 * LIMIT),
            boids_within(boids@, 2 * LIMIT),
            0 <= count <= i,
            abs(ax as int) <= count * (2 * LIMIT),
            abs(ay as int) <= count * (2 * LIMIT),
            abs(cx as int) <= count * (2 * LIMIT),
            abs(cy as int) <= count * (2 * LIMIT),
            abs(ox as int) <= count * (4 * LIMIT),
            abs(oy as int) <= count * (4 * LIMIT),
            ({
                let g = gather(id, position, boids@.take(i as int), radius2 as int, avoid2 as int);
                &&& g.count == count
                &&& g.align == (ax as int, ay as int)
                &&& g.cohesion == (cx as int, cy as int)
                &&& g.avoid == (ox as int, oy as int)
            }),
        decreases boids.len() - i,
    {
        let b = boids[i];
        assert(boids@.take(i + 1).drop_last() =~= boids@.take(i as int));
        assert(boids@.take(i + 1).last() == b);
        assert(b.position.within(2 * LIMIT) && b.velocity.within(2 * LIMIT));
        let dx: i128 = px - b.position.x as i128;
        let dy: i128 = py - b.position.y as i128;
        assert(0 <= dx * dx <= 16 * LIMIT * LIMIT && 0 <= dy * dy <= 16 * LIMIT * LIMIT)
            by (nonlinear_arith)
            requires abs(dx as int) <= 4 * LIMIT, abs(dy as int) <= 4 * LIMIT;
        let d2: i128 = dx * dx + dy * dy;
        assert(count * (4 * LIMIT) <= 0x1_0000_0000_0000_0000 * (4 * LIMIT)
            && count * (2 * LIMIT) <= 0x1_0000_0000_0000_0000 * (2 * LIMIT)) by (nonlinear_arith)
            requires 0 <= count <= 0x1_0000_0000_0000_0000;
        if b.id != id && d2 <= radius2 {
            count = count + 1;
            ax = ax + b.velocity.x as i128;
            ay = ay + b.velocity.y as i128;
            cx = cx + b.position.x as i128;
            cy = cy + b.position.y as i128;
            if d2 < avoid2 {
                ox = ox + dx;
                oy = oy + dy;
            }
            assert(count * (2 * LIMIT) == (count - 1) * (2 * LIMIT) + 2 * LIMIT
                && count * (4 * LIMIT) == (count - 1) * (4 * LIMIT) + 4 * LIMIT) by (nonlinear_arith);
        }
        i = i + 1;
    }
    assert(boids@.take(i as int) =~= boids@);
    if count == 0 {
        return velocity;
    }
    assert(abs(ax as int) <= count * (4 * LIMIT) && abs(ay as int) <= count * (4 * LIMIT)
        && abs(cx - px) <= count * (4 * LIMIT) && abs(cy - py) <= count * (4 * LIMIT))
        by (nonlinear_arith)
        requires
            count >= 1,
            abs(ax as int) <= count * (2 * LIMIT),
            abs(ay as int) <= count * (2 * LIMIT),
            abs(cx as int) <= count * (2 * LIMIT),
            abs(cy as int) <= count * (2 * LIMIT),
            abs(px as int) <= 2 * LIMIT,
            abs(py as int) <= 2 * LIMIT;
    let sa: i64 = params.alignment_strength;
    let sc: i64 = params.cohesion_strength;
    let so: i64 = params.avoidance_strength;
    let sg: i64 = params.gravity_strength;
    let al = clamp_wide(average_scaled_exec(ax, count, sa), average_scaled_exec(ay, count, sa), sa);
    let co = clamp_wide(
        average_scaled_exec(cx - px, count, sc),
        average_scaled_exec(cy - py, count, sc),
        sc,
    );
    let av = clamp_wide(average_scaled_exec(ox, count, so), average_scaled_exec(oy, count, so), so);
    assert(abs(-px * sg) <= 2 * LIMIT * LIMIT && abs(-py * sg) <= 2 * LIMIT * LIMIT)
        by (nonlinear_arith)
        requires abs(px as int) <= 2 * LIMIT, abs(py as int) <= 2 * LIMIT, 0 <= sg <= LIMIT;
    proof {
        lemma_tdiv_bound(-px * sg, ONE as int);
        lemma_tdiv_bound(-py * sg, ONE as int);
    }
    let gx: i128 = div_toward_zero(-px * (sg as i128), ONE as i128);
    let gy: i128 = div_toward_zero(-py * (sg as i128), ONE as i128);
    let gr = clamp_wide(gx, gy, sg);
    Vec2 { x: al.0 + co.0 + av.0 + gr.0, y: al.1 + co.1 + av.1 + gr.1 }
}

/// The velocity of `agent` after one flocking step against `boids`.
pub fn flock_velocity(agent: &Agent, boids: &Vec<Boid>, params: &FlockParams) -> (r: Vec2)
    requires
        params.valid(),
        agent.velocity.within(2 * LIMIT),
        agent.position.within(2 * LIMIT),
        boids_within(boids@, 2 * LIMIT),
    ensures
        (r.x as int, r.y as int) == flocked_velocity(*agent, boids@, *params),
        norm2(r.x as int, r.y as int) <= params.max_speed * params.max_speed,
        r.within(params.max_speed as int),
{
    let s = steer(agent.id, agent.velocity, agent.position, boids, params);
    let speed: i64 = params.max_speed;
    assert(abs(s.x * speed) <= 4 * LIMIT * LIMIT && abs(s.y * speed) <= 4 * LIMIT * LIMIT)
        by (nonlinear_arith)
        requires abs(s.x as int) <= 4 * LIMIT, abs(s.y as int) <= 4 * LIMIT, 0 <= speed <= LIMIT;
    proof {
        lemma_tdiv_bound(s.x * speed, ONE as int);
        lemma_tdiv_bound(s.y * speed, ONE as int);
    }
    let vx: i128 = agent.velocity.x as i128 + div_toward_zero(s.x as i128 * speed as i128, ONE as i128);
    let vy: i128 = agent.velocity.y as i128 + div_toward_zero(s.y as i128 * speed as i128, ONE as i128);
    proof {
        crate::vector::lemma_clamp_bound(vx as int, vy as int, speed as int);
    }
    let c = clamp_wide(vx, vy, speed);
    Vec2 { x: c.0, y: c.1 }
}

/// One flocking step for every agent, all against one snapshot taken before
/// any velocity changes.
pub fn flock(agents: &mut Vec<Agent>, params: &FlockParams)
    requires
        params.valid(),
        all_within(old(agents)@, 2 * LIMIT),
    ensures
        final(agents)@ == flocked(old(agents)@, *params),
        velocities_within(final(agents)@, params.max_speed as int),
        forall|k: int| 0 <= k < final(agents)@.len() ==> norm2(
            (#[trigger] final(agents)@[k]).velocity.x as int,
            final(agents)@[k].velocity.y as int,
        ) <= params.max_speed * params.max_speed,
{
    let boids = build_snapshot(agents);
    proof {
        assert forall|k: int| 0 <= k < boids@.len() implies
            (#[trigger] boids@[k]).position.within(2 * LIMIT)
            && boids@[k].velocity.within(2 * LIMIT) by {
            assert(boids@[k] == crate::model::boid_of(agents@[k]));
        }
    }
    let ghost before = agents@;
    let mut i: usize = 0;
    while i < agents.len()
        invariant
            params.valid(),
            agents@.len() == before.len(),
            boids@ == snapshot_of(before),
            boids_within(boids@, 2 * LIMIT),
            all_within(before, 2 * LIMIT),
            i <= agents@.len(),
            forall|k: int| i <= k < before.len() ==> agents@[k] == before[k],
            forall|k: int|
                0 <= k < i ==> agents@[k] == #[trigger] with_velocity(
                    before[k],
                    flocked_velocity(before[k], snapshot_of(before), *params),
                ),
            forall|k: int| 0 <= k < i ==> (#[trigger] agents@[k]).velocity.within(params.max_speed as int),
            forall|k: int| 0 <= k < i ==> norm2(
                (#[trigger] agents@[k]).velocity.x as int,
                agents@[k].velocity.y as int,
            ) <= params.max_speed * params.max_speed,
        decreases agents@.len() - i,
    {
        let a = agents[i];
        assert(a == before[i as int]);
        let v = flock_velocity(&a, &boids, params);
        let updated = Agent { velocity: v, ..a };
        agents.set(i, updated);
        i = i + 1;
    }
    assert(agents@ =~= flocked(before, *params));
}

} // verus!
