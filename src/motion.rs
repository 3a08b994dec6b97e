use vstd::prelude::*;
use crate::fixed::{abs, tdiv, LIMIT, lemma_tdiv_bound, div_toward_zero};
use crate::vector::Vec2;
use crate::model::Agent;

verus! {

/// Microseconds in one second: velocities are per second, time steps are in
/// microseconds.
pub const MICROS: i64 = 1_000_000;

/// The wrap-around edge of the world: half extents of the visible area, and
/// the dead zone beyond it.
#[derive(Clone, Copy, Debug, PartialEq, Eq, Structural)]
pub struct Viewport {
    pub half_width: i64,
    pub half_height: i64,
    pub padding: i64,
}

impl Viewport {
    pub open spec fn valid(self) -> bool {
        &&& self.half_width >= 0
        &&& self.half_height >= 0
        &&& self.padding >= 0
        &&& self.half_width + self.padding <= LIMIT
        &&& self.half_height + self.padding <= LIMIT
    }
}

pub open spec fn positions_within(s: Seq<Agent>, bound: int) -> bool {
    forall|k: int| 0 <= k < s.len() ==> (#[trigger] s[k]).position.within(bound)
}

pub open spec fn velocities_within(s: Seq<Agent>, bound: int) -> bool {
    forall|k: int| 0 <= k < s.len() ==> (#[trigger] s[k]).velocity.within(bound)
}

/// An agent advanced by its velocity over `dt` microseconds.
pub open spec fn moved_agent(a: Agent, dt: int) -> Agent {
    Agent {
        position: Vec2 {
            x: (a.position.x + tdiv(a.velocity.x * dt, MICROS as int)) as i64,
            y: (a.position.y + tdiv(a.velocity.y * dt, MICROS as int)) as i64,
        },
        ..a
    }
}

pub open spec fn moved(s: Seq<Agent>, dt: int) -> Seq<Agent> {
    Seq::new(s.len(), |i: int| moved_agent(s[i], dt))
}

/// One coordinate teleported to the opposite edge when it is beyond
/// `bound + padding`.
pub open spec fn wrap_coord(c: int, bound: int, padding: int) -> int {
    if c > bound + padding {
        -bound
    } else if c < -bound - padding {
        bound
    } else {
        c
    }
}

pub open spec fn wrapped_agent(a: Agent, view: Viewport) -> Agent {
    Agent {
        position: Vec2 {
            x: wrap_coord(a.position.x as int, view.half_width as int, view.padding as int) as i64,
            y: wrap_coord(a.position.y as int, view.half_height as int, view.padding as int) as i64,
        },
        ..a
    }
}

pub open spec fn wrapped(s: Seq<Agent>, view: Viewport) -> Seq<Agent> {
    Seq::new(s.len(), |i: int| wrapped_agent(s[i], view))
}

/// Wrapping is settled: a coordinate strictly inside the padded area is left
/// alone, one beyond it lands on the opposite visible edge, and wrapping a
/// second time changes nothing.
pub proof fn lemma_wrap_settled(c: int, bound: int, padding: int)
    requires
        bound >= 0,
        padding >= 0,
    ensures
        -bound - padding < c < bound + padding ==> wrap_coord(c, bound, padding) == c,
        c > bound + padding ==> wrap_coord(c, bound, padding) == -bound,
        c < -bound - padding ==> wrap_coord(c, bound, padding) == bound,
        wrap_coord(wrap_coord(c, bound, padding), bound, padding) == wrap_coord(c, bound, padding),
{
}

/// Advances every agent by its velocity over `dt` microseconds.
pub fn integrate(agents: &mut Vec<Agent>, dt: i64)
    requires
        0 <= dt <= MICROS,
        positions_within(old(agents)@, 2 * LIMIT),
        velocities_within(old(agents)@, LIMIT as int),
    ensures
        final(agents)@ == moved(old(agents)@, dt as int),
        positions_within(final(agents)@, 3 * LIMIT),
        velocities_within(final(agents)@, LIMIT as int),
{
    let ghost before = agents@;
    let mut i: usize = 0;
    while i < agents.len()
        invariant
            0 <= dt <= MICROS,
            agents@.len() == before.len(),
            positions_within(before, 2 * LIMIT),
            velocities_within(before, LIMIT as int),
            i <= agents@.len(),
            forall|k: int| i <= k < before.len() ==> agents@[k] == before[k],
            forall|k: int| 0 <= k < i ==> agents@[k] == #[trigger] moved_agent(before[k], dt as int),
            forall|k: int| 0 <= k < i ==> (#[trigger] agents@[k]).position.within(3 * LIMIT),
        decreases agents@.len() - i,
    {
        let a = agents[i];
        assert(a == before[i as int]);
        let vx: i128 = a.velocity.x as i128;
        let vy: i128 = a.velocity.y as i128;
        assert(abs(vx * dt) <= LIMIT * MICROS && abs(vy * dt) <= LIMIT * MICROS) by (nonlinear_arith)
            requires abs(vx as int) <= LIMIT, abs(vy as int) <= LIMIT, 0 <= dt <= MICROS;
        proof {
            lemma_tdiv_bound(vx * dt, MICROS as int);
            lemma_tdiv_bound(vy * dt, MICROS as int);
        }
        let sx: i128 = div_toward_zero(vx * (dt as i128), MICROS as i128);
        let sy: i128 = div_toward_zero(vy * (dt as i128), MICROS as i128);
        let p = Vec2 { x: a.position.x + sx as i64, y: a.position.y + sy as i64 };
        agents.set(i, Agent { position: p, ..a });
        i = i + 1;
    }
    assert(agents@ =~= moved(before, dt as int));
}

/// Teleports every agent that left the padded viewport to the opposite edge.
pub fn wrap(agents: &mut Vec<Agent>, view: &Viewport)
    requires
        view.valid(),
        positions_within(old(agents)@, 3 * LIMIT),
    ensures
        final(agents)@ == wrapped(old(agents)@, *view),
        positions_within(final(agents)@, LIMIT as int),
{
    let ghost before = agents@;
    let bx: i64 = view.half_width;
    let by: i64 = view.half_height;
    let pad: i64 = view.padding;
    let mut i: usize = 0;
    while i < agents.len()
        invariant
            view.valid(),
            bx == view.half_width,
            by == view.half_height,
            pad == view.padding,
            agents@.len() == before.len(),
            positions_within(before, 3 * LIMIT),
            i <= agents@.len(),
            forall|k: int| i <= k < before.len() ==> agents@[k] == before[k],
            forall|k: int| 0 <= k < i ==> agents@[k] == #[trigger] wrapped_agent(before[k], *view),
            forall|k: int| 0 <= k < i ==> (#[trigger] agents@[k]).position.within(LIMIT as int),
        decreases agents@.len() - i,
    {
        let a = agents[i];
        assert(a == before[i as int]);
        let mut x: i64 = a.position.x;
        let mut y: i64 = a.position.y;
        if x > bx + pad {
            x = -bx;
        } else if x < -bx - pad {
            x = bx;
        }
        if y > by + pad {
            y = -by;
        } else if y < -by - pad {
            y = by;
        }
        agents.set(i, Agent { position: Vec2 { x, y }, ..a });
        i = i + 1;
    }
    assert(agents@ =~= wrapped(before, *view));
}

} // verus!
