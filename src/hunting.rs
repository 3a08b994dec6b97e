use vstd::prelude::*;
use crate::fixed::{abs, LIMIT};
use crate::vector::{Vec2, norm2, rescale, rescale_wide, lemma_rescale_bound};
use crate::model::{Agent, Boid, HuntParams, Role, prey_snapshot_of, boids_within, all_within,
    build_prey_snapshot, lemma_prey_snapshot_within};
use crate::steering::with_velocity;

verus! {

/// State of one predator's scan over the prey: the offset to the nearest prey
/// seen so far, and the prey it kills, once one is found within the radius.
pub struct Scan {
    pub best: Option<(int, int)>,
    pub kill: Option<u64>,
}

/// The scan of a predator at `p` over `prey` in order: a prey strictly nearer
/// than every earlier one becomes the target; the first target nearer than
/// `kill2` (squared) is killed and ends the scan.
pub open spec fn scan(p: Vec2, prey: Seq<Boid>, kill2: int) -> Scan
    decreases prey.len(),
{
    if prey.len() == 0 {
        Scan { best: None, kill: None }
    } else {
        let s = scan(p, prey.drop_last(), kill2);
        if s.kill is Some {
            s
        } else {
            let b = prey.last();
            let ox = b.position.x - p.x;
            let oy = b.position.y - p.y;
            let d2 = norm2(ox, oy);
            if s.best is None || d2 < norm2(s.best.unwrap().0, s.best.unwrap().1) {
                Scan { best: Some((ox, oy)), kill: if d2 < kill2 { Some(b.id) } else { None } }
            } else {
                s
            }
        }
    }
}

/// A predator's velocity after the pull toward its target.
pub open spec fn hunted_velocity(a: Agent, prey: Seq<Boid>, params: HuntParams) -> (int, int) {
    match scan(a.position, prey, params.kill_radius * params.kill_radius).best {
        Some(o) => {
            let pull = rescale(o.0, o.1, params.hunt_strength as int);
            (a.velocity.x + pull.0, a.velocity.y + pull.1)
        },
        None => (a.velocity.x as int, a.velocity.y as int),
    }
}

/// Every agent after the hunting phase: each predator pulled toward its
/// target; nothing changes where there is no prey.
pub open spec fn hunted(agents: Seq<Agent>, params: HuntParams) -> Seq<Agent> {
    let prey = prey_snapshot_of(agents);
    if prey.len() == 0 {
        agents
    } else {
        Seq::new(
            agents.len(),
            |i: int|
                if agents[i].role == Role::Predator {
                    with_velocity(agents[i], hunted_velocity(agents[i], prey, params))
                } else {
                    agents[i]
                },
        )
    }
}

/// The kills of the first `k` agents, each id once, in the order found.
pub open spec fn kill_list(agents: Seq<Agent>, prey: Seq<Boid>, kill2: int, k: int) -> Seq<u64>
    decreases k,
{
    if k <= 0 {
        Seq::empty()
    } else {
        let prev = kill_list(agents, prey, kill2, k - 1);
        let a = agents[k - 1];
        if a.role == Role::Predator {
            match scan(a.position, prey, kill2).kill {
                Some(id) => if prev.contains(id) { prev } else { prev.push(id) },
                None => prev,
            }
        } else {
            prev
        }
    }
}

/// The kill set of one hunting phase.
pub open spec fn kills_of(agents: Seq<Agent>, params: HuntParams) -> Seq<u64> {
    let prey = prey_snapshot_of(agents);
    if prey.len() == 0 {
        Seq::empty()
    } else {
        kill_list(agents, prey, params.kill_radius * params.kill_radius, agents.len() as int)
    }
}

proof fn lemma_scan_stays(p: Vec2, prey: Seq<Boid>, kill2: int, k: int, j: int)
    requires
        0 <= k <= j <= prey.len(),
        scan(p, prey.take(k), kill2).kill is Some,
    ensures
        scan(p, prey.take(j), kill2) == scan(p, prey.take(k), kill2),
    decreases j - k,
{
    if j > k {
        lemma_scan_stays(p, prey, kill2, k, j - 1);
        assert(prey.take(j).drop_last() =~= prey.take(j - 1));
    }
}

/// One predator's scan over the prey snapshot.
pub fn scan_prey(position: Vec2, prey: &Vec<Boid>, kill_radius: i64) -> (r: (Option<Vec2>, Option<u64>))
    requires
        position.within(LIMIT as int),
        boids_within(prey@, LIMIT as int),
        0 <= kill_radius <= LIMIT,
    ensures
        ({
            let s = scan(position, prey@, kill_radius * kill_radius);
            &&& r.1 == s.kill
            &&& match r.0 {
                Some(o) => s.best == Some((o.x as int, o.y as int)) && o.within(2 * LIMIT),
                None => s.best is None,
            }
        }),
{
    let kr: i128 = kill_radius as i128;
    assert(0 <= kr * kr <= LIMIT * LIMIT) by (nonlinear_arith)
        requires 0 <= kr <= LIMIT;
    let kill2: i128 = kr * kr;
    let mut best: Option<Vec2> = None;
    let mut best_d2: i128 = 0;
    let mut i: usize = 0;
    while i < prey.len()
        invariant
            i <= prey.len(),
            kill2 == kill_radius * kill_radius,
            position.within(LIMIT as int),
            boids_within(prey@, LIMIT as int),
            ({
                let s = scan(position, prey@.take(i as int), kill2 as int);
                &&& s.kill is None
                &&& match best {
                    Some(o) => s.best == Some((o.x as int, o.y as int)) && o.within(2 * LIMIT)
                        && best_d2 == norm2(o.x as int, o.y as int),
                    None => s.best is None,
                }
            }),
        decreases prey.len() - i,
    {
        let b = prey[i];
        assert(prey@.take(i + 1).drop_last() =~= prey@.take(i as int));
        assert(prey@.take(i + 1).last() == b);
        assert(b.position.within(LIMIT as int));
        let ox: i64 = b.position.x - position.x;
        let oy: i64 = b.position.y - position.y;
        assert(0 <= (ox as i128) * (ox as i128) <= 4 * LIMIT * LIMIT
            && 0 <= (oy as i128) * (oy as i128) <= 4 * LIMIT * LIMIT) by (nonlinear_arith)
            requires abs(ox as int) <= 2 * LIMIT, abs(oy as int) <= 2 * LIMIT;
        let d2: i128 = (ox as i128) * (ox as i128) + (oy as i128) * (oy as i128);
        let nearer = match best {
            Some(_) => d2 < best_d2,
            None => true,
        };
        if nearer {
            best = Some(Vec2 { x: ox, y: oy });
            best_d2 = d2;
            if d2 < kill2 {
                proof {
                    lemma_scan_stays(position, prey@, kill2 as int, i + 1, prey@.len() as int);
                    assert(prey@.take(prey@.len() as int) =~= prey@);
                }
                return (best, Some(b.id));
            }
        }
        i = i + 1;
    }
    assert(prey@.take(i as int) =~= prey@);
    (best, None)
}

/// The hunting phase: every predator is pulled toward its target, and the ids
/// of the prey killed are returned, each once.
pub fn hunt(agents: &mut Vec<Agent>, params: &HuntParams) -> (kills: Vec<u64>)
    requires
        params.valid(),
        all_within(old(agents)@, LIMIT as int),
    ensures
        final(agents)@ == hunted(old(agents)@, *params),
        kills@ == kills_of(old(agents)@, *params),
        kills@.no_duplicates(),
        all_within(final(agents)@, 2 * LIMIT),
{
    let prey = build_prey_snapshot(agents);
    let mut kills: Vec<u64> = Vec::new();
    if prey.len() == 0 {
        return kills;
    }
    proof {
        lemma_prey_snapshot_within(agents@, LIMIT as int);
    }
    let ghost before = agents@;
    let ghost kill2 = params.kill_radius * params.kill_radius;
    let mut i: usize = 0;
    while i < agents.len()
        invariant
            params.valid(),
            agents@.len() == before.len(),
            prey@ == prey_snapshot_of(before),
            prey@.len() > 0,
            kill2 == params.kill_radius * params.kill_radius,
            boids_within(prey@, LIMIT as int),
            all_within(before, LIMIT as int),
            i <= agents@.len(),
            forall|k: int| i <= k < before.len() ==> agents@[k] == before[k],
            forall|k: int|
                0 <= k < i ==> agents@[k] == #[trigger] hunted(before, *params)[k],
            forall|k: int| 0 <= k < i ==> (#[trigger] agents@[k]).velocity.within(2 * LIMIT),
            kills@ == kill_list(before, prey@, kill2, i as int),
            kills@.no_duplicates(),
        decreases agents@.len() - i,
    {
        let a = agents[i];
        assert(a == before[i as int]);
        if a.role == Role::Predator {
            let (target, kill) = scan_prey(a.position, &prey, params.kill_radius);
            match target {
                Some(o) => {
                    proof {
                        lemma_rescale_bound(o.x as int, o.y as int, params.hunt_strength as int);
                    }
                    let pull = rescale_wide(o.x as i128, o.y as i128, params.hunt_strength);
                    let v = Vec2 {
                        x: a.velocity.x + pull.0 as i64,
                        y: a.velocity.y + pull.1 as i64,
                    };
                    agents.set(i, Agent { velocity: v, ..a });
                },
                None => {},
            }
            match kill {
                Some(id) => {
                    let mut seen = false;
                    let mut j: usize = 0;
                    while j < kills.len()
                        invariant
                            j <= kills@.len(),
                            seen == kills@.take(j as int).contains(id),
                        decreases kills@.len() - j,
                    {
                        proof {
                            let t = kills@.take(j + 1);
                            let u = kills@.take(j as int);
                            assert(t =~= u.push(kills@[j as int]));
                            if t.contains(id) {
                                let k = choose|k: int| 0 <= k < t.len() && t[k] == id;
                                if k < j {
                                    assert(u[k] == id);
                                }
                            }
                            if u.contains(id) {
                                let k = choose|k: int| 0 <= k < u.len() && u[k] == id;
                                assert(t[k] == id);
                            }
                            if kills@[j as int] == id {
                                assert(t[j as int] == id);
                            }
                            assert(t.contains(id) == (u.contains(id) || kills@[j as int] == id));
                        }
                        if kills[j] == id {
                            seen = true;
                        }
                        j = j + 1;
                    }
                    assert(kills@.take(j as int) =~= kills@);
                    if !seen {
                        kills.push(id);
                    }
                },
                None => {},
            }
        }
        i = i + 1;
    }
    proof {
        assert(agents@ =~= hunted(before, *params));
        assert forall|k: int| 0 <= k < agents@.len() implies
            (#[trigger] agents@[k]).position.within(2 * LIMIT)
            && agents@[k].velocity.within(2 * LIMIT) by {
            assert(agents@[k].position == before[k].position);
        }
    }
    kills
}

} // verus!
