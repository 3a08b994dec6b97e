use flock_sim::fixed::{ceil_sqrt_u128, div_toward_zero, ONE};
use flock_sim::hunting::{hunt, scan_prey};
use flock_sim::model::{build_prey_snapshot, build_snapshot, Agent, Boid, FlockParams, HuntParams, Role};
use flock_sim::motion::{integrate, wrap, Viewport};
use flock_sim::steering::{flock, flock_velocity, steer};
use flock_sim::vector::{clamp_wide, rescale_wide, Vec2};
use flock_sim::world::{Rect, World};

fn agent(id: u64, x: i64, y: i64, vx: i64, vy: i64, role: Role) -> Agent {
    Agent { id, position: Vec2::new(x * ONE, y * ONE), velocity: Vec2::new(vx * ONE, vy * ONE), role }
}

fn quiet_flock() -> FlockParams {
    FlockParams {
        alignment_strength: 0,
        cohesion_strength: 0,
        avoidance_strength: 0,
        gravity_strength: 0,
        max_speed: 2 * ONE,
        neighbor_radius: 0,
        avoidance_radius: 0,
    }
}

fn wide_view() -> Viewport {
    Viewport { half_width: 1_000_000, half_height: 1_000_000, padding: 100_000 }
}

#[test]
fn ceil_sqrt_exact_values() {
    assert_eq!(ceil_sqrt_u128(0), 0);
    assert_eq!(ceil_sqrt_u128(1), 1);
    assert_eq!(ceil_sqrt_u128(2), 2);
    assert_eq!(ceil_sqrt_u128(16), 4);
    assert_eq!(ceil_sqrt_u128(17), 5);
    assert_eq!(ceil_sqrt_u128(10_000_000_000), 100_000);
}

#[test]
fn division_rounds_toward_zero() {
    assert_eq!(div_toward_zero(7, 2), 3);
    assert_eq!(div_toward_zero(-7, 2), -3);
    assert_eq!(div_toward_zero(0, 5), 0);
}

#[test]
fn rescale_keeps_direction() {
    assert_eq!(rescale_wide(3000, 4000, 1000), (600, 800));
    assert_eq!(rescale_wide(-3000, 4000, 10_000), (-6000, 8000));
    assert_eq!(rescale_wide(0, 0, 1000), (0, 0));
}

#[test]
fn clamp_only_shortens() {
    assert_eq!(clamp_wide(300, 400, 1000), (300, 400));
    assert_eq!(clamp_wide(3000, 4000, 1000), (600, 800));
    assert_eq!(clamp_wide(1000, 0, 1000), (1000, 0));
}

#[test]
fn isolated_agent_keeps_velocity() {
    let mut params = quiet_flock();
    params.neighbor_radius = 10 * ONE;
    params.alignment_strength = 3 * ONE;
    params.gravity_strength = ONE;
    let boids = vec![
        Boid { id: 0, velocity: Vec2::new(1500, -700), position: Vec2::new(5000, 5000) },
        Boid { id: 1, velocity: Vec2::new(0, 0), position: Vec2::new(100_000, 0) },
    ];
    let r = steer(0, Vec2::new(1500, -700), Vec2::new(5000, 5000), &boids, &params);
    assert_eq!(r, Vec2::new(1500, -700));
}

#[test]
fn two_aligned_agents_steer_symmetrically() {
    let params = FlockParams {
        alignment_strength: ONE,
        cohesion_strength: 0,
        avoidance_strength: 0,
        gravity_strength: 0,
        max_speed: 5 * ONE,
        neighbor_radius: 50 * ONE,
        avoidance_radius: 0,
    };
    let mut agents = vec![agent(0, 0, 0, 1, 0, Role::Prey), agent(1, 10, 0, 1, 0, Role::Prey)];
    let boids = build_snapshot(&agents);
    let s0 = steer(0, agents[0].velocity, agents[0].position, &boids, &params);
    let s1 = steer(1, agents[1].velocity, agents[1].position, &boids, &params);
    assert_eq!(s0, Vec2::new(ONE, 0));
    assert_eq!(s1, Vec2::new(ONE, 0));
    flock(&mut agents, &params);
    assert_eq!(agents[0].velocity, Vec2::new(5 * ONE, 0));
    assert_eq!(agents[1].velocity, Vec2::new(5 * ONE, 0));
}

#[test]
fn cohesion_avoidance_and_gravity_values() {
    let params = FlockParams {
        alignment_strength: 0,
        cohesion_strength: 10 * ONE,
        avoidance_strength: 0,
        gravity_strength: 0,
        max_speed: 100 * ONE,
        neighbor_radius: 50 * ONE,
        avoidance_radius: 0,
    };
    let boids = vec![
        Boid { id: 0, velocity: Vec2::new(0, 0), position: Vec2::new(0, 0) },
        Boid { id: 1, velocity: Vec2::new(0, 0), position: Vec2::new(4000, 0) },
    ];
    // cohesion: (4000 - 0) / 1 * 10 = 40000, longer than 10000, rescaled to 10000
    assert_eq!(steer(0, Vec2::new(0, 0), Vec2::new(0, 0), &boids, &params), Vec2::new(10_000, 0));
    let mut params = params;
    params.cohesion_strength = 0;
    params.avoidance_strength = ONE;
    params.avoidance_radius = 10 * ONE;
    // avoidance: offset (0 - 4000) / 1 * 1 = -4000, rescaled to -1000
    assert_eq!(steer(0, Vec2::new(0, 0), Vec2::new(0, 0), &boids, &params), Vec2::new(-ONE, 0));
    params.avoidance_strength = 0;
    params.gravity_strength = 2 * ONE;
    // gravity: -(0, 0) * 2 toward the origin from the origin is zero
    assert_eq!(steer(0, Vec2::new(0, 0), Vec2::new(0, 0), &boids, &params), Vec2::new(0, 0));
    // from (0.5, 0): (-0.5 * 2, 0) = (-1, 0), within the strength of 2
    assert_eq!(steer(9, Vec2::new(0, 0), Vec2::new(500, 0), &boids, &params), Vec2::new(-ONE, 0));
}

#[test]
fn velocity_clamped_to_max_speed() {
    let mut params = quiet_flock();
    params.max_speed = 3 * ONE;
    let fast = Agent {
        id: 0,
        position: Vec2::new(0, 0),
        velocity: Vec2::new(900_000_000, -1_200_000_000),
        role: Role::Neutral,
    };
    let boids = vec![Boid { id: 0, velocity: fast.velocity, position: fast.position }];
    let v = flock_velocity(&fast, &boids, &params);
    assert_eq!(v, Vec2::new(1800, -2400));
    let speed2 = (v.x as i128) * (v.x as i128) + (v.y as i128) * (v.y as i128);
    assert!(speed2 <= (params.max_speed as i128) * (params.max_speed as i128));
}

#[test]
fn wrap_boundary_behaviour() {
    let view = Viewport { half_width: 100, half_height: 50, padding: 10 };
    let at_edge = Agent { id: 0, position: Vec2::new(110, -60), velocity: Vec2::new(7, 7), role: Role::Prey };
    let beyond = Agent { id: 1, position: Vec2::new(111, -61), velocity: Vec2::new(7, 7), role: Role::Prey };
    let inside = Agent { id: 2, position: Vec2::new(-109, 59), velocity: Vec2::new(7, 7), role: Role::Prey };
    let mut agents = vec![at_edge, beyond, inside];
    wrap(&mut agents, &view);
    assert_eq!(agents[0].position, Vec2::new(110, -60));
    assert_eq!(agents[1].position, Vec2::new(-100, 50));
    assert_eq!(agents[1].velocity, Vec2::new(7, 7));
    assert_eq!(agents[2].position, Vec2::new(-109, 59));
    let once = agents.clone();
    wrap(&mut agents, &view);
    assert_eq!(agents, once);
}

#[test]
fn integrate_advances_by_velocity() {
    let mut agents = vec![agent(0, 1, 1, 1, -2, Role::Prey)];
    integrate(&mut agents, 500_000);
    assert_eq!(agents[0].position, Vec2::new(1500, 0));
}

#[test]
fn removing_twice_removes_once() {
    let agents = vec![
        agent(0, 0, 0, 0, 0, Role::Prey),
        agent(1, 1, 0, 0, 0, Role::Prey),
        agent(2, 2, 0, 0, 0, Role::Predator),
    ];
    let mut w = World::from_agents(agents, quiet_flock(), HuntParams { hunt_strength: 0, kill_radius: 0 });
    w.remove_agent(1);
    assert_eq!(w.len(), 2);
    w.remove_agent(1);
    assert_eq!(w.len(), 2);
    w.remove_agent(42);
    let left: Vec<u64> = w.read_agents().iter().map(|a| a.id).collect();
    assert_eq!(left, vec![0, 2]);
}

#[test]
fn prey_snapshot_holds_prey_only() {
    let agents = vec![
        agent(0, 0, 0, 0, 0, Role::Prey),
        agent(1, 1, 0, 0, 0, Role::Predator),
        agent(2, 2, 0, 0, 0, Role::Neutral),
        agent(3, 3, 0, 0, 0, Role::Prey),
    ];
    let prey: Vec<u64> = build_prey_snapshot(&agents).iter().map(|b| b.id).collect();
    assert_eq!(prey, vec![0, 3]);
}

#[test]
fn predator_pulled_toward_distant_prey() {
    let params = HuntParams { hunt_strength: 2 * ONE, kill_radius: 60 * ONE };
    let mut agents = vec![agent(0, 100, 0, 0, 0, Role::Prey), agent(1, 0, 0, 0, 0, Role::Predator)];
    let kills = hunt(&mut agents, &params);
    assert!(kills.is_empty());
    assert_eq!(agents[1].velocity, Vec2::new(2 * ONE, 0));
    assert_eq!(agents[0].velocity, Vec2::new(0, 0));
}

#[test]
fn predator_catches_prey_over_ticks() {
    let hunt_params = HuntParams { hunt_strength: 2 * ONE, kill_radius: 60 * ONE };
    let agents = vec![agent(0, 100, 0, 0, 0, Role::Prey), agent(1, 0, 0, 0, 0, Role::Predator)];
    let mut w = World::from_agents(agents, quiet_flock(), hunt_params);
    w.tick(1_000_000, &wide_view());
    let after = w.read_agents();
    assert_eq!(after.len(), 2);
    assert_eq!(after[1].velocity, Vec2::new(2 * ONE, 0));
    assert_eq!(after[1].position, Vec2::new(2 * ONE, 0));
    let mut ticks = 1;
    while w.len() == 2 && ticks < 100 {
        w.tick(1_000_000, &wide_view());
        ticks += 1;
    }
    let left = w.read_agents();
    assert_eq!(left.len(), 1);
    assert_eq!(left[0].role, Role::Predator);
    assert!(ticks < 100);
}

#[test]
fn nearest_so_far_scan_stops_at_first_kill() {
    let prey = vec![
        Boid { id: 5, velocity: Vec2::new(0, 0), position: Vec2::new(50 * ONE, 0) },
        Boid { id: 6, velocity: Vec2::new(0, 0), position: Vec2::new(ONE, 0) },
    ];
    let (target, kill) = scan_prey(Vec2::new(0, 0), &prey, 60 * ONE);
    assert_eq!(kill, Some(5));
    assert_eq!(target, Some(Vec2::new(50 * ONE, 0)));
    let (target, kill) = scan_prey(Vec2::new(0, 0), &prey, 10 * ONE);
    assert_eq!(kill, Some(6));
    assert_eq!(target, Some(Vec2::new(ONE, 0)));
}

#[test]
fn two_predators_one_kill() {
    let params = HuntParams { hunt_strength: ONE, kill_radius: 10 * ONE };
    let mut agents = vec![
        agent(0, 0, 0, 0, 0, Role::Prey),
        agent(1, 1, 0, 0, 0, Role::Predator),
        agent(2, -1, 0, 0, 0, Role::Predator),
    ];
    let kills = hunt(&mut agents, &params);
    assert_eq!(kills, vec![0]);
    assert_eq!(agents[1].velocity, Vec2::new(-ONE, 0));
    assert_eq!(agents[2].velocity, Vec2::new(ONE, 0));
}

#[test]
fn no_prey_no_hunt() {
    let params = HuntParams { hunt_strength: ONE, kill_radius: 10 * ONE };
    let mut agents = vec![agent(1, 1, 0, 3, 0, Role::Predator)];
    let kills = hunt(&mut agents, &params);
    assert!(kills.is_empty());
    assert_eq!(agents[0].velocity, Vec2::new(3 * ONE, 0));
}

#[test]
fn empty_world_ticks() {
    let mut w = World::new(quiet_flock(), HuntParams { hunt_strength: ONE, kill_radius: ONE });
    w.tick(41_667, &wide_view());
    assert_eq!(w.len(), 0);
}

#[test]
fn ticks_are_deterministic() {
    let flock_params = FlockParams {
        alignment_strength: ONE,
        cohesion_strength: ONE,
        avoidance_strength: 1500,
        gravity_strength: ONE,
        max_speed: 130 * ONE,
        neighbor_radius: 80 * ONE,
        avoidance_radius: 60 * ONE,
    };
    let hunt_params = HuntParams { hunt_strength: 2 * ONE, kill_radius: 60 * ONE };
    let agents = vec![
        agent(0, 0, 0, 1, 0, Role::Prey),
        agent(1, 30, 10, 0, 1, Role::Prey),
        agent(2, -20, 40, -1, 0, Role::Prey),
        agent(3, 200, 200, 0, 0, Role::Predator),
    ];
    let mut a = World::from_agents(agents.clone(), flock_params, hunt_params);
    let mut b = World::from_agents(agents, flock_params, hunt_params);
    for _ in 0..20 {
        a.tick(41_667, &wide_view());
        b.tick(41_667, &wide_view());
    }
    assert_eq!(a.read_agents(), b.read_agents());
}

#[test]
fn reset_then_read_agents() {
    let mut w = World::new(quiet_flock(), HuntParams { hunt_strength: ONE, kill_radius: ONE });
    let spawn = Rect { min_x: -500 * ONE, max_x: 500 * ONE, min_y: -300 * ONE, max_y: 300 * ONE };
    w.reset(200, 6, &spawn);
    let agents = w.read_agents();
    assert_eq!(agents.len(), 206);
    for (k, a) in agents.iter().enumerate() {
        assert_eq!(a.id, k as u64);
        assert_eq!(a.role, if k < 200 { Role::Prey } else { Role::Predator });
        assert!(spawn.min_x <= a.position.x && a.position.x <= spawn.max_x);
        assert!(spawn.min_y <= a.position.y && a.position.y <= spawn.max_y);
        assert!(a.velocity.x.abs() <= ONE && a.velocity.y.abs() <= ONE);
    }
    let first = agents[0];
    assert!(agents.iter().any(|a| a.position.x != first.position.x));
    assert!(agents.iter().any(|a| a.position.y != first.position.y));
    assert!(agents.iter().any(|a| a.velocity != first.velocity));
    w.reset(0, 0, &spawn);
    assert_eq!(w.len(), 0);
}

#[test]
fn params_take_effect_on_next_tick() {
    let agents = vec![agent(0, 0, 0, 5, 0, Role::Prey)];
    let mut w = World::from_agents(agents, quiet_flock(), HuntParams { hunt_strength: 0, kill_radius: 0 });
    let mut frozen = quiet_flock();
    frozen.max_speed = 0;
    w.set_flock_params(frozen);
    assert_eq!(w.flock_params(), frozen);
    w.tick(1_000_000, &wide_view());
    let a = w.read_agents();
    assert_eq!(a[0].velocity, Vec2::new(0, 0));
    assert_eq!(a[0].position, Vec2::new(0, 0));
    let hp = HuntParams { hunt_strength: ONE, kill_radius: 2 * ONE };
    w.set_hunt_params(hp);
    assert_eq!(w.hunt_params(), hp);
}
