use flocking::config::Config;
use flocking::flock::{next_agent, steering, Agent, Flock, MAX_AGENTS, POSITION_LIMIT};
use flocking::spawn::agent_from_draws;
use flocking::vector::{isqrt_ceil, limit_magnitude, set_magnitude, Vec2};

fn v(x: i64, y: i64) -> Vec2 {
    Vec2 { x, y }
}

fn agent(px: i64, py: i64, vx: i64, vy: i64) -> Agent {
    Agent::new(v(px, py), v(vx, vy))
}

#[test]
fn two_close_agents_are_pushed_apart() {
    let agents = vec![agent(0, 0, 0, 0), agent(10_000, 0, 0, 0)];
    let mut flock = Flock::from_agents(agents, Config::standard()).unwrap();
    assert!(flock.can_step());
    flock.step();
    let a = flock.agents();
    // separation (-100, 0) weighted 1.5, cohesion (+100, 0) weighted 1
    assert_eq!(a[0].velocity, v(-50, 0));
    assert_eq!(a[1].velocity, v(50, 0));
    assert_eq!(a[0].position, v(-50, 0));
    assert_eq!(a[1].position, v(10_050, 0));
}

#[test]
fn single_agent_only_has_its_velocity_clamped() {
    let agents = vec![agent(100, 100, 3000, 4000)];
    let cfg = Config::standard();
    let st = steering(&agents, 0, &cfg);
    assert_eq!(st.separation, v(0, 0));
    assert_eq!(st.alignment, v(0, 0));
    assert_eq!(st.cohesion, v(0, 0));
    let mut flock = Flock::from_agents(agents, cfg).unwrap();
    flock.step();
    let a = flock.agents()[0];
    assert_eq!(a.velocity, v(1200, 1600));
    assert_eq!(a.position, v(1300, 1700));
}

#[test]
fn isolated_agents_get_no_alignment_or_cohesion() {
    let agents = vec![agent(0, 0, 10, 0), agent(100_000, 0, 0, 10), agent(0, 60_000, -5, 5)];
    let cfg = Config::standard();
    for i in 0..agents.len() {
        let st = steering(&agents, i, &cfg);
        assert_eq!(st.alignment, v(0, 0));
        assert_eq!(st.cohesion, v(0, 0));
        assert_eq!(st.separation, v(0, 0));
    }
}

#[test]
fn neighbours_at_exactly_the_radius_do_not_count() {
    let agents = vec![agent(0, 0, 0, 0), agent(50_000, 0, 0, 0)];
    let st = steering(&agents, 0, &Config::standard());
    assert_eq!(st.cohesion, v(0, 0));
}

#[test]
fn separation_is_antisymmetric() {
    let agents = vec![agent(0, 0, 0, 0), agent(7_000, -3_000, 0, 0)];
    let cfg = Config::standard();
    let a = steering(&agents, 0, &cfg).separation;
    let b = steering(&agents, 1, &cfg).separation;
    assert_eq!(a, v(-7_000, 3_000));
    assert_eq!(b, v(-a.x, -a.y));
}

#[test]
fn alignment_and_cohesion_exact_values() {
    // neighbour at (30_000, 30_000) moving (0, 600); self at origin moving (100, 0)
    let agents = vec![agent(0, 0, 100, 0), agent(30_000, 30_000, 0, 600)];
    let st = steering(&agents, 0, &Config::standard());
    assert_eq!(st.alignment, v(-100, 2000));
    assert_eq!(st.cohesion, v(30_000, 30_000));
    assert_eq!(st.separation, v(0, 0));
}

#[test]
fn repeated_runs_are_identical() {
    let start = vec![
        agent(0, 0, 500, 0),
        agent(20_000, 5_000, -300, 200),
        agent(40_000, -10_000, 0, -700),
        agent(-15_000, 30_000, 1000, 1000),
    ];
    let mut a = Flock::from_agents(start.clone(), Config::standard()).unwrap();
    let mut b = Flock::from_agents(start, Config::standard()).unwrap();
    for _ in 0..50 {
        a.step();
        b.step();
        assert_eq!(a.agents(), b.agents());
    }
}

#[test]
fn speed_stays_capped_over_many_steps() {
    let cfg = Config::standard();
    let mut flock = Flock::random(150, 1_600_000, 1_200_000, 1000, cfg).unwrap();
    let max = cfg.max_speed as i128;
    for _ in 0..100 {
        assert!(flock.can_step());
        flock.step();
        for a in flock.agents() {
            let (x, y) = (a.velocity.x as i128, a.velocity.y as i128);
            assert!(x * x + y * y <= max * max);
        }
    }
    assert_eq!(flock.len(), 150);
}

#[test]
fn random_flock_spawns_inside_the_box() {
    let flock = Flock::random(150, 1_600_000, 1_200_000, 1000, Config::standard()).unwrap();
    assert_eq!(flock.len(), 150);
    for a in flock.agents() {
        assert!(0 <= a.position.x && a.position.x < 1_600_000);
        assert!(0 <= a.position.y && a.position.y < 1_200_000);
        assert!(-1000 <= a.velocity.x && a.velocity.x <= 1000);
        assert!(-1000 <= a.velocity.y && a.velocity.y <= 1000);
    }
    let first = flock.agents()[0].position;
    assert!(flock.agents().iter().any(|a| a.position != first));
}

#[test]
fn random_flock_rejects_bad_input() {
    assert!(Flock::random(MAX_AGENTS + 1, 10, 10, 1, Config::standard()).is_none());
    let mut cfg = Config::standard();
    cfg.neighbor_radius = -1;
    assert!(Flock::random(3, 10, 10, 1, cfg).is_none());
    assert!(Flock::random(0, 10, 10, 1, Config::standard()).is_some());
}

#[test]
fn from_agents_rejects_out_of_range() {
    let far = vec![agent(POSITION_LIMIT + 1, 0, 0, 0)];
    assert!(Flock::from_agents(far, Config::standard()).is_none());
    let mut cfg = Config::standard();
    cfg.max_speed = -2;
    assert!(!cfg.is_valid());
    assert!(Flock::from_agents(vec![agent(0, 0, 0, 0)], cfg).is_none());
    assert!(Config::standard().is_valid());
}

#[test]
fn can_step_detects_agents_at_the_edge() {
    let flock = Flock::from_agents(vec![agent(POSITION_LIMIT - 1, 0, 0, 0)], Config::standard()).unwrap();
    assert!(!flock.can_step());
    let flock = Flock::from_agents(vec![agent(POSITION_LIMIT - 2_000, 0, 0, 0)], Config::standard()).unwrap();
    assert!(flock.can_step());
}

#[test]
fn next_agent_matches_step() {
    let agents = vec![agent(0, 0, 0, 0), agent(10_000, 0, 0, 0)];
    let n = next_agent(&agents, 1, &Config::standard());
    assert_eq!(n, agent(10_050, 0, 50, 0));
}

#[test]
fn magnitude_helpers() {
    assert_eq!(limit_magnitude(v(30, 40), 10), v(6, 8));
    assert_eq!(limit_magnitude(v(3, 4), 10), v(3, 4));
    assert_eq!(limit_magnitude(v(-30, 40), 5), v(-3, 4));
    assert_eq!(set_magnitude(v(0, 0), 7), v(0, 0));
    assert_eq!(set_magnitude(v(0, -3), 7), v(0, -7));
    assert_eq!(set_magnitude(v(1, 1), 100), v(50, 50));
    assert_eq!(isqrt_ceil(0), 0);
    assert_eq!(isqrt_ceil(1), 1);
    assert_eq!(isqrt_ceil(2), 2);
    assert_eq!(isqrt_ceil(4), 2);
    assert_eq!(isqrt_ceil(5), 3);
    assert_eq!(isqrt_ceil(100_000_000), 10_000);
}

#[test]
fn draws_map_onto_the_box() {
    let a = agent_from_draws((0x8000_0000, 0, 0xFFFF_FFFF, 0), 1600, 1200, 1000);
    assert_eq!(a.position, v(800, 0));
    assert_eq!(a.velocity, v(1000, -1000));
    let b = agent_from_draws((0xFFFF_FFFF, 0xFFFF_FFFF, 0x8000_0000, 0x8000_0000), 0, 1200, 0);
    assert_eq!(b.position, v(0, 1199));
    assert_eq!(b.velocity, v(0, 0));
}
