use pandemic::{Agent, Config, ConfigError, Engine, Health, Snapshot, MAX_SPEED, PPM, UNITS_PER_CELL};
use rand::rngs::StdRng;
use rand::SeedableRng;

fn still(x: i64, y: i64, health: Health) -> Agent {
    Agent { x, y, vx: 0, vy: 0, health }
}

fn sum(c: (u64, u64, u64, u64)) -> u64 {
    c.0 + c.1 + c.2 + c.3
}

#[test]
fn initialize_sets_counts() {
    let mut rng = StdRng::seed_from_u64(1);
    for (k, n) in [(0u64, 0u64), (0, 10), (5, 50), (7, 7), (3, 500)] {
        let e = Engine::initialize(k, n, 80, 50, &mut rng).unwrap();
        assert_eq!(e.current_counts(), (n - k, k, 0, 0));
        assert_eq!(e.total(), n);
        assert_eq!(e.agents_view().len() as u64, n);
        assert!(e.snapshot_history().is_empty());
    }
}

#[test]
fn initialize_rejects_bad_input() {
    let mut rng = StdRng::seed_from_u64(2);
    assert_eq!(Engine::initialize(3, 2, 10, 10, &mut rng).err(), Some(ConfigError::OutOfRange));
    assert_eq!(Engine::initialize(0, 2, 0, 10, &mut rng).err(), Some(ConfigError::OutOfRange));
    assert_eq!(Engine::initialize(0, 2, 10, 0, &mut rng).err(), Some(ConfigError::OutOfRange));
    assert_eq!(Engine::initialize(0, 2, 1001, 10, &mut rng).err(), Some(ConfigError::OutOfRange));
}

#[test]
fn initialize_places_agents_inside_the_open_domain() {
    let mut rng = StdRng::seed_from_u64(3);
    let e = Engine::initialize(10, 300, 80, 50, &mut rng).unwrap();
    let agents = e.agents_view();
    for a in &agents {
        assert!(a.x >= UNITS_PER_CELL && a.x < 80 * UNITS_PER_CELL);
        assert!(a.y >= UNITS_PER_CELL && a.y < 50 * UNITS_PER_CELL);
        assert!(a.vx.abs() <= MAX_SPEED && a.vy.abs() <= MAX_SPEED);
        let speed2 = a.vx * a.vx + a.vy * a.vy;
        assert!(speed2 >= 990 * 990 && speed2 <= 1005 * 1005);
    }
    let first = agents[0];
    assert!(agents.iter().any(|a| a.x != first.x));
    assert!(agents.iter().any(|a| a.y != first.y));
    assert!(agents.iter().any(|a| a.vx != first.vx));
    let infected = agents.iter().filter(|a| matches!(a.health, Health::Infected(0))).count();
    assert_eq!(infected, 10);
}

#[test]
fn population_is_conserved_over_a_run() {
    let mut rng = StdRng::seed_from_u64(4);
    let mut e = Engine::initialize(20, 400, 10, 10, &mut rng).unwrap();
    e.set_config(Config { infection_ppm: 800_000, infection_duration_ms: 2_000, death_ppm: 500_000, time_scale: 4 })
        .unwrap();
    for _ in 0..300 {
        e.tick(16, &mut rng);
        assert_eq!(sum(e.current_counts()), 400);
        let living = e.agents_view().len() as u64;
        assert_eq!(living + e.current_counts().3, 400);
    }
    assert_eq!(e.snapshot_history().len(), 300);
    for s in e.snapshot_history() {
        assert_eq!(s.healthy + s.infected + s.recovered + s.dead, 400);
    }
    let c = e.current_counts();
    assert!(c.3 > 0);
    assert!(c.2 > 0);
}

#[test]
fn agents_stay_inside_the_domain() {
    let mut rng = StdRng::seed_from_u64(5);
    let mut e = Engine::initialize(0, 200, 7, 5, &mut rng).unwrap();
    e.set_config(Config { infection_ppm: 0, infection_duration_ms: 1_000, death_ppm: 0, time_scale: 4 }).unwrap();
    for elapsed in [16u64, 100, 1_000, 3_000, 50_000, 0, 7] {
        e.tick(elapsed, &mut rng);
        for a in e.agents_view() {
            assert!(0 <= a.x && a.x <= 7 * UNITS_PER_CELL);
            assert!(0 <= a.y && a.y <= 5 * UNITS_PER_CELL);
        }
    }
}

#[test]
fn no_infection_at_zero_probability() {
    let mut rng = StdRng::seed_from_u64(6);
    let mut e = Engine::initialize(50, 300, 5, 5, &mut rng).unwrap();
    e.set_config(Config { infection_ppm: 0, infection_duration_ms: 100_000, death_ppm: 100_000, time_scale: 1 })
        .unwrap();
    for _ in 0..200 {
        e.tick(16, &mut rng);
        assert_eq!(e.current_counts().0, 250);
    }
}

#[test]
fn no_death_at_zero_probability_and_infections_end() {
    let mut rng = StdRng::seed_from_u64(7);
    let mut e = Engine::initialize(30, 30, 10, 10, &mut rng).unwrap();
    e.set_config(Config { infection_ppm: PPM, infection_duration_ms: 1_000, death_ppm: 0, time_scale: 1 }).unwrap();
    for _ in 0..70 {
        e.tick(16, &mut rng);
        assert_eq!(e.current_counts().3, 0);
    }
    assert_eq!(e.current_counts(), (0, 0, 30, 0));
}

#[test]
fn same_seed_gives_the_same_run() {
    let run = |seed: u64| {
        let mut rng = StdRng::seed_from_u64(seed);
        let mut e = Engine::initialize(10, 300, 20, 20, &mut rng).unwrap();
        let mut views = Vec::new();
        for step in 0..150u64 {
            if step == 50 {
                e.set_config(Config { infection_ppm: 900_000, infection_duration_ms: 3_000, death_ppm: 300_000, time_scale: 2 })
                    .unwrap();
            }
            e.tick(10 + step % 7, &mut rng);
            views.push(e.agents_view());
        }
        (views, e.snapshot_history().clone())
    };
    let (a_views, a_hist) = run(42);
    let (b_views, b_hist) = run(42);
    assert_eq!(a_views, b_views);
    assert_eq!(a_hist, b_hist);
}

#[test]
fn healthy_population_stays_healthy() {
    let mut rng = StdRng::seed_from_u64(8);
    let mut e = Engine::initialize(0, 10, 10, 10, &mut rng).unwrap();
    for _ in 0..100 {
        e.tick(16, &mut rng);
    }
    assert_eq!(e.snapshot_history().len(), 100);
    for s in e.snapshot_history() {
        assert_eq!(s.infected, 0);
        assert_eq!(s.healthy, 10);
    }
}

#[test]
fn shared_cell_transmits_with_certainty() {
    let mut rng = StdRng::seed_from_u64(9);
    let agents = vec![
        still(250_000, 350_000, Health::Infected(0)),
        still(260_000, 340_000, Health::Healthy),
    ];
    let mut e = Engine::from_agents(10, 10, &agents).unwrap();
    e.set_config(Config { infection_ppm: PPM, infection_duration_ms: 14_000, death_ppm: 0, time_scale: 1 }).unwrap();
    e.tick(1_000, &mut rng);
    let view = e.agents_view();
    assert_eq!(view.len(), 2);
    assert!(view.contains(&still(260_000, 340_000, Health::Infected(0))));
    assert!(view.contains(&still(250_000, 350_000, Health::Infected(1_000))));
    assert_eq!(e.current_counts(), (0, 2, 0, 0));
}

#[test]
fn separate_cells_do_not_transmit() {
    let mut rng = StdRng::seed_from_u64(10);
    let agents = vec![
        still(250_000, 350_000, Health::Infected(0)),
        still(450_000, 350_000, Health::Healthy),
    ];
    let mut e = Engine::from_agents(10, 10, &agents).unwrap();
    e.set_config(Config { infection_ppm: PPM, infection_duration_ms: 14_000, death_ppm: 0, time_scale: 1 }).unwrap();
    e.tick(1_000, &mut rng);
    assert_eq!(e.current_counts(), (1, 1, 0, 0));
}

#[test]
fn certain_death_removes_the_agent() {
    let mut rng = StdRng::seed_from_u64(11);
    let agents = vec![still(150_000, 150_000, Health::Infected(0))];
    let mut e = Engine::from_agents(10, 10, &agents).unwrap();
    e.set_config(Config { infection_ppm: 500_000, infection_duration_ms: 1_000, death_ppm: PPM, time_scale: 1 })
        .unwrap();
    assert_eq!(e.current_counts(), (0, 1, 0, 0));
    e.tick(1_000, &mut rng);
    assert_eq!(e.current_counts(), (0, 0, 0, 1));
    assert!(e.agents_view().is_empty());
    e.tick(1_000, &mut rng);
    assert!(e.agents_view().is_empty());
    assert_eq!(e.current_counts(), (0, 0, 0, 1));
}

#[test]
fn from_agents_rejects_bad_agents() {
    let bad = [
        still(-1, 0, Health::Healthy),
        still(0, 10 * UNITS_PER_CELL + 1, Health::Healthy),
        still(0, 0, Health::Dead),
        Agent { x: 0, y: 0, vx: MAX_SPEED + 1, vy: 0, health: Health::Healthy },
        Agent { x: 0, y: 0, vx: 0, vy: -MAX_SPEED - 1, health: Health::Healthy },
    ];
    for a in bad {
        assert_eq!(Engine::from_agents(10, 10, &vec![a]).err(), Some(ConfigError::OutOfRange));
    }
    let corner = still(10 * UNITS_PER_CELL, 10 * UNITS_PER_CELL, Health::Recovered);
    let e = Engine::from_agents(10, 10, &vec![corner]).unwrap();
    assert_eq!(e.current_counts(), (0, 0, 1, 0));
    assert_eq!(Engine::from_agents(0, 10, &vec![]).err(), Some(ConfigError::OutOfRange));
}

#[test]
fn set_config_validates() {
    let mut e = Engine::from_agents(4, 4, &vec![]).unwrap();
    assert_eq!(e.config(), Config::default());
    let bad = [
        Config { infection_ppm: PPM + 1, ..Config::default() },
        Config { death_ppm: PPM + 1, ..Config::default() },
        Config { infection_duration_ms: 0, ..Config::default() },
    ];
    for c in bad {
        assert_eq!(e.set_config(c), Err(ConfigError::OutOfRange));
        assert_eq!(e.config(), Config::default());
    }
    let good = Config { infection_ppm: PPM, infection_duration_ms: 1, death_ppm: 0, time_scale: 0 };
    assert_eq!(e.set_config(good), Ok(()));
    assert_eq!(e.config(), good);
}

#[test]
fn default_config_values() {
    let c = Config::default();
    assert_eq!(c, Config { infection_ppm: 500_000, infection_duration_ms: 14_000, death_ppm: 100_000, time_scale: 1 });
}

#[test]
fn empty_population_tick_is_a_no_op() {
    let mut rng = StdRng::seed_from_u64(12);
    let mut e = Engine::initialize(0, 0, 10, 10, &mut rng).unwrap();
    e.tick(16, &mut rng);
    assert!(e.snapshot_history().is_empty());
    assert_eq!(e.time_ms(), 0);
}

#[test]
fn time_scale_multiplies_frame_time() {
    let mut rng = StdRng::seed_from_u64(13);
    let agents = vec![Agent { x: 100_000, y: 100_000, vx: 1_000, vy: 0, health: Health::Infected(0) }];
    let mut e = Engine::from_agents(10, 10, &agents).unwrap();
    e.set_config(Config { infection_ppm: 0, infection_duration_ms: 10_000, death_ppm: 0, time_scale: 3 }).unwrap();
    e.tick(16, &mut rng);
    e.tick(10, &mut rng);
    assert_eq!(e.time_ms(), 78);
    let hist: Vec<Snapshot> = e.snapshot_history().clone();
    assert_eq!(hist[0], Snapshot { time_ms: 48, healthy: 0, infected: 1, recovered: 0, dead: 0 });
    assert_eq!(hist[1], Snapshot { time_ms: 78, healthy: 0, infected: 1, recovered: 0, dead: 0 });
    assert_eq!(e.agents_view(), vec![Agent { x: 178_000, y: 100_000, vx: 1_000, vy: 0, health: Health::Infected(78) }]);
}

#[test]
fn movers_are_stored_in_their_new_cell() {
    let mut rng = StdRng::seed_from_u64(14);
    let agents = vec![Agent { x: 190_000, y: 50_000, vx: 1_000, vy: 0, health: Health::Healthy }];
    let mut e = Engine::from_agents(5, 5, &agents).unwrap();
    e.tick(20, &mut rng);
    let g = e.grid();
    let a = e.agents_view()[0];
    assert_eq!(a.x, 210_000);
    let idx = g.index_of(&a);
    assert_eq!(idx, 2);
    assert_eq!(g.cell(idx).len(), 1);
    assert_eq!(g.cell(1).len(), 0);
}

#[test]
fn certain_death_takes_every_infected() {
    let mut rng = StdRng::seed_from_u64(15);
    let mut e = Engine::initialize(20, 100, 10, 10, &mut rng).unwrap();
    e.set_config(Config { infection_ppm: PPM, infection_duration_ms: 1_000, death_ppm: PPM, time_scale: 1 }).unwrap();
    e.tick(1_000, &mut rng);
    assert_eq!(e.current_counts(), (80, 0, 0, 20));
    assert_eq!(e.agents_view().len(), 80);
    assert!(e.agents_view().iter().all(|a| a.health == Health::Healthy));
}

#[test]
fn healthy_never_rises_and_recovered_never_falls() {
    let mut rng = StdRng::seed_from_u64(16);
    let mut e = Engine::initialize(40, 400, 8, 8, &mut rng).unwrap();
    e.set_config(Config { infection_ppm: 700_000, infection_duration_ms: 1_500, death_ppm: 200_000, time_scale: 2 })
        .unwrap();
    let mut before = e.current_counts();
    for _ in 0..200 {
        e.tick(16, &mut rng);
        let now = e.current_counts();
        assert!(now.0 <= before.0);
        assert!(now.2 >= before.2);
        assert!(now.3 >= before.3);
        before = now;
    }
    let hist = e.snapshot_history();
    for w in hist.windows(2) {
        assert!(w[0].time_ms <= w[1].time_ms);
    }
}

#[test]
fn certain_death_within_a_short_frame() {
    let mut rng = StdRng::seed_from_u64(17);
    let agents = vec![still(150_000, 150_000, Health::Infected(0)), still(550_000, 150_000, Health::Recovered)];
    let mut e = Engine::from_agents(10, 10, &agents).unwrap();
    e.set_config(Config { infection_ppm: 0, infection_duration_ms: 14_000, death_ppm: PPM, time_scale: 1 }).unwrap();
    e.tick(16, &mut rng);
    assert_eq!(e.current_counts(), (0, 0, 1, 1));
    assert_eq!(e.agents_view(), vec![still(550_000, 150_000, Health::Recovered)]);
}

#[test]
fn from_agents_keeps_exactly_the_given_agents() {
    let agents = vec![
        still(150_000, 150_000, Health::Infected(5)),
        still(550_000, 150_000, Health::Recovered),
        Agent { x: 10, y: 20, vx: 3, vy: -4, health: Health::Healthy },
    ];
    let e = Engine::from_agents(10, 10, &agents).unwrap();
    let mut view = e.agents_view();
    let mut want = agents.clone();
    view.sort_by_key(|a| (a.x, a.y));
    want.sort_by_key(|a| (a.x, a.y));
    assert_eq!(view, want);
}
