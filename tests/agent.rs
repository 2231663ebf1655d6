use pandemic::{frame_probability, Agent, Health, SpatialGrid, UNITS_PER_CELL};

#[test]
fn advance_moves_along_velocity() {
    let a = Agent { x: 50_000, y: 70_000, vx: 1_000, vy: -300, health: Health::Healthy };
    let b = a.advance(100, 1_000_000, 1_000_000, 14_000, true);
    assert_eq!(b, Agent { x: 150_000, y: 40_000, vx: 1_000, vy: -300, health: Health::Healthy });
}

#[test]
fn advance_reflects_at_the_low_walls() {
    let a = Agent { x: 10_000, y: 5_000, vx: -1_000, vy: -500, health: Health::Healthy };
    let b = a.advance(20, 1_000_000, 1_000_000, 14_000, false);
    assert_eq!(b, Agent { x: 10_000, y: 5_000, vx: 1_000, vy: 500, health: Health::Healthy });
}

#[test]
fn advance_reflects_at_the_high_walls() {
    let a = Agent { x: 990_000, y: 495_000, vx: 1_000, vy: 500, health: Health::Recovered };
    let b = a.advance(20, 1_000_000, 500_000, 14_000, true);
    assert_eq!(b, Agent { x: 990_000, y: 495_000, vx: -1_000, vy: -500, health: Health::Recovered });
}

#[test]
fn advance_stops_at_the_wall_after_a_long_frame() {
    let a = Agent { x: 100_000, y: 100_000, vx: -1_000, vy: 1_000, health: Health::Healthy };
    let b = a.advance(5_000, 1_000_000, 1_000_000, 14_000, false);
    assert_eq!(b, Agent { x: 1_000_000, y: 0, vx: 1_000, vy: -1_000, health: Health::Healthy });
}

#[test]
fn advance_ages_and_ends_infections() {
    let a = Agent { x: 0, y: 0, vx: 0, vy: 0, health: Health::Infected(500) };
    assert_eq!(a.advance(500, 10, 10, 1_000, false).health, Health::Infected(1_000));
    assert_eq!(a.advance(501, 10, 10, 1_000, false).health, Health::Recovered);
    assert_eq!(a.advance(1, 10, 10, 1_000, true).health, Health::Dead);
    assert_eq!(a.advance(u64::MAX, 10, 10, 1_000, false).health, Health::Recovered);
}

#[test]
fn final_states_do_not_change() {
    for h in [Health::Recovered, Health::Dead] {
        let a = Agent { x: 0, y: 0, vx: 0, vy: 0, health: h };
        assert_eq!(a.expose(true).health, h);
    }
    let r = Agent { x: 0, y: 0, vx: 0, vy: 0, health: Health::Recovered };
    assert_eq!(r.advance(10_000, 10, 10, 1, true).health, Health::Recovered);
    let h = Agent { x: 0, y: 0, vx: 0, vy: 0, health: Health::Healthy };
    assert_eq!(h.advance(10_000, 10, 10, 1, true).health, Health::Healthy);
}

#[test]
fn expose_infects_only_the_healthy() {
    let h = Agent { x: 3, y: 4, vx: 1, vy: 2, health: Health::Healthy };
    assert_eq!(h.expose(true), Agent { health: Health::Infected(0), ..h });
    assert_eq!(h.expose(false), h);
    let i = Agent { health: Health::Infected(77), ..h };
    assert_eq!(i.expose(true), i);
}

#[test]
fn frame_probability_values() {
    assert_eq!(frame_probability(0, 16, 150), 0);
    assert_eq!(frame_probability(0, 1_000_000, 1), 0);
    assert_eq!(frame_probability(1_000_000, 150, 150), 1_000_000);
    assert_eq!(frame_probability(1_000_000, 1_000, 150), 1_000_000);
    assert_eq!(frame_probability(500_000, 150, 150), 500_000);
    assert_eq!(frame_probability(500_000, 300, 150), 750_000);
    assert_eq!(frame_probability(500_000, 75, 150), 250_000);
    assert_eq!(frame_probability(100_000, 0, 14_000), 0);
    assert_eq!(frame_probability(1_000_000, 75, 150), 1_000_000);
    assert_eq!(frame_probability(1_000_000, 1, 150), 1_000_000);
    assert_eq!(frame_probability(1_000_000, 0, 150), 0);
}

#[test]
fn grid_buckets_by_cell() {
    let mut g = SpatialGrid::new(3, 2);
    assert_eq!(g.num_cells(), 12);
    assert_eq!(g.max_x(), 3 * UNITS_PER_CELL);
    assert_eq!(g.max_y(), 2 * UNITS_PER_CELL);
    let a = Agent { x: 250_000, y: 150_000, vx: 0, vy: 0, health: Health::Healthy };
    assert_eq!(g.index_of(&a), 6);
    g.relocate(a);
    let corner = Agent { x: 300_000, y: 200_000, vx: 0, vy: 0, health: Health::Healthy };
    assert_eq!(g.index_of(&corner), 11);
    g.relocate(corner);
    assert_eq!(g.cell(6), &vec![a]);
    assert_eq!(g.all_agents(), vec![a, corner]);
    assert_eq!(g.census_counts(), (2, 0, 0));
}
