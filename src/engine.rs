use vstd::prelude::*;
use rand::rngs::StdRng;
use crate::agent::{advanced, agent_ok, exposed, Agent, Health, MAX_SPEED, UNITS_PER_CELL};
use crate::grid::{
    any_kind, cell_index, census, flat, grid_ms, lemma_census_empty, lemma_flat_index, lemma_flat_ms,
    lemma_census_zero, lemma_census_nonneg_of, lemma_flat_len_mono, lemma_flat_prefix, lemma_flat_take, lemma_grid_ms_empty, lemma_grid_ms_update, lemma_census_nonneg,
    lemma_census_prefix, lemma_census_take, lemma_census_update, lemma_tally_bounds,
    lemma_tally_push, lemma_tally_take, lemma_tally_update, lemma_tally_zero, tally, SpatialGrid, MAX_DOMAIN,
};
use crate::random::{draw_range, draw_ratio};
use crate::rates::{frame_chance, frame_probability};
use vstd::multiset::Multiset;

verus! {

broadcast use {vstd::multiset::group_multiset_axioms, vstd::seq_lib::group_to_multiset_ensures};

/// One, as a probability in parts per million.
pub const PPM: u32 = 1_000_000;

/// The time in which a moving agent crosses about one and a half cells: the
/// period over which the configured infection chance applies.
pub const CONTACT_TIME_MS: u64 = 150;

/// Rejected input.
#[derive(Clone, Copy, Debug, PartialEq, Eq, Structural)]
pub enum ConfigError {
    /// A probability above one, a zero infection duration, a domain side
    /// outside `1..=MAX_DOMAIN`, or more initially infected than agents.
    OutOfRange,
}

/// Parameters of the disease and of the pace of the run.
#[derive(Clone, Copy, Debug, PartialEq, Eq, Structural)]
pub struct Config {
    /// Chance of infection per contact period, in parts per million.
    pub infection_ppm: u32,
    /// How long an infection lasts, in milliseconds.
    pub infection_duration_ms: u64,
    /// Chance of dying over a whole infection, in parts per million.
    pub death_ppm: u32,
    /// Simulated milliseconds per real millisecond.
    pub time_scale: u32,
}

impl Config {
    pub open spec fn valid(&self) -> bool {
        &&& self.infection_ppm <= PPM
        &&& self.death_ppm <= PPM
        &&& self.infection_duration_ms > 0
    }

    /// Checks the ranges: probabilities at most one, a positive duration.
    pub fn is_valid(&self) -> (r: bool)
        ensures
            r == self.valid(),
    {
        self.infection_ppm <= PPM && self.death_ppm <= PPM && self.infection_duration_ms > 0
    }
}

/// Infection chance one half per contact period, infections of fourteen
/// seconds, death chance one tenth per infection, real time.
pub open spec fn default_config() -> Config {
    Config { infection_ppm: 500_000, infection_duration_ms: 14_000, death_ppm: 100_000, time_scale: 1 }
}

impl Default for Config {
    fn default() -> (r: Config)
        ensures
            r == default_config(),
    {
        Config { infection_ppm: 500_000, infection_duration_ms: 14_000, death_ppm: 100_000, time_scale: 1 }
    }
}

/// Counts of the population after one tick, at a simulated time.
#[derive(Clone, Copy, Debug, PartialEq, Eq, Structural)]
pub struct Snapshot {
    pub time_ms: u64,
    pub healthy: u64,
    pub infected: u64,
    pub recovered: u64,
    pub dead: u64,
}

impl Snapshot {
    pub open spec fn sum(&self) -> int {
        self.healthy + self.infected + self.recovered + self.dead
    }
}

/// The simulation: the grid of living agents, the counters of each health
/// state (the dead are only counted), the configuration and the record of
/// past counts.
///
/// Infection spreads by cell contagion: a cell that holds an infected agent
/// exposes every healthy agent in it. Exposure is judged after the agents
/// of a cell have moved and aged, among those that are still in the cell.
pub struct Engine {
    pub config: Config,
    pub grid: SpatialGrid,
    pub total: u64,
    pub healthy: u64,
    pub infected: u64,
    pub recovered: u64,
    pub dead: u64,
    pub time_ms: u64,
    pub history: Vec<Snapshot>,
}

/// A domain side that the grid accepts.
pub open spec fn side_ok(d: u32) -> bool {
    1 <= d <= MAX_DOMAIN
}

/// The seeding range of one axis: inside `(1, side)` in cells, or the whole
/// side when it is a single cell.
pub open spec fn seed_low(side: int) -> int {
    if side >= 2 { UNITS_PER_CELL as int } else { 0 }
}

/// The integer square root: the largest `r` with `r * r <= n`.
fn isqrt(n: u64) -> (r: u64)
    requires
        n <= 4_000_000,
    ensures
        r * r <= n < (r + 1) * (r + 1),
        r <= 2000,
{
    let mut r: u64 = 0;
    let mut next_sq: u64 = 1;
    while next_sq <= n
        invariant
            n <= 4_000_000,
            r * r <= n,
            r <= 2000,
            next_sq == (r + 1) * (r + 1),
        decreases n - r * r,
    {
        assert(r + 1 <= 2000) by (nonlinear_arith)
            requires (r + 1) * (r + 1) <= n, n <= 4_000_000;
        assert((r + 1) * (r + 1) > r * r) by (nonlinear_arith);
        r = r + 1;
        assert((r + 1) * (r + 1) <= 2001 * 2001) by (nonlinear_arith)
            requires r <= 2000;
        next_sq = (r + 1) * (r + 1);
    }
    r
}

/// `m * MAX_SPEED / len`, for a component `m` no larger than `len`.
fn scale_component(m: i64, len: i64) -> (r: i64)
    requires
        0 < len <= 2000,
        -len <= m <= len,
    ensures
        -MAX_SPEED <= r <= MAX_SPEED,
        2 * m >= len || 2 * m <= -len ==> r >= 500 || r <= -500,
{
    let mag: i64 = if m < 0 { -m } else { m };
    assert(2 * mag >= len ==> mag * 1000 / (len as int) >= 500) by (nonlinear_arith)
        requires 0 < len, 0 <= mag;
    assert(mag * 1000 <= len * 1000) by (nonlinear_arith)
        requires 0 <= mag <= len;
    assert(mag * 1000 / (len as int) <= 1000) by (nonlinear_arith)
        requires mag * 1000 <= len * 1000, 0 < len;
    assert(0 <= mag * 1000 / (len as int)) by (nonlinear_arith)
        requires 0 <= mag, 0 < len;
    let s = mag * MAX_SPEED / len;
    if m < 0 { -s } else { s }
}

/// Draws a velocity of speed `MAX_SPEED` (up to rounding) in a uniformly
/// random direction: points of the square are drawn until one lands in a
/// ring around the centre, whose direction is then kept.
fn random_velocity(rng: &mut StdRng) -> (r: (i64, i64))
    ensures
        -MAX_SPEED <= r.0 <= MAX_SPEED,
        -MAX_SPEED <= r.1 <= MAX_SPEED,
        r.0 >= 500 || r.0 <= -500 || r.1 >= 500 || r.1 <= -500,
{
    let mut tries: u32 = 0;
    while tries < 64
        decreases 64 - tries,
    {
        let vx = draw_range(rng, -MAX_SPEED, MAX_SPEED + 1);
        let vy = draw_range(rng, -MAX_SPEED, MAX_SPEED + 1);
        assert(0 <= vx * vx <= 1_000_000) by (nonlinear_arith)
            requires -1000 <= vx <= 1000;
        assert(0 <= vy * vy <= 1_000_000) by (nonlinear_arith)
            requires -1000 <= vy <= 1000;
        let r2 = (vx * vx + vy * vy) as u64;
        if 250_000 <= r2 && r2 <= 1_000_000 {
            let len = isqrt(r2);
            assert(len >= 500) by (nonlinear_arith)
                requires r2 < (len + 1) * (len + 1), 250_000 <= r2;
            assert(-(len as int) <= vx <= len) by (nonlinear_arith)
                requires vx * vx + vy * vy == r2, r2 < (len + 1) * (len + 1), 0 <= len;
            assert(-(len as int) <= vy <= len) by (nonlinear_arith)
                requires vx * vx + vy * vy == r2, r2 < (len + 1) * (len + 1), 0 <= len;
            assert(2 * vx >= len || 2 * vx <= -len || 2 * vy >= len || 2 * vy <= -len) by (nonlinear_arith)
                requires vx * vx + vy * vy == r2, len * len <= r2, 0 <= len;
            return (scale_component(vx, len as i64), scale_component(vy, len as i64));
        }
        tries = tries + 1;
    }
    (MAX_SPEED, 0)
}

/// The agents of `s` that are not dead, in order.
pub open spec fn survivors(s: Seq<Agent>) -> Seq<Agent>
    decreases s.len(),
{
    if s.len() == 0 {
        s
    } else if s.last().health == Health::Dead {
        survivors(s.drop_last())
    } else {
        survivors(s.drop_last()).push(s.last())
    }
}

/// How many entries of `s` are `true`.
pub open spec fn count_true(s: Seq<bool>) -> int
    decreases s.len(),
{
    if s.len() == 0 {
        0
    } else {
        count_true(s.drop_last()) + if s.last() { 1int } else { 0int }
    }
}

proof fn lemma_survivors_push(s: Seq<Agent>, a: Agent)
    ensures
        survivors(s.push(a)) == if a.health == Health::Dead { survivors(s) } else { survivors(s).push(a) },
{
    assert(s.push(a).drop_last() =~= s);
}

proof fn lemma_count_true_push(s: Seq<bool>, b: bool)
    ensures
        count_true(s.push(b)) == count_true(s) + if b { 1int } else { 0int },
{
    assert(s.push(b).drop_last() =~= s);
}

proof fn lemma_survivors_keep(s: Seq<Agent>, i: int)
    requires
        0 <= i < s.len(),
        s[i].health != Health::Dead,
    ensures
        survivors(s).to_multiset().count(s[i]) > 0,
    decreases s.len(),
{
    if i < s.len() - 1 {
        assert(s.drop_last()[i] == s[i]);
        lemma_survivors_keep(s.drop_last(), i);
        if s.last().health != Health::Dead {
            assert(survivors(s.drop_last()).push(s.last()).to_multiset() =~= survivors(s.drop_last()).to_multiset().insert(s.last()));
        }
    } else {
        assert(survivors(s.drop_last()).push(s[i]).to_multiset() =~= survivors(s.drop_last()).to_multiset().insert(s[i]));
    }
}

proof fn lemma_survivors_update(s: Seq<Agent>, i: int, a: Agent)
    requires
        0 <= i < s.len(),
        s[i].health != Health::Dead,
        a.health != Health::Dead,
    ensures
        survivors(s.update(i, a)).to_multiset() =~= survivors(s).to_multiset().insert(a).remove(s[i]),
    decreases s.len(),
{
    broadcast use vstd::seq_lib::group_to_multiset_ensures;
    let u = s.update(i, a);
    if i == s.len() - 1 {
        assert(u.drop_last() =~= s.drop_last());
        assert(survivors(u) == survivors(s.drop_last()).push(a));
        assert(survivors(s) == survivors(s.drop_last()).push(s[i]));
        assert(survivors(s.drop_last()).push(a).to_multiset() =~= survivors(s.drop_last()).to_multiset().insert(a));
        assert(survivors(s.drop_last()).push(s[i]).to_multiset() =~= survivors(s.drop_last()).to_multiset().insert(s[i]));
    } else {
        assert(u.drop_last() =~= s.drop_last().update(i, a));
        assert(s.drop_last()[i] == s[i]);
        lemma_survivors_update(s.drop_last(), i, a);
        assert(u.last() == s.last());
        let l = s.last();
        let ms = survivors(s.drop_last()).to_multiset();
        let mu = survivors(u.drop_last()).to_multiset();
        assert(mu =~= ms.insert(a).remove(s[i]));
        if s.last().health == Health::Dead {
            assert(survivors(u) == survivors(u.drop_last()));
            assert(survivors(s) == survivors(s.drop_last()));
        } else {
            assert(survivors(u) == survivors(u.drop_last()).push(s.last()));
            assert(survivors(s) == survivors(s.drop_last()).push(s.last()));
            assert(survivors(u.drop_last()).push(s.last()).to_multiset() =~= survivors(u.drop_last()).to_multiset().insert(s.last()));
            assert(survivors(s.drop_last()).push(s.last()).to_multiset() =~= survivors(s.drop_last()).to_multiset().insert(s.last()));
            assert(survivors(s).to_multiset() =~= ms.insert(l));
            assert(survivors(u).to_multiset() =~= mu.insert(l));
            assert forall|x: Agent| #[trigger] mu.insert(l).count(x) == ms.insert(l).insert(a).remove(s[i]).count(x) by {
                assert(mu.count(x) == ms.insert(a).remove(s[i]).count(x));
                lemma_survivors_keep(s.drop_last(), i);
            }
        }
    }
}

/// Whether any of the agents is infected.
fn has_infected(agents: &Vec<Agent>) -> (r: bool)
    ensures
        r <==> exists|k: int| 0 <= k < agents@.len() && (#[trigger] agents@[k]).health is Infected,
{
    let mut k: usize = 0;
    while k < agents.len()
        invariant
            k <= agents@.len(),
            forall|c: int| 0 <= c < k ==> !((#[trigger] agents@[c]).health is Infected),
        decreases agents@.len() - k,
    {
        if matches!(agents[k].health, Health::Infected(_)) {
            return true;
        }
        k = k + 1;
    }
    false
}

impl Engine {
    pub open spec fn wf(&self) -> bool {
        &&& self.config.valid()
        &&& self.grid.wf()
        &&& self.healthy == self.grid.count(0)
        &&& self.infected == self.grid.count(1)
        &&& self.recovered == self.grid.count(2)
        &&& self.grid.count(any_kind()) + self.dead == self.total
        &&& self.healthy + self.infected + self.recovered + self.dead == self.total
        &&& forall|i: int| 0 <= i < self.history@.len() ==> {
            &&& (#[trigger] self.history@[i]).sum() == self.total
            &&& self.history@[i].time_ms <= self.time_ms
        }
        &&& forall|i: int, j: int|
            0 <= i < j < self.history@.len() ==> (#[trigger] self.history@[i]).time_ms <= (#[trigger] self.history@[j]).time_ms
    }

    /// Builds an engine over a domain of `domain_x` by `domain_y` cells that
    /// holds the given agents. Fails when a side is out of range or an agent
    /// is dead, outside the domain or too fast.
    pub fn from_agents(domain_x: u32, domain_y: u32, agents: &Vec<Agent>) -> (r: Result<Engine, ConfigError>)
        ensures
            r is Ok <==> side_ok(domain_x) && side_ok(domain_y) && forall|i: int|
                0 <= i < agents@.len() ==> agent_ok(#[trigger] agents@[i], domain_x * UNITS_PER_CELL, domain_y * UNITS_PER_CELL),
            r is Err ==> r == Err::<Engine, ConfigError>(ConfigError::OutOfRange),
            r is Ok ==> {
                let e = r->Ok_0;
                &&& e.wf()
                &&& e.grid.domain_x() == domain_x
                &&& e.grid.domain_y() == domain_y
                &&& e.total == agents@.len()
                &&& flat(e.grid.cells@).to_multiset() == agents@.to_multiset()
                &&& e.healthy == tally(agents@, 0)
                &&& e.infected == tally(agents@, 1)
                &&& e.recovered == tally(agents@, 2)
                &&& e.dead == 0
                &&& e.time_ms == 0
                &&& e.history@.len() == 0
                &&& e.config == default_config()
            },
    {
        if domain_x < 1 || domain_x > MAX_DOMAIN || domain_y < 1 || domain_y > MAX_DOMAIN {
            return Err(ConfigError::OutOfRange);
        }
        let max_x = domain_x as i64 * UNITS_PER_CELL;
        let max_y = domain_y as i64 * UNITS_PER_CELL;
        let mut i: usize = 0;
        while i < agents.len()
            invariant
                i <= agents@.len(),
                max_x == domain_x * UNITS_PER_CELL,
                max_y == domain_y * UNITS_PER_CELL,
                forall|c: int| 0 <= c < i ==> agent_ok(#[trigger] agents@[c], max_x as int, max_y as int),
            decreases agents@.len() - i,
        {
            let a = agents[i];
            let ok = 0 <= a.x && a.x <= max_x && 0 <= a.y && a.y <= max_y && -MAX_SPEED <= a.vx
                && a.vx <= MAX_SPEED && -MAX_SPEED <= a.vy && a.vy <= MAX_SPEED
                && !matches!(a.health, Health::Dead);
            if !ok {
                return Err(ConfigError::OutOfRange);
            }
            i = i + 1;
        }
        Ok(Self::build(domain_x, domain_y, agents))
    }

    /// A population of `total` agents of which the first `initial_infected`
    /// are infected, at uniformly random points inside `(1, side)` on each
    /// axis (the whole side when it is one cell), heading in random
    /// directions. Fails when more are infected than there are agents or a
    /// side is out of range.
    /// A freshly seeded agent: healthy or infected for zero milliseconds,
    /// inside the seeding range of each axis, and moving at least half the
    /// top speed along one axis.
    pub open spec fn seeded(a: Agent, domain_x: u32, domain_y: u32) -> bool {
        &&& a.health == Health::Healthy || a.health == Health::Infected(0)
        &&& seed_low(domain_x as int) <= a.x < domain_x * UNITS_PER_CELL
        &&& seed_low(domain_y as int) <= a.y < domain_y * UNITS_PER_CELL
        &&& (a.vx >= 500 || a.vx <= -500 || a.vy >= 500 || a.vy <= -500)
    }

    pub fn initialize(initial_infected: u64, total: u64, domain_x: u32, domain_y: u32, rng: &mut StdRng) -> (r: Result<Engine, ConfigError>)
        ensures
            r is Ok <==> initial_infected <= total && side_ok(domain_x) && side_ok(domain_y),
            r is Err ==> r == Err::<Engine, ConfigError>(ConfigError::OutOfRange),
            r is Ok ==> {
                let e = r->Ok_0;
                &&& e.wf()
                &&& e.grid.domain_x() == domain_x
                &&& e.grid.domain_y() == domain_y
                &&& e.total == total
                &&& e.healthy == total - initial_infected
                &&& e.infected == initial_infected
                &&& forall|k: int| 0 <= k < flat(e.grid.cells@).len() ==> Self::seeded(#[trigger] flat(e.grid.cells@)[k], domain_x, domain_y)
                &&& e.recovered == 0
                &&& e.dead == 0
                &&& e.time_ms == 0
                &&& e.history@.len() == 0
                &&& e.config == default_config()
            },
    {
        if initial_infected > total || domain_x < 1 || domain_x > MAX_DOMAIN || domain_y < 1 || domain_y > MAX_DOMAIN {
            return Err(ConfigError::OutOfRange);
        }
        let max_x = domain_x as i64 * UNITS_PER_CELL;
        let max_y = domain_y as i64 * UNITS_PER_CELL;
        let low_x: i64 = if domain_x >= 2 { UNITS_PER_CELL } else { 0 };
        let low_y: i64 = if domain_y >= 2 { UNITS_PER_CELL } else { 0 };
        let mut agents: Vec<Agent> = Vec::new();
        let mut i: u64 = 0;
        while i < total
            invariant
                i <= total,
                initial_infected <= total,
                agents@.len() == i,
                max_x == domain_x * UNITS_PER_CELL,
                max_y == domain_y * UNITS_PER_CELL,
                0 <= low_x < max_x,
                0 <= low_y < max_y,
                forall|c: int| 0 <= c < agents@.len() ==> agent_ok(#[trigger] agents@[c], max_x as int, max_y as int),
                tally(agents@, 1) == if i <= initial_infected { i as int } else { initial_infected as int },
                tally(agents@, 0) == if i <= initial_infected { 0 } else { i - initial_infected },
                tally(agents@, 2) == 0,
                low_x == seed_low(domain_x as int),
                low_y == seed_low(domain_y as int),
                forall|c: int| 0 <= c < agents@.len() ==> Self::seeded(#[trigger] agents@[c], domain_x, domain_y),
            decreases total - i,
        {
            let x = draw_range(rng, low_x, max_x);
            let y = draw_range(rng, low_y, max_y);
            let (vx, vy) = random_velocity(rng);
            let health = if i < initial_infected { Health::Infected(0) } else { Health::Healthy };
            let a = Agent { x, y, vx, vy, health };
            proof {
                lemma_tally_push(agents@, a, 0);
                lemma_tally_push(agents@, a, 1);
                lemma_tally_push(agents@, a, 2);
            }
            agents.push(a);
            i = i + 1;
        }
        let e = Self::build(domain_x, domain_y, &agents);
        proof {
            assert forall|k: int| 0 <= k < flat(e.grid.cells@).len() implies Self::seeded(
                #[trigger] flat(e.grid.cells@)[k],
                domain_x,
                domain_y,
            ) by {
                let a = flat(e.grid.cells@)[k];
                assert(flat(e.grid.cells@).contains(a));
                assert(flat(e.grid.cells@).to_multiset().count(a) > 0);
                assert(agents@.contains(a));
            }
        }
        Ok(e)
    }

    /// Replaces the configuration between ticks. A probability above one or
    /// a zero infection duration is rejected and nothing changes.
    pub fn set_config(&mut self, config: Config) -> (r: Result<(), ConfigError>)
        requires
            old(self).wf(),
        ensures
            final(self).wf(),
            r is Ok <==> config.valid(),
            r is Err ==> r == Err::<(), ConfigError>(ConfigError::OutOfRange),
            final(self).config == if config.valid() { config } else { old(self).config },
            final(self).grid == old(self).grid,
            final(self).total == old(self).total,
            final(self).healthy == old(self).healthy,
            final(self).infected == old(self).infected,
            final(self).recovered == old(self).recovered,
            final(self).dead == old(self).dead,
            final(self).time_ms == old(self).time_ms,
            final(self).history@ == old(self).history@,
    {
        if !config.is_valid() {
            return Err(ConfigError::OutOfRange);
        }
        self.config = config;
        Ok(())
    }

    /// The counts of healthy, infected, recovered and dead agents.
    pub fn current_counts(&self) -> (r: (u64, u64, u64, u64))
        ensures
            r == (self.healthy, self.infected, self.recovered, self.dead),
    {
        (self.healthy, self.infected, self.recovered, self.dead)
    }

    /// The snapshots recorded so far, oldest first.
    pub fn snapshot_history(&self) -> (r: &Vec<Snapshot>)
        ensures
            r@ == self.history@,
    {
        &self.history
    }

    /// Every living agent, cell after cell.
    pub fn agents_view(&self) -> (r: Vec<Agent>)
        ensures
            r@ == flat(self.grid.cells@),
    {
        self.grid.all_agents()
    }

    pub fn config(&self) -> (r: Config)
        ensures
            r == self.config,
    {
        self.config
    }

    /// The size of the population, the dead included.
    pub fn total(&self) -> (r: u64)
        ensures
            r == self.total,
    {
        self.total
    }

    /// Simulated milliseconds since the start.
    pub fn time_ms(&self) -> (r: u64)
        ensures
            r == self.time_ms,
    {
        self.time_ms
    }

    /// The grid of living agents.
    pub fn grid(&self) -> (r: &SpatialGrid)
        ensures
            *r == self.grid,
    {
        &self.grid
    }

    /// Places agents that are known to fit into a fresh grid.
    fn build(domain_x: u32, domain_y: u32, agents: &Vec<Agent>) -> (e: Engine)
        requires
            side_ok(domain_x),
            side_ok(domain_y),
            forall|i: int|
                0 <= i < agents@.len() ==> agent_ok(#[trigger] agents@[i], domain_x * UNITS_PER_CELL, domain_y * UNITS_PER_CELL),
        ensures
            e.wf(),
            e.grid.domain_x() == domain_x,
            e.grid.domain_y() == domain_y,
            e.total == agents@.len(),
            flat(e.grid.cells@).to_multiset() == agents@.to_multiset(),
            e.healthy == tally(agents@, 0),
            e.infected == tally(agents@, 1),
            e.recovered == tally(agents@, 2),
            e.dead == 0,
            e.time_ms == 0,
            e.history@.len() == 0,
            e.config == default_config(),
    {
        let mut grid = SpatialGrid::new(domain_x, domain_y);
        let mut i: usize = 0;
        assert(agents@.take(0) =~= Seq::<Agent>::empty());
        proof {
            lemma_grid_ms_empty(grid.cells@);
        }
        while i < agents.len()
            invariant
                i <= agents@.len(),
                grid.wf(),
                grid.domain_x() == domain_x,
                grid.domain_y() == domain_y,
                grid.max_x == domain_x * UNITS_PER_CELL,
                grid.max_y == domain_y * UNITS_PER_CELL,
                forall|c: int|
                    0 <= c < agents@.len() ==> agent_ok(#[trigger] agents@[c], domain_x * UNITS_PER_CELL, domain_y * UNITS_PER_CELL),
                forall|k: nat| #[trigger] grid.count(k) == tally(agents@.take(i as int), k),
                grid_ms(grid.cells@) =~= agents@.take(i as int).to_multiset(),
            decreases agents@.len() - i,
        {
            let a = agents[i];
            grid.relocate(a);
            proof {
                assert(agents@.take(i + 1) =~= agents@.take(i as int).push(a));
                assert forall|k: nat| #[trigger] grid.count(k) == tally(agents@.take(i + 1), k) by {
                    lemma_tally_take(agents@, i as int, k);
                }
            }
            i = i + 1;
        }
        assert(agents@.take(i as int) =~= agents@);
        proof {
            lemma_flat_ms(grid.cells@);
            lemma_tally_bounds(agents@, any_kind());
        }
        let (healthy, infected, recovered) = grid.census_counts();
        Engine {
            config: Config::default(),
            grid,
            total: agents.len() as u64,
            healthy,
            infected,
            recovered,
            dead: 0,
            time_ms: 0,
            history: Vec::new(),
        }
    }

    /// The agents before a tick, cell after cell.
    pub open spec fn olds(&self) -> Seq<Agent> {
        flat(self.grid.cells@)
    }

    /// Agent `k` after moving and ageing for `frame` milliseconds, with
    /// death draw `died`.
    pub open spec fn moved(&self, k: int, frame: int, died: bool) -> Agent {
        advanced(
            self.olds()[k],
            frame,
            self.grid.max_x as int,
            self.grid.max_y as int,
            self.config.infection_duration_ms as int,
            died,
        )
    }

    /// Agent `k` survived its move and is still in the cell it started in.
    pub open spec fn stays_home(&self, k: int, frame: int, died: bool) -> bool {
        let b = self.moved(k, frame, died);
        b.health != Health::Dead && cell_index(b, self.grid.cols as int) == cell_index(self.olds()[k], self.grid.cols as int)
    }

    /// A death draw can only kill an infected agent, and never when the
    /// frame's death chance is zero.
    pub open spec fn death_draw_ok(&self, k: int, frame: int, died: bool) -> bool {
        &&& died ==> self.olds()[k].health is Infected
        &&& frame_chance(self.config.death_ppm as int, frame, self.config.infection_duration_ms as int) == 0 ==> !died
    }

    /// Agent `k` was healthy and stayed in its cell, where agent `k2` also
    /// stayed and was infected after moving: `k` was exposed to `k2`.
    pub open spec fn exposed_to(&self, k: int, frame: int, died_k: bool, k2: int, died_k2: bool) -> bool {
        &&& self.olds()[k].health == Health::Healthy
        &&& self.stays_home(k, frame, died_k)
        &&& 0 <= k2 < self.olds().len()
        &&& cell_index(self.olds()[k2], self.grid.cols as int) == cell_index(self.olds()[k], self.grid.cols as int)
        &&& self.stays_home(k2, frame, died_k2)
        &&& self.moved(k2, frame, died_k2).health is Infected
    }

    /// Outcomes of the draws of one tick, one death draw and one infection
    /// draw per agent, that the rules allow.
    pub open spec fn draws_fit(&self, frame: int, died: Seq<bool>, caught: Seq<bool>) -> bool {
        &&& died.len() == self.olds().len()
        &&& caught.len() == self.olds().len()
        &&& forall|k: int| 0 <= k < died.len() ==> self.death_draw_ok(k, frame, #[trigger] died[k])
        &&& forall|k: int| 0 <= k < caught.len() && #[trigger] caught[k] ==> {
            &&& frame_chance(self.config.infection_ppm as int, frame, CONTACT_TIME_MS as int) != 0
            &&& exists|k2: int| 0 <= k2 < died.len() && #[trigger] self.exposed_to(k, frame, died[k], k2, died[k2])
        }
    }

    /// Agent `k` is stored in cell `c` before the tick.
    pub open spec fn in_cell(&self, c: int, k: int) -> bool {
        &&& 0 <= c < self.grid.cells@.len()
        &&& flat(self.grid.cells@.take(c)).len() <= k < flat(self.grid.cells@.take(c + 1)).len()
    }

    /// With a certain infection chance, a healthy agent that stays in its
    /// cell is infected whenever an infected agent of that cell stays too.
    pub open spec fn certain_exposure(&self, frame: int, died: Seq<bool>, caught: Seq<bool>) -> bool {
        frame_chance(self.config.infection_ppm as int, frame, CONTACT_TIME_MS as int) == PPM ==> forall|c: int, k: int, k2: int|
            #![trigger self.in_cell(c, k), self.in_cell(c, k2), self.exposed_to(k, frame, died[k], k2, died[k2])]
            self.in_cell(c, k) && self.in_cell(c, k2) && self.exposed_to(k, frame, died[k], k2, died[k2]) ==> caught[k]
    }

    /// What each agent becomes in a tick with the given draws; the dead among
    /// them leave the grid.
    pub open spec fn successors(&self, frame: int, died: Seq<bool>, caught: Seq<bool>) -> Seq<Agent> {
        Seq::new(self.olds().len(), |k: int| exposed(self.moved(k, frame, died[k]), caught[k]))
    }

    /// The frame time of a tick: real milliseconds times the time scale,
    /// saturating at the largest `u64`.
    pub open spec fn frame_of(real_elapsed_ms: u64, scale: u32) -> int {
        if real_elapsed_ms * scale > u64::MAX { u64::MAX as int } else { real_elapsed_ms * scale }
    }

    /// Advances the simulation by `real_elapsed_ms` real milliseconds, scaled
    /// by the configured time scale, and records one snapshot.
    ///
    /// Every agent moves and reflects at the walls; an infected agent dies
    /// with the frame's death chance, else its infection ages and may end in
    /// recovery. Then, in every cell that still holds an infected agent among
    /// those that stayed in it, each healthy agent there is infected with the
    /// frame's infection chance. Agents that left their cell are stored in
    /// their new one after all cells are done; the dead are dropped from the
    /// grid and only counted. With no agents at all, a tick does nothing.
    ///
    /// Whatever the random draws return, there are one death draw and one
    /// infection draw per agent that fit the rules (`draws_fit`,
    /// `certain_exposure`) such that the grid afterwards holds exactly the
    /// living `successors` of the agents before, and the dead count grows by
    /// the number of deaths drawn.
    #[verifier::rlimit(100)]
    pub fn tick(&mut self, real_elapsed_ms: u64, rng: &mut StdRng)
        requires
            old(self).wf(),
        ensures
            final(self).wf(),
            final(self).total == old(self).total,
            final(self).healthy + final(self).infected + final(self).recovered + final(self).dead == old(self).total,
            final(self).config == old(self).config,
            final(self).grid.cols == old(self).grid.cols,
            final(self).grid.rows == old(self).grid.rows,
            old(self).total == 0 ==> *final(self) == *old(self),
            old(self).total > 0 ==> {
                &&& final(self).time_ms == if old(self).time_ms + Self::frame_of(real_elapsed_ms, old(self).config.time_scale) > u64::MAX {
                    u64::MAX as int
                } else {
                    old(self).time_ms + Self::frame_of(real_elapsed_ms, old(self).config.time_scale)
                }
                &&& exists|died: Seq<bool>, caught: Seq<bool>| {
                    &&& #[trigger] old(self).draws_fit(Self::frame_of(real_elapsed_ms, old(self).config.time_scale), died, caught)
                    &&& old(self).certain_exposure(Self::frame_of(real_elapsed_ms, old(self).config.time_scale), died, caught)
                    &&& flat(final(self).grid.cells@).to_multiset() == survivors(
                        old(self).successors(Self::frame_of(real_elapsed_ms, old(self).config.time_scale), died, caught),
                    ).to_multiset()
                    &&& final(self).dead == old(self).dead + count_true(died)
                }
                &&& final(self).history@ == old(self).history@.push(Snapshot {
                    time_ms: final(self).time_ms,
                    healthy: final(self).healthy,
                    infected: final(self).infected,
                    recovered: final(self).recovered,
                    dead: final(self).dead,
                })
            },
            old(self).dead <= final(self).dead,
            old(self).config.death_ppm == 0 ==> final(self).dead == old(self).dead,
            final(self).healthy <= old(self).healthy,
            old(self).recovered <= final(self).recovered,
            old(self).config.infection_ppm == 0 ==> final(self).healthy == old(self).healthy,
            old(self).total > 0 && old(self).infected == 0 ==> {
                &&& final(self).healthy == old(self).healthy
                &&& final(self).infected == 0
                &&& final(self).recovered == old(self).recovered
                &&& final(self).dead == old(self).dead
            },
            old(self).total > 0 && old(self).config.death_ppm == PPM && Self::frame_of(real_elapsed_ms, old(self).config.time_scale)
                >= old(self).config.infection_duration_ms ==> {
                &&& final(self).infected == 0
                &&& final(self).dead == old(self).dead + old(self).infected
            },
    {
        if self.total == 0 {
            return;
        }
        let scale = self.config.time_scale as u64;
        let frame: u64 = if scale != 0 && real_elapsed_ms > u64::MAX / scale {
            assert(real_elapsed_ms * scale > u64::MAX) by (nonlinear_arith)
                requires scale > 0, real_elapsed_ms > u64::MAX / scale;
            u64::MAX
        } else {
            assert(real_elapsed_ms * scale <= u64::MAX) by (nonlinear_arith)
                requires scale == 0 || real_elapsed_ms <= u64::MAX / scale;
            real_elapsed_ms * scale
        };
        assert(frame == Self::frame_of(real_elapsed_ms, self.config.time_scale));
        let p_die = frame_probability(self.config.death_ppm, frame, self.config.infection_duration_ms);
        let p_inf = frame_probability(self.config.infection_ppm, frame, CONTACT_TIME_MS);
        let duration = self.config.infection_duration_ms;
        let max_x = self.grid.max_x();
        let max_y = self.grid.max_y();
        let ghost old_cells = self.grid.cells@;
        let mut next = SpatialGrid::new((self.grid.cols - 1) as u32, (self.grid.rows - 1) as u32);
        let mut pending: Vec<Agent> = Vec::new();
        let mut died: u64 = 0;
        let n = self.grid.num_cells();
        let mut i: usize = 0;
        let ghost olds = flat(old_cells);
        let ghost nobody = self.infected == 0;
        let ghost mut died_s: Seq<bool> = Seq::empty();
        let ghost mut caught_s: Seq<bool> = Seq::empty();
        let ghost mut out: Seq<Agent> = Seq::empty();
        let ghost mut wit: Seq<int> = Seq::empty();
        proof {
            broadcast use vstd::seq_lib::group_to_multiset_ensures;
            lemma_grid_ms_empty(next.cells@);
            assert(flat(old_cells.take(0)) =~= Seq::<Agent>::empty());
            lemma_census_empty(next.cells@, any_kind());
            lemma_census_empty(next.cells@, 0);
            lemma_census_empty(next.cells@, 2);
            lemma_census_empty(next.cells@, 1);
            assert(old_cells.take(0) =~= Seq::<Vec<Agent>>::empty());
        }
        while i < n
            invariant
                self.wf(),
                self.grid.cells@ == old_cells,
                n == old_cells.len(),
                i <= n,
                max_x == self.grid.max_x,
                max_y == self.grid.max_y,
                next.wf(),
                next.cols == self.grid.cols,
                next.rows == self.grid.rows,
                next.max_x == max_x,
                next.max_y == max_y,
                forall|c: int| i <= c < n ==> (#[trigger] next.cells@[c])@.len() == 0,
                forall|c: int| 0 <= c < pending@.len() ==> agent_ok(#[trigger] pending@[c], max_x as int, max_y as int),
                census(next.cells@, any_kind()) + pending@.len() + died == census(old_cells.take(i as int), any_kind()),
                p_die <= PPM,
                p_inf <= PPM,
                self.config.death_ppm == 0 ==> p_die == 0,
                self.config.infection_ppm == 0 ==> p_inf == 0,
                p_die == 0 ==> died == 0,
                census(next.cells@, 0) + tally(pending@, 0) <= census(old_cells.take(i as int), 0),
                p_inf == 0 || nobody ==> census(next.cells@, 0) + tally(pending@, 0) == census(old_cells.take(i as int), 0),
                census(next.cells@, 2) + tally(pending@, 2) >= census(old_cells.take(i as int), 2),
                nobody == (self.infected == 0),
                nobody ==> census(next.cells@, 2) + tally(pending@, 2) == census(old_cells.take(i as int), 2),
                nobody ==> census(next.cells@, 1) == 0 && tally(pending@, 1) == 0 && died == 0,
                self.config.death_ppm == PPM && frame >= self.config.infection_duration_ms ==> p_die == PPM,
                p_die == PPM ==> census(next.cells@, 1) + tally(pending@, 1) == 0,
                p_die == PPM ==> census(next.cells@, 1) >= 0 && tally(pending@, 1) >= 0,
                p_die == PPM ==> died == census(old_cells.take(i as int), 1),
                olds == self.olds(),
                p_die == frame_chance(self.config.death_ppm as int, frame as int, self.config.infection_duration_ms as int),
                p_inf == frame_chance(self.config.infection_ppm as int, frame as int, CONTACT_TIME_MS as int),
                duration == self.config.infection_duration_ms,
                died_s.len() == flat(old_cells.take(i as int)).len(),
                caught_s.len() == died_s.len(),
                out.len() == died_s.len(),
                wit.len() == died_s.len(),
                forall|k: int| 0 <= k < out.len() ==> #[trigger] out[k] == exposed(self.moved(k, frame as int, died_s[k]), caught_s[k]),
                forall|k: int| 0 <= k < died_s.len() ==> self.death_draw_ok(k, frame as int, #[trigger] died_s[k]),
                forall|k: int| 0 <= k < caught_s.len() && #[trigger] caught_s[k] ==> {
                    &&& p_inf != 0
                    &&& 0 <= wit[k] < died_s.len()
                    &&& self.exposed_to(k, frame as int, died_s[k], wit[k], died_s[wit[k]])
                },
                grid_ms(next.cells@).add(pending@.to_multiset()) =~= survivors(out).to_multiset(),
                count_true(died_s) == died,
                p_inf == PPM ==> forall|c: int, k: int, k2: int|
                    #![trigger self.in_cell(c, k), self.in_cell(c, k2), self.exposed_to(k, frame as int, died_s[k], k2, died_s[k2])]
                    0 <= c < i && self.in_cell(c, k) && self.in_cell(c, k2) && self.exposed_to(k, frame as int, died_s[k], k2, died_s[k2])
                        ==> caught_s[k],
            decreases n - i,
        {
            let bucket = self.grid.cell(i);
            let mut stays: Vec<Agent> = Vec::new();
            let mut j: usize = 0;
            let ghost pending0 = pending@;
            let ghost base = flat(old_cells.take(i as int)).len() as int;
            let ghost mut stay_idx: Seq<int> = Seq::empty();
            let ghost mut pos: Seq<int> = Seq::empty();
            proof {
                lemma_flat_take(old_cells, i as int);
                lemma_flat_prefix(old_cells, i as int + 1);
                assert forall|jj: int| 0 <= jj < bucket@.len() implies base + jj < olds.len() && #[trigger] olds[base + jj] == bucket@[jj] by {
                    lemma_flat_index(old_cells, i as int, jj);
                }
                lemma_census_take(old_cells, i as int, any_kind());
                lemma_census_take(old_cells, i as int, 0);
                lemma_census_take(old_cells, i as int, 2);
                lemma_census_take(old_cells, i as int, 1);
                lemma_census_prefix(old_cells, i as int + 1);
                lemma_tally_bounds(bucket@, any_kind());
                lemma_census_nonneg(next.cells@);
                assert(bucket@.take(0) =~= Seq::<Agent>::empty());
                assert forall|c: int, k: int| 0 <= c < i && self.in_cell(c, k) implies k < base by {
                    lemma_flat_len_mono(old_cells, c + 1, i as int);
                }
            }
            while j < bucket.len()
                invariant
                    self.wf(),
                    self.grid.cells@ == old_cells,
                    i < n,
                    n == old_cells.len(),
                    *bucket == old_cells[i as int],
                    j <= bucket@.len(),
                    max_x == self.grid.max_x,
                    max_y == self.grid.max_y,
                    forall|c: int| 0 <= c < pending@.len() ==> agent_ok(#[trigger] pending@[c], max_x as int, max_y as int),
                    forall|c: int| 0 <= c < stays@.len() ==> {
                        &&& agent_ok(#[trigger] stays@[c], max_x as int, max_y as int)
                        &&& crate::grid::cell_index(stays@[c], self.grid.cols as int) == i
                    },
                    census(next.cells@, any_kind()) >= 0,
                    census(next.cells@, any_kind()) + pending@.len() + stays@.len() + died
                        == census(old_cells.take(i as int), any_kind()) + j,
                    census(old_cells.take(i as int), any_kind()) + bucket@.len() <= census(old_cells, any_kind()),
                    census(old_cells, any_kind()) <= self.total,
                    p_die <= PPM,
                    p_die == 0 ==> died == 0,
                    pending0.len() <= pending@.len(),
                    pending@.take(pending0.len() as int) == pending0,
                    tally(stays@, 0) + tally(pending@, 0) == tally(pending0, 0) + tally(bucket@.take(j as int), 0),
                    tally(stays@, 2) + tally(pending@, 2) >= tally(pending0, 2) + tally(bucket@.take(j as int), 2),
                    p_die == PPM ==> tally(stays@, 1) == 0 && tally(pending@, 1) == 0,
                    nobody == (self.infected == 0),
                    nobody ==> tally(stays@, 2) + tally(pending@, 2) == tally(pending0, 2) + tally(bucket@.take(j as int), 2),
                    nobody ==> tally(stays@, 1) == 0 && tally(pending@, 1) == 0 && died == 0,
                    nobody ==> census(next.cells@, 1) == 0,
                    p_die == PPM ==> died == census(old_cells.take(i as int), 1) + tally(bucket@.take(j as int), 1),
                    olds == self.olds(),
                    p_die == frame_chance(self.config.death_ppm as int, frame as int, self.config.infection_duration_ms as int),
                    p_inf == frame_chance(self.config.infection_ppm as int, frame as int, CONTACT_TIME_MS as int),
                    duration == self.config.infection_duration_ms,
                    base + bucket@.len() == flat(old_cells.take(i + 1)).len(),
                    flat(old_cells.take(i + 1)).len() <= olds.len(),
                    forall|jj: int| 0 <= jj < bucket@.len() ==> #[trigger] olds[base + jj] == bucket@[jj],
                    died_s.len() == base + j,
                    caught_s.len() == died_s.len(),
                    out.len() == died_s.len(),
                    wit.len() == died_s.len(),
                    forall|k: int| 0 <= k < out.len() ==> #[trigger] out[k] == exposed(self.moved(k, frame as int, died_s[k]), caught_s[k]),
                    forall|k: int| 0 <= k < died_s.len() ==> self.death_draw_ok(k, frame as int, #[trigger] died_s[k]),
                    forall|k: int| 0 <= k < caught_s.len() && #[trigger] caught_s[k] ==> {
                        &&& p_inf != 0
                        &&& 0 <= wit[k] < died_s.len()
                        &&& self.exposed_to(k, frame as int, died_s[k], wit[k], died_s[wit[k]])
                    },
                    stay_idx.len() == stays@.len(),
                    forall|m: int| 0 <= m < stay_idx.len() ==> {
                        &&& base <= #[trigger] stay_idx[m] < died_s.len()
                        &&& stays@[m] == out[stay_idx[m]]
                        &&& !caught_s[stay_idx[m]]
                        &&& self.stays_home(stay_idx[m], frame as int, died_s[stay_idx[m]])
                    },
                    forall|m1: int, m2: int| 0 <= m1 < m2 < stay_idx.len() ==> #[trigger] stay_idx[m1] < #[trigger] stay_idx[m2],
                    grid_ms(next.cells@).add(pending@.to_multiset()).add(stays@.to_multiset()) =~= survivors(out).to_multiset(),
                    count_true(died_s) == died,
                    pos.len() == j,
                    forall|jj: int| 0 <= jj < j && self.stays_home(base + jj, frame as int, died_s[base + jj])
                        ==> 0 <= #[trigger] pos[jj] < stay_idx.len() && stay_idx[pos[jj]] == base + jj,
                    forall|c: int, k: int| 0 <= c < i && self.in_cell(c, k) ==> k < base,
                    base == flat(old_cells.take(i as int)).len(),
                    p_inf == PPM ==> forall|c: int, k: int, k2: int|
                        #![trigger self.in_cell(c, k), self.in_cell(c, k2), self.exposed_to(k, frame as int, died_s[k], k2, died_s[k2])]
                        0 <= c < i && self.in_cell(c, k) && self.in_cell(c, k2) && self.exposed_to(k, frame as int, died_s[k], k2, died_s[k2])
                            ==> caught_s[k],
                decreases bucket@.len() - j,
            {
                let a = bucket[j];
                assert(agent_ok(old_cells[i as int]@[j as int], max_x as int, max_y as int));
                proof {
                    if nobody {
                        lemma_census_zero(old_cells, 1, i as int, j as int);
                    }
                }
                let died_now = match a.health {
                    Health::Infected(_) => draw_ratio(rng, p_die, PPM),
                    _ => false,
                };
                let b = a.advance(frame, max_x, max_y, duration, died_now);
                let ghost k_now = base + j;
                proof {
                    broadcast use vstd::seq_lib::group_to_multiset_ensures;
                    assert(olds[k_now] == a);
                    assert(b == self.moved(k_now, frame as int, died_now));
                    lemma_survivors_push(out, b);
                    lemma_count_true_push(died_s, died_now);
                    died_s = died_s.push(died_now);
                    caught_s = caught_s.push(false);
                    out = out.push(b);
                    wit = wit.push(0);
                    lemma_tally_take(bucket@, j as int, 0);
                    lemma_tally_take(bucket@, j as int, 2);
                    lemma_tally_take(bucket@, j as int, 1);
                }
                match b.health {
                    Health::Dead => {
                        died = died + 1;
                        proof { pos = pos.push(0); }
                    },
                    _ => {
                        let idx = self.grid.index_of(&b);
                        if idx == i {
                            proof {
                                pos = pos.push(stay_idx.len() as int);
                                stay_idx = stay_idx.push(k_now);
                                lemma_tally_push(stays@, b, 0);
                                lemma_tally_push(stays@, b, 2);
                                lemma_tally_push(stays@, b, 1);
                            }
                            stays.push(b);
                        } else {
                            proof {
                                lemma_tally_push(pending@, b, 0);
                                lemma_tally_push(pending@, b, 2);
                                lemma_tally_push(pending@, b, 1);
                                assert(pending@.push(b).take(pending0.len() as int) =~= pending@.take(pending0.len() as int));
                            }
                            proof { pos = pos.push(0); }
                            pending.push(b);
                        }
                    },
                }
                j = j + 1;
            }
            assert(bucket@.take(j as int) =~= bucket@);
            let any_infected = has_infected(&stays);
            proof {
                if (p_die == PPM || nobody) && any_infected {
                    let w = choose|w: int| 0 <= w < stays@.len() && (#[trigger] stays@[w]).health is Infected;
                    lemma_tally_zero(stays@, 1, w);
                }
            }
            let ghost stays_pre = stays@;
            proof {
                assert forall|m: int| 0 <= m < stays_pre.len() implies #[trigger] stays_pre[m] == self.moved(
                    stay_idx[m],
                    frame as int,
                    died_s[stay_idx[m]],
                ) by {
                    assert(out[stay_idx[m]] == exposed(self.moved(stay_idx[m], frame as int, died_s[stay_idx[m]]), caught_s[stay_idx[m]]));
                }
            }
            let ghost w0: int = 0;
            proof {
                if any_infected {
                    w0 = choose|w: int| 0 <= w < stays@.len() && (#[trigger] stays@[w]).health is Infected;
                }
            }
            if any_infected {
                let ghost stays0 = stays@;
                let ghost kw = stay_idx[w0];
                let mut k: usize = 0;
                while k < stays.len()
                    invariant
                        k <= stays@.len(),
                        stays@.len() == stays0.len(),
                        p_inf <= PPM,
                        p_inf == 0 ==> stays@ == stays0,
                        tally(stays@, 0) <= tally(stays0, 0),
                        tally(stays@, 2) == tally(stays0, 2),
                        olds == self.olds(),
                        p_inf == frame_chance(self.config.infection_ppm as int, frame as int, CONTACT_TIME_MS as int),
                        forall|jj: int| 0 <= jj < bucket@.len() ==> #[trigger] olds[base + jj] == bucket@[jj],
                        *bucket == old_cells[i as int],
                        self.grid.cells@ == old_cells,
                        self.wf(),
                        i < n,
                        died_s.len() == base + bucket@.len(),
                        died_s.len() <= olds.len(),
                        0 <= base,
                        caught_s.len() == died_s.len(),
                        out.len() == died_s.len(),
                        wit.len() == died_s.len(),
                        forall|k: int| 0 <= k < out.len() ==> #[trigger] out[k] == exposed(self.moved(k, frame as int, died_s[k]), caught_s[k]),
                        forall|k: int| 0 <= k < caught_s.len() && #[trigger] caught_s[k] ==> {
                            &&& p_inf != 0
                            &&& 0 <= wit[k] < died_s.len()
                            &&& self.exposed_to(k, frame as int, died_s[k], wit[k], died_s[wit[k]])
                        },
                        stay_idx.len() == stays@.len(),
                        forall|m: int| 0 <= m < stay_idx.len() ==> base <= #[trigger] stay_idx[m] && stay_idx[m] < died_s.len(),
                        forall|m: int| 0 <= m < stay_idx.len() ==> stays@[m] == out[#[trigger] stay_idx[m]],
                        forall|m: int| 0 <= m < stay_idx.len() ==> self.stays_home(#[trigger] stay_idx[m], frame as int, died_s[stay_idx[m]]),
                        forall|m: int| k <= m < stay_idx.len() ==> !caught_s[#[trigger] stay_idx[m]] && stays@[m] == stays0[m],
                        forall|m1: int, m2: int| 0 <= m1 < m2 < stay_idx.len() ==> #[trigger] stay_idx[m1] < #[trigger] stay_idx[m2],
                        0 <= w0 < stays@.len(),
                        kw == stay_idx[w0],
                        base <= kw < died_s.len(),
                        self.stays_home(kw, frame as int, died_s[kw]),
                        self.moved(kw, frame as int, died_s[kw]).health is Infected,
                        grid_ms(next.cells@).add(pending@.to_multiset()).add(stays@.to_multiset()) =~= survivors(out).to_multiset(),
                        forall|c: int, k: int| 0 <= c < i && self.in_cell(c, k) ==> k < base,
                        p_inf == PPM ==> forall|c: int, k: int, k2: int|
                            #![trigger self.in_cell(c, k), self.in_cell(c, k2), self.exposed_to(k, frame as int, died_s[k], k2, died_s[k2])]
                            0 <= c < i && self.in_cell(c, k) && self.in_cell(c, k2) && self.exposed_to(k, frame as int, died_s[k], k2, died_s[k2])
                                ==> caught_s[k],
                        forall|m: int| 0 <= m < k && p_inf == PPM && (#[trigger] stays0[m]).health == Health::Healthy ==> caught_s[stay_idx[m]],
                        forall|c: int| 0 <= c < stays@.len() ==> {
                            &&& agent_ok(#[trigger] stays@[c], max_x as int, max_y as int)
                            &&& crate::grid::cell_index(stays@[c], self.grid.cols as int) == i
                        },
                    decreases stays@.len() - k,
                {
                    let a = stays[k];
                    if matches!(a.health, Health::Healthy) {
                        let caught = draw_ratio(rng, p_inf, PPM);
                        let b = a.expose(caught);
                        let ghost idx = stay_idx[k as int];
                        proof {
                            assert(base <= idx && idx < died_s.len());

                            broadcast use vstd::seq_lib::group_to_multiset_ensures;
                            assert(out[idx] == stays@[k as int]);
                            assert(!caught_s[idx]);
                            assert(out[idx] == exposed(self.moved(idx, frame as int, died_s[idx]), caught_s[idx]));
                            assert(exposed(self.moved(idx, frame as int, died_s[idx]), false) == self.moved(idx, frame as int, died_s[idx]));
                            assert(out[idx] == self.moved(idx, frame as int, died_s[idx]));
                            assert(olds[base + (idx - base)] == bucket@[idx - base]);
                            assert(olds[idx] == bucket@[idx - base]);
                            assert(olds[base + (kw - base)] == bucket@[kw - base]);
                            assert(olds[kw] == bucket@[kw - base]);
                            assert(old_cells[i as int]@[idx - base] == bucket@[idx - base]);
                            assert(old_cells[i as int]@[kw - base] == bucket@[kw - base]);
                            assert(cell_index(olds[idx], self.grid.cols as int) == i);
                            assert(cell_index(olds[kw], self.grid.cols as int) == i);
                            assert(olds[idx].health == Health::Healthy);
                            lemma_survivors_update(out, idx, b);
                            out = out.update(idx, b);
                            caught_s = caught_s.update(idx, caught);
                            wit = wit.update(idx, kw);
                            assert(self.exposed_to(idx, frame as int, died_s[idx], kw, died_s[kw]) || !caught);
                            if p_inf == 0 {
                                assert(stays@.update(k as int, b) =~= stays@);
                            }
                            lemma_tally_update(stays@, k as int, b, 0);
                            lemma_tally_update(stays@, k as int, b, 2);
                            assert forall|m: int| 0 <= m < k && p_inf == PPM && (#[trigger] stays0[m]).health == Health::Healthy implies caught_s[stay_idx[m]] by {
                                assert(stay_idx[m] < stay_idx[k as int]);
                            }
                        }
                        stays.set(k, b);
                    }
                    k = k + 1;
                }
                assert(stays0 == stays_pre);
            }
            proof {
                assert forall|k: int, k2: int|
                    #![trigger self.in_cell(i as int, k), self.in_cell(i as int, k2), self.exposed_to(k, frame as int, died_s[k], k2, died_s[k2])]
                    p_inf == PPM && self.in_cell(i as int, k) && self.in_cell(i as int, k2) && self.exposed_to(
                        k,
                        frame as int,
                        died_s[k],
                        k2,
                        died_s[k2],
                    ) implies caught_s[k] by {
                    let m2 = pos[k2 - base];
                    let m = pos[k - base];
                    assert(self.stays_home(base + (k2 - base), frame as int, died_s[base + (k2 - base)]));
                    assert(self.stays_home(base + (k - base), frame as int, died_s[base + (k - base)]));
                    assert(stay_idx[m2] == k2);
                    assert(stay_idx[m] == k);
                    assert(stays_pre[m2].health is Infected);
                    assert(any_infected);
                    assert(stays_pre[m].health == Health::Healthy);
                }
                lemma_grid_ms_update(next.cells@, i as int, stays);
                lemma_tally_bounds(stays@, any_kind());
                lemma_tally_bounds(pending@, any_kind());
                lemma_census_update(next.cells@, i as int, stays, any_kind());
                lemma_census_update(next.cells@, i as int, stays, 0);
                lemma_census_update(next.cells@, i as int, stays, 2);
                lemma_census_update(next.cells@, i as int, stays, 1);
                lemma_census_nonneg_of(next.cells@, 1);
                lemma_tally_bounds(pending@, 1);
                lemma_tally_bounds(stays@, 1);
                assert(next.cells@[i as int]@ =~= Seq::<Agent>::empty());
                assert(pending@.take(pending0.len() as int) == pending0);
            }
            let ghost next0 = next.cells@;
            let ghost stays_ms = stays@.to_multiset();
            next.cells.set(i, stays);
            proof {
                assert(next0[i as int]@.to_multiset() =~= Multiset::<Agent>::empty());
                assert(next.cells@ == next0.update(i as int, next.cells@[i as int]));
                assert(grid_ms(next.cells@) =~= grid_ms(next0).add(stays_ms));
                assert forall|c: int, q: int|
                    0 <= c < next.cells@.len() && 0 <= q < next.cells@[c]@.len() implies {
                        let b = #[trigger] next.cells@[c]@[q];
                        agent_ok(b, next.max_x as int, next.max_y as int) && crate::grid::cell_index(b, next.cols as int) == c
                    } by {
                    if c != i {
                        assert(next.cells@[c] == next0[c]);
                    }
                }
            }
            i = i + 1;
        }
        assert(old_cells.take(n as int) =~= old_cells);
        assert(pending@.skip(0) =~= pending@);
        let ghost mid0 = census(next.cells@, 0);
        let ghost mid2 = census(next.cells@, 2);
        let ghost mid1 = census(next.cells@, 1);
        let mut q: usize = 0;
        assert(pending@.take(0) =~= Seq::<Agent>::empty());
        while q < pending.len()
            invariant
                q <= pending@.len(),
                next.wf(),
                next.cols == self.grid.cols,
                next.rows == self.grid.rows,
                next.max_x == max_x,
                next.max_y == max_y,
                forall|c: int| 0 <= c < pending@.len() ==> agent_ok(#[trigger] pending@[c], max_x as int, max_y as int),
                census(next.cells@, any_kind()) + (pending@.len() - q) + died == census(old_cells, any_kind()),
                census(next.cells@, 0) == mid0 + tally(pending@.take(q as int), 0),
                census(next.cells@, 2) == mid2 + tally(pending@.take(q as int), 2),
                census(next.cells@, 1) == mid1 + tally(pending@.take(q as int), 1),
                grid_ms(next.cells@).add(pending@.skip(q as int).to_multiset()) =~= survivors(out).to_multiset(),
            decreases pending@.len() - q,
        {
            let p = pending[q];
            let ghost before_ms = grid_ms(next.cells@);
            next.relocate(p);
            proof {
                broadcast use vstd::seq_lib::group_to_multiset_ensures;
                assert(pending@.skip(q as int) =~= pending@.skip(q + 1).insert(0, p));
                assert(pending@.skip(q as int).to_multiset() =~= pending@.skip(q + 1).to_multiset().insert(p));
                assert(next.count(any_kind()) == census(next.cells@, any_kind()));
                assert(next.count(0) == census(next.cells@, 0));
                assert(next.count(2) == census(next.cells@, 2));
                lemma_tally_take(pending@, q as int, 0);
                lemma_tally_take(pending@, q as int, 2);
                lemma_tally_take(pending@, q as int, 1);
                assert(next.count(1) == census(next.cells@, 1));
            }
            q = q + 1;
        }
        assert(pending@.take(q as int) =~= pending@);
        proof {
            assert(pending@.skip(q as int) =~= Seq::<Agent>::empty());
            lemma_flat_ms(next.cells@);
            lemma_flat_prefix(old_cells, n as int);
            let succ = self.successors(frame as int, died_s, caught_s);
            assert(out =~= succ);
            assert(self.draws_fit(frame as int, died_s, caught_s)) by {
                assert forall|k: int| 0 <= k < caught_s.len() && #[trigger] caught_s[k] implies {
                    &&& frame_chance(self.config.infection_ppm as int, frame as int, CONTACT_TIME_MS as int) != 0
                    &&& exists|k2: int| 0 <= k2 < died_s.len() && #[trigger] self.exposed_to(k, frame as int, died_s[k], k2, died_s[k2])
                } by {
                    let k2 = wit[k];
                    assert(0 <= k2 < died_s.len() && self.exposed_to(k, frame as int, died_s[k], k2, died_s[k2]));
                }
            }
        }
        proof {
            lemma_census_nonneg(next.cells@);
        }
        let (healthy, infected, recovered) = next.census_counts();
        self.grid = next;
        self.healthy = healthy;
        self.infected = infected;
        self.recovered = recovered;
        self.dead = self.dead + died;
        self.time_ms = if frame > u64::MAX - self.time_ms { u64::MAX } else { self.time_ms + frame };
        let snap = Snapshot {
            time_ms: self.time_ms,
            healthy: self.healthy,
            infected: self.infected,
            recovered: self.recovered,
            dead: self.dead,
        };
        self.history.push(snap);
    }
}

} // verus!
