use vstd::prelude::*;

verus! {

/// Width of one grid cell in position units.
pub const UNITS_PER_CELL: i64 = 100_000;

/// Largest magnitude of a velocity component, in position units per
/// millisecond (a hundredth of a cell per millisecond).
pub const MAX_SPEED: i64 = 1000;

/// Health of one agent.
#[derive(Clone, Copy, Debug, PartialEq, Eq, Structural)]
pub enum Health {
    Healthy,
    /// Infected for the given number of milliseconds so far.
    Infected(u64),
    Recovered,
    Dead,
}

/// One simulated individual: a position, a velocity and a health state.
#[derive(Clone, Copy, Debug, PartialEq, Eq, Structural)]
pub struct Agent {
    pub x: i64,
    pub y: i64,
    pub vx: i64,
    pub vy: i64,
    pub health: Health,
}

/// Transitions a single tick may make: a healthy agent stays healthy or is
/// freshly infected; an infected one may stay infected, recover or die;
/// recovered and dead are final.
pub open spec fn legal_transition(before: Health, after: Health) -> bool {
    match before {
        Health::Healthy => after == Health::Healthy || after == Health::Infected(0),
        Health::Infected(_) => after != Health::Healthy,
        Health::Recovered => after == Health::Recovered,
        Health::Dead => after == Health::Dead,
    }
}

/// An agent that may be stored in a grid whose far corner is
/// `(max_x, max_y)` in units: inside the domain, with bounded speed, alive.
pub open spec fn agent_ok(a: Agent, max_x: int, max_y: int) -> bool {
    &&& 0 <= a.x <= max_x
    &&& 0 <= a.y <= max_y
    &&& -MAX_SPEED <= a.vx <= MAX_SPEED
    &&& -MAX_SPEED <= a.vy <= MAX_SPEED
    &&& a.health != Health::Dead
}

/// A coordinate after one mirror reflection at `0` and at `max`; a second
/// bounce within the same tick is not followed and the agent stops at the wall.
pub open spec fn reflect(p: int, max: int) -> int {
    if p < 0 {
        if -p > max { max } else { -p }
    } else if p > max {
        if 2 * max - p < 0 { 0 } else { 2 * max - p }
    } else {
        p
    }
}

/// The velocity component after a possible bounce on that axis.
pub open spec fn bounce(v: int, p: int, max: int) -> int {
    if p < 0 || p > max { -v } else { v }
}

/// Health after one tick of `frame` milliseconds, where `died` is the
/// outcome of the death draw made for an infected agent.
pub open spec fn next_health(h: Health, frame: int, duration: int, died: bool) -> Health {
    match h {
        Health::Infected(t) => {
            if died {
                Health::Dead
            } else if t + frame > duration {
                Health::Recovered
            } else {
                Health::Infected((t + frame) as u64)
            }
        },
        _ => h,
    }
}

/// An agent after one tick: it moves `frame` milliseconds along its velocity,
/// reflects at the walls, and its health advances.
pub open spec fn advanced(a: Agent, frame: int, max_x: int, max_y: int, duration: int, died: bool) -> Agent {
    let px = a.x + a.vx * frame;
    let py = a.y + a.vy * frame;
    Agent {
        x: reflect(px, max_x) as i64,
        y: reflect(py, max_y) as i64,
        vx: bounce(a.vx as int, px, max_x) as i64,
        vy: bounce(a.vy as int, py, max_y) as i64,
        health: next_health(a.health, frame, duration, died),
    }
}

/// A healthy agent exposed to infection: `caught` is the outcome of its draw.
pub open spec fn exposed(a: Agent, caught: bool) -> Agent {
    if a.health == Health::Healthy && caught {
        Agent { health: Health::Infected(0), ..a }
    } else {
        a
    }
}

fn reflect_coord(p: i128, max: i64) -> (r: i64)
    requires
        0 <= max,
        -0x1_0000_0000_0000_0000_0000 <= p <= 0x1_0000_0000_0000_0000_0000,
    ensures
        r == reflect(p as int, max as int),
        0 <= r <= max,
{
    if p < 0 {
        if -p > max as i128 { max } else { (-p) as i64 }
    } else if p > max as i128 {
        if 2 * (max as i128) - p < 0 { 0 } else { (2 * (max as i128) - p) as i64 }
    } else {
        p as i64
    }
}

fn next_health_exec(h: Health, frame: u64, duration: u64, died: bool) -> (r: Health)
    ensures
        r == next_health(h, frame as int, duration as int, died),
{
    match h {
        Health::Infected(t) => {
            if died {
                Health::Dead
            } else if frame > duration || t > duration - frame {
                Health::Recovered
            } else {
                Health::Infected(t + frame)
            }
        },
        _ => h,
    }
}

impl Agent {
    /// Moves the agent by `frame_ms` milliseconds, reflects it at the walls of
    /// `[0, max_x] x [0, max_y]`, and advances its health; `died` is the
    /// outcome of the death draw, which only matters for an infected agent.
    pub fn advance(&self, frame_ms: u64, max_x: i64, max_y: i64, duration_ms: u64, died: bool) -> (r: Agent)
        requires
            agent_ok(*self, max_x as int, max_y as int),
        ensures
            r == advanced(*self, frame_ms as int, max_x as int, max_y as int, duration_ms as int, died),
            0 <= r.x <= max_x,
            0 <= r.y <= max_y,
            -MAX_SPEED <= r.vx <= MAX_SPEED,
            -MAX_SPEED <= r.vy <= MAX_SPEED,
            legal_transition(self.health, r.health),
            r.health == Health::Dead ==> (self.health is Infected && died),
    {
        let f = frame_ms as i128;
        assert(-1000 * (frame_ms as int) <= self.vx * frame_ms <= 1000 * (frame_ms as int)) by (nonlinear_arith)
            requires -1000 <= self.vx <= 1000, 0 <= frame_ms;
        assert(-1000 * (frame_ms as int) <= self.vy * frame_ms <= 1000 * (frame_ms as int)) by (nonlinear_arith)
            requires -1000 <= self.vy <= 1000, 0 <= frame_ms;
        let px: i128 = self.x as i128 + (self.vx as i128) * f;
        let py: i128 = self.y as i128 + (self.vy as i128) * f;
        let vx = if px < 0 || px > max_x as i128 { -self.vx } else { self.vx };
        let vy = if py < 0 || py > max_y as i128 { -self.vy } else { self.vy };
        Agent {
            x: reflect_coord(px, max_x),
            y: reflect_coord(py, max_y),
            vx,
            vy,
            health: next_health_exec(self.health, frame_ms, duration_ms, died),
        }
    }

    /// Exposes the agent to infection: a healthy agent whose draw `caught`
    /// succeeded becomes infected for zero milliseconds; any other agent is
    /// left as it is.
    pub fn expose(&self, caught: bool) -> (r: Agent)
        ensures
            r == exposed(*self, caught),
            legal_transition(self.health, r.health),
    {
        if caught && self.health == Health::Healthy {
            Agent { health: Health::Infected(0), ..*self }
        } else {
            *self
        }
    }
}

} // verus!
