use vstd::prelude::*;
use crate::agent::{advanced, agent_ok, exposed, legal_transition, next_health, Agent, Health};
use crate::engine::{Engine, CONTACT_TIME_MS};
use crate::rates::lemma_frame_chance_extremes;
use crate::grid::flat;

verus! {

proof fn lemma_flat_ok(cells: Seq<Vec<Agent>>, max_x: int, max_y: int)
    requires
        forall|i: int, j: int|
            0 <= i < cells.len() && 0 <= j < cells[i]@.len() ==> agent_ok(#[trigger] cells[i]@[j], max_x, max_y),
    ensures
        forall|k: int| 0 <= k < flat(cells).len() ==> agent_ok(#[trigger] flat(cells)[k], max_x, max_y),
    decreases cells.len(),
{
    if cells.len() > 0 {
        let init = cells.drop_last();
        assert forall|i: int, j: int| 0 <= i < init.len() && 0 <= j < init[i]@.len() implies agent_ok(
            #[trigger] init[i]@[j],
            max_x,
            max_y,
        ) by {
            assert(init[i] == cells[i]);
        }
        lemma_flat_ok(init, max_x, max_y);
        let last = cells.last()@;
        assert forall|k: int| 0 <= k < flat(cells).len() implies agent_ok(#[trigger] flat(cells)[k], max_x, max_y) by {
            if k >= flat(init).len() {
                assert(flat(cells)[k] == cells[cells.len() - 1]@[k - flat(init).len()]);
            }
        }
    }
}

/// Every agent that the engine shows lies inside the domain
/// `[0, max_x] x [0, max_y]` and is alive: the dead leave the grid.
pub proof fn lemma_agents_in_domain(e: &Engine)
    requires
        e.wf(),
    ensures
        forall|k: int| 0 <= k < flat(e.grid.cells@).len() ==> {
            let a = #[trigger] flat(e.grid.cells@)[k];
            &&& 0 <= a.x <= e.grid.max_x
            &&& 0 <= a.y <= e.grid.max_y
            &&& a.health != Health::Dead
        },
{
    lemma_flat_ok(e.grid.cells@, e.grid.max_x as int, e.grid.max_y as int);
}

/// Every recorded snapshot counts the whole population: healthy, infected,
/// recovered and dead add up to the number of agents the run started with.
pub proof fn lemma_snapshots_conserve(e: &Engine)
    requires
        e.wf(),
    ensures
        e.healthy + e.infected + e.recovered + e.dead == e.total,
        forall|i: int| 0 <= i < e.history@.len() ==> (#[trigger] e.history@[i]).sum() == e.total,
{
}

/// Within one tick an agent first advances and then may be exposed; the
/// two together make a legal transition: a healthy agent never dies at
/// once, and recovered and dead agents stay as they are.
pub proof fn lemma_tick_transition_legal(a: Agent, frame: int, max_x: int, max_y: int, duration: int, died: bool, caught: bool)
    requires
        frame >= 0,
    ensures
        legal_transition(a.health, exposed(advanced(a, frame, max_x, max_y, duration, died), caught).health),
        a.health == Health::Healthy ==> exposed(advanced(a, frame, max_x, max_y, duration, died), caught).health != Health::Dead,
{
}

/// Without a successful death draw an infected agent never dies, and once
/// its infection time passes the duration it has recovered.
pub proof fn lemma_recovery_without_death(t: u64, frame: int, duration: int)
    requires
        frame >= 0,
    ensures
        next_health(Health::Infected(t), frame, duration, false) != Health::Dead,
        t + frame > duration ==> next_health(Health::Infected(t), frame, duration, false) == Health::Recovered,
{
}

/// Under any draws that a tick may make, a healthy agent never dies and a
/// recovered one stays recovered.
pub proof fn lemma_tick_successor_legal(e: &Engine, frame: int, died: Seq<bool>, caught: Seq<bool>, k: int)
    requires
        e.wf(),
        frame >= 0,
        e.draws_fit(frame, died, caught),
        0 <= k < e.olds().len(),
    ensures
        legal_transition(e.olds()[k].health, e.successors(frame, died, caught)[k].health),
        e.olds()[k].health == Health::Healthy ==> e.successors(frame, died, caught)[k].health != Health::Dead,
{
    lemma_tick_transition_legal(
        e.olds()[k],
        frame,
        e.grid.max_x as int,
        e.grid.max_y as int,
        e.config.infection_duration_ms as int,
        died[k],
        caught[k],
    );
}

/// With an infection chance of zero, every healthy agent is still healthy
/// after a tick, whatever the draws.
pub proof fn lemma_no_infection_at_zero_chance(e: &Engine, frame: int, died: Seq<bool>, caught: Seq<bool>, k: int)
    requires
        e.wf(),
        frame >= 0,
        e.config.infection_ppm == 0,
        e.draws_fit(frame, died, caught),
        0 <= k < e.olds().len(),
        e.olds()[k].health == Health::Healthy,
    ensures
        e.successors(frame, died, caught)[k].health == Health::Healthy,
{
    lemma_frame_chance_extremes(frame, CONTACT_TIME_MS as int);
    assert(!caught[k]);
}

/// With a death chance of zero, no infected agent dies in a tick, and one
/// whose infection time passes the duration has recovered.
pub proof fn lemma_recovery_at_zero_death_chance(e: &Engine, frame: int, died: Seq<bool>, caught: Seq<bool>, k: int)
    requires
        e.wf(),
        frame >= 0,
        e.config.death_ppm == 0,
        e.draws_fit(frame, died, caught),
        0 <= k < e.olds().len(),
        e.olds()[k].health is Infected,
    ensures
        e.successors(frame, died, caught)[k].health != Health::Dead,
        e.olds()[k].health->Infected_0 + frame > e.config.infection_duration_ms ==> e.successors(frame, died, caught)[k].health
            == Health::Recovered,
{
    lemma_frame_chance_extremes(frame, e.config.infection_duration_ms as int);
    assert(!died[k]);
}

} // verus!
