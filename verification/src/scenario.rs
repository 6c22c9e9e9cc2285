//! The scenario controller: a phased timeline (Start / Disturbance / End)
//! of production plans, plus a queue of absolute-time module-state
//! injections (break a module at one instant, repair it at another).
//!
//! Each tick the controller advances its phase once the phase's duration
//! has elapsed and hands back the injections whose trigger time has passed;
//! the End phase is terminal and the phase order never reverts.

use vstd::prelude::*;

use crate::module::{GridPos, ModuleState};
use crate::product::{duplicate_steps, plan_wf, ProductPlan};
use crate::time_manager::VirtualInstant;

verus! {

/// Duration of the terminal phase: effectively unbounded.
pub const END_PHASE_DURATION_MS: u64 = 1000000000;

/// A timed module-state injection: at virtual time `time`, drive the module
/// at `pos` into `state`.
#[derive(Clone, Copy, Debug)]
pub struct MachineStateChange {
    pub time: VirtualInstant,
    pub state: ModuleState,
    pub pos: GridPos,
}

impl MachineStateChange {
    pub fn new(time: VirtualInstant, state: ModuleState, pos: GridPos) -> (r: Self)
        ensures
            r.time == time,
            r.state == state,
            r.pos == pos,
    {
        MachineStateChange { time, state, pos }
    }
}

/// The phase of a scenario. `End` is terminal.
#[derive(Clone, Copy, PartialEq, Eq, Structural, Debug)]
pub enum ScenarioState {
    Start,
    Disturbance,
    End,
}

/// Phases in their one-way order: a scenario only ever moves to a phase of
/// equal or higher rank.
pub open spec fn scenario_rank(s: ScenarioState) -> int {
    match s {
        ScenarioState::Start => 0,
        ScenarioState::Disturbance => 1,
        ScenarioState::End => 2,
    }
}

/// The phase entered once the current phase's duration has elapsed.
pub open spec fn next_phase(s: ScenarioState) -> ScenarioState {
    match s {
        ScenarioState::Start => ScenarioState::Disturbance,
        ScenarioState::Disturbance => ScenarioState::End,
        ScenarioState::End => ScenarioState::End,
    }
}

/// A phased timeline governing which plans spawn items and which modules
/// are disrupted when.
#[derive(Clone, Debug)]
pub struct Scenario {
    pub name: String,
    /// Plans active during `Start` (and again during the terminal phase).
    pub starting_steps: Vec<ProductPlan>,
    /// Plans active during `Disturbance`.
    pub disturbance_steps: Vec<ProductPlan>,
    /// When the current phase was entered.
    pub starting_time: VirtualInstant,
    /// Duration of the `Start` phase, in virtual milliseconds.
    pub pre_duration: u64,
    /// Duration of the `Disturbance` phase, in virtual milliseconds.
    pub disturbance_duration: u64,
    pub state: ScenarioState,
    /// Injections not yet fired.
    pub machine_state_changes: Vec<MachineStateChange>,
}

/// A scenario the engine will run on a `w` by `h` grid: every plan of both
/// phases is well-formed and every injection targets a cell on the grid.
pub open spec fn scenario_wf(s: Scenario, w: int, h: int) -> bool {
    &&& forall|i: int| 0 <= i < s.starting_steps@.len() ==> plan_wf(
        #[trigger] s.starting_steps@[i],
        w,
        h,
    )
    &&& forall|i: int| 0 <= i < s.disturbance_steps@.len() ==> plan_wf(
        #[trigger] s.disturbance_steps@[i],
        w,
        h,
    )
    &&& forall|i: int|
        0 <= i < s.machine_state_changes@.len() ==> {
            &&& 0 <= (#[trigger] s.machine_state_changes@[i]).pos.x < w
            &&& 0 <= s.machine_state_changes@[i].pos.y < h
        }
}

/// Filtering by pointwise-equal predicates yields the same sequence.
pub proof fn lemma_filter_congruence<A>(s: Seq<A>, f: spec_fn(A) -> bool, g: spec_fn(A) -> bool)
    requires
        forall|x: A| #[trigger] f(x) == g(x),
    ensures
        s.filter(f) == s.filter(g),
    decreases s.len(),
{
    reveal(Seq::filter);
    if s.len() > 0 {
        lemma_filter_congruence(s.drop_last(), f, g);
    }
}

/// The default scenario, pinned exactly: fresh in `Start`, the two default
/// lanes in both phases, both phase durations effectively unbounded, and
/// no injections.
pub open spec fn default_scenario(s: Scenario) -> bool {
    &&& s.state is Start
    &&& s.starting_time.millis == 0
    &&& s.pre_duration == END_PHASE_DURATION_MS
    &&& s.disturbance_duration == END_PHASE_DURATION_MS
    &&& s.machine_state_changes@.len() == 0
    &&& s.starting_steps@.len() == 2
    &&& crate::constants::top_lane_plan(s.starting_steps@[0])
    &&& crate::constants::bottom_lane_plan(s.starting_steps@[1])
    &&& s.disturbance_steps@.len() == 2
    &&& crate::constants::top_lane_plan(s.disturbance_steps@[0])
    &&& crate::constants::bottom_lane_plan(s.disturbance_steps@[1])
}

/// The plan set a scenario spawns from in its current phase.
pub open spec fn phase_plans(s: Scenario) -> Seq<ProductPlan> {
    match s.state {
        ScenarioState::Disturbance => s.disturbance_steps@,
        _ => s.starting_steps@,
    }
}

/// An injection is due once its trigger time lies strictly before `now`.
pub open spec fn change_due(c: MachineStateChange, now: VirtualInstant) -> bool {
    c.time.millis < now.millis
}

impl Scenario {
    /// The plans items spawn from in the current phase.
    pub fn current_steps(&self) -> (r: Vec<ProductPlan>)
        ensures
            r@.len() == (match self.state {
                ScenarioState::Disturbance => self.disturbance_steps@.len(),
                _ => self.starting_steps@.len(),
            }),
            forall|i: int|
                0 <= i < r@.len() ==> {
                    let src = (match self.state {
                        ScenarioState::Disturbance => self.disturbance_steps@,
                        _ => self.starting_steps@,
                    });
                    &&& (#[trigger] r@[i]).color == src[i].color
                    &&& r@[i].steps@.len() == src[i].steps@.len()
                    &&& forall|j: int|
                        0 <= j < r@[i].steps@.len() ==> {
                            &&& (#[trigger] r@[i].steps@[j]).production_time
                                == src[i].steps@[j].production_time
                            &&& r@[i].steps@[j].candidates@ == src[i].steps@[j].candidates@
                            &&& r@[i].steps@[j].is_storage == src[i].steps@[j].is_storage
                        }
                },
    {
        let source: &Vec<ProductPlan> = match self.state {
            ScenarioState::Start => &self.starting_steps,
            ScenarioState::Disturbance => &self.disturbance_steps,
            ScenarioState::End => &self.starting_steps,
        };
        let mut out: Vec<ProductPlan> = Vec::new();
        let mut i: usize = 0;
        while i < source.len()
            invariant
                i <= source@.len(),
                out@.len() == i,
                forall|k: int|
                    0 <= k < i ==> {
                        &&& (#[trigger] out@[k]).color == source@[k].color
                        &&& out@[k].steps@.len() == source@[k].steps@.len()
                        &&& forall|j: int|
                            0 <= j < out@[k].steps@.len() ==> {
                                &&& (#[trigger] out@[k].steps@[j]).production_time
                                    == source@[k].steps@[j].production_time
                                &&& out@[k].steps@[j].candidates@
                                    == source@[k].steps@[j].candidates@
                                &&& out@[k].steps@[j].is_storage == source@[k].steps@[j].is_storage
                            }
                    },
            decreases source@.len() - i,
        {
            out.push(source[i].duplicate());
            i += 1;
        }
        out
    }

    /// The configured duration of the current phase.
    pub fn current_state_durration(&self) -> (r: u64)
        ensures
            r == (match self.state {
                ScenarioState::Start => self.pre_duration,
                ScenarioState::Disturbance => self.disturbance_duration,
                ScenarioState::End => END_PHASE_DURATION_MS,
            }),
    {
        match self.state {
            ScenarioState::Start => self.pre_duration,
            ScenarioState::Disturbance => self.disturbance_duration,
            ScenarioState::End => END_PHASE_DURATION_MS,
        }
    }

    /// One controller tick at virtual time `now`: advance the phase once
    /// its duration has elapsed (never backwards), and split off the due
    /// injections, preserving the order of the rest.
    pub fn update(&mut self, now: VirtualInstant) -> (activated: Vec<MachineStateChange>)
        ensures
            ({
                let elapsed: int = if now.millis >= old(self).starting_time.millis {
                    now.millis - old(self).starting_time.millis
                } else {
                    0
                };
                let fired = elapsed >= (match old(self).state {
                    ScenarioState::Start => old(self).pre_duration,
                    ScenarioState::Disturbance => old(self).disturbance_duration,
                    ScenarioState::End => END_PHASE_DURATION_MS,
                });
                &&& final(self).state == (if fired {
                    next_phase(old(self).state)
                } else {
                    old(self).state
                })
                &&& final(self).starting_time == (if fired {
                    now
                } else {
                    old(self).starting_time
                })
            }),
            scenario_rank(final(self).state) >= scenario_rank(old(self).state),
            old(self).state is End ==> final(self).state is End,
            final(self).starting_steps@ == old(self).starting_steps@,
            final(self).disturbance_steps@ == old(self).disturbance_steps@,
            final(self).pre_duration == old(self).pre_duration,
            final(self).disturbance_duration == old(self).disturbance_duration,
            final(self).name@ == old(self).name@,
            activated@ == old(self).machine_state_changes@.filter(
                (|c: MachineStateChange| change_due(c, now)),
            ),
            final(self).machine_state_changes@ == old(self).machine_state_changes@.filter(
                (|c: MachineStateChange| !change_due(c, now)),
            ),
            forall|k: int|
                0 <= k < final(self).machine_state_changes@.len() ==> old(self).machine_state_changes@.contains(#[trigger] final(self).machine_state_changes@[k]),
            forall|k: int|
                0 <= k < activated@.len() ==> old(self).machine_state_changes@.contains(
                    #[trigger] activated@[k],
                ),
    {
        let elapsed: u64 = if now.millis >= self.starting_time.millis {
            now.millis - self.starting_time.millis
        } else {
            0
        };
        if elapsed >= self.current_state_durration() {
            self.starting_time = now;
            self.state = match self.state {
                ScenarioState::Start => ScenarioState::Disturbance,
                ScenarioState::Disturbance => ScenarioState::End,
                ScenarioState::End => ScenarioState::End,
            };
        }
        let ghost due = (|c: MachineStateChange| change_due(c, now));
        let ghost not_due = (|c: MachineStateChange| !change_due(c, now));
        let mut activated: Vec<MachineStateChange> = Vec::new();
        let mut retained: Vec<MachineStateChange> = Vec::new();
        let pending = &self.machine_state_changes;
        let mut i: usize = 0;
        proof {
            reveal(Seq::filter);
            assert(pending@.take(0).filter(due) =~= Seq::<MachineStateChange>::empty());
            assert(pending@.take(0).filter(not_due) =~= Seq::<MachineStateChange>::empty());
        }
        while i < pending.len()
            invariant
                i <= pending@.len(),
                due == (|c: MachineStateChange| change_due(c, now)),
                not_due == (|c: MachineStateChange| !change_due(c, now)),
                activated@ == pending@.take(i as int).filter(due),
                retained@ == pending@.take(i as int).filter(not_due),
                forall|k: int|
                    0 <= k < retained@.len() ==> pending@.contains(#[trigger] retained@[k]),
                forall|k: int|
                    0 <= k < activated@.len() ==> pending@.contains(#[trigger] activated@[k]),
            decreases pending@.len() - i,
        {
            let c = pending[i];
            proof {
                reveal(Seq::filter);
                assert(pending@.take(i + 1).drop_last() =~= pending@.take(i as int));
                assert(pending@.take(i + 1).last() == pending@[i as int]);
            }
            if c.time.millis < now.millis {
                activated.push(c);
                proof {
                    assert(pending@[i as int] == c);
                    assert(pending@.contains(c));
                }
            } else {
                retained.push(c);
                proof {
                    assert(pending@[i as int] == c);
                    assert(pending@.contains(c));
                }
            }
            i += 1;
            proof {
                reveal(Seq::filter);
                assert(activated@ =~= pending@.take(i as int).filter(due));
                assert(retained@ =~= pending@.take(i as int).filter(not_due));
            }
        }
        proof {
            assert(pending@.take(pending@.len() as int) =~= pending@);
        }
        self.machine_state_changes = retained;
        activated
    }

    /// The default scenario: the two normal lanes, very long phases, no
    /// injections.
    pub fn starting_scenario() -> (r: Scenario)
        ensures
            scenario_wf(r, crate::constants::X_NUM_MODULES as int, crate::constants::Y_NUM_MODULES
                as int),
            default_scenario(r),
    {
        let top = crate::constants::steps_top_normal();
        let bottom = crate::constants::steps_bottom_normal();
        let top2 = top.duplicate();
        let bottom2 = bottom.duplicate();
        proof {
            assert(crate::constants::top_lane_plan(top2));
            assert(crate::constants::bottom_lane_plan(bottom2));
        }
        let mut starting_steps: Vec<ProductPlan> = Vec::new();
        starting_steps.push(top);
        starting_steps.push(bottom);
        let mut disturbance_steps: Vec<ProductPlan> = Vec::new();
        disturbance_steps.push(top2);
        disturbance_steps.push(bottom2);
        Scenario {
            name: String::new(),
            starting_steps,
            disturbance_steps,
            starting_time: VirtualInstant::zero(),
            pre_duration: END_PHASE_DURATION_MS,
            disturbance_duration: END_PHASE_DURATION_MS,
            state: ScenarioState::Start,
            machine_state_changes: Vec::new(),
        }
    }
}

} // verus!
