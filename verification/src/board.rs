//! The resource grid and the simulation state built around it: a fixed
//! row-major array of modules, the virtual clock, the active scenario, and
//! the in-flight items.
//!
//! Invariants carried by every board: exactly one module per position,
//! every module's occupancy within its capacity, and each occupancy counter
//! equal to the number of in-flight items occupying that module — the
//! conservation property of the whole engine.

use vstd::prelude::*;

use crate::constants::{X_NUM_MODULES, Y_NUM_MODULES};
use crate::module::{default_capacity, GridPos, Module, ModuleState, ModuleType,
    MAX_PRODUCT_IN_STORAGE};
use crate::ligth_point::{center_of, FixedPos};
use crate::product::{count_occupying, duplicate_steps, lemma_count_concat,
    lemma_count_concat_push, lemma_count_push, lemma_count_split_first, lemma_step_occ_shape,
    product_position, product_wf, step_matches, step_relation, step_wf, Product,
    ProductPlan, RoutingState};
use crate::scenario::{change_due, phase_plans, scenario_rank, scenario_wf,
    MachineStateChange, Scenario};
use crate::time_manager::{sat_add64, scaled_delta, TimeManager, VirtualInstant};

verus! {

/// Largest accepted grid side length; keeps every index computation far
/// away from overflow.
pub const MAX_BOARD_DIM: usize = 10000;

/// Two module sequences agree on everything but their occupancy counters.
pub open spec fn modules_static_eq(a: Seq<Module>, b: Seq<Module>) -> bool {
    &&& a.len() == b.len()
    &&& forall|i: int|
        0 <= i < a.len() ==> {
            &&& (#[trigger] b[i]).pos == a[i].pos
            &&& b[i].kind == a[i].kind
            &&& b[i].max_production == a[i].max_production
            &&& b[i].state == a[i].state
        }
}

/// One occupancy slot has moved from the module at index `from` to the one
/// at index `to`; everything else is unchanged.
pub open spec fn occ_moved(a: Seq<Module>, b: Seq<Module>, from: int, to: int) -> bool {
    &&& modules_static_eq(a, b)
    &&& forall|i: int|
        0 <= i < a.len() ==> (#[trigger] b[i]).in_production == a[i].in_production - (if i == from {
            1int
        } else {
            0int
        }) + (if i == to {
            1int
        } else {
            0int
        })
}

/// The functional state a module at `pos` ends up in after the injections
/// of `fired` have been applied in order: the last one targeting `pos`
/// wins; none leaves `prior` standing.
pub open spec fn state_after_changes(
    prior: ModuleState,
    pos: GridPos,
    fired: Seq<MachineStateChange>,
) -> ModuleState
    decreases fired.len(),
{
    if fired.len() == 0 {
        prior
    } else if fired.last().pos == pos {
        fired.last().state
    } else {
        state_after_changes(prior, pos, fired.drop_last())
    }
}

/// Whether `plan` designates the module at `pos` as a storage resource:
/// some storage-flagged stage's primary candidate is `pos`.
pub open spec fn storage_target(plan: ProductPlan, pos: GridPos) -> bool {
    exists|k: int|
        0 <= k < plan.steps@.len() && (#[trigger] plan.steps@[k]).is_storage
            && plan.steps@[k].candidates@.len() >= 1 && plan.steps@[k].candidates@[0] == pos
}

/// `storage_target`, restricted to the first `n` stages of the plan.
pub open spec fn storage_target_upto(plan: ProductPlan, pos: GridPos, n: int) -> bool {
    exists|k: int|
        0 <= k < n && k < plan.steps@.len() && (#[trigger] plan.steps@[k]).is_storage
            && plan.steps@[k].candidates@.len() >= 1 && plan.steps@[k].candidates@[0] == pos
}

/// Two plan lists carry the same plan data: colors and stage tables.
pub open spec fn plans_match(a: Seq<ProductPlan>, b: Seq<ProductPlan>) -> bool {
    &&& a.len() == b.len()
    &&& forall|i: int|
        0 <= i < a.len() ==> {
            &&& (#[trigger] a[i]).color == b[i].color
            &&& a[i].steps@.len() == b[i].steps@.len()
            &&& forall|j: int| 0 <= j < a[i].steps@.len() ==> step_matches(
                #[trigger] a[i].steps@[j],
                b[i].steps@[j],
            )
        }
}

/// The spawn phase as a relation between the pre-spawn board `b0` and the
/// post-spawn board `b1`: exactly the plans whose spawn module accepts
/// (sequentially) add one item each, at the end of the list and in plan
/// order, each accounted at its spawn module; nothing else changes.
pub open spec fn spawn_phase_ok(b0: Board, plans: Seq<ProductPlan>, b1: Board) -> bool {
    &&& b1.width == b0.width
    &&& b1.height == b0.height
    &&& b1.time_manager == b0.time_manager
    &&& b1.current_scenario == b0.current_scenario
    &&& modules_static_eq(b0.modules@, b1.modules@)
    &&& forall|k: int| 0 <= k < b0.products@.len() ==> b1.products@[k] == b0.products@[k]
    &&& b1.products@.len() == b0.products@.len() + spawn_total(b0, plans, plans.len() as int)
    &&& forall|j: int|
        0 <= j < b1.modules@.len() ==> (#[trigger] b1.modules@[j]).in_production
            == b0.modules@[j].in_production + spawned_into_before(
            b0,
            plans,
            plans.len() as int,
            b0.modules@[j].pos,
        )
    &&& forall|i: int|
        0 <= i < plans.len() && #[trigger] plan_spawns(b0, plans, i) ==> ({
            let item = b1.products@[b0.products@.len() as int + spawn_total(b0, plans, i)];
            &&& item.occupied == plan_lane(plans[i])
            &&& item.color == plans[i].color
            &&& item.ligth_point@.current == center_of(plan_lane(plans[i]))
            &&& (item.state matches RoutingState::Waiting { resume_at, next_step }
                && resume_at.millis == sat_add64(
                b0.time_manager.virtual_now.millis,
                plans[i].steps@[0].production_time,
            ) && step_matches(next_step, plans[i].steps@[1]))
        })
}

/// The board after the clock, scenario and injection phases of a tick, as
/// a function of the pre-tick board and the measured real delta: the clock
/// advanced and scaled, the phase stepped once if its duration elapsed,
/// the due injections applied in order, everything else untouched.
pub open spec fn mid_board_ok(b0: Board, real_delta_ms: u64, mid: Board) -> bool {
    let delta = scaled_delta(real_delta_ms, b0.time_manager.speed_permille);
    let now = VirtualInstant { millis: sat_add64(b0.time_manager.virtual_now.millis, delta) };
    let fired = b0.current_scenario.machine_state_changes@.filter(
        (|c: MachineStateChange| change_due(c, now)),
    );
    let elapsed: int = if now.millis >= b0.current_scenario.starting_time.millis {
        now.millis - b0.current_scenario.starting_time.millis
    } else {
        0
    };
    let phase_over = elapsed >= (match b0.current_scenario.state {
        crate::scenario::ScenarioState::Start => b0.current_scenario.pre_duration,
        crate::scenario::ScenarioState::Disturbance => b0.current_scenario.disturbance_duration,
        crate::scenario::ScenarioState::End => crate::scenario::END_PHASE_DURATION_MS,
    });
    &&& mid.width == b0.width
    &&& mid.height == b0.height
    &&& mid.time_manager == (TimeManager {
        virtual_now: now,
        last_virtual_delta_ms: delta,
        speed_permille: b0.time_manager.speed_permille,
        resume_permille: b0.time_manager.resume_permille,
    })
    &&& mid.products@ == b0.products@
    &&& mid.current_scenario.state == (if phase_over {
        crate::scenario::next_phase(b0.current_scenario.state)
    } else {
        b0.current_scenario.state
    })
    &&& mid.current_scenario.starting_time == (if phase_over {
        now
    } else {
        b0.current_scenario.starting_time
    })
    &&& mid.current_scenario.starting_steps@ == b0.current_scenario.starting_steps@
    &&& mid.current_scenario.disturbance_steps@ == b0.current_scenario.disturbance_steps@
    &&& mid.current_scenario.pre_duration == b0.current_scenario.pre_duration
    &&& mid.current_scenario.disturbance_duration == b0.current_scenario.disturbance_duration
    &&& mid.current_scenario.machine_state_changes@
        == b0.current_scenario.machine_state_changes@.filter(
        (|c: MachineStateChange| !change_due(c, now)),
    )
    &&& mid.modules@.len() == b0.modules@.len()
    &&& forall|i: int|
        0 <= i < mid.modules@.len() ==> {
            let m0 = b0.modules@[i];
            let m1 = #[trigger] mid.modules@[i];
            &&& m1.pos == m0.pos
            &&& m1.kind == m0.kind
            &&& m1.in_production == m0.in_production
            &&& m1.max_production == m0.max_production
            &&& m1.state == state_after_changes(m0.state, m0.pos, fired)
        }
}

/// The per-tick motion budget, in fixed-point units: the virtual delta
/// times the pace, saturated to `u32`.
pub open spec fn tick_step_budget(delta_ms: u64) -> u32 {
    if delta_ms * crate::constants::STEP_SIZE_PER_MS > u32::MAX {
        u32::MAX
    } else {
        (delta_ms * crate::constants::STEP_SIZE_PER_MS) as u32
    }
}

/// One completed item's slot released: the grid after its final module's
/// occupancy is decremented.
pub open spec fn slot_released(a: Seq<Module>, b: Seq<Module>, idx: int) -> bool {
    &&& modules_static_eq(a, b)
    &&& forall|j: int|
        0 <= j < a.len() ==> (#[trigger] b[j]).in_production == a[j].in_production - (if j == idx {
            1int
        } else {
            0int
        })
}

/// How many of the first `k` tick results are `Some`: the retained-list
/// index the `k`-th surviving item lands at.
pub open spec fn some_count(results: Seq<Option<FixedPos>>, k: int) -> nat
    decreases k,
{
    if k <= 0 {
        0
    } else {
        some_count(results, k - 1) + if results[k - 1] is Some {
            1nat
        } else {
            0nat
        }
    }
}

/// Extending the result list does not change the counts of its prefix.
proof fn lemma_some_count_push(s: Seq<Option<FixedPos>>, x: Option<FixedPos>, k: int)
    requires
        0 <= k <= s.len(),
    ensures
        some_count(s.push(x), k) == some_count(s, k),
    decreases k,
{
    if k > 0 {
        lemma_some_count_push(s, x, k - 1);
        assert(s.push(x)[k - 1] == s[k - 1]);
    }
}

/// A surviving item strictly raises the running survivor count.
proof fn lemma_some_count_mono(s: Seq<Option<FixedPos>>, k: int, m: int)
    requires
        0 <= k < m <= s.len(),
        s[k] is Some,
    ensures
        some_count(s, k) + 1 <= some_count(s, m),
    decreases m,
{
    if m > k + 1 {
        lemma_some_count_mono(s, k, m - 1);
    }
}

/// The advance phase, step by step: `boards[k]` is the grid before the
/// `k`-th item's tick; each item advances by the routing step relation
/// against it; an item whose tick completed has its slot released and is
/// dropped; every other item is retained, in order, with its display
/// sample recorded.
pub open spec fn advance_trace_ok(
    b_start: Board,
    b_end: Board,
    items: Seq<Product>,
    kept: Seq<Product>,
    out: Seq<(FixedPos, u32)>,
    boards: Seq<Board>,
    advanced: Seq<Product>,
    results: Seq<Option<FixedPos>>,
    now: crate::time_manager::VirtualInstant,
    max_step: u32,
) -> bool {
    let n = items.len() as int;
    &&& boards.len() == n + 1
    &&& advanced.len() == n
    &&& results.len() == n
    &&& boards[0].modules@ == b_start.modules@
    &&& b_end.modules@ == boards[n].modules@
    &&& kept.len() == some_count(results, n)
    &&& out.len() == some_count(results, n)
    &&& forall|k: int|
        0 <= k <= n ==> (#[trigger] boards[k]).width == b_start.width && boards[k].height
            == b_start.height
    &&& forall|k: int|
        #![trigger results[k]]
        0 <= k < n ==> match results[k] {
            Option::Some(pos) => {
                &&& step_relation(
                    items[k],
                    boards[k],
                    advanced[k],
                    boards[k + 1],
                    now,
                    max_step,
                    results[k],
                )
                &&& kept[some_count(results, k) as int] == advanced[k]
                &&& out[some_count(results, k) as int] == (pos, advanced[k].color)
            },
            Option::None => {
                &&& step_relation(
                    items[k],
                    boards[k],
                    advanced[k],
                    boards[k],
                    now,
                    max_step,
                    results[k],
                )
                &&& slot_released(
                    boards[k].modules@,
                    boards[k + 1].modules@,
                    boards[k].pos_index(advanced[k].occupied),
                )
            },
        }
}

/// The spawn module of a plan: its first stage's primary candidate.
pub open spec fn plan_lane(p: ProductPlan) -> GridPos {
    p.steps@[0].candidates@[0]
}

/// How many of the first `i` plans spawn into the module at `lane` this
/// round, given the pre-round board `b`.
pub open spec fn spawned_into_before(
    b: Board,
    plans: Seq<ProductPlan>,
    i: int,
    lane: GridPos,
) -> nat
    decreases i, 0int,
{
    if i <= 0 {
        0
    } else {
        spawned_into_before(b, plans, i - 1, lane) + if plan_spawns(b, plans, i - 1) && plan_lane(
            plans[i - 1],
        ) == lane {
            1nat
        } else {
            0nat
        }
    }
}

/// Whether the `i`-th plan of `plans` spawns an item this round, given the
/// pre-round board `b`: it has at least two stages, and its spawn module is
/// functional with capacity left after the earlier plans' spawns.
pub open spec fn plan_spawns(b: Board, plans: Seq<ProductPlan>, i: int) -> bool
    decreases i, 1int,
{
    &&& 0 <= i < plans.len()
    &&& plans[i].steps@.len() >= 2
    &&& plans[i].steps@[0].candidates@.len() >= 1
    &&& b.in_bounds(plan_lane(plans[i]))
    &&& b.module_at(plan_lane(plans[i])).state is Functional
    &&& b.module_at(plan_lane(plans[i])).in_production + spawned_into_before(
        b,
        plans,
        i,
        plan_lane(plans[i]),
    ) < b.module_at(plan_lane(plans[i])).max_production
}

/// How many of the first `i` plans spawn at all this round.
pub open spec fn spawn_total(b: Board, plans: Seq<ProductPlan>, i: int) -> nat
    decreases i, 2int,
{
    if i <= 0 {
        0
    } else {
        spawn_total(b, plans, i - 1) + if plan_spawns(b, plans, i - 1) {
            1nat
        } else {
            0nat
        }
    }
}

/// A plan that spawns strictly raises the running spawn count.
proof fn lemma_spawn_total_mono(b: Board, plans: Seq<ProductPlan>, i: int, k: int)
    requires
        0 <= i < k <= plans.len(),
        plan_spawns(b, plans, i),
    ensures
        spawn_total(b, plans, i) + 1 <= spawn_total(b, plans, k),
    decreases k,
{
    if k > i + 1 {
        lemma_spawn_total_mono(b, plans, i, k - 1);
    }
}

/// The board: the grid, the clock, the active scenario and the items in
/// flight.
pub struct Board {
    pub width: usize,
    pub height: usize,
    /// Row-major: the module at `(x, y)` sits at index `y * width + x`.
    pub modules: Vec<Module>,
    pub time_manager: TimeManager,
    pub current_scenario: Scenario,
    pub products: Vec<Product>,
}

/// One whole tick, decomposed into its three phases: the clock/scenario/
/// injection phase yields `mid`; the spawn phase, fed the duplicated plan
/// set of the current phase, yields `spawned`; the advance phase steps
/// every item by the routing state machine and yields the final board and
/// the display samples.
pub open spec fn tick_phases_ok(
    b0: Board,
    b1: Board,
    r: Seq<(FixedPos, u32)>,
    real_delta_ms: u64,
    mid: Board,
    plans: Seq<ProductPlan>,
    spawned: Board,
) -> bool {
    &&& mid_board_ok(b0, real_delta_ms, mid)
    &&& plans_match(plans, phase_plans(mid.current_scenario))
    &&& spawn_phase_ok(mid, plans, spawned)
    &&& exists|boards: Seq<Board>, advanced: Seq<Product>, results: Seq<Option<FixedPos>>|
        advance_trace_ok(
            spawned,
            b1,
            spawned.products@,
            b1.products@,
            r,
            boards,
            advanced,
            results,
            mid.time_manager.virtual_now,
            tick_step_budget(mid.time_manager.last_virtual_delta_ms),
        )
}

impl Board {
    /// Whether `p` lies on the grid.
    pub open spec fn in_bounds(self, p: GridPos) -> bool {
        0 <= p.x < self.width && 0 <= p.y < self.height
    }

    /// The row-major index of `p`.
    pub open spec fn pos_index(self, p: GridPos) -> int {
        p.y * self.width + p.x
    }

    /// The position belonging to row-major index `i`.
    pub open spec fn pos_of_index(self, i: int) -> GridPos {
        GridPos { x: (i % (self.width as int)) as i32, y: (i / (self.width as int)) as i32 }
    }

    /// The module at `p`.
    pub open spec fn module_at(self, p: GridPos) -> Module {
        self.modules@[self.pos_index(p)]
    }

    /// The static grid invariant: bounded dimensions, one module per
    /// position in row-major order, occupancy within capacity.
    pub open spec fn grid_wf(self) -> bool {
        &&& 1 <= self.width <= MAX_BOARD_DIM
        &&& 1 <= self.height <= MAX_BOARD_DIM
        &&& self.modules@.len() == self.width * self.height
        &&& forall|i: int|
            0 <= i < self.modules@.len() ==> (#[trigger] self.modules@[i]).pos
                == self.pos_of_index(i)
        &&& forall|i: int|
            0 <= i < self.modules@.len() ==> (#[trigger] self.modules@[i]).in_production
                <= self.modules@[i].max_production
    }

    /// Conservation: each module's occupancy equals the number of in-flight
    /// items occupying it.
    pub open spec fn occupancy_consistent(self) -> bool {
        forall|i: int|
            0 <= i < self.modules@.len() ==> (#[trigger] self.modules@[i]).in_production
                == count_occupying(self.products@, self.modules@[i].pos)
    }

    /// The full board invariant.
    pub open spec fn wf(self) -> bool {
        &&& self.grid_wf()
        &&& self.occupancy_consistent()
        &&& forall|i: int| 0 <= i < self.products@.len() ==> product_wf(
            #[trigger] self.products@[i],
            self.width as int,
            self.height as int,
        )
        &&& scenario_wf(self.current_scenario, self.width as int, self.height as int)
    }

    /// Whether the module at `p` currently accepts one more item.
    pub open spec fn accepts(self, p: GridPos) -> bool {
        &&& self.in_bounds(p)
        &&& self.module_at(p).in_production < self.module_at(p).max_production
        &&& self.module_at(p).state is Functional
    }

    /// Row-major indexing is a bijection between in-bounds positions and
    /// module indices.
    pub proof fn lemma_pos_index(self, p: GridPos)
        requires
            self.grid_wf(),
            self.in_bounds(p),
        ensures
            0 <= self.pos_index(p) < self.modules@.len(),
            self.modules@[self.pos_index(p)].pos == p,
            forall|j: int|
                0 <= j < self.modules@.len() && (#[trigger] self.modules@[j]).pos == p ==> j
                    == self.pos_index(p),
    {
        let w = self.width as int;
        let h = self.height as int;
        let idx = self.pos_index(p);
        assert(0 <= idx < h * w) by (nonlinear_arith)
            requires
                0 <= p.x < w,
                0 <= p.y < h,
                idx == p.y * w + p.x,
        ;
        assert(h * w == w * h) by (nonlinear_arith);
        vstd::arithmetic::div_mod::lemma_fundamental_div_mod_converse(
            idx,
            w,
            p.y as int,
            p.x as int,
        );
        assert(self.pos_of_index(idx) == p);
        assert((self.width as int) * (self.height as int) <= 100000000) by (nonlinear_arith)
            requires
                self.width <= 10000,
                self.height <= 10000,
        ;
        assert forall|j: int|
            0 <= j < self.modules@.len() && (#[trigger] self.modules@[j]).pos == p implies j
            == idx by {
            assert(self.pos_of_index(j) == p);
            vstd::arithmetic::div_mod::lemma_fundamental_div_mod(j, w);
            vstd::arithmetic::div_mod::lemma_mod_division_less_than_divisor(j, w);
            vstd::arithmetic::div_mod::lemma_div_pos_is_pos(j, w);
            vstd::arithmetic::div_mod::lemma_div_nonincreasing(j, w);
            assert(j == w * (j / w) + j % w);
            assert(0 <= j % w < w && 0 <= j / w <= j);
            assert(((j % w) as i32) as int == j % w);
            assert(((j / w) as i32) as int == j / w);
            assert(j % w == p.x && j / w == p.y);
            assert(w * (j / w) == (j / w) * w) by (nonlinear_arith);
        }
    }

    /// Every module index corresponds to an in-bounds position, and the
    /// correspondence inverts row-major indexing.
    pub proof fn lemma_index_pos(self, i: int)
        requires
            self.grid_wf(),
            0 <= i < self.modules@.len(),
        ensures
            self.in_bounds(self.pos_of_index(i)),
            self.pos_index(self.pos_of_index(i)) == i,
    {
        let w = self.width as int;
        let h = self.height as int;
        vstd::arithmetic::div_mod::lemma_fundamental_div_mod(i, w);
        vstd::arithmetic::div_mod::lemma_mod_division_less_than_divisor(i, w);
        vstd::arithmetic::div_mod::lemma_div_pos_is_pos(i, w);
        vstd::arithmetic::div_mod::lemma_div_nonincreasing(i, w);
        assert(i < w * h);
        vstd::arithmetic::div_mod::lemma_multiply_divide_lt(i, w, h);
        assert(0 <= i % w < w && 0 <= i / w < h);
        assert(((i % w) as i32) as int == i % w);
        assert(((i / w) as i32) as int == i / w);
        let p = self.pos_of_index(i);
        assert(p.x == i % w && p.y == i / w);
        assert(i == w * (i / w) + i % w);
        assert(w * (i / w) == (i / w) * w) by (nonlinear_arith);
        assert(self.pos_index(p) == i);
    }

    /// A fresh board over the given layout, with no items and a zeroed
    /// clock, running `scenario`.
    pub fn with_layout(width: usize, height: usize, layout: &Vec<ModuleType>, scenario: Scenario)
        -> (r: Board)
        requires
            1 <= width <= MAX_BOARD_DIM,
            1 <= height <= MAX_BOARD_DIM,
            layout@.len() == width * height,
            scenario_wf(scenario, width as int, height as int),
        ensures
            r.wf(),
            r.width == width,
            r.height == height,
            r.products@.len() == 0,
            r.time_manager == (TimeManager {
                virtual_now: crate::time_manager::VirtualInstant { millis: 0 },
                last_virtual_delta_ms: 0,
                speed_permille: crate::time_manager::NORMAL_SPEED_PERMILLE,
                resume_permille: crate::time_manager::NORMAL_SPEED_PERMILLE,
            }),
            r.current_scenario == scenario,
            r.modules@.len() == layout@.len(),
            forall|i: int|
                0 <= i < r.modules@.len() ==> {
                    let m = #[trigger] r.modules@[i];
                    &&& m.kind == layout@[i]
                    &&& m.in_production == 0
                    &&& m.max_production == default_capacity(layout@[i])
                    &&& m.state is Functional
                },
    {
        proof {
            assert((width as int) * (height as int) <= 100000000) by (nonlinear_arith)
                requires
                    width <= 10000,
                    height <= 10000,
            ;
        }
        let mut modules: Vec<Module> = Vec::new();
        let mut k: usize = 0;
        while k < layout.len()
            invariant
                k <= layout@.len(),
                layout@.len() == width * height,
                1 <= width <= MAX_BOARD_DIM,
                layout@.len() <= 100000000,
                modules@.len() == k,
                forall|i: int|
                    0 <= i < k ==> {
                        let m = #[trigger] modules@[i];
                        &&& m.kind == layout@[i]
                        &&& m.in_production == 0
                        &&& m.max_production == default_capacity(layout@[i])
                        &&& m.state is Functional
                        &&& m.pos == (GridPos {
                            x: (i % (width as int)) as i32,
                            y: (i / (width as int)) as i32,
                        })
                    },
            decreases layout@.len() - k,
        {
            let x = k % width;
            let y = k / width;
            proof {
                vstd::arithmetic::div_mod::lemma_mod_division_less_than_divisor(
                    k as int,
                    width as int,
                );
                vstd::arithmetic::div_mod::lemma_div_pos_is_pos(k as int, width as int);
                vstd::arithmetic::div_mod::lemma_div_nonincreasing(k as int, width as int);
            }
            modules.push(Module::new(GridPos::new(x as i32, y as i32), layout[k]));
            k += 1;
        }
        let board = Board {
            width,
            height,
            modules,
            time_manager: TimeManager::new(),
            current_scenario: scenario,
            products: Vec::new(),
        };
        proof {
            assert forall|i: int|
                0 <= i < board.modules@.len() implies (#[trigger] board.modules@[i]).in_production
                == count_occupying(board.products@, board.modules@[i].pos) by {
                assert(count_occupying(Seq::<Product>::empty(), board.modules@[i].pos) == 0);
                assert(board.products@ =~= Seq::<Product>::empty());
            }
        }
        board
    }

    /// The default board: the 6 by 4 default layout running the default
    /// scenario.
    pub fn new() -> (r: Board)
        ensures
            r.wf(),
            r.width == X_NUM_MODULES,
            r.height == Y_NUM_MODULES,
            r.products@.len() == 0,
            r.time_manager == (TimeManager {
                virtual_now: crate::time_manager::VirtualInstant { millis: 0 },
                last_virtual_delta_ms: 0,
                speed_permille: crate::time_manager::NORMAL_SPEED_PERMILLE,
                resume_permille: crate::time_manager::NORMAL_SPEED_PERMILLE,
            }),
            crate::scenario::default_scenario(r.current_scenario),
            r.modules@.len() == crate::constants::default_layout_seq().len(),
            forall|i: int|
                0 <= i < r.modules@.len() ==> {
                    let m = #[trigger] r.modules@[i];
                    &&& m.kind == crate::constants::default_layout_seq()[i]
                    &&& m.in_production == 0
                    &&& m.max_production == default_capacity(m.kind)
                    &&& m.state is Functional
                },
    {
        let layout = crate::constants::default_layout();
        Board::with_layout(X_NUM_MODULES, Y_NUM_MODULES, &layout, Scenario::starting_scenario())
    }

    /// Replace the active scenario wholesale: every module is emptied and
    /// repaired, the clock is zeroed (its speed kept), and all in-flight
    /// items are discarded — a hard restart of the dynamic state.
    pub fn set_scenario(&mut self, scenario: Scenario)
        requires
            old(self).grid_wf(),
            scenario_wf(scenario, old(self).width as int, old(self).height as int),
        ensures
            final(self).wf(),
            final(self).width == old(self).width,
            final(self).height == old(self).height,
            final(self).current_scenario == scenario,
            final(self).products@.len() == 0,
            final(self).time_manager.virtual_now.millis == 0,
            final(self).time_manager.speed_permille == old(self).time_manager.speed_permille,
            final(self).modules@.len() == old(self).modules@.len(),
            forall|i: int|
                0 <= i < final(self).modules@.len() ==> {
                    let m_old = old(self).modules@[i];
                    let m_new = #[trigger] final(self).modules@[i];
                    &&& m_new.pos == m_old.pos
                    &&& m_new.kind == m_old.kind
                    &&& m_new.max_production == m_old.max_production
                    &&& m_new.in_production == 0
                    &&& m_new.state is Functional
                },
    {
        let ghost orig = *old(self);
        let mut k: usize = 0;
        while k < self.modules.len()
            invariant
                self.width == orig.width,
                self.height == orig.height,
                self.time_manager == orig.time_manager,
                self.current_scenario == orig.current_scenario,
                self.products == orig.products,
                self.modules@.len() == orig.modules@.len(),
                k <= self.modules@.len(),
                forall|i: int|
                    0 <= i < self.modules@.len() ==> {
                        let m_old = orig.modules@[i];
                        let m_new = #[trigger] self.modules@[i];
                        &&& m_new.pos == m_old.pos
                        &&& m_new.kind == m_old.kind
                        &&& m_new.max_production == m_old.max_production
                        &&& (i < k ==> m_new.in_production == 0 && m_new.state is Functional)
                        &&& (i >= k ==> m_new == m_old)
                    },
            decreases self.modules@.len() - k,
        {
            let mut m = self.modules[k];
            m.reset();
            self.modules.set(k, m);
            k += 1;
        }
        self.current_scenario = scenario;
        self.time_manager.reset();
        self.products = Vec::new();
        proof {
            assert forall|i: int|
                0 <= i < final(self).modules@.len() implies (#[trigger] final(
                self).modules@[i]).in_production == count_occupying(
                final(self).products@,
                final(self).modules@[i].pos,
            ) by {
                assert(count_occupying(Seq::<Product>::empty(), final(self).modules@[i].pos) == 0);
                assert(final(self).products@ =~= Seq::<Product>::empty());
            }
            assert forall|j: int|
                0 <= j < final(self).modules@.len() implies (#[trigger] final(
                self).modules@[j]).pos == final(self).pos_of_index(j) by {
                assert(final(self).modules@[j].pos == orig.modules@[j].pos);
            }
        }
    }

    /// Range check against the configured dimensions.
    pub fn inbounds(&self, pos: GridPos) -> (r: bool)
        ensures
            r == self.in_bounds(pos),
    {
        pos.x >= 0 && pos.y >= 0 && (pos.x as usize) < self.width && (pos.y as usize) < self.height
    }

    /// The row-major index of an in-bounds position.
    pub fn idx_of(&self, pos: GridPos) -> (r: usize)
        requires
            self.grid_wf(),
            self.in_bounds(pos),
        ensures
            r == self.pos_index(pos),
            r < self.modules@.len(),
            self.modules@[r as int].pos == pos,
    {
        proof {
            self.lemma_pos_index(pos);
            assert((self.width as int) * (self.height as int) <= 100000000) by (nonlinear_arith)
                requires
                    self.width <= 10000,
                    self.height <= 10000,
            ;
            assert((pos.y as int) * (self.width as int) + (pos.x as int) < self.modules@.len());
            assert((pos.y as int) * (self.width as int) >= 0) by (nonlinear_arith)
                requires
                    pos.y >= 0,
                    self.width >= 0,
            ;
        }
        (pos.y as usize) * self.width + (pos.x as usize)
    }

    /// Whether the module at `pos` accepts one more item.
    pub fn can_accept(&self, pos: GridPos) -> (r: bool)
        requires
            self.grid_wf(),
            self.in_bounds(pos),
        ensures
            r == (self.module_at(pos).in_production < self.module_at(pos).max_production
                && self.module_at(pos).state is Functional),
    {
        let i = self.idx_of(pos);
        self.modules[i].can_receiv_product()
    }

    /// Set the functional state of the module at `pos`; nothing else moves.
    /// Items already occupying or heading for the module are not evicted:
    /// they stall until it is functional again.
    pub fn apply_state_change(&mut self, pos: GridPos, new_state: ModuleState)
        requires
            old(self).grid_wf(),
            old(self).in_bounds(pos),
        ensures
            final(self).width == old(self).width,
            final(self).height == old(self).height,
            final(self).time_manager == old(self).time_manager,
            final(self).current_scenario == old(self).current_scenario,
            final(self).products == old(self).products,
            final(self).modules@.len() == old(self).modules@.len(),
            forall|i: int|
                0 <= i < final(self).modules@.len() && i != old(self).pos_index(pos)
                    ==> final(self).modules@[i] == old(self).modules@[i],
            ({
                let idx = old(self).pos_index(pos);
                let m_old = old(self).modules@[idx];
                let m_new = final(self).modules@[idx];
                &&& m_new.pos == m_old.pos
                &&& m_new.kind == m_old.kind
                &&& m_new.in_production == m_old.in_production
                &&& m_new.max_production == m_old.max_production
                &&& m_new.state == new_state
            }),
            final(self).grid_wf(),
            old(self).wf() ==> final(self).wf(),
    {
        proof {
            old(self).lemma_pos_index(pos);
        }
        let i = self.idx_of(pos);
        let mut m = self.modules[i];
        m.state = new_state;
        self.modules.set(i, m);
        proof {
            assert forall|j: int|
                0 <= j < final(self).modules@.len() implies (#[trigger] final(self).modules@[j]).pos
                == final(self).pos_of_index(j) by {
                assert(final(self).modules@[j].pos == old(self).modules@[j].pos);
            }
        }
    }

    /// Raise the capacity of exactly the storage-flagged stage targets of
    /// `plan` to the storage capacity; every other module keeps its
    /// capacity, and nothing else moves.
    pub fn set_storage(&mut self, plan: &ProductPlan)
        requires
            old(self).grid_wf(),
            forall|k: int|
                0 <= k < plan.steps@.len() && (#[trigger] plan.steps@[k]).is_storage ==> {
                    &&& plan.steps@[k].candidates@.len() >= 1
                    &&& old(self).in_bounds(plan.steps@[k].candidates@[0])
                    &&& old(self).module_at(plan.steps@[k].candidates@[0]).in_production
                        <= MAX_PRODUCT_IN_STORAGE
                },
        ensures
            final(self).width == old(self).width,
            final(self).height == old(self).height,
            final(self).time_manager == old(self).time_manager,
            final(self).current_scenario == old(self).current_scenario,
            final(self).products == old(self).products,
            final(self).modules@.len() == old(self).modules@.len(),
            forall|i: int|
                0 <= i < final(self).modules@.len() ==> {
                    let m_old = old(self).modules@[i];
                    let m_new = #[trigger] final(self).modules@[i];
                    &&& m_new.pos == m_old.pos
                    &&& m_new.kind == m_old.kind
                    &&& m_new.in_production == m_old.in_production
                    &&& m_new.state == m_old.state
                    &&& m_new.max_production == (if storage_target(*plan, m_old.pos) {
                        MAX_PRODUCT_IN_STORAGE
                    } else {
                        m_old.max_production
                    })
                },
            final(self).grid_wf(),
            old(self).wf() ==> final(self).wf(),
    {
        let ghost orig = *old(self);
        let mut k: usize = 0;
        while k < plan.steps.len()
            invariant
                self.width == orig.width,
                self.height == orig.height,
                self.time_manager == orig.time_manager,
                self.current_scenario == orig.current_scenario,
                self.products == orig.products,
                self.modules@.len() == orig.modules@.len(),
                orig.grid_wf(),
                k <= plan.steps@.len(),
                forall|j: int|
                    0 <= j < plan.steps@.len() && (#[trigger] plan.steps@[j]).is_storage ==> {
                        &&& plan.steps@[j].candidates@.len() >= 1
                        &&& orig.in_bounds(plan.steps@[j].candidates@[0])
                        &&& orig.module_at(plan.steps@[j].candidates@[0]).in_production
                            <= MAX_PRODUCT_IN_STORAGE
                    },
                forall|i: int|
                    0 <= i < self.modules@.len() ==> {
                        let m_old = orig.modules@[i];
                        let m_new = #[trigger] self.modules@[i];
                        &&& m_new.pos == m_old.pos
                        &&& m_new.kind == m_old.kind
                        &&& m_new.in_production == m_old.in_production
                        &&& m_new.state == m_old.state
                        &&& m_new.max_production == (if storage_target_upto(
                            *plan,
                            m_old.pos,
                            k as int,
                        ) {
                            MAX_PRODUCT_IN_STORAGE
                        } else {
                            m_old.max_production
                        })
                    },
                self.grid_wf(),
            decreases plan.steps@.len() - k,
        {
            let step = &plan.steps[k];
            let ghost pre = *self;
            if step.is_storage() {
                let pos = step.candidates[0];
                let i = self.idx_of(pos);
                let mut m = self.modules[i];
                m.max_production = MAX_PRODUCT_IN_STORAGE;
                self.modules.set(i, m);
                proof {
                    orig.lemma_pos_index(pos);
                }
            }
            k += 1;
            proof {
                assert forall|i: int|
                    0 <= i < self.modules@.len() implies (#[trigger] self.modules@[
                i]).max_production == (if storage_target_upto(
                    *plan,
                    orig.modules@[i].pos,
                    k as int,
                ) {
                    MAX_PRODUCT_IN_STORAGE
                } else {
                    orig.modules@[i].max_production
                }) by {
                    let p = orig.modules@[i].pos;
                    if storage_target_upto(*plan, p, k as int) {
                        let j = choose|j: int|
                            0 <= j < k && j < plan.steps@.len() && (#[trigger] plan.steps@[
                            j]).is_storage && plan.steps@[j].candidates@.len() >= 1
                                && plan.steps@[j].candidates@[0] == p;
                        if j < k - 1 {
                            assert(storage_target_upto(*plan, p, k - 1));
                        } else {
                            assert(plan.steps@[k - 1].is_storage);
                            assert(plan.steps@[k - 1].candidates@[0] == p);
                            orig.lemma_pos_index(p);
                        }
                    } else {
                        assert(!storage_target_upto(*plan, p, k - 1));
                        assert(self.modules@[i] == pre.modules@[i] || (plan.steps@[k
                            - 1].is_storage && plan.steps@[k - 1].candidates@[0]
                            != p));
                    }
                }
            }
        }
        proof {
            assert forall|i: int|
                0 <= i < self.modules@.len() implies (#[trigger] self.modules@[i]).max_production
                == (if storage_target(*plan, orig.modules@[i].pos) {
                MAX_PRODUCT_IN_STORAGE
            } else {
                orig.modules@[i].max_production
            }) by {
                let p = orig.modules@[i].pos;
                assert(storage_target(*plan, p) == storage_target_upto(
                    *plan,
                    p,
                    plan.steps@.len() as int,
                ));
            }
            if orig.wf() {
                assert forall|i: int|
                    0 <= i < final(self).modules@.len() implies (#[trigger] final(
                    self).modules@[i]).in_production == count_occupying(
                    final(self).products@,
                    final(self).modules@[i].pos,
                ) by {
                    assert(final(self).modules@[i].pos == orig.modules@[i].pos);
                    assert(final(self).modules@[i].in_production == orig.modules@[i].in_production);
                }
            }
        }
    }

    /// A copy of the module at `pos`, for callers and displays to inspect.
    pub fn module(&self, pos: GridPos) -> (m: Module)
        requires
            self.grid_wf(),
            self.in_bounds(pos),
        ensures
            m == self.module_at(pos),
    {
        let i = self.idx_of(pos);
        self.modules[i]
    }

    /// Spawn one item per active plan, exactly when its spawn module (the
    /// first stage's primary candidate) is functional and has capacity left
    /// after the earlier plans' spawns of this round; each spawn increments
    /// exactly that module's occupancy, and nothing spawns otherwise.
    /// Plans with fewer than two stages never spawn.
    #[verifier::rlimit(100)]
    #[verifier::spinoff_prover]
    pub fn spawn_from_plans(&mut self, plans: &Vec<ProductPlan>)
        requires
            old(self).wf(),
            forall|i: int, j: int|
                0 <= i < plans@.len() && 0 <= j < plans@[i].steps@.len() ==> step_wf(
                    #[trigger] plans@[i].steps@[j],
                    old(self).width as int,
                    old(self).height as int,
                ),
        ensures
            final(self).wf(),
            spawn_phase_ok(*old(self), plans@, *final(self)),
    {
        let ghost orig = *old(self);
        let mut pi: usize = 0;
        while pi < plans.len()
            invariant
                self.wf(),
                self.width == orig.width,
                self.height == orig.height,
                self.time_manager == orig.time_manager,
                self.current_scenario == orig.current_scenario,
                modules_static_eq(orig.modules@, self.modules@),
                orig.wf(),
                forall|k: int|
                    0 <= k < orig.products@.len() ==> self.products@[k] == orig.products@[k],
                pi <= plans@.len(),
                forall|i: int, j: int|
                    0 <= i < plans@.len() && 0 <= j < plans@[i].steps@.len() ==> step_wf(
                        #[trigger] plans@[i].steps@[j],
                        orig.width as int,
                        orig.height as int,
                    ),
                self.products@.len() == orig.products@.len() + spawn_total(
                    orig,
                    plans@,
                    pi as int,
                ),
                forall|j: int|
                    0 <= j < self.modules@.len() ==> (#[trigger] self.modules@[j]).in_production
                        == orig.modules@[j].in_production + spawned_into_before(
                        orig,
                        plans@,
                        pi as int,
                        orig.modules@[j].pos,
                    ),
                forall|i: int|
                    0 <= i < pi && #[trigger] plan_spawns(orig, plans@, i) ==> ({
                        let item = self.products@[orig.products@.len() as int + spawn_total(
                            orig,
                            plans@,
                            i,
                        )];
                        &&& item.occupied == plan_lane(plans@[i])
                        &&& item.color == plans@[i].color
                        &&& item.ligth_point@.current == center_of(plan_lane(plans@[i]))
                        &&& (item.state matches RoutingState::Waiting { resume_at, next_step }
                            && resume_at.millis == sat_add64(
                            orig.time_manager.virtual_now.millis,
                            plans@[i].steps@[0].production_time,
                        ) && step_matches(next_step, plans@[i].steps@[1]))
                    }),
            decreases plans@.len() - pi,
        {
            let ghost b0 = *self;
            let plan = &plans[pi];
            let mut spawned = false;
            if plan.steps.len() >= 2 {
                proof {
                    assert(step_wf(plans@[pi as int].steps@[0], orig.width as int, orig.height
                        as int));
                }
                let start = plan.steps[0].maschine_pos();
                proof {
                    orig.lemma_pos_index(start);
                    assert(self.modules@[orig.pos_index(start)].pos == start);
                    assert(self.module_at(start).in_production == orig.module_at(
                        start,
                    ).in_production + spawned_into_before(orig, plans@, pi as int, start));
                    assert(self.module_at(start).max_production == orig.module_at(
                        start,
                    ).max_production);
                    assert(self.module_at(start).state == orig.module_at(start).state);
                }
                if self.can_accept(start) {
                    proof {
                        assert(plan_spawns(orig, plans@, pi as int));
                    }
                    let steps_copy = duplicate_steps(&plan.steps);
                    proof {
                        assert(steps_copy@[0].candidates@ == plans@[pi as int].steps@[0
                        ].candidates@);
                    }
                    let product = Product::new(plan.color, steps_copy, &self.time_manager);
                    let i = self.idx_of(start);
                    let mut m = self.modules[i];
                    m.in_production = m.in_production + 1;
                    self.modules.set(i, m);
                    self.products.push(product);
                    spawned = true;
                    proof {
                        b0.lemma_pos_index(start);
                        assert forall|j: int|
                            0 <= j < self.modules@.len() implies (#[trigger] self.modules@[
                        j]).in_production == count_occupying(
                            self.products@,
                            self.modules@[j].pos,
                        ) by {
                            lemma_count_push(b0.products@, product, b0.modules@[j].pos);
                            assert(self.products@ == b0.products@.push(product));
                            assert(self.modules@[j].pos == b0.modules@[j].pos);
                            if j == i {
                                assert(b0.modules@[j].pos == start);
                            } else {
                                assert(b0.modules@[j].pos != start);
                                assert(self.modules@[j] == b0.modules@[j]);
                            }
                        }
                        assert forall|j: int|
                            0 <= j < self.modules@.len() implies (#[trigger] self.modules@[j]).pos
                            == self.pos_of_index(j) by {
                            assert(self.modules@[j].pos == b0.modules@[j].pos);
                        }
                        assert forall|k: int|
                            0 <= k < self.products@.len() implies product_wf(
                            #[trigger] self.products@[k],
                            self.width as int,
                            self.height as int,
                        ) by {
                            if k < b0.products@.len() {
                                assert(self.products@[k] == b0.products@[k]);
                            } else {
                                assert(self.products@[k] == product);
                                assert(step_wf(steps_copy@[1], orig.width as int, orig.height
                                    as int)) by {
                                    assert(steps_copy@[1].candidates@ == plans@[pi as int].steps@[1
                                    ].candidates@);
                                }
                            }
                        }
                        assert(self.wf());
                        assert(product.occupied == plan_lane(plans@[pi as int]));
                        assert(product.state matches RoutingState::Waiting {
                            resume_at,
                            next_step,
                        } && resume_at.millis == sat_add64(
                            orig.time_manager.virtual_now.millis,
                            plans@[pi as int].steps@[0].production_time,
                        ) && step_matches(next_step, plans@[pi as int].steps@[1])) by {
                            assert(steps_copy@[0].production_time == plans@[pi as int].steps@[0
                            ].production_time);
                            assert(steps_copy@[1].production_time == plans@[pi as int].steps@[1
                            ].production_time);
                            assert(steps_copy@[1].candidates@ == plans@[pi as int].steps@[1
                            ].candidates@);
                            assert(steps_copy@[1].is_storage == plans@[pi as int].steps@[1
                            ].is_storage);
                        }
                    }
                } else {
                    proof {
                        assert(!plan_spawns(orig, plans@, pi as int));
                    }
                }
            } else {
                proof {
                    assert(!plan_spawns(orig, plans@, pi as int));
                }
            }
            pi += 1;
            proof {
                assert(spawn_total(orig, plans@, pi as int) == spawn_total(
                    orig,
                    plans@,
                    pi - 1,
                ) + if plan_spawns(orig, plans@, pi - 1) {
                    1nat
                } else {
                    0nat
                });
                assert forall|j: int|
                    0 <= j < self.modules@.len() implies (#[trigger] self.modules@[
                j]).in_production == orig.modules@[j].in_production + spawned_into_before(
                    orig,
                    plans@,
                    pi as int,
                    orig.modules@[j].pos,
                ) by {
                    let p = orig.modules@[j].pos;
                    assert(spawned_into_before(orig, plans@, pi as int, p) == spawned_into_before(
                        orig,
                        plans@,
                        pi - 1,
                        p,
                    ) + if plan_spawns(orig, plans@, pi - 1) && plan_lane(plans@[pi - 1]) == p {
                        1nat
                    } else {
                        0nat
                    });
                    if spawned {
                        if p == plan_lane(plans@[pi - 1]) {
                            assert(j == orig.pos_index(p)) by {
                                orig.lemma_pos_index(p);
                            }
                        } else {
                            assert(self.modules@[j] == b0.modules@[j]);
                        }
                    }
                }
                assert forall|i: int|
                    0 <= i < pi && #[trigger] plan_spawns(orig, plans@, i) implies ({
                    let item = self.products@[orig.products@.len() as int + spawn_total(
                        orig,
                        plans@,
                        i,
                    )];
                    &&& item.occupied == plan_lane(plans@[i])
                    &&& item.color == plans@[i].color
                    &&& item.ligth_point@.current == center_of(plan_lane(plans@[i]))
                    &&& (item.state matches RoutingState::Waiting { resume_at, next_step }
                        && resume_at.millis == sat_add64(
                        orig.time_manager.virtual_now.millis,
                        plans@[i].steps@[0].production_time,
                    ) && step_matches(next_step, plans@[i].steps@[1]))
                }) by {
                    let idx = orig.products@.len() as int + spawn_total(orig, plans@, i);
                    if i < pi - 1 {
                        lemma_spawn_total_mono(orig, plans@, i, pi - 1);
                        assert(idx < b0.products@.len());
                        assert(self.products@[idx] == b0.products@[idx]);
                    } else {
                        assert(plan_spawns(orig, plans@, pi - 1));
                        assert(spawned);
                        assert(idx == b0.products@.len());
                    }
                }
            }
        }
    }

    /// Advance every in-flight item one tick, front to back: each item
    /// steps by the routing state machine; items that stay in flight are
    /// retained in order, with one display sample each; items whose tick
    /// completed have their slot released exactly once and are dropped.
    #[verifier::rlimit(100)]
    #[verifier::spinoff_prover]
    pub fn advance_products(&mut self, max_step: u32) -> (r: Vec<(FixedPos, u32)>)
        requires
            old(self).wf(),
        ensures
            final(self).wf(),
            final(self).width == old(self).width,
            final(self).height == old(self).height,
            final(self).time_manager == old(self).time_manager,
            final(self).current_scenario == old(self).current_scenario,
            modules_static_eq(old(self).modules@, final(self).modules@),
            r@.len() == final(self).products@.len(),
            forall|k: int|
                0 <= k < r@.len() ==> (#[trigger] r@[k]).0 == crate::product::product_position(
                    final(self).products@[k],
                ) && r@[k].1 == final(self).products@[k].color,
            exists|boards: Seq<Board>, advanced: Seq<Product>, results: Seq<Option<FixedPos>>|
                advance_trace_ok(
                    *old(self),
                    *final(self),
                    old(self).products@,
                    final(self).products@,
                    r@,
                    boards,
                    advanced,
                    results,
                    old(self).time_manager.virtual_now,
                    max_step,
                ),
    {
        let ghost orig = *old(self);
        let now = self.time_manager.now();
        let mut items: Vec<Product> = Vec::new();
        core::mem::swap(&mut items, &mut self.products);
        let mut kept: Vec<Product> = Vec::new();
        let mut out: Vec<(FixedPos, u32)> = Vec::new();
        let ghost n0 = orig.products@.len() as int;
        let ghost mut boards_g: Seq<Board> = seq![*self];
        let ghost mut advanced_g: Seq<Product> = Seq::empty();
        let ghost mut results_g: Seq<Option<FixedPos>> = Seq::empty();
        proof {
            assert(kept@ + items@ =~= orig.products@);
        }
        while items.len() > 0
            invariant
                self.grid_wf(),
                self.width == orig.width,
                self.height == orig.height,
                self.time_manager == orig.time_manager,
                self.current_scenario == orig.current_scenario,
                scenario_wf(self.current_scenario, self.width as int, self.height as int),
                self.products@.len() == 0,
                modules_static_eq(orig.modules@, self.modules@),
                forall|i: int|
                    0 <= i < self.modules@.len() ==> (#[trigger] self.modules@[i]).in_production
                        == count_occupying(kept@ + items@, self.modules@[i].pos),
                forall|k: int| 0 <= k < kept@.len() ==> product_wf(
                    #[trigger] kept@[k],
                    self.width as int,
                    self.height as int,
                ),
                forall|k: int| 0 <= k < items@.len() ==> product_wf(
                    #[trigger] items@[k],
                    self.width as int,
                    self.height as int,
                ),
                out@.len() == kept@.len(),
                forall|k: int|
                    0 <= k < out@.len() ==> (#[trigger] out@[k]).0
                        == crate::product::product_position(kept@[k]) && out@[k].1
                        == kept@[k].color,
                n0 == orig.products@.len(),
                items@.len() <= n0,
                items@ =~= orig.products@.skip(n0 - items@.len()),
                now == orig.time_manager.virtual_now,
                boards_g.len() == n0 - items@.len() + 1,
                advanced_g.len() == n0 - items@.len(),
                results_g.len() == n0 - items@.len(),
                boards_g[0].modules@ == orig.modules@,
                boards_g[boards_g.len() - 1] == *self,
                forall|k: int|
                    0 <= k < boards_g.len() ==> (#[trigger] boards_g[k]).width == orig.width
                        && boards_g[k].height == orig.height,
                kept@.len() == some_count(results_g, results_g.len() as int),
                forall|k: int|
                    #![trigger results_g[k]]
                    0 <= k < results_g.len() ==> match results_g[k] {
                        Option::Some(pos) => {
                            &&& step_relation(
                                orig.products@[k],
                                boards_g[k],
                                advanced_g[k],
                                boards_g[k + 1],
                                now,
                                max_step,
                                results_g[k],
                            )
                            &&& kept@[some_count(results_g, k) as int] == advanced_g[k]
                            &&& out@[some_count(results_g, k) as int] == (pos, advanced_g[k].color)
                        },
                        Option::None => {
                            &&& step_relation(
                                orig.products@[k],
                                boards_g[k],
                                advanced_g[k],
                                boards_g[k],
                                now,
                                max_step,
                                results_g[k],
                            )
                            &&& slot_released(
                                boards_g[k].modules@,
                                boards_g[k + 1].modules@,
                                boards_g[k].pos_index(advanced_g[k].occupied),
                            )
                        },
                    },
            decreases items@.len(),
        {
            let ghost items0 = items@;
            let ghost kept0 = kept@;
            let ghost b0 = *self;
            let ghost done = n0 - items0.len();
            let mut item = items.remove(0);
            proof {
                assert(items@ =~= items0.skip(1));
                assert(items@ =~= orig.products@.skip(done + 1));
                assert(items0[0] == orig.products@[done]);
                assert(product_wf(item, self.width as int, self.height as int));
                b0.lemma_pos_index(item.occupied);
                lemma_count_split_first(kept0, items0, item.occupied);
                assert(b0.module_at(item.occupied).in_production == count_occupying(
                    kept0 + items0,
                    item.occupied,
                )) by {
                    assert(b0.modules@[b0.pos_index(item.occupied)].pos == item.occupied);
                }
                assert(b0.module_at(item.occupied).in_production >= 1);
            }
            let res = item.next(self, now, max_step);
            proof {
                lemma_step_occ_shape(items0[0], b0, item, *self, now, max_step, res);
            }
            match res {
                Some(pos) => {
                    out.push((pos, item.color));
                    let ghost item1 = item;
                    kept.push(item);
                    proof {
                        assert forall|i: int|
                            0 <= i < self.modules@.len() implies (#[trigger] self.modules@[
                        i]).in_production == count_occupying(
                            kept@ + items@,
                            self.modules@[i].pos,
                        ) by {
                            let p = self.modules@[i].pos;
                            assert(p == b0.modules@[i].pos);
                            lemma_count_split_first(kept0, items0, p);
                            lemma_count_concat_push(kept0, item1, items0.skip(1), p);
                            assert(kept@ == kept0.push(item1));
                            if self.modules@ == b0.modules@ && item1.occupied == items0[0
                            ].occupied {
                            } else {
                                let from = b0.pos_index(items0[0].occupied);
                                let to = b0.pos_index(item1.occupied);
                                b0.lemma_pos_index(items0[0].occupied);
                                b0.lemma_pos_index(item1.occupied);
                                assert(occ_moved(b0.modules@, self.modules@, from, to));
                                assert((p == items0[0].occupied) <==> (i == from));
                                assert((p == item1.occupied) <==> (i == to));
                            }
                        }
                        let ghost results_old = results_g;
                        boards_g = boards_g.push(*self);
                        advanced_g = advanced_g.push(item1);
                        results_g = results_g.push(res);
                        assert(step_relation(
                            orig.products@[done],
                            boards_g[done],
                            item1,
                            boards_g[done + 1],
                            now,
                            max_step,
                            res,
                        )) by {
                            assert(boards_g[done] == b0);
                        }
                        lemma_some_count_push(results_old, res, done);
                        assert(results_g[done] == res);
                        assert(some_count(results_g, done + 1) == some_count(results_old, done)
                            + 1);
                        assert forall|k: int|
                            #![trigger results_g[k]]
                            0 <= k < results_g.len() implies match results_g[k] {
                            Option::Some(q) => {
                                &&& step_relation(
                                    orig.products@[k],
                                    boards_g[k],
                                    advanced_g[k],
                                    boards_g[k + 1],
                                    now,
                                    max_step,
                                    results_g[k],
                                )
                                &&& kept@[some_count(results_g, k) as int] == advanced_g[k]
                                &&& out@[some_count(results_g, k) as int] == (
                                    q,
                                    advanced_g[k].color,
                                )
                            },
                            Option::None => {
                                &&& step_relation(
                                    orig.products@[k],
                                    boards_g[k],
                                    advanced_g[k],
                                    boards_g[k],
                                    now,
                                    max_step,
                                    results_g[k],
                                )
                                &&& slot_released(
                                    boards_g[k].modules@,
                                    boards_g[k + 1].modules@,
                                    boards_g[k].pos_index(advanced_g[k].occupied),
                                )
                            },
                        } by {
                            if k < done {
                                lemma_some_count_push(results_old, res, k);
                                assert(results_g[k] == results_old[k]);
                                if results_old[k] is Some {
                                    lemma_some_count_mono(results_old, k, done);
                                    assert(some_count(results_old, k) < kept0.len());
                                    assert(kept@[some_count(results_g, k) as int] == kept0[
                                        some_count(results_old, k) as int]);
                                }
                            } else {
                                assert(k == done);
                                lemma_some_count_push(results_old, res, done);
                                assert(some_count(results_g, done) == some_count(
                                    results_old,
                                    done,
                                ));
                                assert(kept@[kept0.len() as int] == item1);
                                assert(out@[kept0.len() as int] == (pos, item1.color));
                            }
                        }
                    }
                },
                None => {
                    proof {
                        assert(self.modules@ == b0.modules@);
                        assert(item.occupied == items0[0].occupied);
                        b0.lemma_pos_index(item.occupied);
                        assert(self.module_at(item.occupied).in_production >= 1) by {
                            lemma_count_split_first(kept0, items0, item.occupied);
                            assert(b0.modules@[b0.pos_index(item.occupied)].pos == item.occupied);
                        }
                    }
                    let ghost b1 = *self;
                    item.finish(self);
                    proof {
                        assert forall|i: int|
                            0 <= i < self.modules@.len() implies (#[trigger] self.modules@[
                        i]).in_production == count_occupying(
                            kept@ + items@,
                            self.modules@[i].pos,
                        ) by {
                            let p = self.modules@[i].pos;
                            assert(p == b0.modules@[i].pos);
                            lemma_count_split_first(kept0, items0, p);
                            lemma_count_concat(kept0, items0.skip(1), p);
                            let idx = b1.pos_index(item.occupied);
                            b0.lemma_pos_index(item.occupied);
                            assert((p == item.occupied) <==> (i == idx));
                        }
                        let ghost results_old = results_g;
                        boards_g = boards_g.push(*self);
                        advanced_g = advanced_g.push(item);
                        results_g = results_g.push(res);
                        assert(step_relation(
                            orig.products@[done],
                            boards_g[done],
                            item,
                            boards_g[done],
                            now,
                            max_step,
                            res,
                        )) by {
                            assert(boards_g[done] == b0);
                            assert(step_relation(items0[0], b0, item, b1, now, max_step, res));
                            assert(b1.modules@ == b0.modules@);
                        }
                        assert(slot_released(
                            boards_g[done].modules@,
                            boards_g[done + 1].modules@,
                            boards_g[done].pos_index(item.occupied),
                        )) by {
                            assert(boards_g[done] == b0);
                            assert(b1.modules@ == b0.modules@);
                        }
                        lemma_some_count_push(results_old, res, done);
                        assert(results_g[done] == res);
                        assert(some_count(results_g, done + 1) == some_count(results_old, done));
                        assert forall|k: int|
                            #![trigger results_g[k]]
                            0 <= k < results_g.len() implies match results_g[k] {
                            Option::Some(q) => {
                                &&& step_relation(
                                    orig.products@[k],
                                    boards_g[k],
                                    advanced_g[k],
                                    boards_g[k + 1],
                                    now,
                                    max_step,
                                    results_g[k],
                                )
                                &&& kept@[some_count(results_g, k) as int] == advanced_g[k]
                                &&& out@[some_count(results_g, k) as int] == (
                                    q,
                                    advanced_g[k].color,
                                )
                            },
                            Option::None => {
                                &&& step_relation(
                                    orig.products@[k],
                                    boards_g[k],
                                    advanced_g[k],
                                    boards_g[k],
                                    now,
                                    max_step,
                                    results_g[k],
                                )
                                &&& slot_released(
                                    boards_g[k].modules@,
                                    boards_g[k + 1].modules@,
                                    boards_g[k].pos_index(advanced_g[k].occupied),
                                )
                            },
                        } by {
                            if k < done {
                                lemma_some_count_push(results_old, res, k);
                                assert(results_g[k] == results_old[k]);
                            }
                        }
                    }
                },
            }
        }
        self.products = kept;
        proof {
            assert forall|i: int|
                0 <= i < self.modules@.len() implies (#[trigger] self.modules@[i]).in_production
                == count_occupying(self.products@, self.modules@[i].pos) by {
                assert(kept@ + items@ =~= kept@);
                assert(count_occupying(kept@ + items@, self.modules@[i].pos) == count_occupying(
                    self.products@,
                    self.modules@[i].pos,
                ));
            }
            assert(advance_trace_ok(
                orig,
                *self,
                orig.products@,
                self.products@,
                out@,
                boards_g,
                advanced_g,
                results_g,
                orig.time_manager.virtual_now,
                max_step,
            ));
        }
        out
    }

    /// One simulation tick: advance the virtual clock by `real_delta_ms`
    /// real milliseconds, advance the scenario and fire its due injections,
    /// spawn new items from the active plans, and advance every in-flight
    /// item, releasing completed ones.
    ///
    /// Returns one continuous display position and color tag per item
    /// still in flight. The whole tick is pinned by `tick_phases_ok`: the
    /// clock/injection phase (`mid_board_ok`), the spawn phase
    /// (`spawn_phase_ok`), and the per-item advance phase
    /// (`advance_trace_ok`).
    #[verifier::rlimit(100)]
    #[verifier::spinoff_prover]
    pub fn update(&mut self, real_delta_ms: u64) -> (r: Vec<(FixedPos, u32)>)
        requires
            old(self).wf(),
        ensures
            final(self).wf(),
            final(self).width == old(self).width,
            final(self).height == old(self).height,
            final(self).modules@.len() == old(self).modules@.len(),
            forall|i: int|
                0 <= i < final(self).modules@.len() ==> {
                    &&& (#[trigger] final(self).modules@[i]).pos == old(self).modules@[i].pos
                    &&& final(self).modules@[i].kind == old(self).modules@[i].kind
                    &&& final(self).modules@[i].max_production == old(self).modules@[i].max_production
                },
            final(self).time_manager.speed_permille == old(self).time_manager.speed_permille,
            final(self).time_manager.last_virtual_delta_ms == scaled_delta(
                real_delta_ms,
                old(self).time_manager.speed_permille,
            ),
            final(self).time_manager.virtual_now.millis == sat_add64(
                old(self).time_manager.virtual_now.millis,
                final(self).time_manager.last_virtual_delta_ms,
            ),
            scenario_rank(final(self).current_scenario.state) >= scenario_rank(
                old(self).current_scenario.state,
            ),
            old(self).current_scenario.state is End ==> final(self).current_scenario.state is End,
            ({
                let now_millis = sat_add64(
                    old(self).time_manager.virtual_now.millis,
                    scaled_delta(real_delta_ms, old(self).time_manager.speed_permille),
                );
                let fired = old(self).current_scenario.machine_state_changes@.filter(
                    (|c: MachineStateChange| c.time.millis < now_millis),
                );
                forall|i: int|
                    0 <= i < final(self).modules@.len() ==> (#[trigger] final(self).modules@[i]).state == state_after_changes(
                        old(self).modules@[i].state,
                        old(self).modules@[i].pos,
                        fired,
                    )
            }),
            r@.len() == final(self).products@.len(),
            forall|k: int|
                0 <= k < r@.len() ==> (#[trigger] r@[k]).0 == crate::product::product_position(
                    final(self).products@[k],
                ) && r@[k].1 == final(self).products@[k].color,
            exists|mid: Board, plans: Seq<ProductPlan>, spawned: Board| tick_phases_ok(
                *old(self),
                *final(self),
                r@,
                real_delta_ms,
                mid,
                plans,
                spawned,
            ),
    {
        self.time_manager.update(real_delta_ms);
        let now = self.time_manager.now();
        let ghost before_scenario = self.current_scenario;
        let activated = self.current_scenario.update(now);
        proof {
            assert(scenario_wf(self.current_scenario, self.width as int, self.height as int)) by {
                assert forall|i: int|
                    0 <= i < self.current_scenario.machine_state_changes@.len() implies {
                    &&& 0 <= (#[trigger] self.current_scenario.machine_state_changes@[i]).pos.x
                        < self.width
                    &&& 0 <= self.current_scenario.machine_state_changes@[i].pos.y < self.height
                } by {
                    assert(before_scenario.machine_state_changes@.contains(
                        self.current_scenario.machine_state_changes@[i],
                    ));
                    let j = choose|j: int|
                        0 <= j < before_scenario.machine_state_changes@.len()
                            && before_scenario.machine_state_changes@[j]
                            == self.current_scenario.machine_state_changes@[i];
                    assert(0 <= before_scenario.machine_state_changes@[j].pos.x < self.width);
                }
            }
            assert(self.wf());
        }
        let ghost after_scenario = *self;
        proof {
            assert forall|k: int|
                0 <= k < activated@.len() implies self.in_bounds(
                (#[trigger] activated@[k]).pos,
            ) by {
                assert(before_scenario.machine_state_changes@.contains(activated@[k]));
                let j = choose|j: int|
                    0 <= j < before_scenario.machine_state_changes@.len()
                        && before_scenario.machine_state_changes@[j] == activated@[k];
                assert(0 <= before_scenario.machine_state_changes@[j].pos.x < self.width);
            }
        }
        let mut ai: usize = 0;
        while ai < activated.len()
            invariant
                self.wf(),
                self.width == after_scenario.width,
                self.height == after_scenario.height,
                self.time_manager == after_scenario.time_manager,
                self.current_scenario == after_scenario.current_scenario,
                self.products == after_scenario.products,
                ai <= activated@.len(),
                after_scenario.grid_wf(),
                self.modules@.len() == after_scenario.modules@.len(),
                forall|k: int|
                    0 <= k < activated@.len() ==> after_scenario.in_bounds(
                        (#[trigger] activated@[k]).pos,
                    ),
                forall|i: int|
                    0 <= i < self.modules@.len() ==> {
                        &&& (#[trigger] self.modules@[i]).pos == after_scenario.modules@[i].pos
                        &&& self.modules@[i].kind == after_scenario.modules@[i].kind
                        &&& self.modules@[i].max_production == after_scenario.modules@[
                        i].max_production
                        &&& self.modules@[i].state == state_after_changes(
                            after_scenario.modules@[i].state,
                            after_scenario.modules@[i].pos,
                            activated@.take(ai as int),
                        )
                    },
            decreases activated@.len() - ai,
        {
            let change = activated[ai];
            let ghost pre = *self;
            if self.inbounds(change.pos) {
                self.apply_state_change(change.pos, change.state);
            }
            ai += 1;
            proof {
                assert(activated@.take(ai as int).drop_last() =~= activated@.take(ai - 1));
                assert(activated@.take(ai as int).last() == activated@[ai - 1]);
                after_scenario.lemma_pos_index(change.pos);
                assert forall|i: int|
                    0 <= i < self.modules@.len() implies (#[trigger] self.modules@[i]).state
                    == state_after_changes(
                    after_scenario.modules@[i].state,
                    after_scenario.modules@[i].pos,
                    activated@.take(ai as int),
                ) by {
                    if i == after_scenario.pos_index(change.pos) {
                        assert(after_scenario.modules@[i].pos == change.pos);
                    } else {
                        assert(after_scenario.modules@[i].pos != change.pos);
                        assert(self.modules@[i] == pre.modules@[i]);
                    }
                }
            }
        }
        proof {
            assert(activated@.take(activated@.len() as int) =~= activated@);
            crate::scenario::lemma_filter_congruence(
                before_scenario.machine_state_changes@,
                (|c: MachineStateChange| crate::scenario::change_due(c, now)),
                (|c: MachineStateChange| c.time.millis < sat_add64(
                    old(self).time_manager.virtual_now.millis,
                    scaled_delta(real_delta_ms, old(self).time_manager.speed_permille),
                )),
            );
        }
        let ghost mid = *self;
        proof {
            crate::scenario::lemma_filter_congruence(
                before_scenario.machine_state_changes@,
                (|c: MachineStateChange| change_due(c, now)),
                (|c: MachineStateChange| change_due(
                    c,
                    VirtualInstant {
                        millis: sat_add64(
                            old(self).time_manager.virtual_now.millis,
                            scaled_delta(real_delta_ms, old(self).time_manager.speed_permille),
                        ),
                    },
                )),
            );
            crate::scenario::lemma_filter_congruence(
                before_scenario.machine_state_changes@,
                (|c: MachineStateChange| !change_due(c, now)),
                (|c: MachineStateChange| !change_due(
                    c,
                    VirtualInstant {
                        millis: sat_add64(
                            old(self).time_manager.virtual_now.millis,
                            scaled_delta(real_delta_ms, old(self).time_manager.speed_permille),
                        ),
                    },
                )),
            );
            assert(mid_board_ok(*old(self), real_delta_ms, mid));
        }
        let plans = self.current_scenario.current_steps();
        proof {
            assert(plans_match(plans@, phase_plans(mid.current_scenario)));
        }
        self.spawn_from_plans(&plans);
        let ghost spawned_b = *self;
        let delta = self.time_manager.last_virtual_delta();
        let scaled: u64 = if delta > u64::MAX / crate::constants::STEP_SIZE_PER_MS {
            u64::MAX
        } else {
            delta * crate::constants::STEP_SIZE_PER_MS
        };
        let max_step: u32 = if scaled > u32::MAX as u64 {
            u32::MAX
        } else {
            scaled as u32
        };
        proof {
            assert(max_step == tick_step_budget(mid.time_manager.last_virtual_delta_ms)) by {
                assert(u64::MAX / 3 == 6148914691236517205);
                assert(6148914691236517205u64 * 3 == u64::MAX);
            }
        }
        let r = self.advance_products(max_step);
        proof {
            let (boards, advanced, results): (
                Seq<Board>,
                Seq<Product>,
                Seq<Option<FixedPos>>,
            ) = choose|boards: Seq<Board>, advanced: Seq<Product>, results: Seq<
                Option<FixedPos>,
            >|
                advance_trace_ok(
                    spawned_b,
                    *self,
                    spawned_b.products@,
                    self.products@,
                    r@,
                    boards,
                    advanced,
                    results,
                    spawned_b.time_manager.virtual_now,
                    max_step,
                );
            assert(advance_trace_ok(
                spawned_b,
                *self,
                spawned_b.products@,
                self.products@,
                r@,
                boards,
                advanced,
                results,
                mid.time_manager.virtual_now,
                tick_step_budget(mid.time_manager.last_virtual_delta_ms),
            ));
            assert(tick_phases_ok(
                *old(self),
                *self,
                r@,
                real_delta_ms,
                mid,
                plans@,
                spawned_b,
            ));
        }
        r
    }
}

/// The total number of occupancy slots currently taken across the grid.
pub open spec fn total_occupancy(ms: Seq<Module>) -> nat
    decreases ms.len(),
{
    if ms.len() == 0 {
        0
    } else {
        total_occupancy(ms.drop_last()) + (ms.last().in_production as nat)
    }
}

/// The occupancy counts of `ms`'s modules, summed against `products`.
pub open spec fn sum_counts(ms: Seq<Module>, products: Seq<Product>) -> nat
    decreases ms.len(),
{
    if ms.len() == 0 {
        0
    } else {
        sum_counts(ms.drop_last(), products) + count_occupying(products, ms.last().pos)
    }
}

/// How many modules of `ms` sit at `pos`.
pub open spec fn occurrences(ms: Seq<Module>, pos: GridPos) -> nat
    decreases ms.len(),
{
    if ms.len() == 0 {
        0
    } else {
        occurrences(ms.drop_last(), pos) + if ms.last().pos == pos {
            1nat
        } else {
            0nat
        }
    }
}

proof fn lemma_total_eq_sum_counts(ms: Seq<Module>, products: Seq<Product>)
    requires
        forall|i: int|
            0 <= i < ms.len() ==> (#[trigger] ms[i]).in_production == count_occupying(
                products,
                ms[i].pos,
            ),
    ensures
        total_occupancy(ms) == sum_counts(ms, products),
    decreases ms.len(),
{
    if ms.len() > 0 {
        lemma_total_eq_sum_counts(ms.drop_last(), products);
        assert(ms.last() == ms[ms.len() - 1]);
    }
}

proof fn lemma_sum_counts_empty(ms: Seq<Module>)
    ensures
        sum_counts(ms, Seq::<Product>::empty()) == 0,
    decreases ms.len(),
{
    if ms.len() > 0 {
        lemma_sum_counts_empty(ms.drop_last());
    }
}

proof fn lemma_sum_counts_push(ms: Seq<Module>, products: Seq<Product>, p: Product)
    ensures
        sum_counts(ms, products.push(p)) == sum_counts(ms, products) + occurrences(
            ms,
            p.occupied,
        ),
    decreases ms.len(),
{
    if ms.len() > 0 {
        lemma_sum_counts_push(ms.drop_last(), products, p);
        lemma_count_push(products, p, ms.last().pos);
    }
}

proof fn lemma_occurrences_zero(ms: Seq<Module>, pos: GridPos)
    requires
        forall|j: int| 0 <= j < ms.len() ==> (#[trigger] ms[j]).pos != pos,
    ensures
        occurrences(ms, pos) == 0,
    decreases ms.len(),
{
    if ms.len() > 0 {
        lemma_occurrences_zero(ms.drop_last(), pos);
        assert(ms.last() == ms[ms.len() - 1]);
    }
}

proof fn lemma_occurrences_unique(ms: Seq<Module>, pos: GridPos, idx: int)
    requires
        0 <= idx < ms.len(),
        ms[idx].pos == pos,
        forall|j: int| 0 <= j < ms.len() && j != idx ==> (#[trigger] ms[j]).pos != pos,
    ensures
        occurrences(ms, pos) == 1,
    decreases ms.len(),
{
    if idx == ms.len() - 1 {
        lemma_occurrences_zero(ms.drop_last(), pos);
        assert(ms.last() == ms[ms.len() - 1]);
    } else {
        lemma_occurrences_unique(ms.drop_last(), pos, idx);
        assert(ms.last() == ms[ms.len() - 1]);
    }
}

proof fn lemma_sum_counts_len(b: Board, products: Seq<Product>)
    requires
        b.grid_wf(),
        forall|k: int| 0 <= k < products.len() ==> b.in_bounds(
            (#[trigger] products[k]).occupied,
        ),
    ensures
        sum_counts(b.modules@, products) == products.len(),
    decreases products.len(),
{
    if products.len() == 0 {
        assert(products =~= Seq::<Product>::empty());
        lemma_sum_counts_empty(b.modules@);
    } else {
        let rest = products.drop_last();
        let p = products.last();
        lemma_sum_counts_len(b, rest);
        assert(products =~= rest.push(p));
        lemma_sum_counts_push(b.modules@, rest, p);
        b.lemma_pos_index(p.occupied);
        lemma_occurrences_unique(b.modules@, p.occupied, b.pos_index(p.occupied));
    }
}

/// Conservation of occupancy, summed over the whole grid: on any
/// well-formed board, the occupancy counters add up to exactly the number
/// of in-flight items — every increment an item ever performed is matched
/// by exactly one decrement when it moves on or completes.
pub proof fn lemma_occupancy_conservation(b: Board)
    requires
        b.wf(),
    ensures
        total_occupancy(b.modules@) == b.products@.len(),
{
    lemma_total_eq_sum_counts(b.modules@, b.products@);
    lemma_sum_counts_len(b, b.products@);
}

} // verus!