//! Production steps, production plans, and the per-item routing state
//! machine.
//!
//! A `Product` is one in-flight item: it owns a path follower, the queue of
//! its remaining production steps, and a routing state. Every occupancy
//! increment it performs on the grid is matched by exactly one decrement;
//! the board-level invariant states this as: each module's occupancy equals
//! the number of in-flight items occupying it.

use vstd::prelude::*;

use crate::board::{modules_static_eq, occ_moved, Board};
use crate::ligth_point::{cell_ok, center_of, FixedPos, LigthPoint, CELL_SCALE};
use crate::module::GridPos;
use crate::pathfind::{connected, valid_path};
use crate::time_manager::{sat_add64, TimeManager, VirtualInstant};

verus! {

/// One stage of a production plan: a production/holding duration, the
/// candidate target modules (scanned in declared order, first free wins),
/// and whether the stage targets a storage resource. Immutable once built.
#[derive(Clone, Debug)]
pub struct Step {
    /// How long an item is held after reaching this stage's target, in
    /// virtual milliseconds.
    pub production_time: u64,
    /// Candidate target module positions; never empty.
    pub candidates: Vec<GridPos>,
    /// Whether the target is a designated storage resource.
    pub is_storage: bool,
}

/// A well-formed step for a `w` by `h` grid: at least one candidate, all of
/// them on the grid.
pub open spec fn step_wf(s: Step, w: int, h: int) -> bool {
    &&& s.candidates@.len() >= 1
    &&& forall|i: int|
        0 <= i < s.candidates@.len() ==> {
            &&& 0 <= (#[trigger] s.candidates@[i]).x < w
            &&& 0 <= s.candidates@[i].y < h
        }
}

impl Step {
    pub fn new(production_time: u64, candidates: Vec<GridPos>, is_storage: bool) -> (r: Step)
        requires
            candidates@.len() >= 1,
        ensures
            r.production_time == production_time,
            r.candidates@ == candidates@,
            r.is_storage == is_storage,
    {
        Step { production_time, candidates, is_storage }
    }

    /// Whether this stage targets a storage resource.
    pub fn is_storage(&self) -> (r: bool)
        ensures
            r == self.is_storage,
    {
        self.is_storage
    }

    /// The primary candidate target: the one scanned first.
    pub fn maschine_pos(&self) -> (r: GridPos)
        requires
            self.candidates@.len() >= 1,
        ensures
            r == self.candidates@[0],
    {
        self.candidates[0]
    }

    /// An owned copy equal to this step.
    pub fn duplicate(&self) -> (r: Step)
        ensures
            r.production_time == self.production_time,
            r.candidates@ == self.candidates@,
            r.is_storage == self.is_storage,
    {
        let mut candidates: Vec<GridPos> = Vec::new();
        let mut i: usize = 0;
        while i < self.candidates.len()
            invariant
                i <= self.candidates@.len(),
                candidates@.len() == i,
                forall|j: int| 0 <= j < i ==> candidates@[j] == self.candidates@[j],
            decreases self.candidates@.len() - i,
        {
            candidates.push(self.candidates[i]);
            i += 1;
        }
        proof {
            assert(candidates@ =~= self.candidates@);
        }
        Step { production_time: self.production_time, candidates, is_storage: self.is_storage }
    }
}

/// Copy a whole step sequence.
pub fn duplicate_steps(steps: &Vec<Step>) -> (r: Vec<Step>)
    ensures
        r@.len() == steps@.len(),
        forall|i: int|
            0 <= i < steps@.len() ==> {
                &&& (#[trigger] r@[i]).production_time == steps@[i].production_time
                &&& r@[i].candidates@ == steps@[i].candidates@
                &&& r@[i].is_storage == steps@[i].is_storage
            },
{
    let mut out: Vec<Step> = Vec::new();
    let mut i: usize = 0;
    while i < steps.len()
        invariant
            i <= steps@.len(),
            out@.len() == i,
            forall|j: int|
                0 <= j < i ==> {
                    &&& (#[trigger] out@[j]).production_time == steps@[j].production_time
                    &&& out@[j].candidates@ == steps@[j].candidates@
                    &&& out@[j].is_storage == steps@[j].is_storage
                },
        decreases steps@.len() - i,
    {
        out.push(steps[i].duplicate());
        i += 1;
    }
    out
}

/// An ordered sequence of production steps plus a display color tag
/// (0xRRGGBB). Immutable; every item spawned from the same lane follows the
/// same plan.
#[derive(Clone, Debug)]
pub struct ProductPlan {
    pub steps: Vec<Step>,
    pub color: u32,
}

/// A plan the engine will run: at least two steps (the spawn stage and one
/// further stage), each step well-formed for the grid.
pub open spec fn plan_wf(p: ProductPlan, w: int, h: int) -> bool {
    &&& p.steps@.len() >= 2
    &&& forall|i: int| 0 <= i < p.steps@.len() ==> step_wf(#[trigger] p.steps@[i], w, h)
}

impl ProductPlan {
    pub fn new(steps: Vec<Step>, color: u32) -> (r: ProductPlan)
        ensures
            r.steps@ == steps@,
            r.color == color,
    {
        ProductPlan { steps, color }
    }

    /// An owned copy equal to this plan.
    pub fn duplicate(&self) -> (r: ProductPlan)
        ensures
            r.steps@.len() == self.steps@.len(),
            forall|i: int|
                0 <= i < self.steps@.len() ==> {
                    &&& (#[trigger] r.steps@[i]).production_time == self.steps@[i].production_time
                    &&& r.steps@[i].candidates@ == self.steps@[i].candidates@
                    &&& r.steps@[i].is_storage == self.steps@[i].is_storage
                },
            r.color == self.color,
    {
        ProductPlan { steps: duplicate_steps(&self.steps), color: self.color }
    }
}

/// The routing state of one in-flight item. Exactly one is active at a
/// time, carrying only the data that state needs.
#[derive(Clone, Debug)]
pub enum RoutingState {
    /// Dwelling at the current module until `resume_at`, then heading for
    /// `next_step`.
    Waiting { resume_at: VirtualInstant, next_step: Step },
    /// Dwell over, but no candidate target of `next_step` accepts yet (or
    /// none is reachable): the item visibly blocks in place.
    WaitingForFreeResource { next_step: Step },
    /// Under way; after arrival the item dwells for `hold_duration`
    /// milliseconds.
    Moving { hold_duration: u64 },
}

/// One in-flight item following a plan through the grid.
#[derive(Clone, Debug)]
pub struct Product {
    /// Production steps not yet begun (beyond the one carried by the state).
    pub remaining_steps: Vec<Step>,
    /// The continuous position tracker.
    pub ligth_point: LigthPoint,
    /// Display color tag (0xRRGGBB).
    pub color: u32,
    pub state: RoutingState,
    /// The module whose occupancy this item currently counts against.
    pub occupied: GridPos,
}

/// The continuous position an item reports.
pub open spec fn product_position(p: Product) -> FixedPos {
    p.ligth_point@.current
}

/// A well-formed in-flight item for a `w` by `h` grid.
pub open spec fn product_wf(p: Product, w: int, h: int) -> bool {
    &&& p.ligth_point@.wf()
    &&& 0 <= p.ligth_point@.current.x < w * CELL_SCALE
    &&& 0 <= p.ligth_point@.current.y < h * CELL_SCALE
    &&& 0 <= p.ligth_point@.target.x < w * CELL_SCALE
    &&& 0 <= p.ligth_point@.target.y < h * CELL_SCALE
    &&& 0 <= p.occupied.x < w && 0 <= p.occupied.y < h
    &&& forall|i: int| 0 <= i < p.remaining_steps@.len() ==> step_wf(
        #[trigger] p.remaining_steps@[i],
        w,
        h,
    )
    &&& match p.state {
        RoutingState::Waiting { next_step, .. } => step_wf(next_step, w, h),
        RoutingState::WaitingForFreeResource { next_step } => step_wf(next_step, w, h),
        RoutingState::Moving { .. } => true,
    }
    &&& forall|i: int| 0 <= i < p.ligth_point@.remaining.len() ==> {
        &&& 0 <= (#[trigger] p.ligth_point@.remaining[i]).x < w
        &&& 0 <= p.ligth_point@.remaining[i].y < h
    }
}

/// How many items of `products` currently occupy the module at `pos`.
pub open spec fn count_occupying(products: Seq<Product>, pos: GridPos) -> nat
    decreases products.len(),
{
    if products.len() == 0 {
        0
    } else {
        count_occupying(products.drop_last(), pos) + if products.last().occupied == pos {
            1nat
        } else {
            0nat
        }
    }
}

/// Appending an item adds its one occupancy contribution.
pub proof fn lemma_count_push(products: Seq<Product>, p: Product, pos: GridPos)
    ensures
        count_occupying(products.push(p), pos) == count_occupying(products, pos) + if p.occupied
            == pos {
            1nat
        } else {
            0nat
        },
{
    assert(products.push(p).drop_last() =~= products);
}

/// Occupancy counts distribute over concatenation.
pub proof fn lemma_count_concat(a: Seq<Product>, b: Seq<Product>, pos: GridPos)
    ensures
        count_occupying(a + b, pos) == count_occupying(a, pos) + count_occupying(b, pos),
    decreases b.len(),
{
    if b.len() == 0 {
        assert(a + b =~= a);
    } else {
        lemma_count_concat(a, b.drop_last(), pos);
        assert((a + b).drop_last() =~= a + b.drop_last());
        assert((a + b).last() == b.last());
    }
}

/// An occupancy count splits off the first item.
pub proof fn lemma_count_first(products: Seq<Product>, pos: GridPos)
    requires
        products.len() > 0,
    ensures
        count_occupying(products, pos) == count_occupying(products.skip(1), pos) + if products[
            0].occupied == pos {
            1nat
        } else {
            0nat
        },
{
    let first = seq![products[0]];
    assert(count_occupying(Seq::<Product>::empty(), pos) == 0);
    assert(first.drop_last() =~= Seq::<Product>::empty());
    assert(first.last() == products[0]);
    assert(count_occupying(first, pos) == if products[0].occupied == pos {
        1nat
    } else {
        0nat
    });
    lemma_count_concat(first, products.skip(1), pos);
    assert(first + products.skip(1) =~= products);
}

/// An occupancy count over a concatenation whose right part is split at
/// its first item.
pub proof fn lemma_count_split_first(kept: Seq<Product>, items: Seq<Product>, pos: GridPos)
    requires
        items.len() > 0,
    ensures
        count_occupying(kept + items, pos) == count_occupying(kept, pos) + count_occupying(
            items.skip(1),
            pos,
        ) + (if items[0].occupied == pos {
            1nat
        } else {
            0nat
        }),
{
    lemma_count_concat(kept, items, pos);
    lemma_count_first(items, pos);
}

/// An occupancy count over a concatenation whose left part grows by one.
pub proof fn lemma_count_concat_push(
    kept: Seq<Product>,
    p: Product,
    items: Seq<Product>,
    pos: GridPos,
)
    ensures
        count_occupying(kept.push(p) + items, pos) == count_occupying(kept, pos)
            + count_occupying(items, pos) + (if p.occupied == pos {
            1nat
        } else {
            0nat
        }),
{
    lemma_count_concat(kept.push(p), items, pos);
    lemma_count_push(kept, p, pos);
}

/// Two steps carry the same stage data, whatever their allocations.
pub open spec fn step_matches(a: Step, b: Step) -> bool {
    &&& a.production_time == b.production_time
    &&& a.candidates@ == b.candidates@
    &&& a.is_storage == b.is_storage
}

/// Two routing states carry the same data.
pub open spec fn state_matches(a: RoutingState, b: RoutingState) -> bool {
    match (a, b) {
        (
            RoutingState::Waiting { resume_at: ra, next_step: na },
            RoutingState::Waiting { resume_at: rb, next_step: nb },
        ) => ra == rb && step_matches(na, nb),
        (
            RoutingState::WaitingForFreeResource { next_step: na },
            RoutingState::WaitingForFreeResource { next_step: nb },
        ) => step_matches(na, nb),
        (RoutingState::Moving { hold_duration: da }, RoutingState::Moving { hold_duration: db }) => da
            == db,
        _ => false,
    }
}

/// The grid cell an item's continuous position lies in.
pub open spec fn follower_cell(p: Product) -> GridPos {
    GridPos {
        x: (p.ligth_point@.current.x / CELL_SCALE) as i32,
        y: (p.ligth_point@.current.y / CELL_SCALE) as i32,
    }
}

/// The first candidate of `cands`, from `i` on, that currently accepts an
/// item; `None` when none does.
pub open spec fn first_free_from(board: Board, cands: Seq<GridPos>, i: int) -> Option<int>
    decreases cands.len() - i,
{
    if i < 0 || i >= cands.len() {
        None
    } else if board.accepts(cands[i]) {
        Some(i)
    } else {
        first_free_from(board, cands, i + 1)
    }
}

/// The candidate a blocked item picks: the first accepting one, scanned in
/// declared order.
pub open spec fn first_free_candidate(board: Board, step: Step) -> Option<int> {
    first_free_from(board, step.candidates@, 0)
}

/// A scan that rejected everything before `k` and accepts at `k` (or ran
/// out) pins down the first accepting candidate.
proof fn lemma_first_free_from(board: Board, cands: Seq<GridPos>, i: int, k: int)
    requires
        0 <= i <= k <= cands.len(),
        forall|j: int| i <= j < k ==> !board.accepts(#[trigger] cands[j]),
        k < cands.len() ==> board.accepts(cands[k]),
    ensures
        first_free_from(board, cands, i) == if k < cands.len() {
            Some(k)
        } else {
            Option::<int>::None
        },
    decreases k - i,
{
    if i < k {
        lemma_first_free_from(board, cands, i + 1, k);
    }
}

impl Product {
    /// A freshly spawned item: parked on the first stage's primary target,
    /// dwelling for that stage's duration, then heading for the second
    /// stage. The caller accounts its occupancy slot at the spawn module.
    pub fn new(color: u32, steps: Vec<Step>, time_manager: &TimeManager) -> (r: Product)
        requires
            steps@.len() >= 2,
            steps@[0].candidates@.len() >= 1,
            cell_ok(steps@[0].candidates@[0]),
        ensures
            r.color == color,
            r.occupied == steps@[0].candidates@[0],
            r.ligth_point@.current == center_of(steps@[0].candidates@[0]),
            r.ligth_point@.target == r.ligth_point@.current,
            r.ligth_point@.remaining.len() == 0,
            r.state matches RoutingState::Waiting { resume_at, next_step } && resume_at.millis
                == sat_add64(time_manager.virtual_now.millis, steps@[0].production_time)
                && step_matches(next_step, steps@[1]),
            r.remaining_steps@ == steps@.skip(2),
    {
        let mut steps = steps;
        let first = steps.remove(0);
        let next_step = steps.remove(0);
        let start = first.maschine_pos();
        let mut spawn_path: Vec<GridPos> = Vec::new();
        spawn_path.push(start);
        let ligth_point = LigthPoint::new(spawn_path);
        let resume_at = time_manager.now().plus_millis(first.production_time);
        Product {
            remaining_steps: steps,
            ligth_point,
            color,
            state: RoutingState::Waiting { resume_at, next_step },
            occupied: start,
        }
    }

    /// Release the occupancy slot of a completed item: decrement the module
    /// it last occupied.
    pub fn finish(&self, board: &mut Board)
        requires
            old(board).grid_wf(),
            old(board).in_bounds(self.occupied),
            old(board).module_at(self.occupied).in_production >= 1,
        ensures
            final(board).grid_wf(),
            final(board).width == old(board).width,
            final(board).height == old(board).height,
            final(board).time_manager == old(board).time_manager,
            final(board).current_scenario == old(board).current_scenario,
            final(board).products == old(board).products,
            modules_static_eq(old(board).modules@, final(board).modules@),
            forall|i: int|
                0 <= i < final(board).modules@.len() ==> (#[trigger] final(board).modules@[i]).in_production == old(board).modules@[i].in_production - (if i == old(board).pos_index(self.occupied) {
                    1int
                } else {
                    0int
                }),
    {
        proof {
            old(board).lemma_pos_index(self.occupied);
        }
        let i = board.idx_of(self.occupied);
        let mut m = board.modules[i];
        m.in_production = m.in_production - 1;
        board.modules.set(i, m);
        proof {
            assert forall|j: int|
                0 <= j < final(board).modules@.len() implies (#[trigger] final(board).modules@[j]).pos == final(board).pos_of_index(j) by {
                assert(final(board).modules@[j].pos == old(board).modules@[j].pos);
            }
        }
    }
}

/// The full per-tick relation of the routing state machine: given the
/// clock reading and motion budget of this tick, how one item and the grid
/// change together, case by case over the item's state.
pub open spec fn step_relation(
    p0: Product,
    b0: Board,
    p1: Product,
    b1: Board,
    now: VirtualInstant,
    max_step: u32,
    r: Option<FixedPos>,
) -> bool {
    match p0.state {
        RoutingState::Waiting { resume_at, next_step } => {
            &&& r is Some
            &&& b1.modules@ == b0.modules@
            &&& p1.occupied == p0.occupied
            &&& p1.ligth_point@ == p0.ligth_point@
            &&& p1.remaining_steps@ == p0.remaining_steps@
            &&& if now.millis >= resume_at.millis {
                p1.state matches RoutingState::WaitingForFreeResource { next_step: ns }
                    && step_matches(ns, next_step)
            } else {
                state_matches(p1.state, p0.state)
            }
        },
        RoutingState::WaitingForFreeResource { next_step } => {
            &&& r is Some
            &&& p1.remaining_steps@ == p0.remaining_steps@
            &&& p1.ligth_point@.current == p0.ligth_point@.current
            &&& match first_free_candidate(b0, next_step) {
                Option::None => {
                    &&& b1.modules@ == b0.modules@
                    &&& p1.occupied == p0.occupied
                    &&& p1.ligth_point@ == p0.ligth_point@
                    &&& state_matches(p1.state, p0.state)
                },
                Option::Some(c) => {
                    let tgt = next_step.candidates@[c];
                    if connected(b0, follower_cell(p0), tgt) {
                        &&& occ_moved(
                            b0.modules@,
                            b1.modules@,
                            b0.pos_index(p0.occupied),
                            b0.pos_index(tgt),
                        )
                        &&& p1.occupied == tgt
                        &&& (p1.state matches RoutingState::Moving { hold_duration }
                            && hold_duration == next_step.production_time)
                    } else {
                        &&& b1.modules@ == b0.modules@
                        &&& p1.occupied == p0.occupied
                        &&& p1.ligth_point@ == p0.ligth_point@
                        &&& state_matches(p1.state, p0.state)
                    }
                },
            }
        },
        RoutingState::Moving { hold_duration } => {
            &&& b1.modules@ == b0.modules@
            &&& p1.occupied == p0.occupied
            &&& if !p0.ligth_point@.arrived() {
                &&& r is Some
                &&& p1.ligth_point@ == p0.ligth_point@.advance_spec(max_step as int)
                &&& p1.remaining_steps@ == p0.remaining_steps@
                &&& state_matches(p1.state, p0.state)
            } else if p0.remaining_steps@.len() > 0 {
                &&& r is Some
                &&& p1.ligth_point@ == p0.ligth_point@
                &&& p1.remaining_steps@ == p0.remaining_steps@.skip(1)
                &&& (p1.state matches RoutingState::Waiting { resume_at, next_step: ns }
                    && resume_at.millis == sat_add64(now.millis, hold_duration) && step_matches(
                    ns,
                    p0.remaining_steps@[0],
                ))
            } else {
                &&& r is None
                &&& p1.ligth_point@ == p0.ligth_point@
                &&& p1.remaining_steps@ == p0.remaining_steps@
                &&& state_matches(p1.state, p0.state)
            }
        },
    }
}

impl Product {
    /// One tick of the routing state machine, against the grid in `board`,
    /// the virtual clock reading `now`, and a motion budget of `max_step`
    /// fixed-point units.
    ///
    /// Returns the position to display, or `None` once the item has
    /// consumed its last step and arrived: the caller must then release its
    /// occupancy slot with `finish` and drop the item.
    #[verifier::rlimit(100)]
    #[verifier::spinoff_prover]
    pub fn next(&mut self, board: &mut Board, now: VirtualInstant, max_step: u32) -> (r: Option<
        FixedPos,
    >)
        requires
            old(board).grid_wf(),
            product_wf(*old(self), old(board).width as int, old(board).height as int),
            old(board).module_at(old(self).occupied).in_production >= 1,
        ensures
            final(board).grid_wf(),
            final(board).width == old(board).width,
            final(board).height == old(board).height,
            final(board).time_manager == old(board).time_manager,
            final(board).current_scenario == old(board).current_scenario,
            final(board).products == old(board).products,
            modules_static_eq(old(board).modules@, final(board).modules@),
            product_wf(*final(self), old(board).width as int, old(board).height as int),
            final(self).color == old(self).color,
            step_relation(*old(self), *old(board), *final(self), *final(board), now, max_step, r),
            r is Some ==> r->0 == product_position(*final(self)),
            max_step == 0 ==> product_position(*final(self)) == product_position(*old(self)),
    {
        let ghost w = old(board).width as int;
        let ghost h = old(board).height as int;
        match &self.state {
            RoutingState::Waiting { resume_at, next_step } => {
                let fired = now.millis >= resume_at.millis;
                if fired {
                    let ns = next_step.duplicate();
                    self.state = RoutingState::WaitingForFreeResource { next_step: ns };
                }
                Some(self.ligth_point.current())
            },
            RoutingState::WaitingForFreeResource { next_step } => {
                let step_copy = next_step.duplicate();
                let ncand = step_copy.candidates.len();
                let mut ci: usize = 0;
                let mut found: bool = false;
                while ci < ncand && !found
                    invariant
                        board.grid_wf(),
                        *board == *old(board),
                        ncand == step_copy.candidates@.len(),
                        step_wf(step_copy, board.width as int, board.height as int),
                        ci <= ncand,
                        !found ==> forall|j: int|
                            0 <= j < ci ==> !board.accepts(#[trigger] step_copy.candidates@[j]),
                        found ==> ci < ncand && board.accepts(step_copy.candidates@[ci as int])
                            && forall|j: int|
                            0 <= j < ci ==> !board.accepts(#[trigger] step_copy.candidates@[j]),
                    decreases ncand - ci, (if found { 0int } else { 1int }),
                {
                    let cand = step_copy.candidates[ci];
                    if board.can_accept(cand) {
                        found = true;
                    } else {
                        ci += 1;
                    }
                }
                proof {
                    if found {
                        lemma_first_free_from(
                            *board,
                            step_copy.candidates@,
                            0,
                            ci as int,
                        );
                    } else {
                        lemma_first_free_from(
                            *board,
                            step_copy.candidates@,
                            0,
                            ncand as int,
                        );
                    }
                }
                if !found {
                    return Some(self.ligth_point.current());
                }
                let tgt = step_copy.candidates[ci];
                let cell = self.ligth_point.current_cell();
                proof {
                    vstd::arithmetic::div_mod::lemma_div_pos_is_pos(
                        old(self).ligth_point@.current.x as int,
                        CELL_SCALE as int,
                    );
                    vstd::arithmetic::div_mod::lemma_div_pos_is_pos(
                        old(self).ligth_point@.current.y as int,
                        CELL_SCALE as int,
                    );
                    vstd::arithmetic::div_mod::lemma_multiply_divide_lt(
                        old(self).ligth_point@.current.x as int,
                        CELL_SCALE as int,
                        w,
                    );
                    vstd::arithmetic::div_mod::lemma_multiply_divide_lt(
                        old(self).ligth_point@.current.y as int,
                        CELL_SCALE as int,
                        h,
                    );
                    assert(board.in_bounds(cell));
                    assert(cell == follower_cell(*old(self)));
                }
                let path = board.find_path(cell, tgt);
                if path.len() == 0 {
                    proof {
                        assert(!connected(*board, cell, tgt));
                    }
                    return Some(self.ligth_point.current());
                }
                proof {
                    assert(valid_path(*board, cell, tgt, path@));
                    assert forall|k: int| 0 <= k < path@.len() implies cell_ok(
                        #[trigger] path@[k],
                    ) && 0 <= path@[k].x < w && 0 <= path@[k].y < h by {
                        if k == 0 {
                            assert(path@[0] == cell);
                        } else {
                            assert(crate::pathfind::step_target_ok(*board, tgt, path@[k]));
                        }
                    }
                    old(board).lemma_pos_index(old(self).occupied);
                    old(board).lemma_pos_index(tgt);
                }
                let from_idx = board.idx_of(self.occupied);
                let mut m = board.modules[from_idx];
                m.in_production = m.in_production - 1;
                board.modules.set(from_idx, m);
                self.ligth_point.set_new_target(path);
                let to_idx = board.idx_of(tgt);
                let mut m2 = board.modules[to_idx];
                m2.in_production = m2.in_production + 1;
                board.modules.set(to_idx, m2);
                self.occupied = tgt;
                self.state = RoutingState::Moving { hold_duration: step_copy.production_time };
                proof {
                    assert forall|j: int|
                        0 <= j < board.modules@.len() implies (#[trigger] board.modules@[j]).pos
                        == board.pos_of_index(j) by {
                        assert(board.modules@[j].pos == old(board).modules@[j].pos);
                    }
                    assert(board.grid_wf());
                }
                Some(self.ligth_point.current())
            },
            RoutingState::Moving { hold_duration } => {
                let hold: u64 = *hold_duration;
                let moved = self.ligth_point.next(max_step);
                match moved {
                    Some(pos) => {
                        proof {
                            let m0 = old(self).ligth_point@;
                            let m1 = self.ligth_point@;
                            if m0.current == m0.target && m0.remaining.len() > 0 {
                                assert(m1.target == center_of(m0.remaining[0]));
                                assert(0 <= m0.remaining[0].x < w && 0 <= m0.remaining[0].y < h);
                            } else {
                                crate::ligth_point::lemma_move_coord_between(
                                    m0.current.y as int,
                                    m0.target.y as int,
                                    (if max_step > i32::MAX as u32 {
                                        i32::MAX as u32
                                    } else {
                                        max_step
                                    }) as int,
                                );
                                crate::ligth_point::lemma_move_coord_between(
                                    m0.current.x as int,
                                    m0.target.x as int,
                                    (if max_step > i32::MAX as u32 {
                                        i32::MAX as u32
                                    } else {
                                        max_step
                                    }) as int,
                                );
                                crate::ligth_point::lemma_move_coord_between(
                                    m0.current.y as int,
                                    m0.target.y as int,
                                    max_step as int,
                                );
                                crate::ligth_point::lemma_move_coord_between(
                                    m0.current.x as int,
                                    m0.target.x as int,
                                    max_step as int,
                                );
                            }
                        }
                        Some(pos)
                    },
                    None => {
                        if self.remaining_steps.len() > 0 {
                            let step = self.remaining_steps.remove(0);
                            self.state = RoutingState::Waiting {
                                resume_at: now.plus_millis(hold),
                                next_step: step,
                            };
                            Some(self.ligth_point.current())
                        } else {
                            None
                        }
                    },
                }
            },
        }
    }
}

/// Collapse the per-case relation to what occupancy accounting needs: a
/// tick either leaves the grid's occupancies alone, or moves exactly the
/// item's own slot; a completed item never touched them.
pub proof fn lemma_step_occ_shape(
    p0: Product,
    b0: Board,
    p1: Product,
    b1: Board,
    now: VirtualInstant,
    max_step: u32,
    r: Option<FixedPos>,
)
    requires
        step_relation(p0, b0, p1, b1, now, max_step, r),
    ensures
        (b1.modules@ == b0.modules@ && p1.occupied == p0.occupied) || occ_moved(
            b0.modules@,
            b1.modules@,
            b0.pos_index(p0.occupied),
            b0.pos_index(p1.occupied),
        ),
        r is None ==> b1.modules@ == b0.modules@ && p1.occupied == p0.occupied,
{
}

} // verus!
