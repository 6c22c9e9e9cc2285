//! Static configuration: the default grid dimensions and layout, display
//! colors, the motion pace, and the two default production plans.
//!
//! Built once at startup and treated as read-only afterwards.

use vstd::prelude::*;

use crate::module::{GridPos, ModuleType, ShortModuleType};
use crate::product::{plan_wf, step_wf, ProductPlan, Step};

verus! {

/// Default grid width in modules.
pub const X_NUM_MODULES: usize = 6;

/// Default grid height in modules.
pub const Y_NUM_MODULES: usize = 4;

/// Motion pace: fixed-point units travelled per virtual millisecond
/// (3 cells per virtual second).
pub const STEP_SIZE_PER_MS: u64 = 3;

pub const GREEN: u32 = 0x00FF00;

pub const RED: u32 = 0xFF0000;

/// The exact default layout, row-major.
pub open spec fn default_layout_seq() -> Seq<ModuleType> {
    seq![
        ModuleType::Weg,
        ModuleType::Fraese,
        ModuleType::Weg,
        ModuleType::Lager,
        ModuleType::Weg,
        ModuleType::Fraese,
        ModuleType::Fraese,
        ModuleType::Weg,
        ModuleType::Fraese,
        ModuleType::Weg,
        ModuleType::Fraese,
        ModuleType::Weg,
        ModuleType::Fraese,
        ModuleType::Weg,
        ModuleType::Weg,
        ModuleType::Weg,
        ModuleType::Weg,
        ModuleType::Fraese,
        ModuleType::Weg,
        ModuleType::Lager,
        ModuleType::Fraese,
        ModuleType::Fraese,
        ModuleType::Lager,
        ModuleType::Weg,
    ]
}

/// The default 6 by 4 layout, row-major: machine, storage and corridor
/// roles placed so that both default lanes are corridor-connected.
pub fn default_layout() -> (r: Vec<ModuleType>)
    ensures
        r@.len() == X_NUM_MODULES * Y_NUM_MODULES,
        r@ == default_layout_seq(),
{
    let mut shorts: Vec<ShortModuleType> = Vec::new();
    shorts.push(ShortModuleType::we);
    shorts.push(ShortModuleType::fr);
    shorts.push(ShortModuleType::we);
    shorts.push(ShortModuleType::la);
    shorts.push(ShortModuleType::we);
    shorts.push(ShortModuleType::fr);
    shorts.push(ShortModuleType::fr);
    shorts.push(ShortModuleType::we);
    shorts.push(ShortModuleType::fr);
    shorts.push(ShortModuleType::we);
    shorts.push(ShortModuleType::fr);
    shorts.push(ShortModuleType::we);
    shorts.push(ShortModuleType::fr);
    shorts.push(ShortModuleType::we);
    shorts.push(ShortModuleType::we);
    shorts.push(ShortModuleType::we);
    shorts.push(ShortModuleType::we);
    shorts.push(ShortModuleType::fr);
    shorts.push(ShortModuleType::we);
    shorts.push(ShortModuleType::la);
    shorts.push(ShortModuleType::fr);
    shorts.push(ShortModuleType::fr);
    shorts.push(ShortModuleType::la);
    shorts.push(ShortModuleType::we);
    let r = ShortModuleType::array_make_long(&shorts);
    proof {
        assert(r@ =~= default_layout_seq());
    }
    r
}

/// One stage's data, pinned exactly: its dwell, its single candidate
/// target, and its storage flag.
pub open spec fn step_data(s: Step, duration: u64, x: int, y: int, storage: bool) -> bool {
    &&& s.production_time == duration
    &&& s.candidates@.len() == 1
    &&& s.candidates@[0].x == x
    &&& s.candidates@[0].y == y
    &&& s.is_storage == storage
}

/// The exact stage table of the default top lane.
pub open spec fn top_lane_plan(p: ProductPlan) -> bool {
    &&& p.color == GREEN
    &&& p.steps@.len() == 8
    &&& step_data(p.steps@[0], 1000, 0, 1, false)
    &&& step_data(p.steps@[1], 1000, 1, 0, false)
    &&& step_data(p.steps@[2], 2500, 2, 1, false)
    &&& step_data(p.steps@[3], 1000, 3, 0, true)
    &&& step_data(p.steps@[4], 2500, 4, 1, false)
    &&& step_data(p.steps@[5], 1000, 3, 0, false)
    &&& step_data(p.steps@[6], 5000, 5, 0, false)
    &&& step_data(p.steps@[7], 2500, 5, 2, false)
}

/// The exact stage table of the default bottom lane.
pub open spec fn bottom_lane_plan(p: ProductPlan) -> bool {
    &&& p.color == RED
    &&& p.steps@.len() == 6
    &&& step_data(p.steps@[0], 1000, 0, 2, false)
    &&& step_data(p.steps@[1], 1000, 1, 3, true)
    &&& step_data(p.steps@[2], 5000, 2, 3, false)
    &&& step_data(p.steps@[3], 5000, 3, 3, false)
    &&& step_data(p.steps@[4], 1000, 4, 3, true)
    &&& step_data(p.steps@[5], 1000, 5, 2, false)
}

/// One plan stage with a single candidate target.
fn single_target_step(production_time: u64, x: i32, y: i32, is_storage: bool) -> (r: Step)
    ensures
        r.production_time == production_time,
        r.candidates@.len() == 1,
        r.candidates@[0] == (GridPos { x, y }),
        r.is_storage == is_storage,
{
    let mut candidates: Vec<GridPos> = Vec::new();
    candidates.push(GridPos::new(x, y));
    Step::new(production_time, candidates, is_storage)
}

/// The default top lane: spawn at (0, 1), visit the upper machines and the
/// storage at (3, 0), deliver at (5, 2).
pub fn steps_top_normal() -> (r: ProductPlan)
    ensures
        plan_wf(r, X_NUM_MODULES as int, Y_NUM_MODULES as int),
        top_lane_plan(r),
{
    let mut steps: Vec<Step> = Vec::new();
    steps.push(single_target_step(1000, 0, 1, false));
    steps.push(single_target_step(1000, 1, 0, false));
    steps.push(single_target_step(2500, 2, 1, false));
    steps.push(single_target_step(1000, 3, 0, true));
    steps.push(single_target_step(2500, 4, 1, false));
    steps.push(single_target_step(1000, 3, 0, false));
    steps.push(single_target_step(5000, 5, 0, false));
    steps.push(single_target_step(2500, 5, 2, false));
    let r = ProductPlan::new(steps, GREEN);
    proof {
        assert forall|i: int| 0 <= i < r.steps@.len() implies step_wf(
            #[trigger] r.steps@[i],
            X_NUM_MODULES as int,
            Y_NUM_MODULES as int,
        ) by {
            assert(r.steps@[i].candidates@.len() == 1);
        }
    }
    r
}

/// The default bottom lane: spawn at (0, 2), pass the storages at (1, 3)
/// and (4, 3), deliver at (5, 2).
pub fn steps_bottom_normal() -> (r: ProductPlan)
    ensures
        plan_wf(r, X_NUM_MODULES as int, Y_NUM_MODULES as int),
        bottom_lane_plan(r),
{
    let mut steps: Vec<Step> = Vec::new();
    steps.push(single_target_step(1000, 0, 2, false));
    steps.push(single_target_step(1000, 1, 3, true));
    steps.push(single_target_step(5000, 2, 3, false));
    steps.push(single_target_step(5000, 3, 3, false));
    steps.push(single_target_step(1000, 4, 3, true));
    steps.push(single_target_step(1000, 5, 2, false));
    let r = ProductPlan::new(steps, RED);
    proof {
        assert forall|i: int| 0 <= i < r.steps@.len() implies step_wf(
            #[trigger] r.steps@[i],
            X_NUM_MODULES as int,
            Y_NUM_MODULES as int,
        ) by {
            assert(r.steps@[i].candidates@.len() == 1);
        }
    }
    r
}

} // verus!
