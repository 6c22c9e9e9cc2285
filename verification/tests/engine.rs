use factory_flow::board::Board;
use factory_flow::module::{GridPos, ModuleState, ModuleType, MAX_PRODUCT_IN_STORAGE};
use factory_flow::product::{ProductPlan, RoutingState, Step};
use factory_flow::scenario::{MachineStateChange, Scenario, ScenarioState};
use factory_flow::ligth_point::CELL_SCALE;
use factory_flow::product::Product;
use factory_flow::time_manager::{TimeManager, VirtualInstant};

const WE: ModuleType = ModuleType::Weg;
const FR: ModuleType = ModuleType::Fraese;

fn single_target_step(duration: u64, x: i32, y: i32) -> Step {
    Step::new(duration, vec![GridPos::new(x, y)], false)
}

/// A 6 by 4 grid with machines at (0,1), (0,2), (2,1) and (5,1), corridor
/// everywhere else.
fn contention_layout() -> Vec<ModuleType> {
    vec![
        WE, WE, WE, WE, WE, WE, //
        FR, WE, FR, WE, WE, FR, //
        FR, WE, WE, WE, WE, WE, //
        WE, WE, WE, WE, WE, WE,
    ]
}

fn three_step_plan(first_dwell: u64, lane_x: i32, lane_y: i32, color: u32) -> ProductPlan {
    ProductPlan::new(
        vec![
            single_target_step(first_dwell, lane_x, lane_y),
            single_target_step(2500, 2, 1),
            single_target_step(2500, 5, 1),
        ],
        color,
    )
}

fn total_occupancy(board: &Board) -> u64 {
    let mut sum: u64 = 0;
    for m in board.modules.iter() {
        sum += m.in_production as u64;
    }
    sum
}

fn assert_conservation(board: &Board) {
    assert_eq!(total_occupancy(board), board.products.len() as u64);
    for m in board.modules.iter() {
        assert!(m.in_production <= m.max_production);
    }
}

#[test]
fn default_board_is_well_formed() {
    let board = Board::new();
    assert_eq!(board.width, 6);
    assert_eq!(board.height, 4);
    assert_eq!(board.modules.len(), 24);
    for m in board.modules.iter() {
        assert_eq!(m.in_production, 0);
        assert!(matches!(m.state, ModuleState::Functional));
    }
    assert_conservation(&board);
}

#[test]
fn occupancy_is_conserved_across_a_long_run() {
    let mut board = Board::new();
    let top = factory_flow::constants::steps_top_normal();
    let bottom = factory_flow::constants::steps_bottom_normal();
    board.set_storage(&top);
    board.set_storage(&bottom);
    for _ in 0..400 {
        let lights = board.update(100);
        assert_eq!(lights.len(), board.products.len());
        for (k, (pos, color)) in lights.iter().enumerate() {
            assert_eq!(*pos, board.products[k].ligth_point.current());
            assert_eq!(*color, board.products[k].color);
        }
        assert_conservation(&board);
    }
    // The lanes really produced something.
    assert!(board.products.len() > 0);
}

#[test]
fn set_storage_raises_capacity_at_storage_stages() {
    // On the default board the storage stage of the top lane targets the
    // Lager at (3, 0), whose role already grants storage capacity.
    let board = Board::new();
    let plan = factory_flow::constants::steps_top_normal();
    assert!(plan.steps[3].is_storage());
    let target = plan.steps[3].maschine_pos();
    assert_eq!(target, GridPos::new(3, 0));
    assert_eq!(board.module(target).max_production, MAX_PRODUCT_IN_STORAGE);
    // On a grid where that cell is a plain machine, the plan-driven setter
    // raises its capacity to the storage constant.
    let plans = vec![ProductPlan::new(
        vec![
            single_target_step(1000, 0, 1),
            Step::new(1000, vec![GridPos::new(2, 1)], true),
        ],
        0x00FF00,
    )];
    let scenario = Scenario {
        name: String::new(),
        starting_steps: plans,
        disturbance_steps: Vec::new(),
        starting_time: VirtualInstant::zero(),
        pre_duration: 1_000_000_000,
        disturbance_duration: 1_000_000_000,
        state: ScenarioState::Start,
        machine_state_changes: Vec::new(),
    };
    let layout = contention_layout();
    let mut custom = Board::with_layout(6, 4, &layout, scenario);
    assert_eq!(custom.module(GridPos::new(2, 1)).max_production, 1);
    let storage_plan = ProductPlan::new(
        vec![
            single_target_step(1000, 0, 1),
            Step::new(1000, vec![GridPos::new(2, 1)], true),
        ],
        0x00FF00,
    );
    custom.set_storage(&storage_plan);
    assert_eq!(custom.module(GridPos::new(2, 1)).max_production, MAX_PRODUCT_IN_STORAGE);
}

#[test]
fn contended_module_never_exceeds_capacity_and_hands_over() {
    // Two lanes whose second stage both target (2, 1), capacity 1.
    let plans = vec![
        three_step_plan(2500, 0, 1, 0x00FF00),
        three_step_plan(2500, 0, 2, 0xFF0000),
    ];
    let scenario = Scenario {
        name: String::new(),
        starting_steps: plans.clone(),
        disturbance_steps: plans,
        starting_time: VirtualInstant::zero(),
        pre_duration: 1_000_000_000,
        disturbance_duration: 1_000_000_000,
        state: ScenarioState::Start,
        machine_state_changes: Vec::new(),
    };
    let layout = contention_layout();
    let mut board = Board::with_layout(6, 4, &layout, scenario);
    let contended = GridPos::new(2, 1);
    let mut saw_stall_while_full = false;
    let mut holder_colors: Vec<u32> = Vec::new();
    for tick in 0..120 {
        board.update(100);
        let occ = board.module(contended).in_production;
        assert!(occ <= 1, "tick {}: occupancy {} at the contended module", tick, occ);
        assert_conservation(&board);
        let holders: Vec<u32> = board
            .products
            .iter()
            .filter(|p| p.occupied == contended)
            .map(|p| p.color)
            .collect();
        assert_eq!(holders.len() as u32, occ);
        if occ == 1 {
            let stalled = board.products.iter().any(|p| {
                p.occupied != contended
                    && matches!(p.state, RoutingState::WaitingForFreeResource { .. })
            });
            if stalled {
                saw_stall_while_full = true;
            }
            if holder_colors.last() != Some(&holders[0]) {
                holder_colors.push(holders[0]);
            }
        }
    }
    assert!(saw_stall_while_full, "an item should have stalled while (2,1) was full");
    assert!(holder_colors.contains(&0x00FF00) && holder_colors.contains(&0xFF0000));
}

#[test]
fn contended_module_occupancy_drops_between_visitors() {
    // The first lane's item passes (2, 1) early; the second lane dwells so
    // long that the module is visibly empty in between: 1 -> 0 -> 1.
    let plans = vec![
        three_step_plan(2500, 0, 1, 0x00FF00),
        three_step_plan(7000, 0, 2, 0xFF0000),
    ];
    let empty_plans: Vec<ProductPlan> = Vec::new();
    let scenario = Scenario {
        name: String::new(),
        starting_steps: plans,
        disturbance_steps: empty_plans,
        starting_time: VirtualInstant::zero(),
        // Disturbance (no spawning) begins after the first spawns.
        pre_duration: 1000,
        disturbance_duration: 1_000_000_000,
        state: ScenarioState::Start,
        machine_state_changes: Vec::new(),
    };
    let layout = contention_layout();
    let mut board = Board::with_layout(6, 4, &layout, scenario);
    let contended = GridPos::new(2, 1);
    let mut series: Vec<u32> = Vec::new();
    for _ in 0..120 {
        board.update(100);
        let occ = board.module(contended).in_production;
        assert!(occ <= 1);
        assert_conservation(&board);
        if series.last() != Some(&occ) {
            series.push(occ);
        }
    }
    // Collapsed occupancy history: empty, first visitor, gap, second visitor.
    assert!(series.len() >= 4, "history too short: {:?}", series);
    assert_eq!(series[0..4], [0, 1, 0, 1]);
}

#[test]
fn broken_module_stalls_routing_until_repaired() {
    let plans = vec![three_step_plan(1000, 0, 1, 0x00FF00)];
    let empty_plans: Vec<ProductPlan> = Vec::new();
    let scenario = Scenario {
        name: String::new(),
        starting_steps: plans,
        disturbance_steps: empty_plans,
        starting_time: VirtualInstant::zero(),
        pre_duration: 500,
        disturbance_duration: 1_000_000_000,
        state: ScenarioState::Start,
        machine_state_changes: vec![
            MachineStateChange::new(
                VirtualInstant::zero().plus_millis(300),
                ModuleState::Broken,
                GridPos::new(2, 1),
            ),
            MachineStateChange::new(
                VirtualInstant::zero().plus_millis(4000),
                ModuleState::Functional,
                GridPos::new(2, 1),
            ),
        ],
    };
    let layout = contention_layout();
    let mut board = Board::with_layout(6, 4, &layout, scenario);
    let target = GridPos::new(2, 1);
    let mut stalled_while_broken = false;
    for _ in 0..15 {
        board.update(100);
    }
    assert!(matches!(board.module(target).state, ModuleState::Broken));
    // Dwell is over, but the broken module accepts nothing: the item stalls.
    for _ in 0..15 {
        board.update(100);
        let item_stalled = board
            .products
            .iter()
            .any(|p| matches!(p.state, RoutingState::WaitingForFreeResource { .. }));
        if item_stalled && matches!(board.module(target).state, ModuleState::Broken) {
            stalled_while_broken = true;
        }
        assert_eq!(board.module(target).in_production, 0);
        assert_conservation(&board);
    }
    assert!(stalled_while_broken);
    // After the repair injection fires, the item proceeds into the module.
    let mut entered = false;
    for _ in 0..30 {
        board.update(100);
        assert_conservation(&board);
        if board.module(target).in_production == 1 {
            entered = true;
            break;
        }
    }
    assert!(matches!(board.module(target).state, ModuleState::Functional));
    assert!(entered);
}

#[test]
fn pausing_the_clock_freezes_every_reported_position() {
    let mut board = Board::new();
    for _ in 0..25 {
        board.update(100);
    }
    assert!(board.products.len() > 0);
    board.time_manager.set_speed(0);
    let frozen: Vec<_> = board
        .products
        .iter()
        .map(|p| p.ligth_point.current())
        .collect();
    for _ in 0..10 {
        board.update(100);
        assert!(board.products.len() >= frozen.len());
        for (i, pos) in frozen.iter().enumerate() {
            assert_eq!(board.products[i].ligth_point.current(), *pos);
        }
    }
    // Resuming at normal speed moves something again.
    board.time_manager.set_speed(1000);
    let mut moved = false;
    for _ in 0..20 {
        board.update(100);
        for (i, pos) in frozen.iter().enumerate() {
            if i < board.products.len() && board.products[i].ligth_point.current() != *pos {
                moved = true;
            }
        }
    }
    assert!(moved);
}

#[test]
fn set_scenario_is_a_hard_restart() {
    let mut board = Board::new();
    for _ in 0..40 {
        board.update(100);
    }
    assert!(board.products.len() > 0);
    assert!(board.time_manager.now().millis > 0);
    board.time_manager.set_speed(2000);
    board.set_scenario(Scenario::starting_scenario());
    assert_eq!(board.products.len(), 0);
    assert_eq!(board.time_manager.now().millis, 0);
    assert_eq!(board.time_manager.speed(), 2000);
    assert_eq!(total_occupancy(&board), 0);
    for m in board.modules.iter() {
        assert!(matches!(m.state, ModuleState::Functional));
    }
}

#[test]
fn spawned_item_starts_waiting_at_its_lane() {
    let mut tm = TimeManager::new();
    tm.update(500);
    let steps = vec![
        single_target_step(1000, 0, 1),
        single_target_step(2000, 2, 1),
        single_target_step(3000, 5, 1),
    ];
    let p = Product::new(0x123456, steps, &tm);
    assert_eq!(p.color, 0x123456);
    assert_eq!(p.occupied, GridPos::new(0, 1));
    assert_eq!(p.ligth_point.current().x, CELL_SCALE / 2);
    assert_eq!(p.ligth_point.current().y, CELL_SCALE + CELL_SCALE / 2);
    assert!(matches!(
        p.state,
        RoutingState::Waiting { resume_at, .. } if resume_at.millis == 1500
    ));
    assert_eq!(p.remaining_steps.len(), 1);
    assert_eq!(p.remaining_steps[0].maschine_pos(), GridPos::new(5, 1));
}
