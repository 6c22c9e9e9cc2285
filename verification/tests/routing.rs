use factory_flow::board::Board;
use factory_flow::ligth_point::{FixedPos, LigthPoint, CELL_SCALE};
use factory_flow::module::{GridPos, ModuleType, ShortModuleType};
use factory_flow::scenario::{Scenario, ScenarioState};
use factory_flow::time_manager::VirtualInstant;

fn empty_scenario() -> Scenario {
    Scenario {
        name: String::new(),
        starting_steps: Vec::new(),
        disturbance_steps: Vec::new(),
        starting_time: VirtualInstant::zero(),
        pre_duration: 1_000_000_000,
        disturbance_duration: 1_000_000_000,
        state: ScenarioState::Start,
        machine_state_changes: Vec::new(),
    }
}

#[test]
fn path_to_self_is_the_single_cell() {
    let board = Board::new();
    let p = GridPos::new(2, 1);
    let path = board.find_path(p, p);
    assert_eq!(path.len(), 1);
    assert_eq!(path[0], p);
}

#[test]
fn path_between_machines_has_shortest_length() {
    let board = Board::new();
    // (0, 1) and (1, 0) are machines two corridor-steps apart.
    let path = board.find_path(GridPos::new(0, 1), GridPos::new(1, 0));
    assert_eq!(path.len(), 3);
    assert_eq!(path[0], GridPos::new(0, 1));
    assert_eq!(path[2], GridPos::new(1, 0));
    // A longer straight corridor run: (5, 0) down to (5, 2).
    let path2 = board.find_path(GridPos::new(5, 0), GridPos::new(5, 2));
    assert_eq!(path2.len(), 3);
    assert_eq!(path2[0], GridPos::new(5, 0));
    assert_eq!(path2[1], GridPos::new(5, 1));
    assert_eq!(path2[2], GridPos::new(5, 2));
}

#[test]
fn disconnected_cells_yield_an_empty_path() {
    // fr | le | fr : the middle cell is not traversable.
    let layout = vec![ModuleType::Fraese, ModuleType::Leer, ModuleType::Fraese];
    let board = Board::with_layout(3, 1, &layout, empty_scenario());
    let path = board.find_path(GridPos::new(0, 0), GridPos::new(2, 0));
    assert_eq!(path.len(), 0);
}

#[test]
fn target_machine_is_entered_but_not_crossed() {
    // fr we fr we fr: the middle machine blocks through-routing, so the
    // far machine is unreachable from the left one...
    let layout = vec![
        ModuleType::Fraese,
        ModuleType::Weg,
        ModuleType::Fraese,
        ModuleType::Weg,
        ModuleType::Fraese,
    ];
    let board = Board::with_layout(5, 1, &layout, empty_scenario());
    let blocked = board.find_path(GridPos::new(0, 0), GridPos::new(4, 0));
    assert_eq!(blocked.len(), 0);
    // ...while the middle machine itself is reachable as a final step.
    let entered = board.find_path(GridPos::new(0, 0), GridPos::new(2, 0));
    assert_eq!(entered.len(), 3);
}

#[test]
fn compact_layout_spellings_expand() {
    assert_eq!(ShortModuleType::we.make_long(), ModuleType::Weg);
    assert_eq!(ShortModuleType::la.make_long(), ModuleType::Lager);
    let rows = vec![ShortModuleType::lk, ShortModuleType::sa, ShortModuleType::st];
    let long = ShortModuleType::array_make_long(&rows);
    assert_eq!(long, vec![ModuleType::Lkw, ModuleType::Saege, ModuleType::Strasse]);
}

#[test]
fn follower_redirect_to_own_cell_is_idempotent() {
    let mut lp = LigthPoint::new(vec![GridPos::new(2, 1)]);
    let center = FixedPos { x: 2 * CELL_SCALE + CELL_SCALE / 2, y: CELL_SCALE + CELL_SCALE / 2 };
    assert_eq!(lp.current(), center);
    lp.set_new_target(vec![GridPos::new(2, 1)]);
    lp.next(500);
    assert_eq!(lp.current(), center);
    lp.next(500);
    assert_eq!(lp.current(), center);
}

#[test]
fn follower_moves_one_axis_at_a_time_vertical_first() {
    let mut lp = LigthPoint::new(vec![GridPos::new(0, 0)]);
    lp.set_new_target(vec![GridPos::new(1, 1)]);
    // Vertical distance closes before horizontal motion begins.
    let p1 = lp.next(600).unwrap();
    assert_eq!(p1, FixedPos { x: 500, y: 1100 });
    let p2 = lp.next(600).unwrap();
    assert_eq!(p2, FixedPos { x: 500, y: 1500 });
    let p3 = lp.next(600).unwrap();
    assert_eq!(p3, FixedPos { x: 1100, y: 1500 });
    let p4 = lp.next(600).unwrap();
    assert_eq!(p4, FixedPos { x: 1500, y: 1500 });
    // Arrived: the queue is exhausted and the position sits on the target.
    assert_eq!(lp.next(600), None);
}

#[test]
fn follower_pops_waypoints_and_reports_arrival() {
    let mut lp = LigthPoint::new(vec![GridPos::new(0, 0), GridPos::new(1, 0), GridPos::new(2, 0)]);
    let mut arrived = false;
    let mut steps = 0;
    while steps < 100 {
        match lp.next(300) {
            Some(_) => {}
            None => {
                arrived = true;
                break;
            }
        }
        steps += 1;
    }
    assert!(arrived);
    assert_eq!(lp.current(), FixedPos { x: 2 * CELL_SCALE + CELL_SCALE / 2, y: CELL_SCALE / 2 });
}

#[test]
fn zero_budget_freezes_the_follower() {
    let mut lp = LigthPoint::new(vec![GridPos::new(0, 0)]);
    lp.set_new_target(vec![GridPos::new(3, 0)]);
    let before = lp.current();
    for _ in 0..10 {
        lp.next(0);
        assert_eq!(lp.current(), before);
    }
}
