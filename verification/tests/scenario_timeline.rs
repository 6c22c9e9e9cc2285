use factory_flow::module::{GridPos, ModuleState};
use factory_flow::scenario::{MachineStateChange, Scenario, ScenarioState};
use factory_flow::time_manager::VirtualInstant;

fn phased_scenario(pre: u64, disturbance: u64) -> Scenario {
    Scenario {
        name: String::new(),
        starting_steps: Vec::new(),
        disturbance_steps: Vec::new(),
        starting_time: VirtualInstant::zero(),
        pre_duration: pre,
        disturbance_duration: disturbance,
        state: ScenarioState::Start,
        machine_state_changes: Vec::new(),
    }
}

fn at(millis: u64) -> VirtualInstant {
    VirtualInstant::zero().plus_millis(millis)
}

#[test]
fn phases_progress_start_disturbance_end_and_never_revert() {
    let mut s = phased_scenario(1000, 2000);
    s.update(at(500));
    assert_eq!(s.state, ScenarioState::Start);
    s.update(at(999));
    assert_eq!(s.state, ScenarioState::Start);
    s.update(at(1000));
    assert_eq!(s.state, ScenarioState::Disturbance);
    s.update(at(2999));
    assert_eq!(s.state, ScenarioState::Disturbance);
    s.update(at(3000));
    assert_eq!(s.state, ScenarioState::End);
    s.update(at(3001));
    assert_eq!(s.state, ScenarioState::End);
    s.update(at(4_000_000_000));
    assert_eq!(s.state, ScenarioState::End);
}

#[test]
fn phase_entry_time_is_stamped_on_transition() {
    let mut s = phased_scenario(1000, 2000);
    s.update(at(1500));
    assert_eq!(s.state, ScenarioState::Disturbance);
    assert_eq!(s.starting_time.millis, 1500);
    // The disturbance clock counts from the stamped entry, not from zero.
    s.update(at(3400));
    assert_eq!(s.state, ScenarioState::Disturbance);
    s.update(at(3500));
    assert_eq!(s.state, ScenarioState::End);
}

#[test]
fn due_injections_fire_once_and_keep_their_order() {
    let mut s = phased_scenario(1_000_000, 1_000_000);
    s.machine_state_changes = vec![
        MachineStateChange::new(at(100), ModuleState::Broken, GridPos::new(1, 0)),
        MachineStateChange::new(at(300), ModuleState::Maintaining, GridPos::new(2, 0)),
        MachineStateChange::new(at(200), ModuleState::Functional, GridPos::new(1, 0)),
    ];
    let fired = s.update(at(250));
    assert_eq!(fired.len(), 2);
    assert_eq!(fired[0].pos, GridPos::new(1, 0));
    assert!(matches!(fired[0].state, ModuleState::Broken));
    assert_eq!(fired[1].pos, GridPos::new(1, 0));
    assert!(matches!(fired[1].state, ModuleState::Functional));
    assert_eq!(s.machine_state_changes.len(), 1);
    assert_eq!(s.machine_state_changes[0].pos, GridPos::new(2, 0));
    // A later tick fires the rest; nothing fires twice.
    let fired2 = s.update(at(500));
    assert_eq!(fired2.len(), 1);
    assert!(matches!(fired2[0].state, ModuleState::Maintaining));
    assert_eq!(s.machine_state_changes.len(), 0);
    let fired3 = s.update(at(600));
    assert_eq!(fired3.len(), 0);
}

#[test]
fn injections_strictly_before_now_are_due() {
    let mut s = phased_scenario(1_000_000, 1_000_000);
    s.machine_state_changes = vec![MachineStateChange::new(
        at(100),
        ModuleState::Broken,
        GridPos::new(0, 0),
    )];
    let none = s.update(at(100));
    assert_eq!(none.len(), 0);
    let one = s.update(at(101));
    assert_eq!(one.len(), 1);
}

#[test]
fn default_scenario_has_two_lanes_per_phase() {
    let s = Scenario::starting_scenario();
    assert!(matches!(s.state, ScenarioState::Start));
    assert_eq!(s.starting_time.millis, 0);
    assert_eq!(s.pre_duration, 1_000_000_000);
    assert_eq!(s.disturbance_duration, 1_000_000_000);
    assert!(s.machine_state_changes.is_empty());
    assert_eq!(s.starting_steps.len(), 2);
    assert_eq!(s.disturbance_steps.len(), 2);
    assert_eq!(s.current_steps().len(), 2);
    assert_eq!(s.current_state_durration(), 1_000_000_000);
    // The top lane's exact stage table.
    let top = &s.starting_steps[0];
    assert_eq!(top.color, 0x00FF00);
    assert_eq!(top.steps.len(), 8);
    let expected: [(u64, i32, i32, bool); 8] = [
        (1000, 0, 1, false),
        (1000, 1, 0, false),
        (2500, 2, 1, false),
        (1000, 3, 0, true),
        (2500, 4, 1, false),
        (1000, 3, 0, false),
        (5000, 5, 0, false),
        (2500, 5, 2, false),
    ];
    for (k, (dur, x, y, storage)) in expected.iter().enumerate() {
        assert_eq!(top.steps[k].production_time, *dur);
        assert_eq!(top.steps[k].maschine_pos(), GridPos::new(*x, *y));
        assert_eq!(top.steps[k].is_storage(), *storage);
    }
    // The bottom lane's exact stage table.
    let bottom = &s.disturbance_steps[1];
    assert_eq!(bottom.color, 0xFF0000);
    assert_eq!(bottom.steps.len(), 6);
    assert_eq!(bottom.steps[1].maschine_pos(), GridPos::new(1, 3));
    assert!(bottom.steps[1].is_storage());
}
