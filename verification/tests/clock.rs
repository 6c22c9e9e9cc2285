use factory_flow::time_manager::{TimeManager, VirtualInstant, NORMAL_SPEED_PERMILLE};

#[test]
fn fresh_clock_is_zeroed_at_normal_speed() {
    let tm = TimeManager::new();
    assert_eq!(tm.now().millis, 0);
    assert_eq!(tm.speed(), NORMAL_SPEED_PERMILLE);
    assert_eq!(tm.last_virtual_delta(), 0);
}

#[test]
fn update_scales_real_time_by_speed() {
    let mut tm = TimeManager::new();
    tm.update(100);
    assert_eq!(tm.now().millis, 100);
    assert_eq!(tm.last_virtual_delta(), 100);
    tm.set_speed(2000);
    tm.update(100);
    assert_eq!(tm.last_virtual_delta(), 200);
    assert_eq!(tm.now().millis, 300);
    tm.set_speed(500);
    tm.update(100);
    assert_eq!(tm.last_virtual_delta(), 50);
    assert_eq!(tm.now().millis, 350);
}

#[test]
fn virtual_time_is_monotone_across_speed_changes() {
    let mut tm = TimeManager::new();
    let mut last = tm.now().millis;
    let speeds: [u32; 6] = [1000, 0, 250, 8000, 0, 1000];
    for (i, s) in speeds.iter().enumerate() {
        tm.set_speed(*s);
        tm.update(37 + i as u64);
        let now = tm.now().millis;
        assert!(now >= last);
        last = now;
    }
}

#[test]
fn zero_speed_freezes_the_clock() {
    let mut tm = TimeManager::new();
    tm.update(500);
    let frozen = tm.now().millis;
    tm.set_speed(0);
    for _ in 0..10 {
        tm.update(100);
        assert_eq!(tm.now().millis, frozen);
        assert_eq!(tm.last_virtual_delta(), 0);
    }
}

#[test]
fn pause_and_resume_restore_the_prior_speed() {
    let mut tm = TimeManager::new();
    tm.set_speed(2500);
    tm.pause();
    assert_eq!(tm.speed(), 0);
    tm.update(100);
    assert_eq!(tm.now().millis, 0);
    tm.resume();
    assert_eq!(tm.speed(), 2500);
    tm.update(100);
    assert_eq!(tm.now().millis, 250);
}

#[test]
fn reset_zeroes_time_but_keeps_speed() {
    let mut tm = TimeManager::new();
    tm.set_speed(4000);
    tm.update(250);
    assert_eq!(tm.now().millis, 1000);
    tm.reset();
    assert_eq!(tm.now().millis, 0);
    assert_eq!(tm.speed(), 4000);
    tm.update(1);
    assert_eq!(tm.now().millis, 4);
}

#[test]
fn instants_add_and_compare() {
    let a = VirtualInstant::zero();
    let b = a.plus_millis(1500);
    assert!(a.is_before(b));
    assert!(!b.is_before(a));
    assert_eq!(b.millis, 1500);
    let top = b.plus_millis(u64::MAX);
    assert_eq!(top.millis, u64::MAX);
}

#[test]
fn time_components_split_minutes_seconds_millis() {
    let mut tm = TimeManager::new();
    tm.update(125999);
    let (m, s, ms) = tm.time_components();
    assert_eq!(m, 2);
    assert_eq!(s, 5);
    assert_eq!(ms, 999);
}
