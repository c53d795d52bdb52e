use shimeji::window::input::is_tap;

#[test]
fn a_quick_small_movement_is_a_tap() {
    // (100, 100) -> (103, 98) in 120 ms
    assert!(is_tap(100, 100, 103, 98, 120_000_000));
}

#[test]
fn a_fast_large_movement_is_not_a_tap() {
    // (100, 100) -> (300, 50) in 100 ms
    assert!(!is_tap(100, 100, 300, 50, 100_000_000));
}

#[test]
fn a_slow_large_movement_is_still_a_drag_release_not_a_tap() {
    // (100, 100) -> (400, 100) in 2 s
    assert!(!is_tap(100, 100, 400, 100, 2_000_000_000));
}

#[test]
fn tap_limits_are_inclusive() {
    assert!(is_tap(0, 0, 6, 0, 250_000_000));
    assert!(!is_tap(0, 0, 6, 1, 250_000_000));
    assert!(!is_tap(0, 0, 0, 0, 250_000_001));
    assert!(is_tap(i32::MIN, i32::MIN, i32::MIN, i32::MIN, 0));
}
