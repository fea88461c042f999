use windows_volume_guard::policy::{desired_volume, skips_session, FULL_LEVEL_THRESHOLD_BITS, ONE_BITS};

fn level(value: f32) -> u32 {
    value.to_bits()
}

#[test]
fn lowers_a_default_session() {
    assert_eq!(desired_volume(level(1.0), level(0.3), false), Some(level(0.3)));
}

#[test]
fn preserves_a_remembered_manual_setting() {
    assert_eq!(desired_volume(level(0.5), level(0.3), false), None);
}

#[test]
fn cap_mode_lowers_any_session_above_target() {
    assert_eq!(desired_volume(level(0.5), level(0.3), true), Some(level(0.3)));
}

#[test]
fn never_raises_a_quiet_session() {
    assert_eq!(desired_volume(level(0.2), level(0.3), true), None);
}

#[test]
fn rejects_non_finite_input() {
    assert_eq!(desired_volume(f32::NAN.to_bits(), level(0.3), false), None);
}

#[test]
fn constants_are_the_binary32_patterns() {
    assert_eq!(ONE_BITS, 1.0f32.to_bits());
    assert_eq!(FULL_LEVEL_THRESHOLD_BITS, 0.995f32.to_bits());
}

#[test]
fn the_threshold_itself_counts_as_full() {
    assert_eq!(desired_volume(level(0.995), level(0.3), false), Some(level(0.3)));
    let just_below = f32::from_bits(level(0.995) - 1);
    assert_eq!(desired_volume(level(just_below), level(0.3), false), None);
}

#[test]
fn non_finite_target_or_infinite_level_changes_nothing() {
    assert_eq!(desired_volume(level(1.0), f32::NAN.to_bits(), true), None);
    assert_eq!(desired_volume(f32::INFINITY.to_bits(), level(0.3), true), None);
    assert_eq!(desired_volume(level(1.0), f32::NEG_INFINITY.to_bits(), true), None);
}

#[test]
fn levels_above_one_are_clamped() {
    assert_eq!(desired_volume(level(1.5), level(0.3), false), Some(level(0.3)));
    assert_eq!(desired_volume(level(1.0), level(2.0), true), None);
    assert_eq!(desired_volume(level(2.0), level(1.5), true), None);
}

#[test]
fn negative_targets_become_zero() {
    assert_eq!(desired_volume(level(1.0), level(-0.5), false), Some(level(0.0)));
    assert_eq!(desired_volume(level(1.0), level(-0.0), false), Some(level(-0.0)));
}

#[test]
fn negative_levels_are_quiet() {
    assert_eq!(desired_volume(level(-1.0), level(0.0), true), None);
    assert_eq!(desired_volume(level(-0.0), level(0.0), true), None);
}

#[test]
fn equal_level_is_left_alone() {
    assert_eq!(desired_volume(level(0.3), level(0.3), true), None);
    assert_eq!(desired_volume(level(1.0), level(1.0), false), None);
}

#[test]
fn lowered_level_is_below_the_old_one() {
    let current = level(0.8);
    let lowered = desired_volume(current, level(0.25), true).unwrap();
    assert!(f32::from_bits(lowered) < f32::from_bits(current));
}

#[test]
fn a_lowered_session_settles() {
    let lowered = desired_volume(level(1.0), level(0.3), false).unwrap();
    assert_eq!(desired_volume(lowered, level(0.3), false), None);
    assert_eq!(desired_volume(lowered, level(0.3), true), None);
}

#[test]
fn cap_mode_agrees_with_default_mode_where_it_lowers() {
    assert_eq!(
        desired_volume(level(1.0), level(0.4), true),
        desired_volume(level(1.0), level(0.4), false)
    );
}

#[test]
fn system_sounds_are_skipped_unless_included() {
    assert!(skips_session(false, Some(true)));
    assert!(!skips_session(false, Some(false)));
    assert!(!skips_session(false, None));
    assert!(!skips_session(true, Some(true)));
}
