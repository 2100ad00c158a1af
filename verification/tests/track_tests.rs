use demo_sync::track::{Interpolation, Keyframe, Track, VALUE_ONE};

fn key(row: u32, value: i32, interp: Interpolation) -> Keyframe {
    Keyframe { row, value, interp }
}

#[test]
fn empty_track_samples_zero() {
    let t = Track::new();
    assert_eq!(t.get_value(0), 0);
    assert_eq!(t.get_value(12345), 0);
}

#[test]
fn first_keyframe_row_is_exact() {
    let mut t = Track::new();
    t.set_key(key(5, 12345, Interpolation::Linear));
    t.set_key(key(10, VALUE_ONE, Interpolation::Step));
    assert_eq!(t.get_value(5), 12345);
}

#[test]
fn clamps_before_first_and_after_last() {
    let mut t = Track::new();
    t.set_key(key(5, 111, Interpolation::Linear));
    t.set_key(key(10, 222, Interpolation::Smooth));
    assert_eq!(t.get_value(0), 111);
    assert_eq!(t.get_value(4), 111);
    assert_eq!(t.get_value(10), 222);
    assert_eq!(t.get_value(4_000_000_000), 222);
}

#[test]
fn linear_midpoint_is_half() {
    let mut t = Track::new();
    t.set_key(key(0, 0, Interpolation::Linear));
    t.set_key(key(10, VALUE_ONE, Interpolation::Linear));
    let v = t.get_value(5);
    assert_eq!(v, (VALUE_ONE / 2) as i64);
    assert_eq!(v as f32 / VALUE_ONE as f32, 0.5f32);
}

#[test]
fn ramp_blends_linearly() {
    let mut t = Track::new();
    t.set_key(key(0, 0, Interpolation::Ramp));
    t.set_key(key(4, VALUE_ONE, Interpolation::Ramp));
    assert_eq!(t.get_value(1), (VALUE_ONE / 4) as i64);
    assert_eq!(t.get_value(3), (3 * (VALUE_ONE as i64) / 4) as i64);
}

#[test]
fn step_holds_left_value() {
    let mut t = Track::new();
    t.set_key(key(0, 777, Interpolation::Step));
    t.set_key(key(10, 999, Interpolation::Step));
    assert_eq!(t.get_value(9), 777);
    assert_eq!(t.get_value(10), 999);
}

#[test]
fn smooth_quarter_point() {
    let mut t = Track::new();
    t.set_key(key(0, 0, Interpolation::Smooth));
    t.set_key(key(4, VALUE_ONE, Interpolation::Smooth));
    // t = 1/4 scaled to 16384; smoothstep = 3t^2 - 2t^3 = 10240/65536.
    assert_eq!(t.get_value(1), 10240);
    // Midpoint of smoothstep is exactly one half.
    assert_eq!(t.get_value(2), (VALUE_ONE / 2) as i64);
}

#[test]
fn interpolation_of_left_keyframe_wins() {
    let mut t = Track::new();
    t.set_key(key(0, 0, Interpolation::Step));
    t.set_key(key(10, VALUE_ONE, Interpolation::Linear));
    // The segment 0..10 uses Step, the left keyframe's mode.
    assert_eq!(t.get_value(5), 0);
}

#[test]
fn negative_values_blend() {
    let mut t = Track::new();
    t.set_key(key(0, -VALUE_ONE, Interpolation::Linear));
    t.set_key(key(10, VALUE_ONE, Interpolation::Linear));
    assert_eq!(t.get_value(5), 0);
    assert_eq!(t.get_value(0), -(VALUE_ONE as i64));
}

#[test]
fn set_key_keeps_rows_sorted() {
    let mut t = Track::new();
    t.set_key(key(10, 3, Interpolation::Step));
    t.set_key(key(0, 1, Interpolation::Step));
    t.set_key(key(5, 2, Interpolation::Step));
    assert_eq!(t.key_count(), 3);
    assert_eq!(t.key_at(0).row, 0);
    assert_eq!(t.key_at(1).row, 5);
    assert_eq!(t.key_at(2).row, 10);
}

#[test]
fn set_key_replaces_same_row() {
    let mut t = Track::new();
    t.set_key(key(5, 2, Interpolation::Step));
    t.set_key(key(5, 42, Interpolation::Linear));
    assert_eq!(t.key_count(), 1);
    assert_eq!(t.key_at(0).value, 42);
    assert_eq!(t.key_at(0).interp, Interpolation::Linear);
}

#[test]
fn delete_key_removes_only_matching_row() {
    let mut t = Track::new();
    t.set_key(key(0, 1, Interpolation::Step));
    t.set_key(key(5, 2, Interpolation::Step));
    t.delete_key(3);
    assert_eq!(t.key_count(), 2);
    t.delete_key(5);
    assert_eq!(t.key_count(), 1);
    assert_eq!(t.key_at(0).row, 0);
}
