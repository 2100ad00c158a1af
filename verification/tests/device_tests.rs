use demo_sync::device::SyncDevice;
use demo_sync::error::SyncError;
use demo_sync::track::{Interpolation, Keyframe, VALUE_ONE};

#[test]
fn advance_is_noop_while_paused() {
    let mut d = SyncDevice::new(125, 8);
    d.is_paused = true;
    d.advance(16);
    d.advance(10_000);
    assert_eq!(d.time, 0);
    assert_eq!(d.row, 0);
}

#[test]
fn advance_derives_row_from_time() {
    let mut d = SyncDevice::new(125, 8);
    // 125 BPM at 8 rows per beat: 1000 rows per 60000 ms.
    d.advance(60_000);
    assert_eq!(d.time, 60_000);
    assert_eq!(d.row, 1000);
    d.advance(59);
    assert_eq!(d.row, 1000);
    d.advance(1);
    assert_eq!(d.row, 1001);
}

#[test]
fn advance_saturates_at_the_top() {
    let mut d = SyncDevice::new(125, 8);
    d.advance(u64::MAX);
    d.advance(u64::MAX);
    assert_eq!(d.time, u64::MAX);
    // The derived row clamps to the largest representable row.
    assert_eq!(d.row, u32::MAX);
}

#[test]
fn set_row_is_consistent_with_derivation() {
    let mut d = SyncDevice::new(125, 8);
    for row in [0u32, 1, 7, 999, 123_456] {
        d.set_row(row);
        assert_eq!(d.row, row);
        let rederived = d.time * 1000 / 60_000;
        assert_eq!(rederived as u32, row);
    }
}

#[test]
fn unknown_track_index_reports_error() {
    let mut d = SyncDevice::new(125, 8);
    d.add_track();
    assert!(d.get_track_value(0).is_ok());
    assert_eq!(d.get_track_value(1), Err(SyncError::UnknownTrack));
}

#[test]
fn track_keys_reachable_through_device() {
    let mut d = SyncDevice::new(125, 8);
    d.add_track();
    let k = Keyframe { row: 4, value: 3 * VALUE_ONE, interp: Interpolation::Step };
    assert!(d.set_track_key(0, k));
    assert!(!d.set_track_key(1, k));
    d.set_row(4);
    assert_eq!(d.get_track_value(0), Ok(3 * VALUE_ONE as i64));
    assert!(d.delete_track_key(0, 4));
    assert_eq!(d.get_track_value(0), Ok(0));
}
