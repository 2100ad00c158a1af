use demo_sync::codec::{encode_message, Message};
use demo_sync::error::{Fault, SyncError, ToolError};
use demo_sync::state::{ConnState, RocketAction, State, TransportEvent, RETRY_INTERVAL_MS};
use demo_sync::track::{Interpolation, VALUE_ONE};

fn names(list: &[&str]) -> Vec<String> {
    list.iter().map(|s| s.to_string()).collect()
}

fn connect(state: &mut State, now_ms: u64) -> Vec<u8> {
    let action = state.update_rocket(TransportEvent::Poll { now_ms });
    assert_eq!(action, RocketAction::TryConnect);
    match state.update_rocket(TransportEvent::ConnectOk) {
        RocketAction::Send { frame } => frame,
        other => panic!("expected the registration frame, got {:?}", other),
    }
}

fn feed(state: &mut State, msgs: &[Message]) -> RocketAction {
    let mut bytes = Vec::new();
    for m in msgs {
        bytes.extend(encode_message(m));
    }
    state.update_rocket(TransportEvent::Received { bytes })
}

#[test]
fn new_state_starts_disconnected() {
    let s = State::new(names(&["a", "b"]), true);
    assert_eq!(s.conn, ConnState::Disconnected);
    assert!(s.get_is_running());
    assert!(s.get_is_paused());
    assert_eq!(s.get_track_names().len(), 2);
    assert_eq!(s.get_sync_device().tracks.len(), 2);
}

#[test]
fn update_time_is_noop_while_paused() {
    let mut s = State::new(names(&["a"]), true);
    s.update_time();
    s.update_time();
    assert_eq!(s.get_sync_device().time, 0);
    assert_eq!(s.get_sync_device().row, 0);
}

#[test]
fn update_time_advances_when_running() {
    let mut s = State::new(names(&["a"]), false);
    for _ in 0..10 {
        s.update_time();
    }
    // 125 BPM at 8 rows per beat is 1000 rows per minute of... per
    // 60000 ms, so 160 ms maps to row 160 * 1000 / 60000 = 2.
    assert_eq!(s.get_sync_device().time, 160);
    assert_eq!(s.get_sync_device().row, 2);
}

#[test]
fn first_connect_attempt_is_immediate() {
    let mut s = State::new(names(&["a"]), false);
    // The startup attempt is due at once, whatever the clock says.
    let a = s.update_rocket(TransportEvent::Poll { now_ms: 5 });
    assert_eq!(a, RocketAction::TryConnect);
    let a = s.update_rocket(TransportEvent::ConnectFailed);
    assert_eq!(a, RocketAction::Idle);
    // From then on the rate limit holds.
    let a = s.update_rocket(TransportEvent::Poll { now_ms: 10 });
    assert_eq!(a, RocketAction::Idle);
}

#[test]
fn reconnect_attempts_rate_limited() {
    let mut s = State::new(names(&["a"]), false);
    // First attempt: due immediately at startup.
    let a = s.update_rocket(TransportEvent::Poll { now_ms: 5000 });
    assert_eq!(a, RocketAction::TryConnect);
    let a = s.update_rocket(TransportEvent::ConnectFailed);
    assert_eq!(a, RocketAction::Idle);
    // Ticks spanning less than the interval: no further attempt.
    let mut attempts = 0;
    for k in 1..=50u64 {
        let now_ms = 5000 + k * 16;  // up to 5800 < 5000 + interval
        if s.update_rocket(TransportEvent::Poll { now_ms }) == RocketAction::TryConnect {
            attempts += 1;
        }
    }
    assert_eq!(attempts, 0);
    // Ticks spanning more than the interval: exactly one attempt.
    let mut attempts = 0;
    for k in 0..10u64 {
        let now_ms = 5900 + k * 16;
        if s.update_rocket(TransportEvent::Poll { now_ms }) == RocketAction::TryConnect {
            attempts += 1;
        }
    }
    assert_eq!(attempts, 1);
    assert!(5000 + RETRY_INTERVAL_MS < 6001);
}

#[test]
fn standalone_mode_runs_without_editor() {
    let mut s = State::new(names(&["a", "b"]), false);
    // Give track "a" local keyframes through the device.
    let dev = s.get_sync_device_mut();
    assert!(dev.set_track_key(0, demo_sync::track::Keyframe {
        row: 0,
        value: 0,
        interp: Interpolation::Linear,
    }));
    assert!(dev.set_track_key(0, demo_sync::track::Keyframe {
        row: 100,
        value: 100 * VALUE_ONE,
        interp: Interpolation::Linear,
    }));
    let mut now_ms = 0u64;
    for _ in 0..100 {
        s.update_time();
        now_ms += 16;
        let action = s.update_rocket(TransportEvent::Poll { now_ms });
        if action == RocketAction::TryConnect {
            let a = s.update_rocket(TransportEvent::ConnectFailed);
            assert_eq!(a, RocketAction::Idle);
        }
        let _ = s.get_track_value(0);
        let _ = s.get_track_value(1);
    }
    assert_eq!(s.conn, ConnState::Disconnected);
    assert_eq!(s.get_sync_device().time, 1600);
    // Row 26 = 1600 * 1000 / 60000; the track blends 100 units over
    // 100 rows. The scaled blend position floors: t = 26 * 65536 / 100
    // = 17039, and 100 units times 17039/65536 is 1703900 — within one
    // scale step of 26 whole units.
    assert_eq!(s.get_sync_device().row, 26);
    let v = s.get_track_value(0);
    assert_eq!(v, 1703900);
    assert!((v - 26 * VALUE_ONE as i64).abs() <= 100);
    assert_eq!(s.get_track_value(1), 0);
}

#[test]
fn connect_sends_track_names_and_pauses() {
    let mut s = State::new(names(&["H_y", "i_y"]), false);
    let hello = connect(&mut s, 2000);
    let expected = encode_message(&Message::SetTrackNames {
        names: vec![b"H_y".to_vec(), b"i_y".to_vec()],
    });
    assert_eq!(hello, expected);
    assert_eq!(s.conn, ConnState::Connected);
    assert!(s.get_is_paused());
}

#[test]
fn editor_keyframes_then_linear_query() {
    let mut s = State::new(names(&["a", "b"]), false);
    connect(&mut s, 2000);
    let action = feed(&mut s, &[
        Message::SetKeyframe { track: 0, row: 0, value: 0, interp: Interpolation::Linear },
        Message::SetKeyframe { track: 0, row: 10, value: VALUE_ONE, interp: Interpolation::Linear },
        Message::SetRow { row: 5 },
    ]);
    // Still paused: the editor only moved the row, so nothing is sent.
    assert_eq!(action, RocketAction::Idle);
    assert_eq!(s.get_sync_device().row, 5);
    let v = s.get_track_value(0);
    assert_eq!(v, (VALUE_ONE / 2) as i64);
    assert_eq!(v as f32 / VALUE_ONE as f32, 0.5f32);
    assert_eq!(s.get_track_value(1), 0);
    assert!(s.draw_anyway);
}

#[test]
fn play_makes_controller_echo_row() {
    let mut s = State::new(names(&["a"]), false);
    connect(&mut s, 2000);
    let action = feed(&mut s, &[Message::SetRow { row: 7 }, Message::Play]);
    match action {
        RocketAction::Send { frame } => {
            assert_eq!(frame, encode_message(&Message::SetRow { row: 7 }));
        }
        other => panic!("expected a row echo, got {:?}", other),
    }
    assert!(!s.get_is_paused());
    let action = feed(&mut s, &[Message::Pause]);
    assert_eq!(action, RocketAction::Idle);
    assert!(s.get_is_paused());
}

#[test]
fn transport_fault_preserves_tracks_and_pause_flag() {
    let mut s = State::new(names(&["a", "b"]), false);
    connect(&mut s, 2000);
    feed(&mut s, &[
        Message::SetKeyframe { track: 1, row: 3, value: 42, interp: Interpolation::Step },
        Message::Play,
    ]);
    assert!(!s.get_is_paused());
    let action = s.update_rocket(TransportEvent::Fault);
    assert_eq!(action, RocketAction::Idle);
    assert_eq!(s.conn, ConnState::Disconnected);
    // The track store is untouched and the paused flag keeps its last
    // value.
    assert_eq!(s.get_sync_device().tracks[1].key_count(), 1);
    assert_eq!(s.get_sync_device().tracks[1].key_at(0).value, 42);
    assert!(!s.get_is_paused());
}

#[test]
fn malformed_frame_hangs_up_without_losing_tracks() {
    let mut s = State::new(names(&["a"]), false);
    connect(&mut s, 2000);
    feed(&mut s, &[
        Message::SetKeyframe { track: 0, row: 0, value: 5, interp: Interpolation::Step },
    ]);
    let action = s.update_rocket(TransportEvent::Received { bytes: vec![0, 0, 0, 1, 99] });
    assert_eq!(action, RocketAction::HangUp { fault: Fault::Protocol });
    assert_eq!(s.conn, ConnState::Disconnected);
    assert_eq!(s.get_sync_device().tracks[0].key_count(), 1);
}

#[test]
fn keyframe_for_unknown_track_is_protocol_fault() {
    let mut s = State::new(names(&["a"]), false);
    connect(&mut s, 2000);
    let action = feed(&mut s, &[
        Message::SetKeyframe { track: 9, row: 0, value: 5, interp: Interpolation::Step },
    ]);
    assert_eq!(action, RocketAction::HangUp { fault: Fault::Protocol });
    assert_eq!(s.conn, ConnState::Disconnected);
}

#[test]
fn partial_frame_buffered_across_ticks() {
    let mut s = State::new(names(&["a"]), false);
    connect(&mut s, 2000);
    let frame = encode_message(&Message::SetRow { row: 9 });
    let (head, tail) = frame.split_at(3);
    let action = s.update_rocket(TransportEvent::Received { bytes: head.to_vec() });
    assert_eq!(action, RocketAction::Idle);
    assert_eq!(s.get_sync_device().row, 0);
    let action = s.update_rocket(TransportEvent::Received { bytes: tail.to_vec() });
    assert_eq!(action, RocketAction::Idle);
    assert_eq!(s.get_sync_device().row, 9);
}

#[test]
fn unknown_track_query_yields_default() {
    let s = State::new(names(&["a"]), false);
    assert_eq!(s.get_track_value(5), 0);
}

#[test]
fn tool_error_description_is_empty() {
    let e = ToolError::Sync(SyncError::UnknownTrack);
    assert_eq!(e.description(), "");
    assert_eq!(e.kind(), "Sync Track does't exist");
}

#[test]
fn inbound_track_names_message_is_protocol_fault() {
    let mut s = State::new(names(&["a"]), false);
    connect(&mut s, 2000);
    let action = feed(&mut s, &[Message::SetTrackNames { names: vec![b"x".to_vec()] }]);
    assert_eq!(action, RocketAction::HangUp { fault: Fault::Protocol });
    assert_eq!(s.conn, ConnState::Disconnected);
}

#[test]
fn set_row_rewinds_time_consistently() {
    let mut s = State::new(names(&["a"]), false);
    connect(&mut s, 2000);
    feed(&mut s, &[Message::SetRow { row: 100 }]);
    let dev = s.get_sync_device();
    assert_eq!(dev.row, 100);
    // 125 BPM at 8 rows per beat: 1000 rows per 60000 ms.
    assert_eq!(dev.time, 6000);
}
