use demo_sync::codec::{decode_frame, encode_message, DecodeResult, Message, MAX_BODY_LEN};
use demo_sync::track::Interpolation;

fn round_trip(msg: Message) {
    let frame = encode_message(&msg);
    match decode_frame(&frame) {
        DecodeResult::Got { msg: back, used } => {
            assert_eq!(back, msg);
            assert_eq!(used, frame.len());
        }
        other => panic!("expected a whole message, got {:?}", other),
    }
}

#[test]
fn round_trip_set_track_names() {
    round_trip(Message::SetTrackNames {
        names: vec![b"H_y".to_vec(), b"ground_y".to_vec()],
    });
}

#[test]
fn round_trip_set_track_names_empty_list() {
    round_trip(Message::SetTrackNames { names: vec![] });
}

#[test]
fn round_trip_set_track_names_empty_and_utf8_name() {
    round_trip(Message::SetTrackNames {
        names: vec![b"".to_vec(), "d\u{e9}j\u{e0}_vu".as_bytes().to_vec()],
    });
}

#[test]
fn round_trip_set_keyframe() {
    round_trip(Message::SetKeyframe {
        track: 3,
        row: 128,
        value: -65536,
        interp: Interpolation::Smooth,
    });
    round_trip(Message::SetKeyframe {
        track: 0,
        row: 0,
        value: i32::MAX,
        interp: Interpolation::Step,
    });
    round_trip(Message::SetKeyframe {
        track: u32::MAX,
        row: u32::MAX,
        value: i32::MIN,
        interp: Interpolation::Ramp,
    });
}

#[test]
fn round_trip_delete_keyframe() {
    round_trip(Message::DeleteKeyframe { track: 7, row: 42 });
}

#[test]
fn round_trip_set_row() {
    round_trip(Message::SetRow { row: 0 });
    round_trip(Message::SetRow { row: 123456 });
}

#[test]
fn round_trip_pause_play_save() {
    round_trip(Message::Pause);
    round_trip(Message::Play);
    round_trip(Message::SaveTracks);
}

#[test]
fn round_trip_request_track() {
    round_trip(Message::RequestTrack { track: 9 });
}

#[test]
fn partial_frame_needs_more() {
    let frame = encode_message(&Message::SetRow { row: 5 });
    for cut in 0..frame.len() {
        let part = frame[..cut].to_vec();
        assert_eq!(decode_frame(&part), DecodeResult::NeedMore);
    }
}

#[test]
fn first_frame_decoded_with_trailing_data() {
    let mut bytes = encode_message(&Message::Pause);
    let first_len = bytes.len();
    bytes.extend(encode_message(&Message::Play));
    match decode_frame(&bytes) {
        DecodeResult::Got { msg, used } => {
            assert_eq!(msg, Message::Pause);
            assert_eq!(used, first_len);
        }
        other => panic!("expected Pause first, got {:?}", other),
    }
}

#[test]
fn unknown_tag_is_bad() {
    let bytes = vec![0, 0, 0, 1, 99];
    assert_eq!(decode_frame(&bytes), DecodeResult::Bad);
}

#[test]
fn wrong_body_length_is_bad() {
    // A Pause frame claiming a two-byte body.
    let bytes = vec![0, 0, 0, 2, 4, 0];
    assert_eq!(decode_frame(&bytes), DecodeResult::Bad);
}

#[test]
fn bad_interpolation_code_is_bad() {
    let mut frame = encode_message(&Message::SetKeyframe {
        track: 0,
        row: 0,
        value: 0,
        interp: Interpolation::Step,
    });
    let last = frame.len() - 1;
    frame[last] = 9;
    assert_eq!(decode_frame(&frame), DecodeResult::Bad);
}

#[test]
fn oversized_body_length_is_bad() {
    let bytes = vec![255, 255, 255, 255, 0, 0, 0, 0];
    assert_eq!(decode_frame(&bytes), DecodeResult::Bad);
}

#[test]
fn name_list_with_count_mismatch_is_bad() {
    // Claims two names but carries bytes for one.
    let mut body = vec![0u8];
    body.extend(2u32.to_be_bytes());
    body.extend(1u32.to_be_bytes());
    body.push(b'x');
    let mut bytes = (body.len() as u32).to_be_bytes().to_vec();
    bytes.extend(body);
    assert_eq!(decode_frame(&bytes), DecodeResult::Bad);
}

#[test]
fn body_length_cap_matches_constant() {
    assert!(MAX_BODY_LEN > 255 * 65540);
}
