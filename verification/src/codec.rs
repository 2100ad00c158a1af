//! Wire codec for the editor protocol.
//!
//! Every message travels as one length-prefixed frame: a 4-byte
//! big-endian body length, then the body (a tag byte and its payload).
//! Multi-byte integers are big-endian; a keyframe value travels as its
//! 16.16 fixed-point value offset by 2^31 so the wire carries only
//! unsigned words. A buffer holding only part of a frame decodes to
//! "need more", never to an error; any malformed frame decodes to
//! "bad", never to a crash.

use vstd::prelude::*;
use vstd::arithmetic::div_mod::{
    lemma_div_denominator, lemma_div_is_ordered, lemma_fundamental_div_mod,
};
use crate::track::Interpolation;

verus! {

/// Frame tag of each message kind.
pub const TAG_SET_TRACK_NAMES: u8 = 0;
pub const TAG_SET_KEYFRAME: u8 = 1;
pub const TAG_DELETE_KEYFRAME: u8 = 2;
pub const TAG_SET_ROW: u8 = 3;
pub const TAG_PAUSE: u8 = 4;
pub const TAG_PLAY: u8 = 5;
pub const TAG_SAVE_TRACKS: u8 = 6;
pub const TAG_REQUEST_TRACK: u8 = 7;

/// Largest body a well-formed frame can carry; anything longer is
/// malformed and treated as a protocol fault.
pub const MAX_BODY_LEN: u32 = 16800000;

/// A protocol message.
#[derive(Clone, PartialEq, Eq, Debug)]
pub enum Message {
    /// Controller to editor on connect: the registered track names as
    /// UTF-8 bytes, in registration order.
    SetTrackNames { names: Vec<Vec<u8>> },
    /// Editor to controller: write one keyframe of one track.
    SetKeyframe { track: u32, row: u32, value: i32, interp: Interpolation },
    /// Editor to controller: delete one keyframe of one track.
    DeleteKeyframe { track: u32, row: u32 },
    /// Editor to controller: the authoritative playback position.
    SetRow { row: u32 },
    /// Editor to controller: stop local playback.
    Pause,
    /// Editor to controller: resume local playback.
    Play,
    /// Editor to controller: persist tracks; a no-op pass-through here.
    SaveTracks,
    /// Editor to controller: resend one track; a no-op pass-through.
    RequestTrack { track: u32 },
}

/// Mathematical model of a message.
pub enum MessageModel {
    SetTrackNames { names: Seq<Seq<u8>> },
    SetKeyframe { track: u32, row: u32, value: i32, interp: Interpolation },
    DeleteKeyframe { track: u32, row: u32 },
    SetRow { row: u32 },
    Pause,
    Play,
    SaveTracks,
    RequestTrack { track: u32 },
}

impl View for Message {
    type V = MessageModel;

    open spec fn view(&self) -> MessageModel {
        match self {
            Message::SetTrackNames { names } => MessageModel::SetTrackNames {
                names: names@.map_values(|n: Vec<u8>| n@),
            },
            Message::SetKeyframe { track, row, value, interp } => MessageModel::SetKeyframe {
                track: *track,
                row: *row,
                value: *value,
                interp: *interp,
            },
            Message::DeleteKeyframe { track, row } => MessageModel::DeleteKeyframe {
                track: *track,
                row: *row,
            },
            Message::SetRow { row } => MessageModel::SetRow { row: *row },
            Message::Pause => MessageModel::Pause,
            Message::Play => MessageModel::Play,
            Message::SaveTracks => MessageModel::SaveTracks,
            Message::RequestTrack { track } => MessageModel::RequestTrack { track: *track },
        }
    }
}

/// Messages the codec can frame: name lists are bounded so that every
/// length fits its 4-byte wire field.
pub open spec fn msg_wf(m: MessageModel) -> bool {
    match m {
        MessageModel::SetTrackNames { names } => {
            &&& names.len() <= 255
            &&& forall|i: int| 0 <= i < names.len() ==> (#[trigger] names[i]).len() <= 65535
        },
        _ => true,
    }
}

/// Big-endian bytes of a 32-bit word.
pub open spec fn spec_u32_bytes(x: u32) -> Seq<u8> {
    seq![
        (x / 0x1000000) as u8,
        ((x / 0x10000) % 0x100) as u8,
        ((x / 0x100) % 0x100) as u8,
        (x % 0x100) as u8,
    ]
}

/// The 32-bit word four big-endian bytes spell.
pub open spec fn spec_u32_of(b: Seq<u8>) -> int
    recommends
        b.len() == 4,
{
    b[0] * 0x1000000 + b[1] * 0x10000 + b[2] * 0x100 + b[3]
}

/// Wire code of a keyframe value: the value offset by 2^31.
pub open spec fn spec_value_code(v: i32) -> u32 {
    (v + 0x80000000) as u32
}

/// Keyframe value a wire code spells.
pub open spec fn spec_value_of(c: int) -> i32
    recommends
        0 <= c < 0x100000000,
{
    (c - 0x80000000) as i32
}

/// Wire code of an interpolation mode.
pub open spec fn spec_interp_code(i: Interpolation) -> u8 {
    match i {
        Interpolation::Step => 0,
        Interpolation::Linear => 1,
        Interpolation::Smooth => 2,
        Interpolation::Ramp => 3,
    }
}

/// Interpolation mode a wire code spells, if any.
pub open spec fn spec_interp_of(c: u8) -> Option<Interpolation> {
    if c == 0 {
        Some(Interpolation::Step)
    } else if c == 1 {
        Some(Interpolation::Linear)
    } else if c == 2 {
        Some(Interpolation::Smooth)
    } else if c == 3 {
        Some(Interpolation::Ramp)
    } else {
        None
    }
}

/// Wire bytes of a name list: each name length-prefixed, in order.
pub open spec fn spec_names_bytes(names: Seq<Seq<u8>>) -> Seq<u8>
    decreases names.len(),
{
    if names.len() == 0 {
        Seq::empty()
    } else {
        spec_u32_bytes(names[0].len() as u32) + names[0] + spec_names_bytes(names.drop_first())
    }
}

/// Body of a message's frame: the tag byte and the payload.
pub open spec fn spec_body(m: MessageModel) -> Seq<u8> {
    match m {
        MessageModel::SetTrackNames { names } => seq![TAG_SET_TRACK_NAMES] + spec_u32_bytes(
            names.len() as u32,
        ) + spec_names_bytes(names),
        MessageModel::SetKeyframe { track, row, value, interp } => seq![TAG_SET_KEYFRAME]
            + spec_u32_bytes(track) + spec_u32_bytes(row) + spec_u32_bytes(spec_value_code(value))
            + seq![spec_interp_code(interp)],
        MessageModel::DeleteKeyframe { track, row } => seq![TAG_DELETE_KEYFRAME] + spec_u32_bytes(
            track,
        ) + spec_u32_bytes(row),
        MessageModel::SetRow { row } => seq![TAG_SET_ROW] + spec_u32_bytes(row),
        MessageModel::Pause => seq![TAG_PAUSE],
        MessageModel::Play => seq![TAG_PLAY],
        MessageModel::SaveTracks => seq![TAG_SAVE_TRACKS],
        MessageModel::RequestTrack { track } => seq![TAG_REQUEST_TRACK] + spec_u32_bytes(track),
    }
}

/// The whole frame of a message: body length, then body.
pub open spec fn spec_encode(m: MessageModel) -> Seq<u8> {
    spec_u32_bytes(spec_body(m).len() as u32) + spec_body(m)
}

/// What decoding a byte buffer's front yields.
pub enum DecodeOutcome {
    /// Only part of a frame has arrived; keep the buffer and wait.
    NeedMore,
    /// The frame is malformed: a protocol fault.
    Bad,
    /// A whole message, and how many bytes of the buffer it used.
    Got(MessageModel, int),
}

/// Parse `n` length-prefixed names filling the whole buffer.
pub open spec fn spec_decode_names(buf: Seq<u8>, n: nat) -> Option<Seq<Seq<u8>>>
    decreases n,
{
    if n == 0 {
        if buf.len() == 0 {
            Some(Seq::empty())
        } else {
            None
        }
    } else if buf.len() < 4 {
        None
    } else {
        let l = spec_u32_of(buf.subrange(0, 4));
        if l > 65535 || buf.len() < 4 + l {
            None
        } else {
            match spec_decode_names(buf.subrange(4 + l, buf.len() as int), (n - 1) as nat) {
                Some(rest) => Some(seq![buf.subrange(4, 4 + l)] + rest),
                None => None,
            }
        }
    }
}

/// Parse one frame body.
pub open spec fn spec_decode_body(body: Seq<u8>) -> Option<MessageModel> {
    if body.len() < 1 {
        None
    } else {
        let tag = body[0];
        let pl = body.subrange(1, body.len() as int);
        if tag == TAG_SET_TRACK_NAMES {
            if pl.len() < 4 {
                None
            } else {
                let n = spec_u32_of(pl.subrange(0, 4));
                if n > 255 {
                    None
                } else {
                    match spec_decode_names(pl.subrange(4, pl.len() as int), n as nat) {
                        Some(names) => Some(MessageModel::SetTrackNames { names }),
                        None => None,
                    }
                }
            }
        } else if tag == TAG_SET_KEYFRAME {
            if pl.len() != 13 {
                None
            } else {
                match spec_interp_of(pl[12]) {
                    Some(interp) => Some(MessageModel::SetKeyframe {
                        track: spec_u32_of(pl.subrange(0, 4)) as u32,
                        row: spec_u32_of(pl.subrange(4, 8)) as u32,
                        value: spec_value_of(spec_u32_of(pl.subrange(8, 12))),
                        interp,
                    }),
                    None => None,
                }
            }
        } else if tag == TAG_DELETE_KEYFRAME {
            if pl.len() != 8 {
                None
            } else {
                Some(MessageModel::DeleteKeyframe {
                    track: spec_u32_of(pl.subrange(0, 4)) as u32,
                    row: spec_u32_of(pl.subrange(4, 8)) as u32,
                })
            }
        } else if tag == TAG_SET_ROW {
            if pl.len() != 4 {
                None
            } else {
                Some(MessageModel::SetRow { row: spec_u32_of(pl.subrange(0, 4)) as u32 })
            }
        } else if tag == TAG_PAUSE {
            if pl.len() != 0 {
                None
            } else {
                Some(MessageModel::Pause)
            }
        } else if tag == TAG_PLAY {
            if pl.len() != 0 {
                None
            } else {
                Some(MessageModel::Play)
            }
        } else if tag == TAG_SAVE_TRACKS {
            if pl.len() != 0 {
                None
            } else {
                Some(MessageModel::SaveTracks)
            }
        } else if tag == TAG_REQUEST_TRACK {
            if pl.len() != 4 {
                None
            } else {
                Some(MessageModel::RequestTrack { track: spec_u32_of(pl.subrange(0, 4)) as u32 })
            }
        } else {
            None
        }
    }
}

/// Decode the front of a receive buffer.
pub open spec fn spec_decode(buf: Seq<u8>) -> DecodeOutcome {
    if buf.len() < 4 {
        DecodeOutcome::NeedMore
    } else {
        let blen = spec_u32_of(buf.subrange(0, 4));
        if blen > MAX_BODY_LEN {
            DecodeOutcome::Bad
        } else if buf.len() < 4 + blen {
            DecodeOutcome::NeedMore
        } else {
            match spec_decode_body(buf.subrange(4, 4 + blen)) {
                Some(m) => DecodeOutcome::Got(m, 4 + blen),
                None => DecodeOutcome::Bad,
            }
        }
    }
}

/// What `decode_frame` returned, as executable data.
#[derive(Clone, PartialEq, Eq, Debug)]
pub enum DecodeResult {
    NeedMore,
    Bad,
    Got { msg: Message, used: usize },
}

/// The executable decode result agrees with the specification outcome.
pub open spec fn decode_result_matches(r: DecodeResult, d: DecodeOutcome) -> bool {
    match r {
        DecodeResult::NeedMore => d is NeedMore,
        DecodeResult::Bad => d is Bad,
        DecodeResult::Got { msg, used } => d == DecodeOutcome::Got(msg@, used as int),
    }
}

/// Splitting a 32-bit word into big-endian bytes loses nothing.
pub proof fn lemma_u32_round_trip(x: u32)
    ensures
        spec_u32_of(spec_u32_bytes(x)) == x,
{
    let xi = x as int;
    lemma_fundamental_div_mod(xi, 0x100);
    lemma_fundamental_div_mod(xi / 0x100, 0x100);
    lemma_fundamental_div_mod(xi / 0x10000, 0x100);
    lemma_div_denominator(xi, 0x100, 0x100);
    lemma_div_denominator(xi, 0x10000, 0x100);
    lemma_div_is_ordered(xi, u32::MAX as int, 0x1000000);
}

/// Reading a 32-bit big-endian word at `off`.
fn read_u32(buf: &Vec<u8>, off: usize) -> (x: u32)
    requires
        off + 4 <= buf@.len(),
    ensures
        x == spec_u32_of(buf@.subrange(off as int, off as int + 4)),
{
    let n = buf.len();
    assert(off + 4 <= n);
    let b0 = buf[off] as u32;
    let b1 = buf[off + 1] as u32;
    let b2 = buf[off + 2] as u32;
    let b3 = buf[off + 3] as u32;
    b0 * 0x1000000 + b1 * 0x10000 + b2 * 0x100 + b3
}

/// Appending a 32-bit word as big-endian bytes.
fn push_u32(out: &mut Vec<u8>, x: u32)
    ensures
        final(out)@ == old(out)@ + spec_u32_bytes(x),
{
    out.push((x / 0x1000000) as u8);
    out.push((x / 0x10000 % 0x100) as u8);
    out.push((x / 0x100 % 0x100) as u8);
    out.push((x % 0x100) as u8);
    proof {
        assert(out@ =~= old(out)@ + spec_u32_bytes(x));
    }
}

/// Appending one more name extends the name list's wire bytes at the
/// back.
proof fn lemma_names_bytes_snoc(names: Seq<Seq<u8>>, name: Seq<u8>)
    ensures
        spec_names_bytes(names.push(name)) == spec_names_bytes(names) + spec_u32_bytes(
            name.len() as u32,
        ) + name,
    decreases names.len(),
{
    if names.len() == 0 {
        assert(names.push(name)[0] == name);
        assert(names.push(name).drop_first() =~= Seq::<Seq<u8>>::empty());
        assert(spec_names_bytes(Seq::<Seq<u8>>::empty()) == Seq::<u8>::empty());
        assert(spec_names_bytes(names.push(name)) =~= spec_names_bytes(names) + spec_u32_bytes(
            name.len() as u32,
        ) + name);
    } else {
        lemma_names_bytes_snoc(names.drop_first(), name);
        assert(names.push(name).drop_first() =~= names.drop_first().push(name));
        assert(names.push(name)[0] == names[0]);
        assert(spec_names_bytes(names.push(name)) =~= spec_names_bytes(names) + spec_u32_bytes(
            name.len() as u32,
        ) + name);
    }
}

/// A well-formed name list's wire bytes stay under 65540 bytes per
/// name.
proof fn lemma_names_bytes_len(names: Seq<Seq<u8>>)
    requires
        forall|i: int| 0 <= i < names.len() ==> (#[trigger] names[i]).len() <= 65535,
    ensures
        spec_names_bytes(names).len() <= names.len() * 65539,
    decreases names.len(),
{
    if names.len() == 0 {
    } else {
        assert forall|i: int| 0 <= i < names.drop_first().len() implies (#[trigger] names.drop_first()[
            i
        ]).len() <= 65535 by {
            assert(names.drop_first()[i] == names[i + 1]);
        }
        lemma_names_bytes_len(names.drop_first());
        assert(names.len() * 65539 == (names.len() - 1) * 65539 + 65539) by (nonlinear_arith);
    }
}

/// A parsed prefix followed by the rest of a name-list parse.
pub open spec fn opt_prepend(pre: Seq<Seq<u8>>, o: Option<Seq<Seq<u8>>>) -> Option<
    Seq<Seq<u8>>,
> {
    match o {
        Some(r) => Some(pre + r),
        None => None,
    }
}

/// One more name in front of a name-list parse.
pub open spec fn prepend_one(name: Seq<u8>, o: Option<Seq<Seq<u8>>>) -> Option<Seq<Seq<u8>>> {
    match o {
        Some(r) => Some(seq![name] + r),
        None => None,
    }
}

/// Moving a name from the unparsed rest to the parsed prefix.
proof fn lemma_opt_prepend_shift(pre: Seq<Seq<u8>>, name: Seq<u8>, o: Option<Seq<Seq<u8>>>)
    ensures
        opt_prepend(pre, prepend_one(name, o)) == opt_prepend(pre.push(name), o),
{
    match o {
        Some(r) => {
            assert(pre + (seq![name] + r) =~= pre.push(name) + r);
        },
        None => {},
    }
}

/// Encode a message as one wire frame.
pub fn encode_message(m: &Message) -> (out: Vec<u8>)
    requires
        msg_wf(m@),
    ensures
        out@ == spec_encode(m@),
{
    let mut body: Vec<u8> = Vec::new();
    match m {
        Message::SetTrackNames { names } => {
            body.push(TAG_SET_TRACK_NAMES);
            push_u32(&mut body, names.len() as u32);
            let ghost names_model = names@.map_values(|n: Vec<u8>| n@);
            let mut i: usize = 0;
            while i < names.len()
                invariant
                    i <= names.len(),
                    msg_wf(m@),
                    m@ == (MessageModel::SetTrackNames { names: names_model }),
                    names_model == names@.map_values(|n: Vec<u8>| n@),
                    body@ == seq![TAG_SET_TRACK_NAMES] + spec_u32_bytes(names@.len() as u32)
                        + spec_names_bytes(names_model.take(i as int)),
                decreases names.len() - i,
            {
                let name = &names[i];
                push_u32(&mut body, name.len() as u32);
                let mut j: usize = 0;
                let ghost base = body@;
                while j < name.len()
                    invariant
                        j <= name.len(),
                        name == &names[i as int],
                        i < names.len(),
                        body@ == base + name@.subrange(0, j as int),
                    decreases name.len() - j,
                {
                    body.push(name[j]);
                    proof {
                        assert(body@ =~= base + name@.subrange(0, j + 1));
                    }
                    j += 1;
                }
                proof {
                    assert(name@.subrange(0, name@.len() as int) =~= name@);
                    lemma_names_bytes_snoc(names_model.take(i as int), names_model[i as int]);
                    assert(names_model.take(i + 1) =~= names_model.take(i as int).push(
                        names_model[i as int],
                    ));
                    assert(body@ =~= seq![TAG_SET_TRACK_NAMES] + spec_u32_bytes(
                        names@.len() as u32,
                    ) + spec_names_bytes(names_model.take(i + 1)));
                }
                i += 1;
            }
            proof {
                assert(names_model.take(names_model.len() as int) =~= names_model);
                lemma_names_bytes_len(names_model);
            }
        },
        Message::SetKeyframe { track, row, value, interp } => {
            body.push(TAG_SET_KEYFRAME);
            push_u32(&mut body, *track);
            push_u32(&mut body, *row);
            let code: u32 = ((*value as i64) + 0x80000000i64) as u32;
            push_u32(&mut body, code);
            let ic: u8 = match interp {
                Interpolation::Step => 0,
                Interpolation::Linear => 1,
                Interpolation::Smooth => 2,
                Interpolation::Ramp => 3,
            };
            body.push(ic);
        },
        Message::DeleteKeyframe { track, row } => {
            body.push(TAG_DELETE_KEYFRAME);
            push_u32(&mut body, *track);
            push_u32(&mut body, *row);
        },
        Message::SetRow { row } => {
            body.push(TAG_SET_ROW);
            push_u32(&mut body, *row);
        },
        Message::Pause => {
            body.push(TAG_PAUSE);
        },
        Message::Play => {
            body.push(TAG_PLAY);
        },
        Message::SaveTracks => {
            body.push(TAG_SAVE_TRACKS);
        },
        Message::RequestTrack { track } => {
            body.push(TAG_REQUEST_TRACK);
            push_u32(&mut body, *track);
        },
    }
    proof {
        assert(body@ =~= spec_body(m@));
    }
    let mut out: Vec<u8> = Vec::new();
    push_u32(&mut out, body.len() as u32);
    let mut k: usize = 0;
    let ghost pre = out@;
    while k < body.len()
        invariant
            k <= body.len(),
            body@ == spec_body(m@),
            out@ == pre + body@.subrange(0, k as int),
        decreases body.len() - k,
    {
        out.push(body[k]);
        proof {
            assert(out@ =~= pre + body@.subrange(0, k + 1));
        }
        k += 1;
    }
    proof {
        assert(body@.subrange(0, body@.len() as int) =~= body@);
        assert(out@ =~= spec_encode(m@));
    }
    out
}

/// Decode the frame at the front of a receive buffer, if a whole one
/// has arrived.
#[verifier::loop_isolation(false)]
pub fn decode_frame(buf: &Vec<u8>) -> (r: DecodeResult)
    ensures
        decode_result_matches(r, spec_decode(buf@)),
{
    let n = buf.len();
    if n < 4 {
        return DecodeResult::NeedMore;
    }
    let blen32 = read_u32(buf, 0);
    if blen32 > MAX_BODY_LEN {
        return DecodeResult::Bad;
    }
    let blen = blen32 as usize;
    if n - 4 < blen {
        return DecodeResult::NeedMore;
    }
    let end = 4 + blen;
    let ghost body = buf@.subrange(4, end as int);
    if blen < 1 {
        return DecodeResult::Bad;
    }
    let tag = buf[4];
    let ghost pl = body.subrange(1, body.len() as int);
    proof {
        assert(body[0] == buf@[4]);
        assert(pl =~= buf@.subrange(5, end as int));
    }
    if tag == TAG_SET_TRACK_NAMES {
        if blen < 5 {
            return DecodeResult::Bad;
        }
        proof {
            assert(pl.subrange(0, 4) =~= buf@.subrange(5, 9));
        }
        let count = read_u32(buf, 5);
        if count > 255 {
            return DecodeResult::Bad;
        }
        proof {
            assert(pl.subrange(4, pl.len() as int) =~= buf@.subrange(9, end as int));
        }
        let mut names: Vec<Vec<u8>> = Vec::new();
        let mut off: usize = 9;
        let mut i: u32 = 0;
        while i < count
            invariant
                i <= count,
                count <= 255,
                9 <= off <= end,
                end == 4 + blen,
                5 <= blen <= MAX_BODY_LEN,
                n == buf@.len(),
                end <= n,
                names@.len() == i,
                spec_decode_names(buf@.subrange(9, end as int), count as nat) == opt_prepend(
                    names@.map_values(|v: Vec<u8>| v@),
                    spec_decode_names(
                        buf@.subrange(off as int, end as int),
                        (count - i) as nat,
                    ),
                ),
            decreases count - i,
        {
            let ghost sub = buf@.subrange(off as int, end as int);
            let ghost rem = (count - i) as nat;
            if end - off < 4 {
                proof {
                    assert(spec_decode_names(sub, rem) is None);
                    assert(spec_decode_names(buf@.subrange(9, end as int), count as nat)
                        is None);
                    assert(spec_decode_body(body) is None);
                }
                return DecodeResult::Bad;
            }
            let l32 = read_u32(buf, off);
            proof {
                assert(sub.subrange(0, 4) =~= buf@.subrange(off as int, off as int + 4));
            }
            if l32 > 65535 {
                proof {
                    assert(spec_decode_names(sub, rem) is None);
                    assert(spec_decode_names(buf@.subrange(9, end as int), count as nat)
                        is None);
                    assert(spec_decode_body(body) is None);
                }
                return DecodeResult::Bad;
            }
            let l = l32 as usize;
            if end - off - 4 < l {
                proof {
                    assert(spec_decode_names(sub, rem) is None);
                    assert(spec_decode_names(buf@.subrange(9, end as int), count as nat)
                        is None);
                    assert(spec_decode_body(body) is None);
                }
                return DecodeResult::Bad;
            }
            let mut name: Vec<u8> = Vec::new();
            let mut j: usize = 0;
            while j < l
                invariant
                    j <= l,
                    off + 4 + l <= end <= n == buf@.len(),
                    name@ == buf@.subrange(off as int + 4, off as int + 4 + j),
                decreases l - j,
            {
                name.push(buf[off + 4 + j]);
                proof {
                    assert(name@ =~= buf@.subrange(off as int + 4, off as int + 4 + j + 1));
                }
                j += 1;
            }
            proof {
                assert(sub.subrange(4, 4 + l as int) =~= buf@.subrange(
                    off as int + 4,
                    off as int + 4 + l,
                ));
                assert(sub.subrange(4 + l as int, sub.len() as int) =~= buf@.subrange(
                    off as int + 4 + l,
                    end as int,
                ));
                assert(spec_decode_names(sub, rem) == prepend_one(
                    name@,
                    spec_decode_names(
                        buf@.subrange(off as int + 4 + l, end as int),
                        (rem - 1) as nat,
                    ),
                ));
                lemma_opt_prepend_shift(
                    names@.map_values(|v: Vec<u8>| v@),
                    name@,
                    spec_decode_names(
                        buf@.subrange(off as int + 4 + l, end as int),
                        (rem - 1) as nat,
                    ),
                );
            }
            let ghost names_pre = names@.map_values(|v: Vec<u8>| v@);
            names.push(name);
            proof {
                assert(names@.map_values(|v: Vec<u8>| v@) =~= names_pre.push(name@));
            }
            off = off + 4 + l;
            i += 1;
        }
        if off != end {
            proof {
                assert(buf@.subrange(off as int, end as int).len() > 0);
                assert(spec_decode_names(buf@.subrange(off as int, end as int), 0) is None);
            }
            return DecodeResult::Bad;
        }
        proof {
            assert(buf@.subrange(end as int, end as int).len() == 0);
            assert(spec_decode_names(buf@.subrange(end as int, end as int), 0)
                == Some(Seq::<Seq<u8>>::empty()));
            assert(names@.map_values(|v: Vec<u8>| v@) + Seq::<Seq<u8>>::empty() =~= names@
                .map_values(|v: Vec<u8>| v@));
        }
        DecodeResult::Got { msg: Message::SetTrackNames { names }, used: end }
    } else if tag == TAG_SET_KEYFRAME {
        if blen != 14 {
            return DecodeResult::Bad;
        }
        let track = read_u32(buf, 5);
        let row = read_u32(buf, 9);
        let code = read_u32(buf, 13);
        let ib = buf[17];
        proof {
            assert(pl.subrange(0, 4) =~= buf@.subrange(5, 9));
            assert(pl.subrange(4, 8) =~= buf@.subrange(9, 13));
            assert(pl.subrange(8, 12) =~= buf@.subrange(13, 17));
            assert(pl[12] == buf@[17]);
        }
        let value: i32 = ((code as i64) - 0x80000000i64) as i32;
        let interp = if ib == 0 {
            Interpolation::Step
        } else if ib == 1 {
            Interpolation::Linear
        } else if ib == 2 {
            Interpolation::Smooth
        } else if ib == 3 {
            Interpolation::Ramp
        } else {
            return DecodeResult::Bad;
        };
        DecodeResult::Got { msg: Message::SetKeyframe { track, row, value, interp }, used: end }
    } else if tag == TAG_DELETE_KEYFRAME {
        if blen != 9 {
            return DecodeResult::Bad;
        }
        let track = read_u32(buf, 5);
        let row = read_u32(buf, 9);
        proof {
            assert(pl.subrange(0, 4) =~= buf@.subrange(5, 9));
            assert(pl.subrange(4, 8) =~= buf@.subrange(9, 13));
        }
        DecodeResult::Got { msg: Message::DeleteKeyframe { track, row }, used: end }
    } else if tag == TAG_SET_ROW {
        if blen != 5 {
            return DecodeResult::Bad;
        }
        let row = read_u32(buf, 5);
        proof {
            assert(pl.subrange(0, 4) =~= buf@.subrange(5, 9));
        }
        DecodeResult::Got { msg: Message::SetRow { row }, used: end }
    } else if tag == TAG_PAUSE {
        if blen != 1 {
            return DecodeResult::Bad;
        }
        DecodeResult::Got { msg: Message::Pause, used: end }
    } else if tag == TAG_PLAY {
        if blen != 1 {
            return DecodeResult::Bad;
        }
        DecodeResult::Got { msg: Message::Play, used: end }
    } else if tag == TAG_SAVE_TRACKS {
        if blen != 1 {
            return DecodeResult::Bad;
        }
        DecodeResult::Got { msg: Message::SaveTracks, used: end }
    } else if tag == TAG_REQUEST_TRACK {
        if blen != 5 {
            return DecodeResult::Bad;
        }
        let track = read_u32(buf, 5);
        proof {
            assert(pl.subrange(0, 4) =~= buf@.subrange(5, 9));
        }
        DecodeResult::Got { msg: Message::RequestTrack { track }, used: end }
    } else {
        DecodeResult::Bad
    }
}

/// Encoding a well-formed name list and parsing it back yields the
/// same list.
proof fn lemma_names_round_trip(names: Seq<Seq<u8>>)
    requires
        forall|i: int| 0 <= i < names.len() ==> (#[trigger] names[i]).len() <= 65535,
    ensures
        spec_decode_names(spec_names_bytes(names), names.len()) == Some(names),
    decreases names.len(),
{
    if names.len() == 0 {
        assert(names =~= Seq::<Seq<u8>>::empty());
    } else {
        let name = names[0];
        let enc = spec_names_bytes(names);
        let rest_enc = spec_names_bytes(names.drop_first());
        lemma_u32_round_trip(name.len() as u32);
        assert(enc.subrange(0, 4) =~= spec_u32_bytes(name.len() as u32));
        let l = spec_u32_of(enc.subrange(0, 4));
        assert(l == name.len());
        assert(enc.subrange(4, 4 + l) =~= name);
        assert(enc.subrange(4 + l, enc.len() as int) =~= rest_enc);
        assert forall|i: int| 0 <= i < names.drop_first().len() implies (#[trigger] names
            .drop_first()[i]).len() <= 65535 by {
            assert(names.drop_first()[i] == names[i + 1]);
        }
        lemma_names_round_trip(names.drop_first());
        assert(seq![name] + names.drop_first() =~= names);
    }
}

/// Round trip: encoding any well-formed message and decoding the
/// frame yields the same message, consuming the whole frame.
pub proof fn lemma_encode_decode(m: MessageModel)
    requires
        msg_wf(m),
    ensures
        spec_decode(spec_encode(m)) == DecodeOutcome::Got(m, spec_encode(m).len() as int),
{
    let body = spec_body(m);
    let frame = spec_encode(m);
    match m {
        MessageModel::SetTrackNames { names } => {
            lemma_names_bytes_len(names);
        },
        _ => {},
    }
    assert(body.len() <= MAX_BODY_LEN);
    lemma_u32_round_trip(body.len() as u32);
    assert(frame.subrange(0, 4) =~= spec_u32_bytes(body.len() as u32));
    assert(frame.subrange(4, 4 + body.len() as int) =~= body);
    let pl = body.subrange(1, body.len() as int);
    match m {
        MessageModel::SetTrackNames { names } => {
            lemma_u32_round_trip(names.len() as u32);
            assert(pl.subrange(0, 4) =~= spec_u32_bytes(names.len() as u32));
            assert(pl.subrange(4, pl.len() as int) =~= spec_names_bytes(names));
            lemma_names_round_trip(names);
        },
        MessageModel::SetKeyframe { track, row, value, interp } => {
            lemma_u32_round_trip(track);
            lemma_u32_round_trip(row);
            lemma_u32_round_trip(spec_value_code(value));
            assert(pl.subrange(0, 4) =~= spec_u32_bytes(track));
            assert(pl.subrange(4, 8) =~= spec_u32_bytes(row));
            assert(pl.subrange(8, 12) =~= spec_u32_bytes(spec_value_code(value)));
            assert(pl[12] == spec_interp_code(interp));
            assert(spec_value_of(spec_value_code(value) as int) == value);
        },
        MessageModel::DeleteKeyframe { track, row } => {
            lemma_u32_round_trip(track);
            lemma_u32_round_trip(row);
            assert(pl.subrange(0, 4) =~= spec_u32_bytes(track));
            assert(pl.subrange(4, 8) =~= spec_u32_bytes(row));
        },
        MessageModel::SetRow { row } => {
            lemma_u32_round_trip(row);
            assert(pl.subrange(0, 4) =~= spec_u32_bytes(row));
        },
        MessageModel::Pause => {},
        MessageModel::Play => {},
        MessageModel::SaveTracks => {},
        MessageModel::RequestTrack { track } => {
            lemma_u32_round_trip(track);
            assert(pl.subrange(0, 4) =~= spec_u32_bytes(track));
        },
    }
    assert(spec_decode_body(body) == Some(m));
}

} // verus!
