//! Sync controller: ties the device and the wire codec together and
//! decides, tick by tick, when to reconnect, what to send, and how
//! incoming frames change the device.
//!
//! The controller never touches a socket. The host reports what the
//! transport did as a `TransportEvent` and performs the returned
//! `RocketAction`; everything in between — the connection state
//! machine, the retry gate, frame decoding and application — is decided
//! here.

use vstd::prelude::*;
use vstd::string::{StrSliceExecFns, StringSliceAdditionalSpecFns};
use vstd::utf8::encode_utf8;
use crate::codec::{
    decode_frame, encode_message, msg_wf, spec_decode, spec_encode, DecodeOutcome, DecodeResult,
    Message, MessageModel,
};
use crate::device::{
    device_wf, spec_advance_time, spec_row_of_time, spec_time_of_row, DeviceModel, SyncDevice,
};
use crate::error::Fault;
use crate::track::{track_value_at, spec_delete_key, spec_set_key, Keyframe};

verus! {

/// While disconnected, try to reconnect at most once per this many
/// milliseconds, so a missing editor never spins the render loop.
pub const RETRY_INTERVAL_MS: u64 = 1000;

/// Upper bound on messages applied per tick, so a flood of frames
/// cannot stall the render loop; the rest waits in the buffer.
pub const MAX_MESSAGES_PER_TICK: u64 = 64;

/// Fixed frame target of the host loop, in milliseconds.
pub const FRAME_TARGET_MS: u64 = 16;

/// Whether a live editor connection exists right now. Absence is a
/// valid steady state, not an error.
#[derive(Clone, Copy, PartialEq, Eq, Structural, Debug)]
pub enum ConnState {
    Disconnected,
    Connected,
}

/// What the host observed on the transport since the last call.
pub enum TransportEvent {
    /// Nothing arrived; `now_ms` is the host's monotonic clock, used
    /// only to gate reconnect attempts.
    Poll { now_ms: u64 },
    /// The connect attempt the controller asked for succeeded.
    ConnectOk,
    /// The connect attempt the controller asked for failed.
    ConnectFailed,
    /// Bytes read from the live connection (possibly none).
    Received { bytes: Vec<u8> },
    /// Read or write failed, or the stream ended.
    Fault,
}

/// What the host must do next on the transport.
#[derive(PartialEq, Eq, Debug)]
pub enum RocketAction {
    /// Nothing.
    Idle,
    /// Attempt one non-blocking connect and report the outcome.
    TryConnect,
    /// Write this whole frame, or report a fault.
    Send { frame: Vec<u8> },
    /// Drop the connection; the controller saw a protocol fault.
    HangUp { fault: Fault },
}

/// Applying one message to the device model: the new model, whether
/// the change warrants a redraw, and whether the message was
/// applicable. An out-of-range track index, or a `SetTrackNames`
/// (which only the controller may send), is a protocol fault;
/// `SaveTracks` and `RequestTrack` pass through as no-ops.
pub open spec fn spec_apply_msg(d: DeviceModel, m: MessageModel) -> (DeviceModel, bool, bool) {
    match m {
        MessageModel::SetTrackNames { .. } => (d, false, false),
        MessageModel::SetKeyframe { track, row, value, interp } => {
            if track < d.tracks.len() {
                (
                    DeviceModel {
                        tracks: d.tracks.update(
                            track as int,
                            spec_set_key(d.tracks[track as int], Keyframe { row, value, interp }),
                        ),
                        ..d
                    },
                    true,
                    true,
                )
            } else {
                (d, false, false)
            }
        },
        MessageModel::DeleteKeyframe { track, row } => {
            if track < d.tracks.len() {
                (
                    DeviceModel {
                        tracks: d.tracks.update(
                            track as int,
                            spec_delete_key(d.tracks[track as int], row),
                        ),
                        ..d
                    },
                    true,
                    true,
                )
            } else {
                (d, false, false)
            }
        },
        MessageModel::SetRow { row } => {
            (
                DeviceModel {
                    time: spec_time_of_row(row, d.bpm, d.rows_per_beat),
                    row,
                    ..d
                },
                true,
                true,
            )
        },
        MessageModel::Pause => (DeviceModel { is_paused: true, ..d }, false, true),
        MessageModel::Play => (DeviceModel { is_paused: false, ..d }, false, true),
        _ => (d, false, true),
    }
}

/// Result of draining a receive buffer into the device.
pub struct DrainOut {
    pub dev: DeviceModel,
    pub rest: Seq<u8>,
    pub faulted: bool,
    pub draw: bool,
}

/// Drain up to `fuel` whole frames from the buffer front, applying
/// each message in arrival order; a malformed frame or inapplicable
/// message stops the drain as a protocol fault.
pub open spec fn spec_drain(d: DeviceModel, buf: Seq<u8>, fuel: nat) -> DrainOut
    decreases fuel,
{
    if fuel == 0 {
        DrainOut { dev: d, rest: buf, faulted: false, draw: false }
    } else {
        match spec_decode(buf) {
            DecodeOutcome::NeedMore => DrainOut { dev: d, rest: buf, faulted: false, draw: false },
            DecodeOutcome::Bad => DrainOut {
                dev: d,
                rest: Seq::empty(),
                faulted: true,
                draw: false,
            },
            DecodeOutcome::Got(m, used) => {
                let (d2, dr, ok) = spec_apply_msg(d, m);
                if !ok {
                    DrainOut { dev: d, rest: Seq::empty(), faulted: true, draw: false }
                } else {
                    let rec = spec_drain(d2, buf.skip(used), (fuel - 1) as nat);
                    DrainOut {
                        dev: rec.dev,
                        rest: rec.rest,
                        faulted: rec.faulted,
                        draw: dr || rec.draw,
                    }
                }
            },
        }
    }
}

/// The tool's live state: frame timing, run flag, connection state,
/// receive buffer, track names, and the sync device.
pub struct State {
    /// Whether any connect attempt has been made yet; the very first
    /// one is due immediately at startup.
    pub has_attempted_connect: bool,
    /// When the last reconnect attempt was made (host clock, ms).
    pub t_rocket_last_connection_attempt: u64,
    /// Fixed frame budget of the host loop, in milliseconds.
    pub t_frame_target: u64,
    pub is_running: bool,
    /// Forces one redraw outside the pause gate.
    pub draw_anyway: bool,
    pub conn: ConnState,
    /// Bytes received but not yet parsed as a whole frame.
    pub rx_buf: Vec<u8>,
    pub track_names: Vec<String>,
    /// The `SetTrackNames` frame, encoded once at startup and sent on
    /// every successful connect.
    pub hello_frame: Vec<u8>,
    pub device: SyncDevice,
}

/// The track-name registration message of this state.
pub open spec fn spec_hello_msg(s: State) -> MessageModel {
    MessageModel::SetTrackNames {
        names: s.track_names@.map_values(|n: String| encode_utf8(n@)),
    }
}

/// Controller invariant: the device is well formed and the prepared
/// registration frame encodes exactly the registered names.
pub open spec fn state_wf(s: State) -> bool {
    &&& device_wf(s.device@)
    &&& msg_wf(spec_hello_msg(s))
    &&& s.hello_frame@ == spec_encode(spec_hello_msg(s))
}

/// Everything except the connection state, receive buffer, device and
/// redraw flag is the same in both states.
pub open spec fn same_frame_fields(a: State, b: State) -> bool {
    &&& a.has_attempted_connect == b.has_attempted_connect
    &&& a.t_rocket_last_connection_attempt == b.t_rocket_last_connection_attempt
    &&& a.t_frame_target == b.t_frame_target
    &&& a.is_running == b.is_running
    &&& a.track_names@ == b.track_names@
    &&& a.hello_frame@ == b.hello_frame@
}

/// The retry gate: a connect attempt is due only while disconnected,
/// immediately at startup, and after that only once the interval has
/// passed since the last attempt.
pub open spec fn reconnect_due(s: State, now_ms: u64) -> bool {
    &&& s.conn is Disconnected
    &&& (!s.has_attempted_connect || (now_ms >= s.t_rocket_last_connection_attempt
        && now_ms - s.t_rocket_last_connection_attempt > RETRY_INTERVAL_MS))
}

/// Right after an attempt at `t0`, no tick at or before
/// `t0 + RETRY_INTERVAL_MS` is due again: attempts happen at most once
/// per interval.
pub proof fn lemma_reconnect_rate_limited(s: State, t0: u64, later: u64)
    requires
        s.has_attempted_connect,
        s.t_rocket_last_connection_attempt == t0,
        later <= t0 + RETRY_INTERVAL_MS,
    ensures
        !reconnect_due(s, later),
{
}

/// Apply one decoded message to the device; reports
/// `(applicable, redraw)`.
fn apply_message(dev: &mut SyncDevice, m: &Message) -> (r: (bool, bool))
    requires
        device_wf(old(dev)@),
    ensures
        device_wf(final(dev)@),
        ({
            let (d2, dr, ok) = spec_apply_msg(old(dev)@, m@);
            &&& r.0 == ok
            &&& r.1 == dr
            &&& final(dev)@ == d2
        }),
{
    match m {
        Message::SetKeyframe { track, row, value, interp } => {
            let k = Keyframe { row: *row, value: *value, interp: *interp };
            let ok = dev.set_track_key(*track as usize, k);
            (ok, ok)
        },
        Message::DeleteKeyframe { track, row } => {
            let ok = dev.delete_track_key(*track as usize, *row);
            (ok, ok)
        },
        Message::SetRow { row } => {
            dev.set_row(*row);
            (true, true)
        },
        Message::Pause => {
            dev.is_paused = true;
            (true, false)
        },
        Message::Play => {
            dev.is_paused = false;
            (true, false)
        },
        Message::SetTrackNames { .. } => (false, false),
        Message::SaveTracks => (true, false),
        Message::RequestTrack { .. } => (true, false),
    }
}

impl State {
    /// Build the tool state: tempo 125 BPM at 8 rows per beat, one
    /// empty track per name, disconnected, with the registration frame
    /// encoded once. Whether standalone playback starts paused is the
    /// host's choice.
    pub fn new(track_names: Vec<String>, start_paused: bool) -> (s: State)
        requires
            track_names@.len() <= 255,
            forall|i: int|
                0 <= i < track_names@.len() ==> encode_utf8(
                    (#[trigger] track_names@[i])@,
                ).len() <= 65535,
        ensures
            state_wf(s),
            s.conn is Disconnected,
            !s.has_attempted_connect,
            s.t_rocket_last_connection_attempt == 0,
            s.t_frame_target == FRAME_TARGET_MS,
            s.is_running,
            !s.draw_anyway,
            s.rx_buf@ == Seq::<u8>::empty(),
            s.track_names@ == track_names@,
            s.device@.bpm == 125,
            s.device@.rows_per_beat == 8,
            s.device@.time == 0,
            s.device@.row == 0,
            s.device@.is_paused == start_paused,
            s.device@.tracks.len() == track_names@.len(),
            forall|i: int|
                0 <= i < track_names@.len() ==> #[trigger] s.device@.tracks[i]
                    == Seq::<Keyframe>::empty(),
    {
        let mut device = SyncDevice::new(125, 8);
        device.is_paused = start_paused;
        let n = track_names.len();
        let mut i: usize = 0;
        while i < n
            invariant
                i <= n,
                device_wf(device@),
                device@.bpm == 125,
                device@.rows_per_beat == 8,
                device@.time == 0,
                device@.row == 0,
                device@.is_paused == start_paused,
                device@.tracks.len() == i,
                forall|j: int|
                    0 <= j < i ==> #[trigger] device@.tracks[j] == Seq::<Keyframe>::empty(),
            decreases n - i,
        {
            device.add_track();
            i += 1;
        }
        let mut names_bytes: Vec<Vec<u8>> = Vec::new();
        let mut j: usize = 0;
        while j < n
            invariant
                j <= n,
                n == track_names@.len(),
                names_bytes@.map_values(|v: Vec<u8>| v@) == track_names@.map_values(
                    |nm: String| encode_utf8(nm@),
                ).take(j as int),
            decreases n - j,
        {
            let ghost pre = names_bytes@.map_values(|v: Vec<u8>| v@);
            let b = track_names[j].as_str().as_bytes_vec();
            names_bytes.push(b);
            proof {
                assert(names_bytes@.map_values(|v: Vec<u8>| v@) =~= pre.push(b@));
                assert(pre.push(b@) =~= track_names@.map_values(
                    |nm: String| encode_utf8(nm@),
                ).take(j + 1));
            }
            j += 1;
        }
        proof {
            assert(track_names@.map_values(|nm: String| encode_utf8(nm@)).take(n as int)
                =~= track_names@.map_values(|nm: String| encode_utf8(nm@)));
        }
        let hello = Message::SetTrackNames { names: names_bytes };
        proof {
            let names_model = track_names@.map_values(|nm: String| encode_utf8(nm@));
            assert forall|i2: int| 0 <= i2 < names_model.len() implies (#[trigger] names_model[
                i2
            ]).len() <= 65535 by {
                assert(names_model[i2] == encode_utf8(track_names@[i2]@));
            }
        }
        let hello_frame = encode_message(&hello);
        State {
            has_attempted_connect: false,
            t_rocket_last_connection_attempt: 0,
            t_frame_target: FRAME_TARGET_MS,
            is_running: true,
            draw_anyway: false,
            conn: ConnState::Disconnected,
            rx_buf: Vec::new(),
            track_names,
            hello_frame,
            device,
        }
    }

    /// Advance the playback clock by one frame budget. A paused state
    /// does not move at all: time and row stay unchanged.
    pub fn update_time(&mut self)
        requires
            state_wf(*old(self)),
        ensures
            state_wf(*final(self)),
            same_frame_fields(*old(self), *final(self)),
            final(self).conn == old(self).conn,
            final(self).rx_buf@ == old(self).rx_buf@,
            final(self).draw_anyway == old(self).draw_anyway,
            old(self).device.is_paused ==> final(self).device@ == old(self).device@,
            !old(self).device.is_paused ==> final(self).device@ == (DeviceModel {
                time: spec_advance_time(old(self).device.time, FRAME_TARGET_MS),
                row: spec_row_of_time(
                    spec_advance_time(old(self).device.time, FRAME_TARGET_MS),
                    old(self).device.bpm,
                    old(self).device.rows_per_beat,
                ),
                ..old(self).device@
            }),
    {
        self.device.advance(FRAME_TARGET_MS);
    }

    /// One transport interaction of the per-tick state machine: feed
    /// in what the transport did, get back what to do next.
    ///
    /// While disconnected, `Poll` asks for a connect at most once per
    /// `RETRY_INTERVAL_MS`. A successful connect pauses playback (the
    /// editor now controls it) and sends the registration frame. Any
    /// fault collapses to `Disconnected` without touching the track
    /// store or the paused flag. Received bytes are buffered, decoded
    /// frame by frame, and applied in arrival order, bounded per tick;
    /// while connected and running, the current row is echoed back.
    #[verifier::loop_isolation(false)]
    pub fn update_rocket(&mut self, event: TransportEvent) -> (a: RocketAction)
        requires
            state_wf(*old(self)),
        ensures
            state_wf(*final(self)),
            same_frame_fields(*old(self), *final(self)) || (event matches TransportEvent::Poll {
                now_ms,
            } && reconnect_due(*old(self), now_ms)),
            (match event {
                TransportEvent::Poll { now_ms } => {
                    if reconnect_due(*old(self), now_ms) {
                        &&& a == RocketAction::TryConnect
                        &&& *final(self) == (State {
                            has_attempted_connect: true,
                            t_rocket_last_connection_attempt: now_ms,
                            ..*old(self)
                        })
                    } else {
                        &&& a == RocketAction::Idle
                        &&& *final(self) == *old(self)
                    }
                },
                TransportEvent::ConnectOk => {
                    if old(self).conn is Disconnected {
                        &&& final(self).conn is Connected
                        &&& final(self).device@ == (DeviceModel {
                            is_paused: true,
                            ..old(self).device@
                        })
                        &&& final(self).rx_buf@ == Seq::<u8>::empty()
                        &&& final(self).draw_anyway == old(self).draw_anyway
                        &&& (a matches RocketAction::Send { frame } && frame@ == spec_encode(
                            spec_hello_msg(*old(self)),
                        ))
                    } else {
                        &&& a == RocketAction::Idle
                        &&& *final(self) == *old(self)
                    }
                },
                TransportEvent::ConnectFailed => {
                    &&& a == RocketAction::Idle
                    &&& *final(self) == *old(self)
                },
                TransportEvent::Fault => {
                    &&& a == RocketAction::Idle
                    &&& final(self).conn is Disconnected
                    &&& final(self).rx_buf@ == Seq::<u8>::empty()
                    &&& final(self).device@ == old(self).device@
                    &&& final(self).draw_anyway == old(self).draw_anyway
                },
                TransportEvent::Received { bytes } => {
                    if old(self).conn is Connected {
                        let out = spec_drain(
                            old(self).device@,
                            old(self).rx_buf@ + bytes@,
                            MAX_MESSAGES_PER_TICK as nat,
                        );
                        &&& final(self).device@ == out.dev
                        &&& final(self).draw_anyway == (old(self).draw_anyway || out.draw)
                        &&& (if out.faulted {
                            &&& final(self).conn is Disconnected
                            &&& final(self).rx_buf@ == Seq::<u8>::empty()
                            &&& a == (RocketAction::HangUp { fault: Fault::Protocol })
                        } else {
                            &&& final(self).conn is Connected
                            &&& final(self).rx_buf@ == out.rest
                            &&& (if out.dev.is_paused {
                                a == RocketAction::Idle
                            } else {
                                a matches RocketAction::Send { frame } && frame@ == spec_encode(
                                    MessageModel::SetRow { row: out.dev.row },
                                )
                            })
                        })
                    } else {
                        &&& a == RocketAction::Idle
                        &&& *final(self) == *old(self)
                    }
                },
            }),
    {
        match event {
            TransportEvent::Poll { now_ms } => {
                if matches!(self.conn, ConnState::Disconnected) && (!self.has_attempted_connect
                    || (now_ms >= self.t_rocket_last_connection_attempt && now_ms
                        - self.t_rocket_last_connection_attempt > RETRY_INTERVAL_MS)) {
                    self.has_attempted_connect = true;
                    self.t_rocket_last_connection_attempt = now_ms;
                    RocketAction::TryConnect
                } else {
                    RocketAction::Idle
                }
            },
            TransportEvent::ConnectOk => {
                if matches!(self.conn, ConnState::Disconnected) {
                    self.conn = ConnState::Connected;
                    self.device.is_paused = true;
                    self.rx_buf = Vec::new();
                    let frame = self.hello_frame.clone();
                    proof {
                        assert(frame@ == spec_encode(spec_hello_msg(*old(self))));
                    }
                    RocketAction::Send { frame }
                } else {
                    RocketAction::Idle
                }
            },
            TransportEvent::ConnectFailed => RocketAction::Idle,
            TransportEvent::Fault => {
                self.conn = ConnState::Disconnected;
                self.rx_buf = Vec::new();
                RocketAction::Idle
            },
            TransportEvent::Received { bytes } => {
                if matches!(self.conn, ConnState::Connected) {
                    let mut incoming = bytes;
                    self.rx_buf.append(&mut incoming);
                    let ghost d0 = old(self).device@;
                    let ghost b0 = old(self).rx_buf@ + bytes@;
                    let ghost target = spec_drain(d0, b0, MAX_MESSAGES_PER_TICK as nat);
                    proof {
                        assert(self.rx_buf@ == b0);
                    }
                    let mut iters: u64 = 0;
                    let mut faulted = false;
                    let mut blocked = false;
                    let mut draw = false;
                    while iters < MAX_MESSAGES_PER_TICK && !faulted && !blocked
                        invariant
                            iters <= MAX_MESSAGES_PER_TICK,
                            device_wf(self.device@),
                            same_frame_fields(*old(self), *self),
                            self.conn == old(self).conn,
                            self.draw_anyway == old(self).draw_anyway,
                            !faulted && !blocked ==> {
                                let cur = spec_drain(
                                    self.device@,
                                    self.rx_buf@,
                                    (MAX_MESSAGES_PER_TICK - iters) as nat,
                                );
                                &&& target.dev == cur.dev
                                &&& target.rest == cur.rest
                                &&& target.faulted == cur.faulted
                                &&& target.draw == (draw || cur.draw)
                            },
                            blocked ==> {
                                &&& !faulted
                                &&& target.dev == self.device@
                                &&& target.rest == self.rx_buf@
                                &&& !target.faulted
                                &&& target.draw == draw
                            },
                            faulted ==> {
                                &&& target.dev == self.device@
                                &&& target.faulted
                                &&& target.draw == draw
                            },
                        decreases MAX_MESSAGES_PER_TICK - iters,
                    {
                        let ghost dev_pre = self.device@;
                        let ghost buf_pre = self.rx_buf@;
                        let ghost fuel_pre = (MAX_MESSAGES_PER_TICK - iters) as nat;
                        match decode_frame(&self.rx_buf) {
                            DecodeResult::NeedMore => {
                                blocked = true;
                                iters += 1;
                            },
                            DecodeResult::Bad => {
                                faulted = true;
                                iters += 1;
                            },
                            DecodeResult::Got { msg, used } => {
                                let (ok, dr) = apply_message(&mut self.device, &msg);
                                if !ok {
                                    faulted = true;
                                    iters += 1;
                                } else {
                                    draw = draw || dr;
                                    let tail = self.rx_buf.split_off(used);
                                    self.rx_buf = tail;
                                    proof {
                                        assert(self.rx_buf@ =~= buf_pre.skip(used as int));
                                        assert(spec_drain(dev_pre, buf_pre, fuel_pre).draw == (
                                        dr || spec_drain(
                                            self.device@,
                                            self.rx_buf@,
                                            (fuel_pre - 1) as nat,
                                        ).draw));
                                    }
                                    iters += 1;
                                }
                            },
                        }
                    }
                    proof {
                        if !faulted && !blocked {
                            assert(spec_drain(self.device@, self.rx_buf@, 0).dev
                                == self.device@);
                        }
                    }
                    self.draw_anyway = self.draw_anyway || draw;
                    if faulted {
                        self.conn = ConnState::Disconnected;
                        self.rx_buf = Vec::new();
                        RocketAction::HangUp { fault: Fault::Protocol }
                    } else if !self.device.is_paused {
                        let frame = encode_message(&Message::SetRow { row: self.device.row });
                        RocketAction::Send { frame }
                    } else {
                        RocketAction::Idle
                    }
                } else {
                    RocketAction::Idle
                }
            },
        }
    }

    pub fn get_is_running(&self) -> (r: bool)
        ensures
            r == self.is_running,
    {
        self.is_running
    }

    pub fn set_is_running(&mut self, value: bool)
        ensures
            *final(self) == (State { is_running: value, ..*old(self) }),
    {
        self.is_running = value;
    }

    pub fn get_is_paused(&self) -> (r: bool)
        ensures
            r == self.device.is_paused,
    {
        self.device.is_paused
    }

    pub fn set_is_paused(&mut self, value: bool)
        ensures
            final(self).device@ == (DeviceModel { is_paused: value, ..old(self).device@ }),
            same_frame_fields(*old(self), *final(self)),
            final(self).conn == old(self).conn,
            final(self).rx_buf@ == old(self).rx_buf@,
            final(self).draw_anyway == old(self).draw_anyway,
            state_wf(*old(self)) ==> state_wf(*final(self)),
    {
        self.device.is_paused = value;
    }

    /// Read-only view of the sync device, for value sampling.
    pub fn get_sync_device(&self) -> (d: &SyncDevice)
        ensures
            *d == self.device,
    {
        &self.device
    }

    /// Mutable access to the sync device.
    pub fn get_sync_device_mut(&mut self) -> (d: &mut SyncDevice)
        ensures
            *d == old(self).device,
            *final(self) == (State { device: *final(d), ..*old(self) }),
    {
        &mut self.device
    }

    pub fn get_track_names(&self) -> (names: &Vec<String>)
        ensures
            *names == self.track_names,
    {
        &self.track_names
    }

    /// Sample a track at the current row; an unknown index yields the
    /// default 0 and rendering goes on.
    pub fn get_track_value(&self, track_id: usize) -> (v: i64)
        requires
            state_wf(*self),
        ensures
            track_id < self.device@.tracks.len() ==> v == track_value_at(
                self.device@.tracks[track_id as int],
                self.device.row,
            ),
            track_id >= self.device@.tracks.len() ==> v == 0,
    {
        match self.device.get_track_value(track_id) {
            Ok(x) => x,
            Err(_) => 0,
        }
    }
}

} // verus!
