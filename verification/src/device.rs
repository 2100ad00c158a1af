//! Sync device: playback clock, tempo, paused flag, and the track
//! store, with the row always derived from the time.
//!
//! The row counts discrete playback positions: `row = time_ms * bpm *
//! rows_per_beat / 60000`, clamped to `u32::MAX`. A paused device never
//! moves; an editor's row override rewinds the clock to the earliest
//! millisecond that maps back to the requested row.

use vstd::prelude::*;
use vstd::arithmetic::div_mod::{
    lemma_div_is_ordered, lemma_div_multiples_vanish, lemma_div_multiples_vanish_fancy,
    lemma_div_nonincreasing, lemma_div_pos_is_pos, lemma_remainder_lower, lemma_remainder_upper,
};
use crate::error::SyncError;
use crate::track::{Keyframe, Track, track_wf, track_value_at, spec_set_key, spec_delete_key};

verus! {

/// Mathematical model of a sync device.
pub struct DeviceModel {
    pub bpm: u32,
    pub rows_per_beat: u32,
    pub time: u64,
    pub row: u32,
    pub is_paused: bool,
    pub tracks: Seq<Seq<Keyframe>>,
}

/// The row a time in milliseconds maps to, clamped to `u32::MAX`.
pub open spec fn spec_row_of_time(time: u64, bpm: u32, rows_per_beat: u32) -> u32
    recommends
        1 <= bpm * rows_per_beat <= 60000,
{
    let q = (time * bpm * rows_per_beat) / 60000;
    if q > u32::MAX {
        u32::MAX
    } else {
        q as u32
    }
}

/// The earliest millisecond that maps to `row`: the row override
/// rewinds the clock here so the row stays derivable from the time.
pub open spec fn spec_time_of_row(row: u32, bpm: u32, rows_per_beat: u32) -> u64
    recommends
        1 <= bpm * rows_per_beat <= 60000,
{
    let k = bpm * rows_per_beat;
    ((60000 * row + k - 1) / k) as u64
}

/// The time after advancing by `delta_ms`, saturating at the top.
pub open spec fn spec_advance_time(time: u64, delta_ms: u64) -> u64 {
    if time + delta_ms > u64::MAX {
        u64::MAX
    } else {
        (time + delta_ms) as u64
    }
}

/// Tempo configuration the device accepts: a positive rate of at most
/// one row per millisecond.
pub open spec fn tempo_wf(bpm: u32, rows_per_beat: u32) -> bool {
    &&& 1 <= bpm
    &&& 1 <= rows_per_beat
    &&& bpm * rows_per_beat <= 60000
}

/// Device invariant: sane tempo, row derived from time, every track's
/// keyframes sorted.
pub open spec fn device_wf(d: DeviceModel) -> bool {
    &&& tempo_wf(d.bpm, d.rows_per_beat)
    &&& d.row == spec_row_of_time(d.time, d.bpm, d.rows_per_beat)
    &&& forall|i: int| 0 <= i < d.tracks.len() ==> track_wf(#[trigger] d.tracks[i])
}

/// Rounding up to the next multiple and flooring back is lossless when
/// the divisor stays under the multiple's base.
proof fn lemma_row_time_round_trip(row: u32, bpm: u32, rows_per_beat: u32)
    requires
        tempo_wf(bpm, rows_per_beat),
    ensures
        spec_row_of_time(spec_time_of_row(row, bpm, rows_per_beat), bpm, rows_per_beat) == row,
{
    let b = bpm as int;
    let p = rows_per_beat as int;
    let k = b * p;
    assert(1 <= k && k <= 60000) by (nonlinear_arith)
        requires
            1 <= b,
            1 <= p,
            b * p <= 60000,
            k == b * p,
    ;
    let a = 60000 * (row as int);
    let x = a + k - 1;
    let t = x / k;
    lemma_remainder_lower(x, k);
    lemma_remainder_upper(x, k);
    lemma_div_pos_is_pos(x, k);
    lemma_div_nonincreasing(x, k);
    let tm = spec_time_of_row(row, bpm, rows_per_beat);
    assert(tm == t);
    assert(tm * b * p == t * k) by (nonlinear_arith)
        requires
            k == b * p,
            tm == t,
    ;
    lemma_div_is_ordered(a, t * k, 60000);
    lemma_div_is_ordered(t * k, a + 59999, 60000);
    lemma_div_multiples_vanish(row as int, 60000);
    lemma_div_multiples_vanish_fancy(row as int, 59999, 60000);
}

/// The live mirror of the editor's timeline: tempo, clock, paused
/// flag, and one keyframe track per registered name.
pub struct SyncDevice {
    pub bpm: u32,
    pub rows_per_beat: u32,
    /// Playback time in milliseconds.
    pub time: u64,
    /// Playback row, always derived from `time`.
    pub row: u32,
    pub is_paused: bool,
    pub tracks: Vec<Track>,
}

impl View for SyncDevice {
    type V = DeviceModel;

    open spec fn view(&self) -> DeviceModel {
        DeviceModel {
            bpm: self.bpm,
            rows_per_beat: self.rows_per_beat,
            time: self.time,
            row: self.row,
            is_paused: self.is_paused,
            tracks: self.tracks@.map_values(|t: Track| t@),
        }
    }
}

/// Compute the row a time maps to, clamped to `u32::MAX`.
fn row_of_time(time: u64, bpm: u32, rows_per_beat: u32) -> (r: u32)
    requires
        tempo_wf(bpm, rows_per_beat),
    ensures
        r == spec_row_of_time(time, bpm, rows_per_beat),
{
    proof {
        assert(bpm <= 60000 && rows_per_beat <= 60000) by (nonlinear_arith)
            requires
                1 <= bpm,
                1 <= rows_per_beat,
                (bpm as int) * (rows_per_beat as int) <= 60000,
        ;
        assert(0 <= (time as int) * (bpm as int) <= (u64::MAX as int) * 60000) by (nonlinear_arith)
            requires
                0 <= time <= u64::MAX,
                0 <= bpm <= 60000,
        ;
        assert((time as int) * (bpm as int) * (rows_per_beat as int)
            <= (u64::MAX as int) * 60000 * 60000) by (nonlinear_arith)
            requires
                0 <= (time as int) * (bpm as int) <= (u64::MAX as int) * 60000,
                0 <= rows_per_beat <= 60000,
        ;
    }
    let prod: u128 = time as u128 * bpm as u128 * rows_per_beat as u128;
    let q: u128 = prod / 60000;
    if q > u32::MAX as u128 {
        u32::MAX
    } else {
        q as u32
    }
}

impl SyncDevice {
    /// A fresh device: clock at zero, not paused, no tracks yet.
    pub fn new(bpm: u32, rows_per_beat: u32) -> (d: SyncDevice)
        requires
            tempo_wf(bpm, rows_per_beat),
        ensures
            d@ == (DeviceModel {
                bpm,
                rows_per_beat,
                time: 0,
                row: 0,
                is_paused: false,
                tracks: Seq::<Seq<Keyframe>>::empty(),
            }),
            device_wf(d@),
    {
        let d = SyncDevice {
            bpm,
            rows_per_beat,
            time: 0,
            row: 0,
            is_paused: false,
            tracks: Vec::new(),
        };
        proof {
            assert(d@.tracks =~= Seq::<Seq<Keyframe>>::empty());
            assert((0 as int) * (bpm as int) * (rows_per_beat as int) == 0) by (nonlinear_arith);
        }
        d
    }

    /// Append one empty track; it answers the next registered name.
    pub fn add_track(&mut self)
        ensures
            final(self)@ == (DeviceModel {
                tracks: old(self)@.tracks.push(Seq::<Keyframe>::empty()),
                ..old(self)@
            }),
    {
        self.tracks.push(Track::new());
        proof {
            assert(final(self)@.tracks =~= old(self)@.tracks.push(Seq::<Keyframe>::empty()));
        }
    }

    /// Move the clock forward when not paused; a paused device does not
    /// move at all.
    pub fn advance(&mut self, delta_ms: u64)
        requires
            device_wf(old(self)@),
        ensures
            device_wf(final(self)@),
            old(self).is_paused ==> *final(self) == *old(self),
            !old(self).is_paused ==> final(self)@ == (DeviceModel {
                time: spec_advance_time(old(self).time, delta_ms),
                row: spec_row_of_time(
                    spec_advance_time(old(self).time, delta_ms),
                    old(self).bpm,
                    old(self).rows_per_beat,
                ),
                ..old(self)@
            }),
    {
        if !self.is_paused {
            if delta_ms <= u64::MAX - self.time {
                self.time = self.time + delta_ms;
            } else {
                self.time = u64::MAX;
            }
            self.set_row_from_time();
        }
    }

    /// Recompute the row from the current time and tempo.
    pub fn set_row_from_time(&mut self)
        requires
            tempo_wf(old(self).bpm, old(self).rows_per_beat),
        ensures
            final(self)@ == (DeviceModel {
                row: spec_row_of_time(old(self).time, old(self).bpm, old(self).rows_per_beat),
                ..old(self)@
            }),
    {
        self.row = row_of_time(self.time, self.bpm, self.rows_per_beat);
    }

    /// Take the editor's row as authoritative: set the row and rewind
    /// the clock to the earliest time that maps to it.
    pub fn set_row(&mut self, row: u32)
        requires
            device_wf(old(self)@),
        ensures
            device_wf(final(self)@),
            final(self)@ == (DeviceModel {
                time: spec_time_of_row(row, old(self).bpm, old(self).rows_per_beat),
                row,
                ..old(self)@
            }),
    {
        proof {
            assert(1 <= (self.bpm as int) * (self.rows_per_beat as int)) by (nonlinear_arith)
                requires
                    1 <= self.bpm,
                    1 <= self.rows_per_beat,
            ;
        }
        let k: u64 = self.bpm as u64 * self.rows_per_beat as u64;
        self.time = (60000 * row as u64 + (k - 1)) / k;
        self.row = row;
        proof {
            lemma_row_time_round_trip(row, self.bpm, self.rows_per_beat);
        }
    }

    /// Sample the track at `index` at the current row; an index beyond
    /// the registered tracks reports `UnknownTrack`.
    pub fn get_track_value(&self, index: usize) -> (r: Result<i64, SyncError>)
        requires
            device_wf(self@),
        ensures
            index < self@.tracks.len() ==> r is Ok
                && r->Ok_0 == track_value_at(self@.tracks[index as int], self.row),
            index >= self@.tracks.len() ==> r == Result::<i64, SyncError>::Err(
                SyncError::UnknownTrack,
            ),
    {
        if index < self.tracks.len() {
            proof {
                assert(self@.tracks[index as int] == self.tracks@[index as int]@);
            }
            Ok(self.tracks[index].get_value(self.row))
        } else {
            Err(SyncError::UnknownTrack)
        }
    }

    /// Write a keyframe into the track at `index`; reports whether the
    /// index named a registered track.
    pub fn set_track_key(&mut self, index: usize, k: Keyframe) -> (ok: bool)
        requires
            device_wf(old(self)@),
        ensures
            device_wf(final(self)@),
            ok == (index < old(self)@.tracks.len()),
            ok ==> final(self)@ == (DeviceModel {
                tracks: old(self)@.tracks.update(
                    index as int,
                    spec_set_key(old(self)@.tracks[index as int], k),
                ),
                ..old(self)@
            }),
            !ok ==> *final(self) == *old(self),
    {
        if index < self.tracks.len() {
            let tr = &mut self.tracks[index];
            tr.set_key(k);
            proof {
                assert(final(self)@.tracks =~= old(self)@.tracks.update(
                    index as int,
                    spec_set_key(old(self)@.tracks[index as int], k),
                ));
            }
            true
        } else {
            false
        }
    }

    /// Delete the keyframe at `row` in the track at `index`; reports
    /// whether the index named a registered track.
    pub fn delete_track_key(&mut self, index: usize, row: u32) -> (ok: bool)
        requires
            device_wf(old(self)@),
        ensures
            device_wf(final(self)@),
            ok == (index < old(self)@.tracks.len()),
            ok ==> final(self)@ == (DeviceModel {
                tracks: old(self)@.tracks.update(
                    index as int,
                    spec_delete_key(old(self)@.tracks[index as int], row),
                ),
                ..old(self)@
            }),
            !ok ==> *final(self) == *old(self),
    {
        if index < self.tracks.len() {
            let tr = &mut self.tracks[index];
            tr.delete_key(row);
            proof {
                assert(final(self)@.tracks =~= old(self)@.tracks.update(
                    index as int,
                    spec_delete_key(old(self)@.tracks[index as int], row),
                ));
            }
            true
        } else {
            false
        }
    }
}

} // verus!
