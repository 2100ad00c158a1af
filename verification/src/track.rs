//! Track store: named animation parameters as sorted keyframe lists.
//!
//! A keyframe value is a signed 16.16 fixed-point number: `VALUE_ONE`
//! stands for 1.0. Sampling a track at a row interpolates between the
//! two enclosing keyframes with the left keyframe's interpolation mode,
//! clamps outside the keyframe range, and yields 0 for an empty track.

use vstd::prelude::*;
use vstd::arithmetic::div_mod::{
    lemma_div_is_ordered, lemma_div_multiples_vanish, lemma_multiply_divide_lt,
};

verus! {

/// One whole unit of a track value: values are 16.16 fixed point.
pub const VALUE_ONE: i32 = 65536;

/// How a segment blends between its bounding keyframes.
#[derive(Clone, Copy, PartialEq, Eq, Structural, Debug)]
pub enum Interpolation {
    /// Hold the left keyframe's value.
    Step,
    /// Proportional blend between the bounding keyframes.
    Linear,
    /// Smoothstep blend.
    Smooth,
    /// Linear blend with no easing.
    Ramp,
}

/// A keyframe: a value pinned to a row, with the blend mode of the
/// segment that starts here.
#[derive(Clone, Copy, PartialEq, Eq, Structural, Debug)]
pub struct Keyframe {
    pub row: u32,
    /// 16.16 fixed-point value.
    pub value: i32,
    pub interp: Interpolation,
}

/// Keyframes sorted strictly ascending by row.
pub open spec fn track_wf(keys: Seq<Keyframe>) -> bool {
    forall|i: int, j: int| 0 <= i < j < keys.len() ==> keys[i].row < keys[j].row
}

/// Blend position within a segment, scaled so that 65536 is 1.0.
pub open spec fn blend_factor(r0: u32, r1: u32, row: u32) -> int
    recommends
        r0 <= row < r1,
{
    ((row - r0) * 65536) / (r1 - r0)
}

/// Smoothstep easing of a scaled blend position (65536 is 1.0).
pub open spec fn smooth_factor(t: int) -> int
    recommends
        0 <= t <= 65536,
{
    (t * t * (3 * 65536 - 2 * t)) / (65536int * 65536)
}

/// Linear blend from `v0` to `v1` by the scaled factor `t`.
pub open spec fn lerp(v0: i32, v1: i32, t: int) -> int
    recommends
        0 <= t <= 65536,
{
    if v1 >= v0 {
        v0 + ((v1 - v0) * t) / 65536
    } else {
        v0 - ((v0 - v1) * t) / 65536
    }
}

/// Value of the segment bounded by `k0` and `k1` at `row`.
pub open spec fn seg_value(k0: Keyframe, k1: Keyframe, row: u32) -> int
    recommends
        k0.row <= row < k1.row,
{
    let t = blend_factor(k0.row, k1.row, row);
    match k0.interp {
        Interpolation::Step => k0.value as int,
        Interpolation::Linear => lerp(k0.value, k1.value, t),
        Interpolation::Ramp => lerp(k0.value, k1.value, t),
        Interpolation::Smooth => lerp(k0.value, k1.value, smooth_factor(t)),
    }
}

/// Least index whose keyframe row is at or past `row` (the length if
/// every keyframe lies before `row`).
pub open spec fn key_pos(keys: Seq<Keyframe>, row: u32) -> int
    decreases keys.len(),
{
    if keys.len() == 0 {
        0
    } else if keys[0].row >= row {
        0
    } else {
        1 + key_pos(keys.drop_first(), row)
    }
}

/// `key_pos` splits the sorted keyframe list: strictly earlier rows on
/// the left, rows at or past `row` from the position on.
pub proof fn lemma_key_pos_properties(keys: Seq<Keyframe>, row: u32)
    ensures
        0 <= key_pos(keys, row) <= keys.len(),
        forall|j: int| 0 <= j < key_pos(keys, row) ==> keys[j].row < row,
        key_pos(keys, row) < keys.len() ==> keys[key_pos(keys, row)].row >= row,
    decreases keys.len(),
{
    if keys.len() == 0 {
    } else if keys[0].row >= row {
    } else {
        lemma_key_pos_properties(keys.drop_first(), row);
        let p = key_pos(keys, row);
        assert forall|j: int| 0 <= j < p implies keys[j].row < row by {
            if j > 0 {
                assert(keys.drop_first()[j - 1] == keys[j]);
            }
        }
        if p < keys.len() {
            assert(keys.drop_first()[p - 1] == keys[p]);
        }
    }
}

/// The sampled value of a keyframe list at a row: 0 when empty, the
/// boundary keyframe's value outside the keyframe range, otherwise the
/// enclosing segment's interpolated value.
pub open spec fn track_value_at(keys: Seq<Keyframe>, row: u32) -> int
    recommends
        track_wf(keys),
{
    if keys.len() == 0 {
        0
    } else if row <= keys[0].row {
        keys[0].value as int
    } else if row >= keys[keys.len() - 1].row {
        keys[keys.len() - 1].value as int
    } else {
        let p = key_pos(keys, row);
        if keys[p].row == row {
            keys[p].value as int
        } else {
            seg_value(keys[p - 1], keys[p], row)
        }
    }
}

/// Keyframe list after writing `k`: replaces the keyframe at `k.row`
/// when one exists, otherwise inserts `k` in row order.
pub open spec fn spec_set_key(keys: Seq<Keyframe>, k: Keyframe) -> Seq<Keyframe> {
    let p = key_pos(keys, k.row);
    if p < keys.len() && keys[p].row == k.row {
        keys.update(p, k)
    } else {
        keys.insert(p, k)
    }
}

/// Keyframe list after deleting the keyframe at `row`, if any.
pub open spec fn spec_delete_key(keys: Seq<Keyframe>, row: u32) -> Seq<Keyframe> {
    let p = key_pos(keys, row);
    if p < keys.len() && keys[p].row == row {
        keys.remove(p)
    } else {
        keys
    }
}

/// A named animation parameter's keyframes; the name itself is kept by
/// the owner, which addresses tracks by index.
pub struct Track {
    keys: Vec<Keyframe>,
}

impl View for Track {
    type V = Seq<Keyframe>;

    closed spec fn view(&self) -> Seq<Keyframe> {
        self.keys@
    }
}

impl Track {
    /// An empty track; sampling it yields 0 everywhere.
    pub fn new() -> (t: Track)
        ensures
            t@ == Seq::<Keyframe>::empty(),
    {
        Track { keys: Vec::new() }
    }

    /// How many keyframes the track holds.
    pub fn key_count(&self) -> (n: usize)
        ensures
            n == self@.len(),
    {
        self.keys.len()
    }

    /// The keyframe at a position, in row order.
    pub fn key_at(&self, i: usize) -> (k: Keyframe)
        requires
            i < self@.len(),
        ensures
            k == self@[i as int],
    {
        self.keys[i]
    }

    /// Sample the track at `row`.
    pub fn get_value(&self, row: u32) -> (v: i64)
        requires
            track_wf(self@),
        ensures
            v == track_value_at(self@, row),
    {
        let n = self.keys.len();
        if n == 0 {
            return 0;
        }
        if row <= self.keys[0].row {
            return self.keys[0].value as i64;
        }
        if row >= self.keys[n - 1].row {
            return self.keys[n - 1].value as i64;
        }
        // Here keys[0].row < row < keys[n-1].row, so the enclosing
        // segment exists; find the least index with row at or past ours.
        let mut p: usize = 1;
        while p < n - 1 && self.keys[p].row < row
            invariant
                1 <= p <= n - 1,
                n == self@.len(),
                forall|j: int| 0 <= j < p ==> self@[j].row < row,
            decreases n - p,
        {
            p += 1;
        }
        proof {
            lemma_key_pos_properties(self@, row);
            let sp = key_pos(self@, row);
            assert(self@[n - 1].row >= row);
            if p < sp {
                assert(self@[p as int].row < row);
                assert(false);
            }
            if sp < p {
                assert(self@[sp].row < row);
                assert(false);
            }
        }
        if self.keys[p].row == row {
            return self.keys[p].value as i64;
        }
        interp_segment(self.keys[p - 1], self.keys[p], row)
    }

    /// Write a keyframe: replace the one at the same row or insert in
    /// row order.
    pub fn set_key(&mut self, k: Keyframe)
        requires
            track_wf(old(self)@),
        ensures
            final(self)@ == spec_set_key(old(self)@, k),
            track_wf(final(self)@),
    {
        let n = self.keys.len();
        let mut p: usize = 0;
        while p < n && self.keys[p].row < k.row
            invariant
                0 <= p <= n,
                n == self@.len(),
                self@ == old(self)@,
                forall|j: int| 0 <= j < p ==> self@[j].row < k.row,
            decreases n - p,
        {
            p += 1;
        }
        proof {
            lemma_key_pos_properties(self@, k.row);
            let sp = key_pos(self@, k.row);
            if p < sp {
                assert(self@[p as int].row < k.row);
                assert(false);
            }
            if sp < p {
                assert(self@[sp].row < k.row);
                assert(false);
            }
        }
        if p < n && self.keys[p].row == k.row {
            let slot = &mut self.keys[p];
            *slot = k;
            proof {
                assert(final(self)@ =~= spec_set_key(old(self)@, k));
            }
        } else {
            self.keys.insert(p, k);
            proof {
                assert(final(self)@ =~= spec_set_key(old(self)@, k));
                lemma_key_pos_properties(old(self)@, k.row);
            }
        }
    }

    /// Delete the keyframe at `row`, if the track holds one.
    pub fn delete_key(&mut self, row: u32)
        requires
            track_wf(old(self)@),
        ensures
            final(self)@ == spec_delete_key(old(self)@, row),
            track_wf(final(self)@),
    {
        let n = self.keys.len();
        let mut p: usize = 0;
        while p < n && self.keys[p].row < row
            invariant
                0 <= p <= n,
                n == self@.len(),
                self@ == old(self)@,
                forall|j: int| 0 <= j < p ==> self@[j].row < row,
            decreases n - p,
        {
            p += 1;
        }
        proof {
            lemma_key_pos_properties(self@, row);
            let sp = key_pos(self@, row);
            if p < sp {
                assert(self@[p as int].row < row);
                assert(false);
            }
            if sp < p {
                assert(self@[sp].row < row);
                assert(false);
            }
        }
        if p < n && self.keys[p].row == row {
            self.keys.remove(p);
            proof {
                assert(final(self)@ =~= spec_delete_key(old(self)@, row));
            }
        } else {
            proof {
                assert(final(self)@ =~= spec_delete_key(old(self)@, row));
            }
        }
    }
}

/// Scaled blend position of `row` inside `[r0, r1)`.
fn blend_exec(r0: u32, r1: u32, row: u32) -> (t: u64)
    requires
        r0 <= row < r1,
    ensures
        t == blend_factor(r0, r1, row),
        t < 65536,
{
    let num: u64 = (row - r0) as u64;
    let den: u64 = (r1 - r0) as u64;
    let t = num * 65536 / den;
    proof {
        assert((num as int) * 65536 < (den as int) * 65536) by (nonlinear_arith)
            requires
                0 <= num < den,
        ;
        lemma_multiply_divide_lt((num * 65536) as int, den as int, 65536);
    }
    t
}

/// Smoothstep easing of a scaled blend position.
fn smooth_exec(t: u64) -> (s: u64)
    requires
        t <= 65536,
    ensures
        s == smooth_factor(t as int),
        s <= 65536,
{
    proof {
        let x = t as int;
        assert(x * x <= 65536 * 65536) by (nonlinear_arith)
            requires
                0 <= x <= 65536,
        ;
        assert(x * x * (3 * 65536 - 2 * x) <= 65536 * 65536 * 65536) by (nonlinear_arith)
            requires
                0 <= x <= 65536,
        ;
        assert(0 <= x * x * (3 * 65536 - 2 * x)) by (nonlinear_arith)
            requires
                0 <= x <= 65536,
        ;
        lemma_div_is_ordered(
            x * x * (3 * 65536 - 2 * x),
            65536int * 65536 * 65536,
            65536int * 65536,
        );
    }
    t * t * (3 * 65536 - 2 * t) / (65536 * 65536)
}

/// Linear blend from `v0` to `v1` by the scaled factor `t`.
fn lerp_exec(v0: i32, v1: i32, t: u64) -> (v: i64)
    requires
        t <= 65536,
    ensures
        v == lerp(v0, v1, t as int),
{
    if v1 >= v0 {
        let d: u64 = (v1 as i64 - v0 as i64) as u64;
        proof {
            lemma_scaled_blend_bounded(d as int, t as int);
        }
        let q: u64 = d * t / 65536;
        v0 as i64 + q as i64
    } else {
        let d: u64 = (v0 as i64 - v1 as i64) as u64;
        proof {
            lemma_scaled_blend_bounded(d as int, t as int);
        }
        let q: u64 = d * t / 65536;
        v0 as i64 - q as i64
    }
}

/// A blend displacement never exceeds the keyframe distance itself.
proof fn lemma_scaled_blend_bounded(d: int, t: int)
    requires
        0 <= d,
        0 <= t <= 65536,
    ensures
        0 <= (d * t) / 65536 <= d,
{
    assert(d * t <= d * 65536) by (nonlinear_arith)
        requires
            0 <= d,
            0 <= t <= 65536,
    ;
    assert(0 <= d * t) by (nonlinear_arith)
        requires
            0 <= d,
            0 <= t,
    ;
    lemma_div_is_ordered(d * t, d * 65536, 65536);
    lemma_div_multiples_vanish(d, 65536);
}

/// Interpolate inside the segment bounded by `k0` and `k1`.
fn interp_segment(k0: Keyframe, k1: Keyframe, row: u32) -> (v: i64)
    requires
        k0.row <= row < k1.row,
    ensures
        v == seg_value(k0, k1, row),
{
    match k0.interp {
        Interpolation::Step => k0.value as i64,
        Interpolation::Linear => {
            let t = blend_exec(k0.row, k1.row, row);
            lerp_exec(k0.value, k1.value, t)
        },
        Interpolation::Ramp => {
            let t = blend_exec(k0.row, k1.row, row);
            lerp_exec(k0.value, k1.value, t)
        },
        Interpolation::Smooth => {
            let t = blend_exec(k0.row, k1.row, row);
            let s = smooth_exec(t);
            lerp_exec(k0.value, k1.value, s)
        },
    }
}

/// With at least one keyframe, sampling at the first keyframe's row
/// yields exactly that keyframe's value.
pub proof fn lemma_value_at_first_key(keys: Seq<Keyframe>, row: u32)
    requires
        track_wf(keys),
        keys.len() >= 1,
        row == keys[0].row,
    ensures
        track_value_at(keys, row) == keys[0].value as int,
{
}

/// Outside the keyframe range the sampled value clamps to the nearest
/// boundary keyframe's value.
pub proof fn lemma_value_clamps(keys: Seq<Keyframe>, row: u32)
    requires
        track_wf(keys),
        keys.len() >= 1,
        row <= keys[0].row || row >= keys[keys.len() - 1].row,
    ensures
        row <= keys[0].row ==> track_value_at(keys, row) == keys[0].value as int,
        row >= keys[keys.len() - 1].row ==> track_value_at(keys, row)
            == keys[keys.len() - 1].value as int,
{
}

} // verus!
