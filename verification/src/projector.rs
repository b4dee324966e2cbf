//! The projector: turns a corrected hit distance and a viewport
//! height into a vertical wall slice centered on the viewport's
//! horizontal midline, and maps pixel rows inside a slice to
//! texture-v coordinates.
use vstd::arithmetic::div_mod::{
    lemma_div_is_ordered,
    lemma_div_is_ordered_by_denominator,
    lemma_div_multiples_vanish,
    lemma_fundamental_div_mod,
    lemma_multiply_divide_lt,
};
use vstd::prelude::*;

use crate::caster::FP;

verus! {

/// Perspective scale of the projection: a wall one cell away spans
/// `FOCAL` viewport heights per world unit of distance.
pub const FOCAL: i64 = 50;

/// Smallest distance used in the projection division (fixed point):
/// nearer hits are clamped here, so the division is never by zero or
/// near zero and the slice height stays bounded.
pub const MIN_DIST: i64 = 16;

/// Largest accepted viewport dimension or texture dimension.
pub const MAX_VIEW: usize = 0x10_0000;

/// The distance actually used by the projection: `d`, clamped from
/// below to `MIN_DIST`.
pub open spec fn spec_clamp_dist(d: int) -> int {
    if d < MIN_DIST {
        MIN_DIST as int
    } else {
        d
    }
}

/// Height in pixel rows of the wall slice for a hit at corrected
/// distance `d` (fixed point) on a viewport `vh` rows tall: inversely
/// proportional to the distance.
pub open spec fn spec_slice_height(d: int, vh: int) -> int {
    (vh * FOCAL * FP) / spec_clamp_dist(d)
}

/// First row of the wall slice for a hit at corrected distance `d`
/// on a viewport `vh` rows tall: the floor half of the slice height
/// above the midline, clipped to the top edge.
pub open spec fn spec_slice_top(d: int, vh: int) -> int {
    let h = spec_slice_height(d, vh);
    let hh = vh / 2;
    let half = h / 2;
    if half >= hh {
        0int
    } else {
        hh - half
    }
}

/// One past the last row of the wall slice: the remaining half of
/// the slice height below the midline, clipped to the bottom edge.
pub open spec fn spec_slice_bottom(d: int, vh: int) -> int {
    let h = spec_slice_height(d, vh);
    let hh = vh / 2;
    let half = h / 2;
    if hh + (h - half) >= vh {
        vh
    } else {
        hh + (h - half)
    }
}

/// A vertical run of pixel rows `[top, bottom)` in one viewport
/// column; empty when `top == bottom`.
#[derive(Clone, Copy, Debug, PartialEq, Eq, Structural)]
pub struct Slice {
    pub top: usize,
    pub bottom: usize,
}

/// Projects a corrected hit distance to the wall slice drawn in one
/// viewport column: the slice has height `spec_slice_height`, sits
/// centered on the midline row `vh / 2`, and is clipped to the
/// viewport.
pub fn project_slice(dist: i64, vh: usize) -> (s: Slice)
    requires
        0 <= dist <= 0x4_0000_0000_0000,
        vh <= MAX_VIEW,
    ensures
        s.top == spec_slice_top(dist as int, vh as int),
        s.bottom == spec_slice_bottom(dist as int, vh as int),
        s.top <= vh as int / 2 <= s.bottom <= vh,
{
    let hh = vh / 2;
    let d = if dist < MIN_DIST {
        MIN_DIST
    } else {
        dist
    };
    let num = (vh as i64) * FOCAL * FP;
    let h = ((num as u64) / (d as u64)) as i64;
    let half = h / 2;
    let top = if half >= hh as i64 {
        0
    } else {
        hh - half as usize
    };
    let rest = h - half;
    let bottom_i = hh as i64 + rest;
    let bottom = if bottom_i >= vh as i64 {
        vh
    } else {
        bottom_i as usize
    };
    Slice { top, bottom }
}

/// The projection is monotone: a farther hit never yields a taller
/// slice.
pub proof fn lemma_slice_height_monotone(d1: int, d2: int, vh: int)
    requires
        d1 <= d2,
        0 <= vh,
    ensures
        spec_slice_height(d2, vh) <= spec_slice_height(d1, vh),
{
    let n = vh * FOCAL * FP;
    let c1 = spec_clamp_dist(d1);
    let c2 = spec_clamp_dist(d2);
    assert(n >= 0) by (nonlinear_arith)
        requires
            0 <= vh,
            n == vh * FOCAL * FP,
            FOCAL == 50,
            FP == 1024,
    ;
    lemma_div_is_ordered_by_denominator(n, c1, c2);
}

/// The projection is strictly monotone wherever the viewport height
/// times the focal scale still resolves the two distances: if
/// `d1 * d2` is at most the projection numerator `vh * FOCAL * FP`,
/// a strictly farther hit yields a strictly shorter slice.
pub proof fn lemma_slice_height_strict(d1: int, d2: int, vh: int)
    requires
        MIN_DIST <= d1 < d2,
        0 <= vh,
        d1 * d2 <= vh * FOCAL * FP,
    ensures
        spec_slice_height(d2, vh) < spec_slice_height(d1, vh),
{
    let n = vh * FOCAL * FP;
    let q2 = n / d2;
    assert(spec_clamp_dist(d1) == d1);
    assert(spec_clamp_dist(d2) == d2);
    assert(d1 * d2 == d2 * d1) by (nonlinear_arith);
    lemma_div_multiples_vanish(d1, d2);
    lemma_div_is_ordered(d2 * d1, n, d2);
    assert(q2 >= d1);
    lemma_fundamental_div_mod(n, d2);
    assert(n >= q2 * d2) by (nonlinear_arith)
        requires
            n == d2 * q2 + n % d2,
            n % d2 >= 0,
    ;
    assert(q2 * d2 >= (q2 + 1) * d1) by (nonlinear_arith)
        requires
            q2 >= d1,
            d2 >= d1 + 1,
            d1 >= MIN_DIST,
    ;
    lemma_div_is_ordered((q2 + 1) * d1, n, d1);
    assert((q2 + 1) * d1 == d1 * (q2 + 1)) by (nonlinear_arith);
    lemma_div_multiples_vanish(q2 + 1, d1);
    assert(n / d1 >= q2 + 1);
}

/// Maps a pixel row inside a slice to the texture-v coordinate drawn
/// there: the row's offset within the slice, scaled linearly to the
/// texture's height.
pub fn texture_v(y: usize, top: usize, bottom: usize, tex_h: usize) -> (tv: usize)
    requires
        top <= y < bottom,
        bottom <= MAX_VIEW,
        tex_h <= MAX_VIEW,
    ensures
        tv == ((y - top) * tex_h) / (bottom - top),
        tex_h > 0 ==> tv < tex_h,
{
    proof {
        assert(((y - top) as int) * (tex_h as int) <= (MAX_VIEW as int) * (MAX_VIEW as int))
            by (nonlinear_arith)
            requires
                0 <= ((y - top) as int) <= MAX_VIEW,
                0 <= tex_h <= MAX_VIEW,
        ;
    }
    let num = ((y - top) as u64) * (tex_h as u64);
    let den = (bottom - top) as u64;
    let q = num / den;
    proof {
        vstd::arithmetic::div_mod::lemma_div_of0(den as int);
        if tex_h > 0 {
            assert(((y - top) as int) * (tex_h as int) < ((bottom - top) as int) * (tex_h as int))
                by (nonlinear_arith)
                requires
                    ((y - top) as int) < ((bottom - top) as int),
                    tex_h > 0,
            ;
            lemma_multiply_divide_lt(
                ((y - top) as int) * (tex_h as int),
                (bottom - top) as int,
                tex_h as int,
            );
        }
    }
    let tv = q as usize;
    tv
}

} // verus!
