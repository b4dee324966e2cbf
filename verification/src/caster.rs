//! The ray-casting engine: fixed-point step-and-sample marching of a
//! ray through the maze grid, hit detection, texture-u derivation, and
//! fisheye correction of the hit distance.
//!
//! All world lengths here are fixed-point integers scaled by [`FP`]:
//! a world coordinate `x` is stored as `x * FP`. The caller supplies
//! the per-step displacement `(sx, sy)` of the probe and the length
//! `step_len` of that displacement (both fixed point); the raw
//! distance to a hit after `n` steps is then `n * step_len`. Cosines
//! are fixed-point values in `[-FP, FP]`.
use vstd::arithmetic::div_mod::{
    lemma_fundamental_div_mod,
    lemma_fundamental_div_mod_converse,
    lemma_mod_multiples_basic,
};
use vstd::prelude::*;

use crate::maze::{solid_at, spec_solid_point, spec_symbol_solid};

verus! {

/// Fixed-point scale: one world unit is `FP` fixed-point ticks.
pub const FP: i64 = 1024;

/// Largest magnitude accepted for a ray origin coordinate.
pub const MAX_COORD: i64 = 0x100_0000_0000;

/// Largest accepted cell edge length (fixed point).
pub const MAX_UNIT: i64 = 0x4000_0000;

/// Largest accepted number of march steps.
pub const MAX_STEPS: u32 = 0x10_0000;

/// What one ray reports about the first solid cell it reached.
#[derive(Clone, Copy, Debug, PartialEq, Eq, Structural)]
pub struct HitRecord {
    /// Number of march steps taken to the hit sample.
    pub steps: u32,
    /// Raw along-ray distance to the hit sample, `steps * step_len`
    /// (fixed point). This is the slant distance; see
    /// [`correct_fisheye`] for the perpendicular distance.
    pub distance: i64,
    /// Maze symbol of the hit cell, `'#'` when the hit lies outside
    /// the stored rows.
    pub impact: char,
    /// Texture-u offset of the hit within the struck face, in
    /// `[0, unit)` (fixed point).
    pub tx: i64,
    /// The hit sample point, for overlay drawing.
    pub hit_x: i64,
    /// The hit sample point, for overlay drawing.
    pub hit_y: i64,
}

/// Solidity of the probe after `n` steps of the march from
/// `(ox, oy)` by `(sx, sy)`.
pub open spec fn probe_solid(
    grid: Seq<Seq<char>>,
    ox: int,
    oy: int,
    sx: int,
    sy: int,
    unit: int,
    n: int,
) -> bool {
    spec_solid_point(grid, ox + n * sx, oy + n * sy, unit)
}

/// The smallest step count `n` with `lo <= n <= max` whose probe
/// `(ox + n*sx, oy + n*sy)` lies in a solid cell, if any.
pub open spec fn first_solid_from(
    grid: Seq<Seq<char>>,
    ox: int,
    oy: int,
    sx: int,
    sy: int,
    unit: int,
    lo: int,
    max: int,
) -> Option<int>
    decreases max + 1 - lo,
{
    if lo > max {
        None
    } else if probe_solid(grid, ox, oy, sx, sy, unit, lo) {
        Some(lo)
    } else {
        first_solid_from(grid, ox, oy, sx, sy, unit, lo + 1, max)
    }
}

/// `first_solid_from` returns exactly the least solid step at or
/// after `lo`: a `Some(n)` is solid with nothing solid before it, and
/// a `None` means no step up to `max` is solid.
pub proof fn lemma_first_solid_from_props(
    grid: Seq<Seq<char>>,
    ox: int,
    oy: int,
    sx: int,
    sy: int,
    unit: int,
    lo: int,
    max: int,
)
    ensures
        match first_solid_from(grid, ox, oy, sx, sy, unit, lo, max) {
            Some(n) => lo <= n <= max && probe_solid(grid, ox, oy, sx, sy, unit, n) && forall|
                i: int,
            | lo <= i < n ==> !probe_solid(grid, ox, oy, sx, sy, unit, i),
            None => forall|i: int| lo <= i <= max ==> !probe_solid(grid, ox, oy, sx, sy, unit, i),
        },
    decreases max + 1 - lo,
{
    if lo > max {
    } else if probe_solid(grid, ox, oy, sx, sy, unit, lo) {
    } else {
        lemma_first_solid_from_props(grid, ox, oy, sx, sy, unit, lo + 1, max);
    }
}

/// Conversely, a step that is solid and preceded only by non-solid
/// steps is the one that `first_solid_from` returns.
pub proof fn lemma_first_solid_from_is(
    grid: Seq<Seq<char>>,
    ox: int,
    oy: int,
    sx: int,
    sy: int,
    unit: int,
    lo: int,
    max: int,
    n: int,
)
    requires
        lo <= n <= max,
        probe_solid(grid, ox, oy, sx, sy, unit, n),
        forall|i: int| lo <= i < n ==> !probe_solid(grid, ox, oy, sx, sy, unit, i),
    ensures
        first_solid_from(grid, ox, oy, sx, sy, unit, lo, max) == Some(n),
    decreases max + 1 - lo,
{
    if lo < n {
        lemma_first_solid_from_is(grid, ox, oy, sx, sy, unit, lo + 1, max, n);
    }
}

/// Two marches whose probes agree in solidity step for step find
/// their first solid cell at the same step.
pub proof fn lemma_first_solid_from_congruent(
    grid: Seq<Seq<char>>,
    ox1: int,
    oy1: int,
    sx1: int,
    sy1: int,
    ox2: int,
    oy2: int,
    sx2: int,
    sy2: int,
    unit: int,
    lo: int,
    max: int,
)
    requires
        forall|i: int|
            lo <= i <= max ==> probe_solid(grid, ox1, oy1, sx1, sy1, unit, i) == probe_solid(
                grid,
                ox2,
                oy2,
                sx2,
                sy2,
                unit,
                i,
            ),
    ensures
        first_solid_from(grid, ox1, oy1, sx1, sy1, unit, lo, max) == first_solid_from(
            grid,
            ox2,
            oy2,
            sx2,
            sy2,
            unit,
            lo,
            max,
        ),
    decreases max + 1 - lo,
{
    if lo > max {
    } else if probe_solid(grid, ox1, oy1, sx1, sy1, unit, lo) {
    } else {
        lemma_first_solid_from_congruent(
            grid,
            ox1,
            oy1,
            sx1,
            sy1,
            ox2,
            oy2,
            sx2,
            sy2,
            unit,
            lo + 1,
            max,
        );
    }
}

/// Maze symbol of the cell holding the world point `(x, y)`; `'#'`
/// (an unknown, solid symbol) for a point outside the stored rows.
pub open spec fn spec_symbol_at(grid: Seq<Seq<char>>, x: int, y: int, unit: int) -> char {
    if x < 0 || y < 0 {
        '#'
    } else {
        let row = y / unit;
        let col = x / unit;
        if row >= grid.len() {
            '#'
        } else if col >= grid[row].len() {
            '#'
        } else {
            grid[row][col]
        }
    }
}

/// Looks up the maze symbol of the cell holding `(x, y)`.
pub fn symbol_at(grid: &Vec<Vec<char>>, x: i64, y: i64, unit: i64) -> (sym: char)
    requires
        1 <= unit,
    ensures
        sym == spec_symbol_at(grid.deep_view(), x as int, y as int, unit as int),
{
    if x < 0 || y < 0 {
        return '#';
    }
    let row = (y as u64) / (unit as u64);
    let col = (x as u64) / (unit as u64);
    if row >= grid.len() as u64 {
        return '#';
    }
    let line: &Vec<char> = &grid[row as usize];
    if col >= line.len() as u64 {
        return '#';
    }
    line[col as usize]
}

/// Offset of `x` within its cell: the Euclidean remainder of `x` by
/// `m`, in `[0, m)`.
pub fn wrap(x: i64, m: i64) -> (r: i64)
    requires
        1 <= m,
        -0x4000_0000_0000_0000 < x,
    ensures
        r == (x as int) % (m as int),
        0 <= r < m,
{
    if x >= 0 {
        let r = ((x as u64) % (m as u64)) as i64;
        r
    } else {
        let a = (-x) as u64;
        let r0 = (a % (m as u64)) as i64;
        proof {
            let ai = a as int;
            let mi = m as int;
            lemma_fundamental_div_mod(ai, mi);
            let qi = ai / mi;
            let ri = ai % mi;
            if r0 == 0 {
                assert(x as int == (-qi) * mi) by (nonlinear_arith)
                    requires
                        ai == mi * qi + ri,
                        ri == 0,
                        x as int == -ai,
                ;
                lemma_mod_multiples_basic(-qi, mi);
            } else {
                assert(x as int == (-qi - 1) * mi + (mi - ri)) by (nonlinear_arith)
                    requires
                        ai == mi * qi + ri,
                        x as int == -ai,
                ;
                lemma_fundamental_div_mod_converse(x as int, mi, -qi - 1, mi - ri);
            }
        }
        if r0 == 0 {
            0
        } else {
            m - r0
        }
    }
}

/// Texture-u of a hit at world point `(x, y)`: the struck face is the
/// one whose cell boundary lies nearest the hit point, a horizontal
/// face winning ties, and the texture-u is the offset of the hit
/// along that face, in `[0, unit)`.
pub open spec fn spec_tex_u(x: int, y: int, unit: int) -> int {
    let fx = x % unit;
    let fy = y % unit;
    let dx = if fx <= unit - fx {
        fx
    } else {
        unit - fx
    };
    let dy = if fy <= unit - fy {
        fy
    } else {
        unit - fy
    };
    if dy <= dx {
        fx
    } else {
        fy
    }
}

/// Derives the texture-u coordinate of a hit point.
pub fn tex_u(x: i64, y: i64, unit: i64) -> (r: i64)
    requires
        1 <= unit,
        -0x4000_0000_0000_0000 < x,
        -0x4000_0000_0000_0000 < y,
    ensures
        r == spec_tex_u(x as int, y as int, unit as int),
        0 <= r < unit,
{
    let fx = wrap(x, unit);
    let fy = wrap(y, unit);
    let dx = if fx <= unit - fx {
        fx
    } else {
        unit - fx
    };
    let dy = if fy <= unit - fy {
        fy
    } else {
        unit - fy
    };
    if dy <= dx {
        fx
    } else {
        fy
    }
}

/// The whole result of [`cast_ray`] as a function of its inputs: the
/// engine is pure, so identical inputs always produce identical hit
/// records.
pub open spec fn spec_cast_ray(
    grid: Seq<Seq<char>>,
    ox: int,
    oy: int,
    sx: int,
    sy: int,
    step_len: int,
    unit: int,
    max_steps: int,
) -> Option<HitRecord> {
    match first_solid_from(grid, ox, oy, sx, sy, unit, 1, max_steps) {
        Option::None => Option::None,
        Option::Some(n) => Option::Some(
            HitRecord {
                steps: n as u32,
                distance: (n * step_len) as i64,
                impact: spec_symbol_at(grid, ox + n * sx, oy + n * sy, unit),
                tx: spec_tex_u(ox + n * sx, oy + n * sy, unit) as i64,
                hit_x: (ox + n * sx) as i64,
                hit_y: (oy + n * sy) as i64,
            },
        ),
    }
}

/// Casts one ray from `(ox, oy)` with per-step displacement
/// `(sx, sy)` of length `step_len`: the probe advances step by step
/// and the march stops at the first sample that lies in a solid cell,
/// or reports no intersection once `max_steps` samples were all
/// passable. On a hit, the record carries the hit sample point, the
/// raw along-ray distance `steps * step_len`, the symbol of the hit
/// cell, and the texture-u offset within the struck face.
pub fn cast_ray(
    grid: &Vec<Vec<char>>,
    ox: i64,
    oy: i64,
    sx: i64,
    sy: i64,
    step_len: i64,
    unit: i64,
    max_steps: u32,
) -> (r: Option<HitRecord>)
    requires
        1 <= unit <= MAX_UNIT,
        1 <= step_len <= unit,
        -step_len <= sx <= step_len,
        -step_len <= sy <= step_len,
        -MAX_COORD <= ox <= MAX_COORD,
        -MAX_COORD <= oy <= MAX_COORD,
        max_steps <= MAX_STEPS,
    ensures
        ({
            let g = grid.deep_view();
            let oxi = ox as int;
            let oyi = oy as int;
            let sxi = sx as int;
            let syi = sy as int;
            let ui = unit as int;
            &&& r == spec_cast_ray(g, oxi, oyi, sxi, syi, step_len as int, ui, max_steps as int)
            &&& match r {
                Some(h) => {
                    &&& first_solid_from(g, oxi, oyi, sxi, syi, ui, 1, max_steps as int) == Some(
                        h.steps as int,
                    )
                    &&& 1 <= h.steps <= max_steps
                    &&& probe_solid(g, oxi, oyi, sxi, syi, ui, h.steps as int)
                    &&& forall|i: int|
                        1 <= i < h.steps ==> !probe_solid(g, oxi, oyi, sxi, syi, ui, i)
                    &&& h.hit_x == oxi + h.steps * sxi
                    &&& h.hit_y == oyi + h.steps * syi
                    &&& h.distance == h.steps * step_len
                    &&& 0 < h.distance <= 0x4_0000_0000_0000
                    &&& h.impact == spec_symbol_at(g, h.hit_x as int, h.hit_y as int, ui)
                    &&& spec_symbol_solid(h.impact)
                    &&& h.tx == spec_tex_u(h.hit_x as int, h.hit_y as int, ui)
                    &&& 0 <= h.tx < unit
                },
                None => {
                    &&& first_solid_from(g, oxi, oyi, sxi, syi, ui, 1, max_steps as int) is None
                    &&& forall|i: int|
                        1 <= i <= max_steps ==> !probe_solid(g, oxi, oyi, sxi, syi, ui, i)
                },
            }
        }),
{
    let ghost g = grid.deep_view();
    let mut x = ox;
    let mut y = oy;
    let mut n: u32 = 0;
    while n < max_steps
        invariant
            1 <= unit <= MAX_UNIT,
            1 <= step_len <= unit,
            -step_len <= sx <= step_len,
            -step_len <= sy <= step_len,
            -MAX_COORD <= ox <= MAX_COORD,
            -MAX_COORD <= oy <= MAX_COORD,
            max_steps <= MAX_STEPS,
            n <= max_steps,
            g == grid.deep_view(),
            x == ox + n * sx,
            y == oy + n * sy,
            -MAX_COORD - n * MAX_UNIT <= x <= MAX_COORD + n * MAX_UNIT,
            -MAX_COORD - n * MAX_UNIT <= y <= MAX_COORD + n * MAX_UNIT,
            forall|i: int|
                1 <= i <= n ==> !probe_solid(
                    g,
                    ox as int,
                    oy as int,
                    sx as int,
                    sy as int,
                    unit as int,
                    i,
                ),
        decreases max_steps - n,
    {
        let nx = x + sx;
        let ny = y + sy;
        let n2 = n + 1;
        proof {
            assert((n2 as int) * (sx as int) == (n as int) * (sx as int) + sx && (n2 as int) * (
            sy as int) == (n as int) * (sy as int) + sy) by (nonlinear_arith)
                requires
                    n2 == n + 1,
            ;
        }
        if solid_at(grid, nx, ny, unit) {
            proof {
                assert((n2 as int) * (step_len as int) <= (MAX_STEPS as int) * (MAX_UNIT as int)
                    && 0 < (n2 as int) * (step_len as int)) by (nonlinear_arith)
                    requires
                        1 <= n2 <= MAX_STEPS,
                        1 <= step_len <= MAX_UNIT,
                ;
            }
            let dist = (n2 as i64) * step_len;
            let sym = symbol_at(grid, nx, ny, unit);
            let t = tex_u(nx, ny, unit);
            proof {
                lemma_first_solid_from_is(
                    g,
                    ox as int,
                    oy as int,
                    sx as int,
                    sy as int,
                    unit as int,
                    1,
                    max_steps as int,
                    n2 as int,
                );
            }
            return Some(
                HitRecord { steps: n2, distance: dist, impact: sym, tx: t, hit_x: nx, hit_y: ny },
            );
        }
        x = nx;
        y = ny;
        n = n2;
    }
    proof {
        lemma_first_solid_from_props(
            g,
            ox as int,
            oy as int,
            sx as int,
            sy as int,
            unit as int,
            1,
            max_steps as int,
        );
    }
    None
}

/// Perpendicular distance corresponding to the raw slant distance
/// `raw` and the cosine `cos_off` (fixed point, `cos_off = FP` being
/// a ray straight along the view axis): `raw * cos_off / FP`, the
/// division rounding toward zero.
pub open spec fn spec_correct_fisheye(raw: int, cos_off: int) -> int {
    if cos_off >= 0 {
        (raw * cos_off) / (FP as int)
    } else {
        -((raw * -cos_off) / (FP as int))
    }
}

/// Removes fisheye distortion from a raw hit distance: multiplies the
/// slant distance by the cosine of the ray's angular offset from the
/// view axis, yielding the perpendicular distance to the view plane.
pub fn correct_fisheye(raw: i64, cos_off: i64) -> (r: i64)
    requires
        0 <= raw <= 0x4_0000_0000_0000,
        -FP <= cos_off <= FP,
    ensures
        r == spec_correct_fisheye(raw as int, cos_off as int),
        0 <= cos_off ==> 0 <= r <= raw,
{
    proof {
        assert(raw * FP <= 0x4_0000_0000_0000i64 * 1024) by (nonlinear_arith)
            requires
                0 <= raw <= 0x4_0000_0000_0000,
        ;
        assert(cos_off >= 0 ==> raw * cos_off <= raw * FP && raw * cos_off >= 0)
            by (nonlinear_arith)
            requires
                0 <= raw,
                -FP <= cos_off <= FP,
        ;
        assert(cos_off < 0 ==> raw * (-cos_off) <= raw * FP && raw * (-cos_off) >= 0)
            by (nonlinear_arith)
            requires
                0 <= raw,
                -FP <= cos_off <= FP,
        ;
    }
    if cos_off >= 0 {
        let p = (raw as u64) * (cos_off as u64);
        let q = (p / (FP as u64)) as i64;
        proof {
            assert((raw * cos_off) / (FP as int) <= raw) by (nonlinear_arith)
                requires
                    0 <= raw,
                    0 <= cos_off <= FP,
            ;
        }
        q
    } else {
        let p = (raw as u64) * ((-cos_off) as u64);
        let q = (p / (FP as u64)) as i64;
        -q
    }
}

/// From any pose strictly inside an all-empty grid — far enough from
/// every edge that the whole step budget cannot leave the grid — a
/// cast in any direction reports no intersection.
pub proof fn lemma_empty_grid_no_hit(
    grid: Seq<Seq<char>>,
    ox: int,
    oy: int,
    sx: int,
    sy: int,
    step_len: int,
    unit: int,
    max_steps: int,
    width: int,
)
    requires
        1 <= unit,
        1 <= step_len,
        -step_len <= sx <= step_len,
        -step_len <= sy <= step_len,
        0 <= max_steps,
        forall|r: int| 0 <= r < grid.len() ==> width <= #[trigger] grid[r].len(),
        forall|r: int, c: int|
            0 <= r < grid.len() && 0 <= c < grid[r].len() ==> !spec_symbol_solid(
                #[trigger] grid[r][c],
            ),
        ox - max_steps * step_len >= 0,
        ox + max_steps * step_len < width * unit,
        oy - max_steps * step_len >= 0,
        oy + max_steps * step_len < grid.len() * unit,
    ensures
        first_solid_from(grid, ox, oy, sx, sy, unit, 1, max_steps) is None,
{
    assert forall|i: int| 1 <= i <= max_steps implies !probe_solid(
        grid,
        ox,
        oy,
        sx,
        sy,
        unit,
        i,
    ) by {
        assert(-(max_steps * step_len) <= i * sx <= max_steps * step_len && -(max_steps
            * step_len) <= i * sy <= max_steps * step_len) by (nonlinear_arith)
            requires
                1 <= i <= max_steps,
                -step_len <= sx <= step_len,
                -step_len <= sy <= step_len,
                0 <= step_len,
        ;
        let x = ox + i * sx;
        let y = oy + i * sy;
        assert(0 <= x && x < width * unit && 0 <= y && y < grid.len() * unit);
        vstd::arithmetic::div_mod::lemma_div_pos_is_pos(x, unit);
        vstd::arithmetic::div_mod::lemma_div_pos_is_pos(y, unit);
        assert(x < unit * width && y < unit * (grid.len() as int)) by (nonlinear_arith)
            requires
                x < width * unit,
                y < grid.len() * unit,
        ;
        vstd::arithmetic::div_mod::lemma_multiply_divide_lt(x, unit, width);
        vstd::arithmetic::div_mod::lemma_multiply_divide_lt(y, unit, grid.len() as int);
        assert(0 <= y / unit < grid.len());
        assert(0 <= x / unit < width <= grid[y / unit].len());
        assert(!spec_symbol_solid(grid[y / unit][x / unit]));
    }
    lemma_first_solid_from_props(grid, ox, oy, sx, sy, unit, 1, max_steps);
}

/// A ray aimed straight along the x axis down an empty corridor at a
/// wall face a known distance ahead hits that face, and the reported
/// raw distance overshoots the true face distance by less than one
/// step (the step-size tolerance of the march).
pub proof fn lemma_axis_hit_distance(
    grid: Seq<Seq<char>>,
    ox: int,
    oy: int,
    step_len: int,
    unit: int,
    max_steps: int,
    wall_col: int,
)
    requires
        1 <= unit,
        1 <= step_len <= unit,
        0 <= ox,
        0 <= oy,
        oy / unit < grid.len(),
        0 <= wall_col < grid[oy / unit].len(),
        spec_symbol_solid(grid[oy / unit][wall_col]),
        ox < wall_col * unit,
        forall|c: int|
            ox / unit <= c < wall_col ==> !spec_symbol_solid(#[trigger] grid[oy / unit][c]),
        max_steps * step_len >= wall_col * unit - ox,
    ensures
        ({
            let d = wall_col * unit - ox;
            match first_solid_from(grid, ox, oy, step_len, 0, unit, 1, max_steps) {
                Option::Some(n) => d <= n * step_len < d + step_len,
                Option::None => false,
            }
        }),
{
    let d = wall_col * unit - ox;
    let row = oy / unit;
    vstd::arithmetic::div_mod::lemma_fundamental_div_mod(d - 1, step_len);
    let q = (d - 1) / step_len;
    let r = (d - 1) % step_len;
    let n = q + 1;
    vstd::arithmetic::div_mod::lemma_div_pos_is_pos(d - 1, step_len);
    assert(n * step_len == q * step_len + step_len && q * step_len == step_len * q)
        by (nonlinear_arith)
        requires
            n == q + 1,
    ;
    assert(q * step_len == d - 1 - r);
    assert(d <= n * step_len < d + step_len);
    assert((max_steps + 1) * step_len == max_steps * step_len + step_len) by (nonlinear_arith);
    assert(n <= max_steps) by (nonlinear_arith)
        requires
            n * step_len < (max_steps + 1) * step_len,
            1 <= step_len,
    ;
    assert forall|i: int| 1 <= i < n implies !probe_solid(
        grid,
        ox,
        oy,
        step_len,
        0,
        unit,
        i,
    ) by {
        assert(step_len <= i * step_len <= q * step_len) by (nonlinear_arith)
            requires
                1 <= i <= q,
                1 <= step_len,
        ;
        let x = ox + i * step_len;
        assert(0 <= x < wall_col * unit);
        vstd::arithmetic::div_mod::lemma_div_is_ordered(ox, x, unit);
        assert(x < unit * wall_col) by (nonlinear_arith)
            requires
                x < wall_col * unit,
        ;
        vstd::arithmetic::div_mod::lemma_multiply_divide_lt(x, unit, wall_col);
        vstd::arithmetic::div_mod::lemma_div_pos_is_pos(x, unit);
        assert(ox / unit <= x / unit < wall_col);
        assert(oy + i * 0 == oy);
        assert(!spec_symbol_solid(grid[row][x / unit]));
    }
    let xn = ox + n * step_len;
    assert(0 <= xn - wall_col * unit < unit);
    vstd::arithmetic::div_mod::lemma_fundamental_div_mod_converse(
        xn,
        unit,
        wall_col,
        xn - wall_col * unit,
    );
    assert(xn / unit == wall_col);
    assert(oy + n * 0 == oy);
    assert(probe_solid(grid, ox, oy, step_len, 0, unit, n));
    lemma_first_solid_from_is(grid, ox, oy, step_len, 0, unit, 1, max_steps, n);
}

/// Fisheye correction: against a rectangular grid whose solidity is
/// uniform within each column — a flat wall square to the view axis,
/// fronted by empty space — two rays cast symmetrically above and
/// below the x axis (per-step displacements `(sx, sy)` and
/// `(sx, -sy)`) hit at the same step, so their raw distances and
/// their fisheye-corrected distances are equal.
pub proof fn lemma_symmetric_rays_agree(
    grid: Seq<Seq<char>>,
    ox: int,
    oy: int,
    sx: int,
    sy: int,
    step_len: int,
    unit: int,
    max_steps: int,
    cos_off: int,
)
    requires
        1 <= unit,
        1 <= step_len,
        -step_len <= sy <= step_len,
        0 <= max_steps,
        forall|r1: int, r2: int|
            0 <= r1 < grid.len() && 0 <= r2 < grid.len() ==> #[trigger] grid[r1].len()
                == #[trigger] grid[r2].len(),
        forall|r1: int, r2: int, c: int|
            0 <= r1 < grid.len() && 0 <= r2 < grid.len() && 0 <= c < grid[r1].len()
                ==> spec_symbol_solid(#[trigger] grid[r1][c]) == spec_symbol_solid(
                #[trigger] grid[r2][c],
            ),
        oy - max_steps * step_len >= 0,
        oy + max_steps * step_len < grid.len() * unit,
    ensures
        first_solid_from(grid, ox, oy, sx, sy, unit, 1, max_steps) == first_solid_from(
            grid,
            ox,
            oy,
            sx,
            -sy,
            unit,
            1,
            max_steps,
        ),
        ({
            let up = first_solid_from(grid, ox, oy, sx, sy, unit, 1, max_steps);
            let down = first_solid_from(grid, ox, oy, sx, -sy, unit, 1, max_steps);
            match (up, down) {
                (Option::Some(n1), Option::Some(n2)) => spec_correct_fisheye(
                    n1 * step_len,
                    cos_off,
                ) == spec_correct_fisheye(n2 * step_len, cos_off),
                (Option::None, Option::None) => true,
                _ => false,
            }
        }),
{
    assert forall|i: int| 1 <= i <= max_steps implies probe_solid(grid, ox, oy, sx, sy, unit, i)
        == probe_solid(grid, ox, oy, sx, -sy, unit, i) by {
        assert(-(max_steps * step_len) <= i * sy <= max_steps * step_len && i * (-sy) == -(i * sy))
            by (nonlinear_arith)
            requires
                1 <= i <= max_steps,
                -step_len <= sy <= step_len,
                0 <= step_len,
        ;
        let x = ox + i * sx;
        let y1 = oy + i * sy;
        let y2 = oy + i * (-sy);
        assert(0 <= y1 < grid.len() * unit && 0 <= y2 < grid.len() * unit);
        vstd::arithmetic::div_mod::lemma_div_pos_is_pos(y1, unit);
        vstd::arithmetic::div_mod::lemma_div_pos_is_pos(y2, unit);
        assert(y1 < unit * (grid.len() as int) && y2 < unit * (grid.len() as int))
            by (nonlinear_arith)
            requires
                y1 < grid.len() * unit,
                y2 < grid.len() * unit,
        ;
        vstd::arithmetic::div_mod::lemma_multiply_divide_lt(y1, unit, grid.len() as int);
        vstd::arithmetic::div_mod::lemma_multiply_divide_lt(y2, unit, grid.len() as int);
        let r1 = y1 / unit;
        let r2 = y2 / unit;
        assert(0 <= r1 < grid.len() && 0 <= r2 < grid.len());
        if x >= 0 {
            vstd::arithmetic::div_mod::lemma_div_pos_is_pos(x, unit);
            assert(grid[r1].len() == grid[r2].len());
        }
    }
    lemma_first_solid_from_congruent(grid, ox, oy, sx, sy, ox, oy, sx, -sy, unit, 1, max_steps);
}

/// The rest of the fisheye law: a slant ray against a flat wall
/// square to the view axis — a fully solid grid column fronted by
/// empty columns, the ray marching toward it with per-step x advance
/// `sx` — hits the wall, and once its raw distance is corrected by
/// the exact fixed-point cosine of its offset (`cos_off * step_len ==
/// sx * FP`), the corrected distance equals the perpendicular
/// distance to the wall face to within one step's x advance. In
/// particular it agrees with the axis-aligned ray's distance (the
/// case `sx == step_len`, `cos_off == FP`) to that tolerance; exact
/// equality cannot hold of the discrete march, whose hit lands up to
/// one sample past the face.
pub proof fn lemma_slant_hit_corrected(
    grid: Seq<Seq<char>>,
    ox: int,
    oy: int,
    sx: int,
    sy: int,
    step_len: int,
    unit: int,
    max_steps: int,
    wall_col: int,
    cos_off: int,
)
    requires
        1 <= unit,
        1 <= step_len <= unit,
        1 <= sx <= step_len,
        -step_len <= sy <= step_len,
        cos_off * step_len == sx * (FP as int),
        0 <= ox < wall_col * unit,
        0 <= wall_col,
        forall|r: int| 0 <= r < grid.len() ==> wall_col < #[trigger] grid[r].len(),
        forall|r: int| 0 <= r < grid.len() ==> spec_symbol_solid(#[trigger] grid[r][wall_col]),
        forall|r: int, c: int|
            0 <= r < grid.len() && 0 <= c < wall_col ==> !spec_symbol_solid(#[trigger] grid[r][c]),
        oy - max_steps * step_len >= 0,
        oy + max_steps * step_len < grid.len() * unit,
        max_steps * sx >= wall_col * unit - ox,
    ensures
        ({
            let d = wall_col * unit - ox;
            match first_solid_from(grid, ox, oy, sx, sy, unit, 1, max_steps) {
                Option::Some(n) => d <= n * sx < d + sx && d <= spec_correct_fisheye(
                    n * step_len,
                    cos_off,
                ) < d + sx,
                Option::None => false,
            }
        }),
{
    let d = wall_col * unit - ox;
    vstd::arithmetic::div_mod::lemma_fundamental_div_mod(d - 1, sx);
    let q = (d - 1) / sx;
    let r = (d - 1) % sx;
    let n = q + 1;
    vstd::arithmetic::div_mod::lemma_div_pos_is_pos(d - 1, sx);
    assert(n * sx == q * sx + sx && q * sx == sx * q) by (nonlinear_arith)
        requires
            n == q + 1,
    ;
    assert(q * sx == d - 1 - r);
    assert(d <= n * sx < d + sx);
    assert((max_steps + 1) * sx == max_steps * sx + sx) by (nonlinear_arith);
    assert(n <= max_steps) by (nonlinear_arith)
        requires
            n * sx < (max_steps + 1) * sx,
            1 <= sx,
    ;
    assert forall|i: int| 1 <= i < n implies !probe_solid(grid, ox, oy, sx, sy, unit, i) by {
        assert(-(max_steps * step_len) <= i * sy <= max_steps * step_len) by (nonlinear_arith)
            requires
                1 <= i <= max_steps,
                -step_len <= sy <= step_len,
                0 <= step_len,
        ;
        let y = oy + i * sy;
        vstd::arithmetic::div_mod::lemma_div_pos_is_pos(y, unit);
        assert(y < unit * (grid.len() as int)) by (nonlinear_arith)
            requires
                y < grid.len() * unit,
        ;
        vstd::arithmetic::div_mod::lemma_multiply_divide_lt(y, unit, grid.len() as int);
        assert(sx <= i * sx <= q * sx) by (nonlinear_arith)
            requires
                1 <= i <= q,
                1 <= sx,
        ;
        let x = ox + i * sx;
        assert(0 <= x < wall_col * unit);
        assert(x < unit * wall_col) by (nonlinear_arith)
            requires
                x < wall_col * unit,
        ;
        vstd::arithmetic::div_mod::lemma_multiply_divide_lt(x, unit, wall_col);
        vstd::arithmetic::div_mod::lemma_div_pos_is_pos(x, unit);
        let row = (oy + i * sy) / unit;
        assert(0 <= row < grid.len());
        assert(0 <= x / unit < wall_col);
        assert(!spec_symbol_solid(grid[row][x / unit]));
    }
    let xn = ox + n * sx;
    assert(0 <= xn - wall_col * unit < unit);
    vstd::arithmetic::div_mod::lemma_fundamental_div_mod_converse(
        xn,
        unit,
        wall_col,
        xn - wall_col * unit,
    );
    assert(xn / unit == wall_col);
    assert(-(max_steps * step_len) <= n * sy <= max_steps * step_len) by (nonlinear_arith)
        requires
            1 <= n <= max_steps,
            -step_len <= sy <= step_len,
            0 <= step_len,
    ;
    let yn = oy + n * sy;
    vstd::arithmetic::div_mod::lemma_div_pos_is_pos(yn, unit);
    assert(yn < unit * (grid.len() as int)) by (nonlinear_arith)
        requires
            yn < grid.len() * unit,
    ;
    vstd::arithmetic::div_mod::lemma_multiply_divide_lt(yn, unit, grid.len() as int);
    let rown = yn / unit;
    assert(0 <= rown < grid.len());
    assert(spec_symbol_solid(grid[rown][wall_col]));
    assert(probe_solid(grid, ox, oy, sx, sy, unit, n));
    lemma_first_solid_from_is(grid, ox, oy, sx, sy, unit, 1, max_steps, n);
    assert(cos_off > 0) by (nonlinear_arith)
        requires
            cos_off * step_len == sx * (FP as int),
            1 <= sx,
            1 <= step_len,
            FP == 1024,
    ;
    assert((n * step_len) * cos_off == (FP as int) * (n * sx)) by (nonlinear_arith)
        requires
            cos_off * step_len == sx * (FP as int),
    ;
    vstd::arithmetic::div_mod::lemma_div_multiples_vanish(n * sx, FP as int);
    assert(spec_correct_fisheye(n * step_len, cos_off) == n * sx);
}

/// Whether a hit at `(x, y)` struck a vertical cell face: the nearest
/// vertical boundary is strictly nearer than the nearest horizontal
/// one (a tie selects the horizontal face).
pub open spec fn spec_struck_vertical(x: int, y: int, unit: int) -> bool {
    let fx = x % unit;
    let fy = y % unit;
    let dx = if fx <= unit - fx {
        fx
    } else {
        unit - fx
    };
    let dy = if fy <= unit - fy {
        fy
    } else {
        unit - fy
    };
    !(dy <= dx)
}

/// Texture-u does not depend on which side of a cell boundary a hit
/// landed: any two hits that struck a vertical face at the same
/// offset `y` along it — one may be just left of the boundary, the
/// other just right of it, in the neighboring cell — report the same
/// texture-u, namely the offset of `y` within its cell.
pub proof fn lemma_tex_u_side_invariant(x1: int, x2: int, y: int, unit: int)
    requires
        1 <= unit,
        spec_struck_vertical(x1, y, unit),
        spec_struck_vertical(x2, y, unit),
    ensures
        spec_tex_u(x1, y, unit) == spec_tex_u(x2, y, unit),
        spec_tex_u(x1, y, unit) == y % unit,
{
}

/// A pose or hit point exactly on a cell edge is handled
/// deterministically, not as an error: the point `x == c * unit`
/// belongs to column `c`, the cell on the higher-coordinate side of
/// the boundary, and its solidity is that cell's.
pub proof fn lemma_boundary_point(grid: Seq<Seq<char>>, c: int, y: int, unit: int)
    requires
        1 <= unit,
        0 <= c,
        0 <= y,
    ensures
        spec_solid_point(grid, c * unit, y, unit) == ({
            let row = y / unit;
            row >= grid.len() || c >= grid[row].len() || spec_symbol_solid(grid[row][c])
        }),
{
    assert(c * unit == unit * c) by (nonlinear_arith);
    vstd::arithmetic::div_mod::lemma_div_multiples_vanish(c, unit);
    assert((c * unit) / unit == c);
}

} // verus!
