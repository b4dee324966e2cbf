//! Rendering on top of the engine: texture sampling coordinates, the
//! cell color tables, map-cell fills, digit text for the HUD, and the
//! per-frame renderers that turn hit records into pixel writes.
use vstd::arithmetic::div_mod::{lemma_fundamental_div_mod_converse, lemma_multiply_divide_lt};
use vstd::prelude::*;

use crate::framebuffer::Framebuffer;

verus! {

/// Largest accepted texture or screen dimension for drawing.
pub const MAX_DIM: usize = 0x10_0000;

/// A pixel index in a row-major `width`-wide surface determines its
/// coordinates: two in-row coordinates give the same index only when
/// the positions coincide.
pub proof fn lemma_index_injective(w: int, x1: int, y1: int, x2: int, y2: int)
    requires
        0 <= x1 < w,
        0 <= x2 < w,
        0 <= y1,
        0 <= y2,
        y1 * w + x1 == y2 * w + x2,
    ensures
        x1 == x2 && y1 == y2,
{
    lemma_fundamental_div_mod_converse(y1 * w + x1, w, y1, x1);
    lemma_fundamental_div_mod_converse(y2 * w + x2, w, y2, x2);
}

/// A decoded wall texture: a row-major grid of packed colors. The
/// engine owns only the sampling coordinates; decoding an image file
/// into this table is the caller's concern.
pub struct Texture {
    pub width: usize,
    pub height: usize,
    pub pixels: Vec<u32>,
}

impl Texture {
    /// One color is stored per texel.
    pub open spec fn wf(&self) -> bool {
        &&& self.pixels@.len() == self.width * self.height
        &&& self.width * self.height <= usize::MAX
    }

    /// Builds a texture from its dimensions and pixel rows; rejects a
    /// pixel table whose size does not match the dimensions.
    pub fn new(width: usize, height: usize, pixels: Vec<u32>) -> (t: Option<Texture>)
        ensures
            match t {
                Some(tex) => tex.wf() && tex.width == width && tex.height == height
                    && tex.pixels@ == pixels@ && pixels@.len() == width * height,
                None => pixels@.len() != width * height || width * height > usize::MAX,
            },
    {
        if width != 0 && height > usize::MAX / width {
            proof {
                vstd::arithmetic::div_mod::lemma_fundamental_div_mod(
                    usize::MAX as int,
                    width as int,
                );
                assert(width * height > usize::MAX) by (nonlinear_arith)
                    requires
                        0 < width,
                        height > usize::MAX as int / width as int,
                        usize::MAX as int == width * (usize::MAX as int / width as int) + (
                        usize::MAX as int % width as int),
                        (usize::MAX as int % width as int) < width,
                ;
            }
            return None;
        }
        proof {
            if width != 0 {
                vstd::arithmetic::div_mod::lemma_fundamental_div_mod(usize::MAX as int, width as int);
                assert(width * height <= width * (usize::MAX as int / width as int))
                    by (nonlinear_arith)
                    requires
                        0 < width,
                        height <= usize::MAX as int / width as int,
                ;
                assert(width * (usize::MAX as int / width as int) <= usize::MAX)
                    by (nonlinear_arith)
                    requires
                        0 < width,
                        usize::MAX as int == width * (usize::MAX as int / width as int) + usize::MAX as int % width as int,
                        usize::MAX as int % width as int >= 0,
                ;
            }
        }
        let expected = width * height;
        if pixels.len() != expected {
            return None;
        }
        Some(Texture { width, height, pixels })
    }

    /// Color of texel `(tx, ty)`, or black outside the texture.
    pub fn get_pixel_color(&self, tx: usize, ty: usize) -> (c: u32)
        requires
            self.wf(),
        ensures
            tx < self.width && ty < self.height ==> c == self.pixels@[ty * self.width + tx],
            !(tx < self.width && ty < self.height) ==> c == 0,
    {
        if tx < self.width && ty < self.height {
            proof {
                assert((ty as int) * (self.width as int) + (tx as int) < (self.width as int) * (
                self.height as int)) by (nonlinear_arith)
                    requires
                        0 <= tx < self.width,
                        0 <= ty < self.height,
                ;
            }
            let index = ty * self.width + tx;
            self.pixels[index]
        } else {
            0
        }
    }
}

/// The texture drawn for each maze symbol in the first-person view:
/// wall symbols sample the wall texture, the goal door samples the
/// door texture, and everything else is black.
pub open spec fn spec_cell_texture_color(
    cell: char,
    tx: int,
    ty: int,
    wall: Texture,
    door: Texture,
) -> u32 {
    if cell == '+' || cell == '-' || cell == '|' {
        if 0 <= tx < wall.width && 0 <= ty < wall.height {
            wall.pixels@[ty * wall.width + tx]
        } else {
            0
        }
    } else if cell == 'g' {
        if 0 <= tx < door.width && 0 <= ty < door.height {
            door.pixels@[ty * door.width + tx]
        } else {
            0
        }
    } else {
        0u32
    }
}

/// Samples the color a hit cell shows at texture coordinates
/// `(tx, ty)`, from the injected wall and door textures.
pub fn cell_to_texture_color(cell: char, tx: usize, ty: usize, wall: &Texture, door: &Texture) -> (c:
    u32)
    requires
        wall.wf(),
        door.wf(),
    ensures
        c == spec_cell_texture_color(cell, tx as int, ty as int, *wall, *door),
{
    if cell == '+' || cell == '-' || cell == '|' {
        wall.get_pixel_color(tx, ty)
    } else if cell == 'g' {
        door.get_pixel_color(tx, ty)
    } else {
        0
    }
}

/// The flat color of a cell on the top-down map: walls dark green,
/// the goal door red, and passable floor light green.
pub open spec fn spec_cell_map_color(cell: char) -> u32 {
    if cell == '+' || cell == '|' || cell == '-' {
        0x345f01u32
    } else if cell == 'g' {
        0xFF0000u32
    } else {
        0x9fbf7au32
    }
}

/// Flat map color of one cell symbol.
pub fn cell_map_color(cell: char) -> (c: u32)
    ensures
        c == spec_cell_map_color(cell),
{
    if cell == '+' || cell == '|' || cell == '-' {
        0x345f01
    } else if cell == 'g' {
        0xFF0000
    } else {
        0x9fbf7a
    }
}

/// Fills the `block_size`-square map cell whose top-left pixel is
/// `(xo, yo)` with the cell's flat map color: every pixel of the
/// square that lies on the surface takes the color, and no other
/// pixel changes.
pub fn draw_cell(fb: &mut Framebuffer, xo: usize, yo: usize, block_size: usize, cell: char)
    requires
        old(fb).wf(),
        xo + block_size <= MAX_DIM,
        yo + block_size <= MAX_DIM,
    ensures
        final(fb).wf(),
        final(fb).width == old(fb).width,
        final(fb).height == old(fb).height,
        final(fb).current_color == spec_cell_map_color(cell),
        final(fb).buffer@.len() == old(fb).buffer@.len(),
        forall|px: int, py: int|
            0 <= px < old(fb).width && 0 <= py < old(fb).height ==> #[trigger] final(fb).pixel(
                px,
                py,
            ) == (if xo <= px < xo + block_size && yo <= py < yo + block_size {
                spec_cell_map_color(cell)
            } else {
                old(fb).pixel(px, py)
            }),
{
    let color = cell_map_color(cell);
    fb.set_current_color(color);
    let ghost fb0 = *fb;
    let mut x = xo;
    while x < xo + block_size
        invariant
            fb.wf(),
            fb.width == fb0.width,
            fb.height == fb0.height,
            fb.current_color == fb0.current_color,
            fb.buffer@.len() == fb0.buffer@.len(),
            xo <= x <= xo + block_size,
            xo + block_size <= MAX_DIM,
            yo + block_size <= MAX_DIM,
            forall|px: int, py: int|
                0 <= px < fb0.width && 0 <= py < fb0.height ==> #[trigger] fb.pixel(px, py) == (
                if xo <= px < x && yo <= py < yo + block_size {
                    fb0.current_color
                } else {
                    fb0.pixel(px, py)
                }),
        decreases xo + block_size - x,
    {
        let mut y = yo;
        while y < yo + block_size
            invariant
                fb.wf(),
                fb.width == fb0.width,
                fb.height == fb0.height,
                fb.current_color == fb0.current_color,
                fb.buffer@.len() == fb0.buffer@.len(),
                xo <= x < xo + block_size,
                yo <= y <= yo + block_size,
                xo + block_size <= MAX_DIM,
                yo + block_size <= MAX_DIM,
                forall|px: int, py: int|
                    0 <= px < fb0.width && 0 <= py < fb0.height ==> #[trigger] fb.pixel(px, py) == (
                    if (xo <= px < x && yo <= py < yo + block_size) || (px == x && yo <= py < y) {
                        fb0.current_color
                    } else {
                        fb0.pixel(px, py)
                    }),
            decreases yo + block_size - y,
        {
            let ghost before = *fb;
            fb.point(x as isize, y as isize);
            proof {
                if x < fb0.width && y < fb0.height {
                    assert(0 <= (y as int) * fb0.width + x < fb0.width * fb0.height)
                        by (nonlinear_arith)
                        requires
                            0 <= (x as int) < fb0.width,
                            0 <= (y as int) < fb0.height,
                    ;
                    assert forall|px: int, py: int|
                        0 <= px < fb0.width && 0 <= py < fb0.height && !(px == x && py == y)
                        implies #[trigger] fb.pixel(px, py) == before.pixel(px, py) by {
                        assert(0 <= py * fb0.width + px < fb0.width * fb0.height)
                            by (nonlinear_arith)
                            requires
                                0 <= px < fb0.width,
                                0 <= py < fb0.height,
                        ;
                        if py * fb0.width + px == (y as int) * fb0.width + x {
                            lemma_index_injective(fb0.width as int, px, py, x as int, y as int);
                        }
                    }
                }
            }
            y = y + 1;
        }
        x = x + 1;
    }
}

/// Writes the current color at `(x, y)` like [`Framebuffer::point`],
/// restated pixel by pixel for the renderers to chain: every pixel
/// other than `(x, y)` keeps its value, so each write stays confined
/// to its own point, and a changed pixel holds the current color.
fn plot(fb: &mut Framebuffer, x: isize, y: isize)
    requires
        old(fb).wf(),
    ensures
        final(fb).wf(),
        final(fb).width == old(fb).width,
        final(fb).height == old(fb).height,
        final(fb).current_color == old(fb).current_color,
        final(fb).buffer@.len() == old(fb).buffer@.len(),
        forall|px: int, py: int|
            0 <= px < old(fb).width && 0 <= py < old(fb).height ==> #[trigger] final(fb).pixel(
                px,
                py,
            ) == old(fb).pixel(px, py) || final(fb).pixel(px, py) == old(fb).current_color,
        forall|px: int, py: int|
            0 <= px < old(fb).width && 0 <= py < old(fb).height && !(px == x && py == y)
                ==> #[trigger] final(fb).pixel(px, py) == old(fb).pixel(px, py),
        0 <= x && 0 <= y && (x as int) < old(fb).width && (y as int) < old(fb).height
            ==> (final(fb).pixel(x as int, y as int) == old(fb).current_color),
{
    let ghost pre = *fb;
    fb.point(x, y);
    proof {
        if 0 <= x && 0 <= y && (x as int) < pre.width && (y as int) < pre.height {
            assert(0 <= (y as int) * pre.width + x < pre.width * pre.height) by (nonlinear_arith)
                requires
                    0 <= (x as int) < pre.width,
                    0 <= (y as int) < pre.height,
            ;
            assert forall|px: int, py: int|
                0 <= px < pre.width && 0 <= py < pre.height && !(px == x && py == y)
                implies #[trigger] fb.pixel(px, py) == pre.pixel(px, py) by {
                assert(0 <= py * pre.width + px < pre.width * pre.height) by (nonlinear_arith)
                    requires
                        0 <= px < pre.width,
                        0 <= py < pre.height,
                ;
                if py * pre.width + px == (y as int) * pre.width + x {
                    lemma_index_injective(pre.width as int, px, py, x as int, y as int);
                }
            }
            assert forall|px: int, py: int| 0 <= px < pre.width && 0 <= py < pre.height implies #[trigger] fb.pixel(px, py) == pre.pixel(px, py) || fb.pixel(px, py)
                == pre.current_color by {
                assert(0 <= py * pre.width + px < pre.width * pre.height) by (nonlinear_arith)
                    requires
                        0 <= px < pre.width,
                        0 <= py < pre.height,
                ;
            }
        }
    }
}

/// Screen pixel coordinate of the fixed-point world coordinate `v`
/// drawn at offset `off` under the fixed-point zoom `scale`; the
/// division rounds toward zero.
pub open spec fn spec_world_to_screen(v: int, off: int, scale: int) -> int {
    if v >= 0 {
        off + (v * scale) / (FP_SQ as int)
    } else {
        off - ((-v) * scale) / (FP_SQ as int)
    }
}

/// `FP * FP`: the scale of a product of two fixed-point values.
pub const FP_SQ: i64 = 0x10_0000;

/// Maps a fixed-point world coordinate to a screen pixel coordinate
/// under a fixed-point zoom factor.
pub fn world_to_screen(v: i64, off: i64, scale: i64) -> (px: i64)
    requires
        -0x8_0000_0000_0000 <= v <= 0x8_0000_0000_0000,
        0 <= scale <= crate::caster::FP,
        0 <= off <= MAX_DIM,
    ensures
        px == spec_world_to_screen(v as int, off as int, scale as int),
{
    proof {
        assert(0 <= (if v >= 0 { v as int } else { -v as int }) * (scale as int)
            <= 0x8_0000_0000_0000 * 1024) by (nonlinear_arith)
            requires
                -0x8_0000_0000_0000 <= v <= 0x8_0000_0000_0000,
                0 <= scale <= 1024,
        ;
    }
    if v >= 0 {
        let p = (v as u64) * (scale as u64);
        let q = (p / (FP_SQ as u64)) as i64;
        off + q
    } else {
        let p = ((-v) as u64) * (scale as u64);
        let q = (p / (FP_SQ as u64)) as i64;
        off - q
    }
}

/// Scales a fixed-point texture-u offset in `[0, unit)` to a texel
/// column of a texture `range` texels wide.
pub fn scale_tex_coord(v: i64, range: usize, unit: i64) -> (t: usize)
    requires
        0 <= v < unit,
        unit <= crate::caster::MAX_UNIT,
        range <= MAX_DIM,
    ensures
        t == (v * range) / (unit as int),
        range > 0 ==> t < range,
{
    proof {
        assert(0 <= v * range <= crate::caster::MAX_UNIT * (MAX_DIM as int)) by (nonlinear_arith)
            requires
                0 <= v <= crate::caster::MAX_UNIT,
                0 <= range <= MAX_DIM,
        ;
    }
    let num = (v as u64) * (range as u64);
    let q = num / (unit as u64);
    proof {
        if range > 0 {
            assert(v * range < unit * range) by (nonlinear_arith)
                requires
                    0 <= v < unit,
                    range > 0,
            ;
            lemma_multiply_divide_lt(v * range, unit as int, range as int);
        }
    }
    q as usize
}

/// One ray of a rendered fan, precomputed by the caller from the
/// pose's heading and field of view: the per-step probe displacement
/// and the fixed-point cosine of the ray's offset from the view axis.
#[derive(Clone, Copy, Debug, PartialEq, Eq, Structural)]
pub struct RayDir {
    /// Per-step displacement along x (fixed point).
    pub sx: i64,
    /// Per-step displacement along y (fixed point).
    pub sy: i64,
    /// Cosine of the angle between this ray and the view axis
    /// (fixed point, `FP` for the axis itself).
    pub cos_off: i64,
}

/// Number of samples the overlay march visits and plots: the steps
/// up to and including the hit, or the whole step budget when no
/// sample is solid.
pub open spec fn spec_march_len(
    grid: Seq<Seq<char>>,
    ox: int,
    oy: int,
    sx: int,
    sy: int,
    unit: int,
    max_steps: int,
) -> int {
    match crate::caster::first_solid_from(grid, ox, oy, sx, sy, unit, 1, max_steps) {
        Option::Some(m) => m,
        Option::None => max_steps,
    }
}

/// Whether screen pixel `(px, py)` lies on one of the samples that
/// the overlay march plots: some visited step's probe, scaled to
/// screen coordinates, lands there.
pub open spec fn spec_sample_at(
    grid: Seq<Seq<char>>,
    ox: int,
    oy: int,
    sx: int,
    sy: int,
    unit: int,
    max_steps: int,
    off_x: int,
    off_y: int,
    scale: int,
    px: int,
    py: int,
) -> bool {
    exists|m: int|
        #![trigger spec_world_to_screen(ox + m * sx, off_x, scale)]
        1 <= m <= spec_march_len(grid, ox, oy, sx, sy, unit, max_steps) && spec_world_to_screen(
            ox + m * sx,
            off_x,
            scale,
        ) == px && spec_world_to_screen(oy + m * sy, off_y, scale) == py
}

/// The march of [`crate::caster::cast_ray`] with the overlay side
/// effect: every probe sample — intermediate and final — is plotted
/// on the surface in scaled screen coordinates, in the current
/// color. The returned hit record is exactly the one the plain
/// caster reports, and the surface changes exactly at the samples:
/// a pixel holds the current color where some visited sample lands
/// on it, and keeps its value everywhere else.
pub fn cast_ray_overlay(
    fb: &mut Framebuffer,
    grid: &Vec<Vec<char>>,
    ox: i64,
    oy: i64,
    sx: i64,
    sy: i64,
    step_len: i64,
    unit: i64,
    max_steps: u32,
    off_x: i64,
    off_y: i64,
    scale: i64,
) -> (r: Option<crate::caster::HitRecord>)
    requires
        old(fb).wf(),
        old(fb).width <= MAX_DIM,
        old(fb).height <= MAX_DIM,
        1 <= unit <= crate::caster::MAX_UNIT,
        1 <= step_len <= unit,
        -step_len <= sx <= step_len,
        -step_len <= sy <= step_len,
        -crate::caster::MAX_COORD <= ox <= crate::caster::MAX_COORD,
        -crate::caster::MAX_COORD <= oy <= crate::caster::MAX_COORD,
        max_steps <= crate::caster::MAX_STEPS,
        0 <= scale <= crate::caster::FP,
        0 <= off_x <= MAX_DIM,
        0 <= off_y <= MAX_DIM,
    ensures
        r == crate::caster::spec_cast_ray(
            grid.deep_view(),
            ox as int,
            oy as int,
            sx as int,
            sy as int,
            step_len as int,
            unit as int,
            max_steps as int,
        ),
        final(fb).wf(),
        final(fb).width == old(fb).width,
        final(fb).height == old(fb).height,
        final(fb).current_color == old(fb).current_color,
        final(fb).buffer@.len() == old(fb).buffer@.len(),
        forall|px: int, py: int|
            0 <= px < old(fb).width && 0 <= py < old(fb).height ==> #[trigger] final(fb).pixel(
                px,
                py,
            ) == (if spec_sample_at(
                grid.deep_view(),
                ox as int,
                oy as int,
                sx as int,
                sy as int,
                unit as int,
                max_steps as int,
                off_x as int,
                off_y as int,
                scale as int,
                px,
                py,
            ) {
                old(fb).current_color
            } else {
                old(fb).pixel(px, py)
            }),
{
    let ghost g = grid.deep_view();
    let ghost fb0 = *fb;
    let mut x = ox;
    let mut y = oy;
    let mut n: u32 = 0;
    while n < max_steps
        invariant
            fb0 == *old(fb),
            fb.wf(),
            fb.width == fb0.width,
            fb.height == fb0.height,
            fb.current_color == fb0.current_color,
            fb.buffer@.len() == fb0.buffer@.len(),
            fb0.width <= MAX_DIM,
            fb0.height <= MAX_DIM,
            forall|px: int, py: int|
                0 <= px < fb0.width && 0 <= py < fb0.height ==> #[trigger] fb.pixel(px, py) == (
                if (exists|m: int|
                    #![trigger spec_world_to_screen(ox as int + m * sx, off_x as int, scale as int)]
                    1 <= m <= n && spec_world_to_screen(ox as int + m * sx, off_x as int, scale as int)
                        == px && spec_world_to_screen(oy as int + m * sy, off_y as int, scale as int)
                        == py) {
                    fb0.current_color
                } else {
                    fb0.pixel(px, py)
                }),
            1 <= unit <= crate::caster::MAX_UNIT,
            1 <= step_len <= unit,
            -step_len <= sx <= step_len,
            -step_len <= sy <= step_len,
            -crate::caster::MAX_COORD <= ox <= crate::caster::MAX_COORD,
            -crate::caster::MAX_COORD <= oy <= crate::caster::MAX_COORD,
            max_steps <= crate::caster::MAX_STEPS,
            0 <= scale <= crate::caster::FP,
            0 <= off_x <= MAX_DIM,
            0 <= off_y <= MAX_DIM,
            n <= max_steps,
            g == grid.deep_view(),
            x == ox + n * sx,
            y == oy + n * sy,
            -crate::caster::MAX_COORD - n * crate::caster::MAX_UNIT <= x <= crate::caster::MAX_COORD
                + n * crate::caster::MAX_UNIT,
            -crate::caster::MAX_COORD - n * crate::caster::MAX_UNIT <= y <= crate::caster::MAX_COORD
                + n * crate::caster::MAX_UNIT,
            forall|i: int|
                1 <= i <= n ==> !crate::caster::probe_solid(
                    g,
                    ox as int,
                    oy as int,
                    sx as int,
                    sy as int,
                    unit as int,
                    i,
                ),
        decreases max_steps - n,
    {
        let nx = x + sx;
        let ny = y + sy;
        let n2 = n + 1;
        proof {
            assert((n2 as int) * (sx as int) == (n as int) * (sx as int) + sx && (n2 as int) * (
            sy as int) == (n as int) * (sy as int) + sy) by (nonlinear_arith)
                requires
                    n2 == n + 1,
            ;
        }
        let px_s = world_to_screen(nx, off_x, scale);
        let py_s = world_to_screen(ny, off_y, scale);
        let ghost before = *fb;
        if -0x4000_0000 <= px_s && px_s <= 0x4000_0000 && -0x4000_0000 <= py_s && py_s
            <= 0x4000_0000 {
            plot(fb, px_s as isize, py_s as isize);
        }
        proof {
            assert forall|px: int, py: int| 0 <= px < fb0.width && 0 <= py < fb0.height implies #[trigger] fb.pixel(px, py) == (if (exists|m: int|
                #![trigger spec_world_to_screen(ox as int + m * sx, off_x as int, scale as int)]
                1 <= m <= n2 && spec_world_to_screen(ox as int + m * sx, off_x as int, scale as int)
                    == px && spec_world_to_screen(oy as int + m * sy, off_y as int, scale as int)
                    == py) {
                fb0.current_color
            } else {
                fb0.pixel(px, py)
            }) by {
                if px == px_s && py == py_s {
                    assert(spec_world_to_screen(
                        ox as int + (n2 as int) * sx,
                        off_x as int,
                        scale as int,
                    ) == px && spec_world_to_screen(
                        oy as int + (n2 as int) * sy,
                        off_y as int,
                        scale as int,
                    ) == py);
                    assert(fb.pixel(px, py) == fb0.current_color);
                } else {
                    assert(fb.pixel(px, py) == before.pixel(px, py));
                    if exists|m: int|
                        #![trigger spec_world_to_screen(ox as int + m * sx, off_x as int, scale as int)]
                        1 <= m <= n2 && spec_world_to_screen(
                            ox as int + m * sx,
                            off_x as int,
                            scale as int,
                        ) == px && spec_world_to_screen(
                            oy as int + m * sy,
                            off_y as int,
                            scale as int,
                        ) == py {
                        let m = choose|m: int|
                            #![trigger spec_world_to_screen(ox as int + m * sx, off_x as int, scale as int)]
                            1 <= m <= n2 && spec_world_to_screen(
                                ox as int + m * sx,
                                off_x as int,
                                scale as int,
                            ) == px && spec_world_to_screen(
                                oy as int + m * sy,
                                off_y as int,
                                scale as int,
                            ) == py;
                        assert(m <= n);
                    }
                }
            }
        }
        if crate::maze::solid_at(grid, nx, ny, unit) {
            proof {
                assert((n2 as int) * (step_len as int) <= (crate::caster::MAX_STEPS as int) * (
                crate::caster::MAX_UNIT as int) && 0 < (n2 as int) * (step_len as int))
                    by (nonlinear_arith)
                    requires
                        1 <= n2 <= crate::caster::MAX_STEPS,
                        1 <= step_len <= crate::caster::MAX_UNIT,
                ;
                crate::caster::lemma_first_solid_from_is(
                    g,
                    ox as int,
                    oy as int,
                    sx as int,
                    sy as int,
                    unit as int,
                    1,
                    max_steps as int,
                    n2 as int,
                );
            }
            let dist = (n2 as i64) * step_len;
            let sym = crate::caster::symbol_at(grid, nx, ny, unit);
            let t = crate::caster::tex_u(nx, ny, unit);
            return Some(
                crate::caster::HitRecord {
                    steps: n2,
                    distance: dist,
                    impact: sym,
                    tx: t,
                    hit_x: nx,
                    hit_y: ny,
                },
            );
        }
        x = nx;
        y = ny;
        n = n2;
    }
    proof {
        crate::caster::lemma_first_solid_from_props(
            g,
            ox as int,
            oy as int,
            sx as int,
            sy as int,
            unit as int,
            1,
            max_steps as int,
        );
    }
    None
}

/// Sky color of the first-person background.
pub const SKY_COLOR: u32 = 0x87CEEB;

/// Ground color of the first-person background.
pub const GROUND_COLOR: u32 = 0x006400;

/// Background color of row `y` in a first-person column on a
/// viewport `vh` rows tall: sky above the midline, ground below it.
pub open spec fn spec_background_pixel(y: int, vh: int) -> u32 {
    if y < vh / 2 {
        SKY_COLOR
    } else {
        GROUND_COLOR
    }
}

/// Color the first-person renderer shows at row `y` of a viewport
/// column whose cast returned `h`: the background when the ray hit
/// nothing, and otherwise the background outside the wall slice of
/// the fisheye-corrected distance, while the slice rows sample the
/// hit cell's texture at the hit's texture-u (scaled to the texture
/// width) and the row's texture-v (the row's offset in the slice
/// scaled to the texture height).
pub open spec fn spec_column_pixel(
    h: Option<crate::caster::HitRecord>,
    cos_off: int,
    y: int,
    vh: int,
    wall: Texture,
    door: Texture,
    unit: int,
) -> u32 {
    match h {
        Option::None => spec_background_pixel(y, vh),
        Option::Some(hit) => {
            let corrected = crate::caster::spec_correct_fisheye(hit.distance as int, cos_off);
            let dc = if corrected < 0 {
                0int
            } else {
                corrected
            };
            let top = crate::projector::spec_slice_top(dc, vh);
            let bottom = crate::projector::spec_slice_bottom(dc, vh);
            if top <= y < bottom {
                let tw = if hit.impact == 'g' {
                    door.width as int
                } else {
                    wall.width as int
                };
                let th = if hit.impact == 'g' {
                    door.height as int
                } else {
                    wall.height as int
                };
                spec_cell_texture_color(
                    hit.impact,
                    (hit.tx * tw) / unit,
                    ((y - top) * th) / (bottom - top),
                    wall,
                    door,
                )
            } else {
                spec_background_pixel(y, vh)
            }
        },
    }
}

/// Pixel `(c, y)` of the whole first-person frame: the column pixel
/// of column `c`'s cast along its precomputed ray.
pub open spec fn spec_render3d_pixel(
    grid: Seq<Seq<char>>,
    ox: int,
    oy: int,
    rays: Seq<RayDir>,
    wall: Texture,
    door: Texture,
    step_len: int,
    unit: int,
    max_steps: int,
    vh: int,
    c: int,
    y: int,
) -> u32 {
    spec_column_pixel(
        crate::caster::spec_cast_ray(
            grid,
            ox,
            oy,
            rays[c].sx as int,
            rays[c].sy as int,
            step_len,
            unit,
            max_steps,
        ),
        rays[c].cos_off as int,
        y,
        vh,
        wall,
        door,
        unit,
    )
}

/// Renders the first-person view, pixel for pixel: every viewport
/// column with a precomputed ray holds exactly
/// [`spec_render3d_pixel`] — sky above the midline and ground below
/// it where the ray found no wall, and the hit cell's texture across
/// the centered slice of the fisheye-corrected distance where it did
/// — and every column beyond the ray fan keeps its pixels, so each
/// ray writes only its own column.
pub fn render3d(
    fb: &mut Framebuffer,
    maze: &Vec<Vec<char>>,
    ox: i64,
    oy: i64,
    rays: &Vec<RayDir>,
    wall: &Texture,
    door: &Texture,
    step_len: i64,
    unit: i64,
    max_steps: u32,
)
    requires
        old(fb).wf(),
        old(fb).width <= MAX_DIM,
        old(fb).height <= MAX_DIM,
        wall.wf(),
        door.wf(),
        wall.width <= MAX_DIM,
        wall.height <= MAX_DIM,
        door.width <= MAX_DIM,
        door.height <= MAX_DIM,
        1 <= unit <= crate::caster::MAX_UNIT,
        1 <= step_len <= unit,
        -crate::caster::MAX_COORD <= ox <= crate::caster::MAX_COORD,
        -crate::caster::MAX_COORD <= oy <= crate::caster::MAX_COORD,
        max_steps <= crate::caster::MAX_STEPS,
        forall|k: int|
            0 <= k < rays@.len() ==> -step_len <= #[trigger] rays@[k].sx <= step_len && -step_len
                <= rays@[k].sy <= step_len && -crate::caster::FP <= rays@[k].cos_off
                <= crate::caster::FP,
    ensures
        final(fb).wf(),
        final(fb).width == old(fb).width,
        final(fb).height == old(fb).height,
        final(fb).buffer@.len() == old(fb).buffer@.len(),
        forall|c: int, y: int|
            0 <= c < rays@.len() && c < old(fb).width && 0 <= y < old(fb).height
                ==> #[trigger] final(fb).pixel(c, y) == spec_render3d_pixel(
                maze.deep_view(),
                ox as int,
                oy as int,
                rays@,
                *wall,
                *door,
                step_len as int,
                unit as int,
                max_steps as int,
                old(fb).height as int,
                c,
                y,
            ),
        forall|c: int, y: int|
            0 <= c < old(fb).width && 0 <= y < old(fb).height && rays@.len() <= c
                ==> #[trigger] final(fb).pixel(c, y) == old(fb).pixel(c, y),
{
    let ghost g = maze.deep_view();
    let width = fb.width;
    let height = fb.height;
    let hh = height / 2;
    let ncols = if rays.len() < width {
        rays.len()
    } else {
        width
    };
    let mut i: usize = 0;
    while i < ncols
        invariant
            fb.wf(),
            fb.width == old(fb).width,
            fb.height == old(fb).height,
            fb.buffer@.len() == old(fb).buffer@.len(),
            g == maze.deep_view(),
            width == fb.width <= MAX_DIM,
            height == fb.height <= MAX_DIM,
            hh == height / 2,
            ncols <= rays@.len(),
            ncols <= width,
            i <= ncols,
            forall|c: int, y: int|
                0 <= c < i && 0 <= y < height ==> #[trigger] fb.pixel(c, y) == spec_render3d_pixel(
                    g,
                    ox as int,
                    oy as int,
                    rays@,
                    *wall,
                    *door,
                    step_len as int,
                    unit as int,
                    max_steps as int,
                    height as int,
                    c,
                    y,
                ),
            forall|c: int, y: int|
                i <= c < width && 0 <= y < height ==> #[trigger] fb.pixel(c, y) == old(fb).pixel(
                    c,
                    y,
                ),
            wall.wf(),
            door.wf(),
            wall.width <= MAX_DIM,
            wall.height <= MAX_DIM,
            door.width <= MAX_DIM,
            door.height <= MAX_DIM,
            1 <= unit <= crate::caster::MAX_UNIT,
            1 <= step_len <= unit,
            -crate::caster::MAX_COORD <= ox <= crate::caster::MAX_COORD,
            -crate::caster::MAX_COORD <= oy <= crate::caster::MAX_COORD,
            max_steps <= crate::caster::MAX_STEPS,
            forall|k: int|
                0 <= k < rays@.len() ==> -step_len <= #[trigger] rays@[k].sx <= step_len
                    && -step_len <= rays@[k].sy <= step_len && -crate::caster::FP
                    <= rays@[k].cos_off <= crate::caster::FP,
        decreases ncols - i,
    {
        fb.set_current_color(SKY_COLOR);
        let mut j: usize = 0;
        while j < hh
            invariant
                fb.wf(),
                fb.width == old(fb).width,
                fb.height == old(fb).height,
                fb.buffer@.len() == old(fb).buffer@.len(),
                g == maze.deep_view(),
                width == fb.width <= MAX_DIM,
                height == fb.height <= MAX_DIM,
                hh == height / 2,
                i < ncols <= width,
                ncols <= rays@.len(),
                fb.current_color == SKY_COLOR,
                j <= hh,
                forall|c: int, y: int|
                    0 <= c < i && 0 <= y < height ==> #[trigger] fb.pixel(c, y)
                        == spec_render3d_pixel(
                        g,
                        ox as int,
                        oy as int,
                        rays@,
                        *wall,
                        *door,
                        step_len as int,
                        unit as int,
                        max_steps as int,
                        height as int,
                        c,
                        y,
                    ),
                forall|c: int, y: int|
                    i < c < width && 0 <= y < height ==> #[trigger] fb.pixel(c, y) == old(
                        fb,
                    ).pixel(c, y),
                forall|y: int|
                    0 <= y < j ==> #[trigger] fb.pixel(i as int, y) == SKY_COLOR,
                forall|y: int|
                    j <= y < height ==> #[trigger] fb.pixel(i as int, y) == old(fb).pixel(
                        i as int,
                        y,
                    ),
            decreases hh - j,
        {
            plot(fb, i as isize, j as isize);
            j = j + 1;
        }
        fb.set_current_color(GROUND_COLOR);
        let mut j2: usize = hh;
        while j2 < height
            invariant
                fb.wf(),
                fb.width == old(fb).width,
                fb.height == old(fb).height,
                fb.buffer@.len() == old(fb).buffer@.len(),
                g == maze.deep_view(),
                width == fb.width <= MAX_DIM,
                height == fb.height <= MAX_DIM,
                hh == height / 2,
                i < ncols <= width,
                ncols <= rays@.len(),
                fb.current_color == GROUND_COLOR,
                hh <= j2 <= height,
                forall|c: int, y: int|
                    0 <= c < i && 0 <= y < height ==> #[trigger] fb.pixel(c, y)
                        == spec_render3d_pixel(
                        g,
                        ox as int,
                        oy as int,
                        rays@,
                        *wall,
                        *door,
                        step_len as int,
                        unit as int,
                        max_steps as int,
                        height as int,
                        c,
                        y,
                    ),
                forall|c: int, y: int|
                    i < c < width && 0 <= y < height ==> #[trigger] fb.pixel(c, y) == old(
                        fb,
                    ).pixel(c, y),
                forall|y: int|
                    0 <= y < hh ==> #[trigger] fb.pixel(i as int, y) == SKY_COLOR,
                forall|y: int|
                    hh <= y < j2 ==> #[trigger] fb.pixel(i as int, y) == GROUND_COLOR,
                forall|y: int|
                    j2 <= y < height ==> #[trigger] fb.pixel(i as int, y) == old(fb).pixel(
                        i as int,
                        y,
                    ),
            decreases height - j2,
        {
            plot(fb, i as isize, j2 as isize);
            j2 = j2 + 1;
        }
        proof {
            assert forall|y: int| 0 <= y < height implies #[trigger] fb.pixel(i as int, y)
                == spec_background_pixel(y, height as int) by {}
        }
        let rd = rays[i];
        let cast = crate::caster::cast_ray(maze, ox, oy, rd.sx, rd.sy, step_len, unit, max_steps);
        match cast {
            None => {},
            Some(h) => {
                let corrected = crate::caster::correct_fisheye(h.distance, rd.cos_off);
                proof {
                    if rd.cos_off < 0 {
                        assert((h.distance as int) * (-(rd.cos_off as int)) >= 0)
                            by (nonlinear_arith)
                            requires
                                0 <= h.distance,
                                rd.cos_off < 0,
                        ;
                        vstd::arithmetic::div_mod::lemma_div_pos_is_pos(
                            (h.distance as int) * (-(rd.cos_off as int)),
                            crate::caster::FP as int,
                        );
                    }
                }
                let dc = if corrected < 0 {
                    0
                } else {
                    corrected
                };
                let slice = crate::projector::project_slice(dc, height);
                let tw = if h.impact == 'g' {
                    door.width
                } else {
                    wall.width
                };
                let th = if h.impact == 'g' {
                    door.height
                } else {
                    wall.height
                };
                let txi = scale_tex_coord(h.tx, tw, unit);
                let mut yy = slice.top;
                while yy < slice.bottom
                    invariant
                        fb.wf(),
                        fb.width == old(fb).width,
                        fb.height == old(fb).height,
                        fb.buffer@.len() == old(fb).buffer@.len(),
                        g == maze.deep_view(),
                        width == fb.width <= MAX_DIM,
                        height == fb.height <= MAX_DIM,
                        hh == height / 2,
                        i < ncols <= width,
                        ncols <= rays@.len(),
                        slice.top <= yy <= slice.bottom,
                        slice.bottom <= height,
                        wall.wf(),
                        door.wf(),
                        th <= MAX_DIM,
                        th == (if h.impact == 'g' {
                            door.height
                        } else {
                            wall.height
                        }),
                        txi == ((h.tx as int) * (if h.impact == 'g' {
                            door.width as int
                        } else {
                            wall.width as int
                        })) / (unit as int),
                        ({
                            let corrected_g = crate::caster::spec_correct_fisheye(
                                h.distance as int,
                                rd.cos_off as int,
                            );
                            let dc_g = if corrected_g < 0 {
                                0int
                            } else {
                                corrected_g
                            };
                            slice.top == crate::projector::spec_slice_top(dc_g, height as int)
                                && slice.bottom == crate::projector::spec_slice_bottom(
                                dc_g,
                                height as int,
                            )
                        }),
                        forall|c: int, y: int|
                            0 <= c < i && 0 <= y < height ==> #[trigger] fb.pixel(c, y)
                                == spec_render3d_pixel(
                                g,
                                ox as int,
                                oy as int,
                                rays@,
                                *wall,
                                *door,
                                step_len as int,
                                unit as int,
                                max_steps as int,
                                height as int,
                                c,
                                y,
                            ),
                        forall|c: int, y: int|
                            i < c < width && 0 <= y < height ==> #[trigger] fb.pixel(c, y) == old(
                                fb,
                            ).pixel(c, y),
                        forall|y: int|
                            0 <= y < height && !(slice.top <= y < yy) ==> #[trigger] fb.pixel(
                                i as int,
                                y,
                            ) == spec_background_pixel(y, height as int),
                        forall|y: int|
                            slice.top <= y < yy ==> #[trigger] fb.pixel(i as int, y)
                                == spec_cell_texture_color(
                                h.impact,
                                txi as int,
                                ((y - slice.top) * th) / (slice.bottom - slice.top),
                                *wall,
                                *door,
                            ),
                    decreases slice.bottom - yy,
                {
                    let tyi = crate::projector::texture_v(yy, slice.top, slice.bottom, th);
                    let c = cell_to_texture_color(h.impact, txi, tyi, wall, door);
                    fb.set_current_color(c);
                    plot(fb, i as isize, yy as isize);
                    yy = yy + 1;
                }
            },
        }
        proof {
            assert forall|y: int| 0 <= y < height implies #[trigger] fb.pixel(i as int, y)
                == spec_render3d_pixel(
                g,
                ox as int,
                oy as int,
                rays@,
                *wall,
                *door,
                step_len as int,
                unit as int,
                max_steps as int,
                height as int,
                i as int,
                y,
            ) by {}
        }
        i = i + 1;
    }
}

/// Draws the decimal digits of `text` at `(x, y)` in `color` with a
/// built-in 5x8 dot font, one glyph column of blank space between
/// characters; any character that is not a digit occupies its slot
/// but draws nothing. Writes only `color`: every pixel of the
/// surface either keeps its value or holds `color`.
pub fn draw_text(fb: &mut Framebuffer, text: &str, x: usize, y: usize, color: u32)
    requires
        old(fb).wf(),
        x <= MAX_DIM,
        y <= MAX_DIM,
        text@.len() <= 1024,
    ensures
        final(fb).wf(),
        final(fb).width == old(fb).width,
        final(fb).height == old(fb).height,
        final(fb).buffer@.len() == old(fb).buffer@.len(),
        final(fb).current_color == color,
        forall|px: int, py: int|
            0 <= px < old(fb).width && 0 <= py < old(fb).height ==> #[trigger] final(fb).pixel(
                px,
                py,
            ) == old(fb).pixel(px, py) || final(fb).pixel(px, py) == color,
{
    let font: [u8; 50] = [
        0x3E, 0x51, 0x49, 0x45, 0x3E,
        0x00, 0x42, 0x7F, 0x40, 0x00,
        0x42, 0x61, 0x51, 0x49, 0x46,
        0x21, 0x41, 0x45, 0x4B, 0x31,
        0x18, 0x14, 0x12, 0x7F, 0x10,
        0x27, 0x45, 0x45, 0x45, 0x39,
        0x3C, 0x4A, 0x49, 0x49, 0x30,
        0x01, 0x71, 0x09, 0x05, 0x03,
        0x36, 0x49, 0x49, 0x49, 0x36,
        0x06, 0x49, 0x49, 0x29, 0x1E,
    ];
    fb.set_current_color(color);
    let ghost fb0 = *fb;
    let n = text.unicode_len();
    let mut i: usize = 0;
    while i < n
        invariant
            fb0 == (Framebuffer { current_color: color, ..*old(fb) }),
            fb.wf(),
            fb.width == fb0.width,
            fb.height == fb0.height,
            fb.current_color == color,
            fb.buffer@.len() == fb0.buffer@.len(),
            forall|px: int, py: int|
                0 <= px < fb0.width && 0 <= py < fb0.height ==> #[trigger] fb.pixel(px, py)
                    == fb0.pixel(px, py) || fb.pixel(px, py) == color,
            i <= n,
            n == text@.len() <= 1024,
            x <= MAX_DIM,
            y <= MAX_DIM,
        decreases n - i,
    {
        let c = text.get_char(i);
        let v = c as u32;
        if v >= 48 && v <= 57 {
            let offset = ((v - 48) as usize) * 5;
            let mut row: usize = 0;
            while row < 8
                invariant
                    fb0 == (Framebuffer { current_color: color, ..*old(fb) }),
                    fb.wf(),
                    fb.width == fb0.width,
                    fb.height == fb0.height,
                    fb.current_color == color,
                    fb.buffer@.len() == fb0.buffer@.len(),
                    forall|px: int, py: int|
                        0 <= px < fb0.width && 0 <= py < fb0.height ==> #[trigger] fb.pixel(px, py)
                            == fb0.pixel(px, py) || fb.pixel(px, py) == color,
                    row <= 8,
                    offset <= 45,
                    i < 1024,
                    x <= MAX_DIM,
                    y <= MAX_DIM,
                decreases 8 - row,
            {
                let mut col: usize = 0;
                while col < 5
                    invariant
                        fb0 == (Framebuffer { current_color: color, ..*old(fb) }),
                        fb.wf(),
                        fb.width == fb0.width,
                        fb.height == fb0.height,
                        fb.current_color == color,
                        fb.buffer@.len() == fb0.buffer@.len(),
                        forall|px: int, py: int|
                            0 <= px < fb0.width && 0 <= py < fb0.height ==> #[trigger] fb.pixel(
                                px,
                                py,
                            ) == fb0.pixel(px, py) || fb.pixel(px, py) == color,
                        col <= 5,
                        row < 8,
                        offset <= 45,
                        i < 1024,
                        x <= MAX_DIM,
                        y <= MAX_DIM,
                    decreases 5 - col,
                {
                    if font[offset + col] & (1u8 << (7 - row)) != 0 {
                        plot(fb, (x + col + i * 6) as isize, (y + row) as isize);
                    }
                    col = col + 1;
                }
                row = row + 1;
            }
        }
        i = i + 1;
    }
}

/// A decoded overlay image with per-pixel transparency, packed
/// `0xAARRGGBB` row-major.
pub struct Sprite {
    pub width: usize,
    pub height: usize,
    pub pixels: Vec<u32>,
}

impl Sprite {
    /// One packed pixel is stored per cell of the image.
    pub open spec fn wf(&self) -> bool {
        &&& self.pixels@.len() == self.width * self.height
        &&& self.width * self.height <= usize::MAX
    }

    /// Builds a sprite from its dimensions and packed pixels; rejects
    /// a pixel table whose size does not match the dimensions.
    pub fn new(width: usize, height: usize, pixels: Vec<u32>) -> (s: Option<Sprite>)
        ensures
            match s {
                Some(sp) => sp.wf() && sp.width == width && sp.height == height && sp.pixels@
                    == pixels@,
                None => pixels@.len() != width * height || width * height > usize::MAX,
            },
    {
        if width != 0 && height > usize::MAX / width {
            proof {
                vstd::arithmetic::div_mod::lemma_fundamental_div_mod(
                    usize::MAX as int,
                    width as int,
                );
                assert(width * height > usize::MAX) by (nonlinear_arith)
                    requires
                        0 < width,
                        height > usize::MAX as int / width as int,
                        usize::MAX as int == width * (usize::MAX as int / width as int) + (
                        usize::MAX as int % width as int),
                        (usize::MAX as int % width as int) < width,
                ;
            }
            return None;
        }
        proof {
            if width != 0 {
                vstd::arithmetic::div_mod::lemma_fundamental_div_mod(
                    usize::MAX as int,
                    width as int,
                );
                assert(width * height <= width * (usize::MAX as int / width as int))
                    by (nonlinear_arith)
                    requires
                        0 < width,
                        height <= usize::MAX as int / width as int,
                ;
                assert(width * (usize::MAX as int / width as int) <= usize::MAX)
                    by (nonlinear_arith)
                    requires
                        0 < width,
                        usize::MAX as int == width * (usize::MAX as int / width as int) + (
                        usize::MAX as int % width as int),
                        (usize::MAX as int % width as int) >= 0,
                ;
            }
        }
        let expected = width * height;
        if pixels.len() != expected {
            return None;
        }
        Some(Sprite { width, height, pixels })
    }
}

/// One channel of an alpha blend: the source weighted by the alpha
/// against the destination weighted by the remainder, in 255ths.
pub open spec fn spec_blend_channel(src: int, dst: int, alpha: int) -> int {
    (src * alpha + dst * (255 - alpha)) / 255
}

/// Alpha-blends the packed `0xAARRGGBB` source pixel over the packed
/// `0xRRGGBB` destination color, channel by channel.
pub open spec fn spec_blend_over(src: u32, dst: u32) -> u32 {
    let a = (src as int) / 0x100_0000;
    let sr = ((src as int) / 0x1_0000) % 0x100;
    let sg = ((src as int) / 0x100) % 0x100;
    let sb = (src as int) % 0x100;
    let dr = ((dst as int) / 0x1_0000) % 0x100;
    let dg = ((dst as int) / 0x100) % 0x100;
    let db = (dst as int) % 0x100;
    (spec_blend_channel(sr, dr, a) * 0x1_0000 + spec_blend_channel(sg, dg, a) * 0x100
        + spec_blend_channel(sb, db, a)) as u32
}

/// Blends one translucent sprite pixel over a surface color.
pub fn blend_over(src: u32, dst: u32) -> (c: u32)
    ensures
        c == spec_blend_over(src, dst),
{
    proof {
        vstd::arithmetic::div_mod::lemma_div_is_ordered(
            src as int,
            0xFFFF_FFFFint,
            0x100_0000int,
        );
        vstd::arithmetic::div_mod::lemma_mod_division_less_than_divisor(
            (src as int) / 0x1_0000,
            0x100int,
        );
        vstd::arithmetic::div_mod::lemma_mod_division_less_than_divisor(
            (src as int) / 0x100,
            0x100int,
        );
        vstd::arithmetic::div_mod::lemma_mod_division_less_than_divisor(src as int, 0x100int);
        vstd::arithmetic::div_mod::lemma_mod_division_less_than_divisor(
            (dst as int) / 0x1_0000,
            0x100int,
        );
        vstd::arithmetic::div_mod::lemma_mod_division_less_than_divisor(
            (dst as int) / 0x100,
            0x100int,
        );
        vstd::arithmetic::div_mod::lemma_mod_division_less_than_divisor(dst as int, 0x100int);
    }
    let a = (src as u64) / 0x100_0000;
    let sr = ((src as u64) / 0x1_0000) % 0x100;
    let sg = ((src as u64) / 0x100) % 0x100;
    let sb = (src as u64) % 0x100;
    let dr = ((dst as u64) / 0x1_0000) % 0x100;
    let dg = ((dst as u64) / 0x100) % 0x100;
    let db = (dst as u64) % 0x100;
    proof {
        assert(a <= 255 && sr <= 255 && sg <= 255 && sb <= 255 && dr <= 255 && dg <= 255 && db
            <= 255);
        assert(sr * a <= 65025 && sg * a <= 65025 && sb * a <= 65025 && dr * (255 - a) <= 65025
            && dg * (255 - a) <= 65025 && db * (255 - a) <= 65025) by (nonlinear_arith)
            requires
                0 <= a <= 255,
                0 <= sr <= 255,
                0 <= sg <= 255,
                0 <= sb <= 255,
                0 <= dr <= 255,
                0 <= dg <= 255,
                0 <= db <= 255,
        ;
    }
    let br = (sr * a + dr * (255 - a)) / 255;
    let bg = (sg * a + dg * (255 - a)) / 255;
    let bb = (sb * a + db * (255 - a)) / 255;
    proof {
        assert(br <= 255 && bg <= 255 && bb <= 255) by (nonlinear_arith)
            requires
                0 <= a <= 255,
                0 <= sr <= 255,
                0 <= sg <= 255,
                0 <= sb <= 255,
                0 <= dr <= 255,
                0 <= dg <= 255,
                0 <= db <= 255,
                br == (sr * a + dr * (255 - a)) / 255,
                bg == (sg * a + dg * (255 - a)) / 255,
                bb == (sb * a + db * (255 - a)) / 255,
        ;
    }
    (br * 0x1_0000 + bg * 0x100 + bb) as u32
}

/// Draws the sprite at `(x, y)` magnified by the whole-number
/// `factor`, alpha-blending each sprite pixel over the surface color
/// beneath its block; a fully transparent pixel leaves the surface
/// untouched, and a factor of zero draws nothing. The surface keeps
/// its extent.
pub fn draw_image(fb: &mut Framebuffer, sprite: &Sprite, x: usize, y: usize, factor: usize)
    requires
        old(fb).wf(),
        sprite.wf(),
        sprite.width <= 4096,
        sprite.height <= 4096,
        factor <= 16,
        x <= MAX_DIM,
        y <= MAX_DIM,
    ensures
        final(fb).wf(),
        final(fb).width == old(fb).width,
        final(fb).height == old(fb).height,
        final(fb).buffer@.len() == old(fb).buffer@.len(),
{
    let mut py: usize = 0;
    while py < sprite.height
        invariant
            fb.wf(),
            fb.width == old(fb).width,
            fb.height == old(fb).height,
            fb.buffer@.len() == old(fb).buffer@.len(),
            sprite.wf(),
            sprite.width <= 4096,
            sprite.height <= 4096,
            factor <= 16,
            x <= MAX_DIM,
            y <= MAX_DIM,
            py <= sprite.height,
        decreases sprite.height - py,
    {
        let mut px: usize = 0;
        while px < sprite.width
            invariant
                fb.wf(),
                fb.width == old(fb).width,
                fb.height == old(fb).height,
                fb.buffer@.len() == old(fb).buffer@.len(),
                sprite.wf(),
                sprite.width <= 4096,
                sprite.height <= 4096,
                factor <= 16,
                x <= MAX_DIM,
                y <= MAX_DIM,
                py < sprite.height,
                px <= sprite.width,
            decreases sprite.width - px,
        {
            proof {
                assert(py * sprite.width + px < sprite.width * sprite.height) by (nonlinear_arith)
                    requires
                        0 <= px < sprite.width,
                        0 <= py < sprite.height,
                ;
            }
            let src = sprite.pixels[py * sprite.width + px];
            if src / 0x100_0000 != 0 {
                let mut sy: usize = 0;
                while sy < factor
                    invariant
                        fb.wf(),
                        fb.width == old(fb).width,
                        fb.height == old(fb).height,
                        fb.buffer@.len() == old(fb).buffer@.len(),
                        factor <= 16,
                        x <= MAX_DIM,
                        y <= MAX_DIM,
                        px < 4096,
                        py < 4096,
                        sy <= factor,
                    decreases factor - sy,
                {
                    let mut sx: usize = 0;
                    while sx < factor
                        invariant
                            fb.wf(),
                            fb.width == old(fb).width,
                            fb.height == old(fb).height,
                            fb.buffer@.len() == old(fb).buffer@.len(),
                            factor <= 16,
                            x <= MAX_DIM,
                            y <= MAX_DIM,
                            px < 4096,
                            py < 4096,
                            sy < factor,
                            sx <= factor,
                        decreases factor - sx,
                    {
                        proof {
                            assert(px * factor <= 4096 * 16 && py * factor <= 4096 * 16)
                                by (nonlinear_arith)
                                requires
                                    0 <= px < 4096,
                                    0 <= py < 4096,
                                    0 <= factor <= 16,
                            ;
                        }
                        let dx = x + px * factor + sx;
                        let dy = y + py * factor + sy;
                        let dst = fb.get_pixel_color(dx, dy);
                        let c = blend_over(src, dst);
                        fb.set_current_color(c);
                        plot(fb, dx as isize, dy as isize);
                        sx = sx + 1;
                    }
                    sy = sy + 1;
                }
            }
            px = px + 1;
        }
        py = py + 1;
    }
}

/// A pixel column lies over map-cell column `c` exactly when it lies
/// in that cell's pixel range.
proof fn lemma_block_cover(off: int, block: int, c: int, p: int)
    requires
        1 <= block,
        0 <= c,
        off <= p,
    ensures
        ((p - off) / block == c) <==> (off + c * block <= p < off + c * block + block),
{
    vstd::arithmetic::div_mod::lemma_fundamental_div_mod(p - off, block);
    vstd::arithmetic::div_mod::lemma_mod_pos_bound(p - off, block);
    assert(block * c == c * block && block * ((p - off) / block) == ((p - off) / block) * block)
        by (nonlinear_arith);
    if off + c * block <= p < off + c * block + block {
        vstd::arithmetic::div_mod::lemma_fundamental_div_mod_converse(
            p - off,
            block,
            c,
            p - off - c * block,
        );
    }
}

/// Flat map color shown at pixel `(px, py)` when the maze is drawn
/// as `block`-square cells at offset `(off_x, off_y)`: the covering
/// cell's color, or nothing where no cell covers the pixel.
pub open spec fn spec_map_cell_color_at(
    grid: Seq<Seq<char>>,
    off_x: int,
    off_y: int,
    block: int,
    px: int,
    py: int,
) -> Option<u32> {
    if block < 1 || px < off_x || py < off_y {
        Option::None
    } else {
        let col = (px - off_x) / block;
        let row = (py - off_y) / block;
        if row < grid.len() && col < grid[row].len() {
            Option::Some(spec_cell_map_color(grid[row][col]))
        } else {
            Option::None
        }
    }
}

/// Fills every maze cell as a `block`-square of its flat map color
/// at the given pixel offset, pixel for pixel: a pixel covered by a
/// cell takes that cell's color and every other pixel keeps its
/// value.
fn draw_map_cells(fb: &mut Framebuffer, maze: &Vec<Vec<char>>, off_x: usize, off_y: usize, block: usize)
    requires
        old(fb).wf(),
        1 <= block,
        off_y + maze.deep_view().len() * block <= MAX_DIM,
        forall|r: int|
            0 <= r < maze.deep_view().len() ==> off_x + #[trigger] maze.deep_view()[r].len()
                * block <= MAX_DIM,
    ensures
        final(fb).wf(),
        final(fb).width == old(fb).width,
        final(fb).height == old(fb).height,
        final(fb).buffer@.len() == old(fb).buffer@.len(),
        forall|px: int, py: int|
            0 <= px < old(fb).width && 0 <= py < old(fb).height ==> #[trigger] final(fb).pixel(
                px,
                py,
            ) == (match spec_map_cell_color_at(
                maze.deep_view(),
                off_x as int,
                off_y as int,
                block as int,
                px,
                py,
            ) {
                Option::Some(c) => c,
                Option::None => old(fb).pixel(px, py),
            }),
{
    let ghost g = maze.deep_view();
    let mut row: usize = 0;
    while row < maze.len()
        invariant
            fb.wf(),
            fb.width == old(fb).width,
            fb.height == old(fb).height,
            fb.buffer@.len() == old(fb).buffer@.len(),
            g == maze.deep_view(),
            1 <= block,
            row <= g.len(),
            off_y + g.len() * block <= MAX_DIM,
            forall|r: int| 0 <= r < g.len() ==> off_x + #[trigger] g[r].len() * block <= MAX_DIM,
            forall|px: int, py: int|
                0 <= px < old(fb).width && 0 <= py < old(fb).height ==> #[trigger] fb.pixel(px, py)
                    == (match spec_map_cell_color_at(
                    g,
                    off_x as int,
                    off_y as int,
                    block as int,
                    px,
                    py,
                ) {
                    Option::Some(c) => if off_y <= py && (py - off_y) / (block as int) < row {
                        c
                    } else {
                        old(fb).pixel(px, py)
                    },
                    Option::None => old(fb).pixel(px, py),
                }),
        decreases maze@.len() - row,
    {
        let line: &Vec<char> = &maze[row];
        let mut col: usize = 0;
        while col < line.len()
            invariant
                fb.wf(),
                fb.width == old(fb).width,
                fb.height == old(fb).height,
                fb.buffer@.len() == old(fb).buffer@.len(),
                g == maze.deep_view(),
                1 <= block,
                row < g.len(),
                *line == maze@[row as int],
                line@.len() == g[row as int].len(),
                col <= line@.len(),
                off_y + g.len() * block <= MAX_DIM,
                forall|r: int| 0 <= r < g.len() ==> off_x + #[trigger] g[r].len() * block
                    <= MAX_DIM,
                forall|px: int, py: int|
                    0 <= px < old(fb).width && 0 <= py < old(fb).height ==> #[trigger] fb.pixel(
                        px,
                        py,
                    ) == (match spec_map_cell_color_at(
                        g,
                        off_x as int,
                        off_y as int,
                        block as int,
                        px,
                        py,
                    ) {
                        Option::Some(c) => if off_y <= py && ((py - off_y) / (block as int) < row
                            || ((py - off_y) / (block as int) == row && off_x <= px && (px - off_x)
                            / (block as int) < col)) {
                            c
                        } else {
                            old(fb).pixel(px, py)
                        },
                        Option::None => old(fb).pixel(px, py),
                    }),
            decreases line@.len() - col,
        {
            proof {
                assert(0 <= col < g[row as int].len() && g[row as int][col as int] == line@[col as int]);
                assert(spec_cell_map_color(g[row as int][col as int]) == spec_cell_map_color(
                    line@[col as int],
                ));
                assert(off_x + g[row as int].len() * block <= MAX_DIM);
                assert(0 <= col * block && col * block + block <= g[row as int].len() * block && 0
                    <= row * block && row * block + block <= g.len() * block) by (nonlinear_arith)
                    requires
                        0 <= col < g[row as int].len(),
                        0 <= row < g.len(),
                        0 <= block,
                ;
            }
            let cell = line[col];
            let xo = off_x + col * block;
            let yo = off_y + row * block;
            let ghost before = *fb;
            draw_cell(fb, xo, yo, block, cell);
            proof {
                assert forall|px: int, py: int|
                    0 <= px < old(fb).width && 0 <= py < old(fb).height implies #[trigger] fb.pixel(
                    px,
                    py,
                ) == (match spec_map_cell_color_at(
                    g,
                    off_x as int,
                    off_y as int,
                    block as int,
                    px,
                    py,
                ) {
                    Option::Some(c) => if off_y <= py && ((py - off_y) / (block as int) < row || ((
                    py - off_y) / (block as int) == row && off_x <= px && (px - off_x) / (
                    block as int) < col + 1)) {
                        c
                    } else {
                        old(fb).pixel(px, py)
                    },
                    Option::None => old(fb).pixel(px, py),
                }) by {
                    if off_x <= px && off_y <= py {
                        lemma_block_cover(off_x as int, block as int, col as int, px);
                        lemma_block_cover(off_y as int, block as int, row as int, py);
                    }
                }
            }
            col = col + 1;
        }
        proof {
            assert forall|px: int, py: int|
                0 <= px < old(fb).width && 0 <= py < old(fb).height implies #[trigger] fb.pixel(
                px,
                py,
            ) == (match spec_map_cell_color_at(
                g,
                off_x as int,
                off_y as int,
                block as int,
                px,
                py,
            ) {
                Option::Some(c) => if off_y <= py && (py - off_y) / (block as int) < row + 1 {
                    c
                } else {
                    old(fb).pixel(px, py)
                },
                Option::None => old(fb).pixel(px, py),
            }) by {}
        }
        row = row + 1;
    }
}

/// Whether any ray of the fan plots a march sample at `(px, py)`.
pub open spec fn spec_any_sample_at(
    grid: Seq<Seq<char>>,
    ox: int,
    oy: int,
    rays: Seq<RayDir>,
    unit: int,
    max_steps: int,
    off_x: int,
    off_y: int,
    scale: int,
    px: int,
    py: int,
) -> bool {
    exists|k: int|
        0 <= k < rays.len() && #[trigger] spec_sample_at(
            grid,
            ox,
            oy,
            rays[k].sx as int,
            rays[k].sy as int,
            unit,
            max_steps,
            off_x,
            off_y,
            scale,
            px,
            py,
        )
}

/// The top-down map frame, pixel by pixel: ray-march samples and the
/// pose dot in the mark color, over the flat-colored maze cells,
/// over the prior surface where no cell covers the pixel.
pub open spec fn spec_map_view_pixel(
    grid: Seq<Seq<char>>,
    ox: int,
    oy: int,
    rays: Seq<RayDir>,
    unit: int,
    max_steps: int,
    off_x: int,
    off_y: int,
    scale: int,
    block: int,
    marks: u32,
    pre: Framebuffer,
    px: int,
    py: int,
) -> u32 {
    if spec_any_sample_at(grid, ox, oy, rays, unit, max_steps, off_x, off_y, scale, px, py) || (px
        == spec_world_to_screen(ox, off_x, scale) && py == spec_world_to_screen(
        oy,
        off_y,
        scale,
    )) {
        marks
    } else {
        match spec_map_cell_color_at(grid, off_x, off_y, block, px, py) {
            Option::Some(c) => c,
            Option::None => pre.pixel(px, py),
        }
    }
}

/// Renders the top-down view, pixel for pixel — exactly
/// [`spec_map_view_pixel`] at offset zero and one pixel per world
/// unit: the maze as `block_size`-square cells of their flat map
/// colors, the pose as a white dot, and every sample of each
/// precomputed ray's march plotted in white over the map.
pub fn render2d(
    fb: &mut Framebuffer,
    maze: &Vec<Vec<char>>,
    ox: i64,
    oy: i64,
    rays: &Vec<RayDir>,
    step_len: i64,
    unit: i64,
    max_steps: u32,
    block_size: usize,
)
    requires
        old(fb).wf(),
        old(fb).width <= MAX_DIM,
        old(fb).height <= MAX_DIM,
        1 <= block_size,
        maze.deep_view().len() * block_size <= MAX_DIM,
        forall|r: int|
            0 <= r < maze.deep_view().len() ==> #[trigger] maze.deep_view()[r].len() * block_size
                <= MAX_DIM,
        1 <= unit <= crate::caster::MAX_UNIT,
        1 <= step_len <= unit,
        -crate::caster::MAX_COORD <= ox <= crate::caster::MAX_COORD,
        -crate::caster::MAX_COORD <= oy <= crate::caster::MAX_COORD,
        max_steps <= crate::caster::MAX_STEPS,
        forall|k: int|
            0 <= k < rays@.len() ==> -step_len <= #[trigger] rays@[k].sx <= step_len && -step_len
                <= rays@[k].sy <= step_len,
    ensures
        final(fb).wf(),
        final(fb).width == old(fb).width,
        final(fb).height == old(fb).height,
        final(fb).buffer@.len() == old(fb).buffer@.len(),
        forall|px: int, py: int|
            0 <= px < old(fb).width && 0 <= py < old(fb).height ==> #[trigger] final(fb).pixel(
                px,
                py,
            ) == spec_map_view_pixel(
                maze.deep_view(),
                ox as int,
                oy as int,
                rays@,
                unit as int,
                max_steps as int,
                0,
                0,
                crate::caster::FP as int,
                block_size as int,
                0xFFFFFFu32,
                *old(fb),
                px,
                py,
            ),
{
    render_map_view(fb, maze, ox, oy, rays, step_len, unit, max_steps, 0, 0, crate::caster::FP, block_size, 0xFFFFFF);
}

/// Renders the minimap, pixel for pixel — exactly
/// [`spec_map_view_pixel`] at the minimap's offset and fixed-point
/// zoom: the maze cells scaled down to blocks, the pose as a red
/// dot, and every sample of each precomputed ray's march plotted in
/// red across the scaled map.
pub fn render_minimap(
    fb: &mut Framebuffer,
    maze: &Vec<Vec<char>>,
    ox: i64,
    oy: i64,
    rays: &Vec<RayDir>,
    step_len: i64,
    unit: i64,
    max_steps: u32,
    minimap_x: usize,
    minimap_y: usize,
    scale: i64,
)
    requires
        old(fb).wf(),
        old(fb).width <= MAX_DIM,
        old(fb).height <= MAX_DIM,
        minimap_x <= MAX_DIM,
        minimap_y <= MAX_DIM,
        minimap_y + maze.deep_view().len() * ((unit as int * scale as int) / (FP_SQ as int))
            <= MAX_DIM,
        forall|r: int|
            0 <= r < maze.deep_view().len() ==> minimap_x + #[trigger] maze.deep_view()[r].len() * (
            (unit as int * scale as int) / (FP_SQ as int)) <= MAX_DIM,
        1 <= unit <= crate::caster::MAX_UNIT,
        1 <= step_len <= unit,
        -crate::caster::MAX_COORD <= ox <= crate::caster::MAX_COORD,
        -crate::caster::MAX_COORD <= oy <= crate::caster::MAX_COORD,
        max_steps <= crate::caster::MAX_STEPS,
        0 <= scale <= crate::caster::FP,
        forall|k: int|
            0 <= k < rays@.len() ==> -step_len <= #[trigger] rays@[k].sx <= step_len && -step_len
                <= rays@[k].sy <= step_len,
    ensures
        final(fb).wf(),
        final(fb).width == old(fb).width,
        final(fb).height == old(fb).height,
        final(fb).buffer@.len() == old(fb).buffer@.len(),
        forall|px: int, py: int|
            0 <= px < old(fb).width && 0 <= py < old(fb).height ==> #[trigger] final(fb).pixel(
                px,
                py,
            ) == spec_map_view_pixel(
                maze.deep_view(),
                ox as int,
                oy as int,
                rays@,
                unit as int,
                max_steps as int,
                minimap_x as int,
                minimap_y as int,
                scale as int,
                (unit as int * scale as int) / (FP_SQ as int),
                0xFF0000u32,
                *old(fb),
                px,
                py,
            ),
{
    proof {
        assert(0 <= (unit as int) * (scale as int) <= 0x100_0000_0000) by (nonlinear_arith)
            requires
                1 <= unit <= crate::caster::MAX_UNIT,
                0 <= scale <= crate::caster::FP,
        ;
        vstd::arithmetic::div_mod::lemma_div_is_ordered(
            (unit as int) * (scale as int),
            0x100_0000_0000int,
            FP_SQ as int,
        );
        vstd::arithmetic::div_mod::lemma_div_pos_is_pos(
            (unit as int) * (scale as int),
            FP_SQ as int,
        );
    }
    let block = (((unit as u64) * (scale as u64)) / (FP_SQ as u64)) as usize;
    render_map_view(
        fb,
        maze,
        ox,
        oy,
        rays,
        step_len,
        unit,
        max_steps,
        minimap_x,
        minimap_y,
        scale,
        block,
        0xFF0000,
    );
}

/// Shared body of the two top-down renderers: cells, then the pose
/// dot, then the ray marches, at an arbitrary offset and zoom.
fn render_map_view(
    fb: &mut Framebuffer,
    maze: &Vec<Vec<char>>,
    ox: i64,
    oy: i64,
    rays: &Vec<RayDir>,
    step_len: i64,
    unit: i64,
    max_steps: u32,
    off_x: usize,
    off_y: usize,
    scale: i64,
    block: usize,
    marks: u32,
)
    requires
        old(fb).wf(),
        old(fb).width <= MAX_DIM,
        old(fb).height <= MAX_DIM,
        off_x <= MAX_DIM,
        off_y <= MAX_DIM,
        off_y + maze.deep_view().len() * block <= MAX_DIM,
        forall|r: int|
            0 <= r < maze.deep_view().len() ==> off_x + #[trigger] maze.deep_view()[r].len()
                * block <= MAX_DIM,
        1 <= unit <= crate::caster::MAX_UNIT,
        1 <= step_len <= unit,
        -crate::caster::MAX_COORD <= ox <= crate::caster::MAX_COORD,
        -crate::caster::MAX_COORD <= oy <= crate::caster::MAX_COORD,
        max_steps <= crate::caster::MAX_STEPS,
        0 <= scale <= crate::caster::FP,
        forall|k: int|
            0 <= k < rays@.len() ==> -step_len <= #[trigger] rays@[k].sx <= step_len && -step_len
                <= rays@[k].sy <= step_len,
    ensures
        final(fb).wf(),
        final(fb).width == old(fb).width,
        final(fb).height == old(fb).height,
        final(fb).buffer@.len() == old(fb).buffer@.len(),
        forall|px: int, py: int|
            0 <= px < old(fb).width && 0 <= py < old(fb).height ==> #[trigger] final(fb).pixel(
                px,
                py,
            ) == spec_map_view_pixel(
                maze.deep_view(),
                ox as int,
                oy as int,
                rays@,
                unit as int,
                max_steps as int,
                off_x as int,
                off_y as int,
                scale as int,
                block as int,
                marks,
                *old(fb),
                px,
                py,
            ),
{
    let ghost g = maze.deep_view();
    if block >= 1 {
        draw_map_cells(fb, maze, off_x, off_y, block);
    }
    fb.set_current_color(marks);
    let ghost base = *fb;
    let px_d = world_to_screen(ox, off_x as i64, scale);
    let py_d = world_to_screen(oy, off_y as i64, scale);
    if -0x4000_0000 <= px_d && px_d <= 0x4000_0000 && -0x4000_0000 <= py_d && py_d
        <= 0x4000_0000 {
        plot(fb, px_d as isize, py_d as isize);
    }
    proof {
        assert forall|px: int, py: int|
            0 <= px < old(fb).width && 0 <= py < old(fb).height implies #[trigger] fb.pixel(px, py)
            == (if px == spec_world_to_screen(ox as int, off_x as int, scale as int) && py
            == spec_world_to_screen(oy as int, off_y as int, scale as int) {
            marks
        } else {
            match spec_map_cell_color_at(g, off_x as int, off_y as int, block as int, px, py) {
                Option::Some(c) => c,
                Option::None => old(fb).pixel(px, py),
            }
        }) by {}
    }
    let ghost dotted = *fb;
    let mut k: usize = 0;
    while k < rays.len()
        invariant
            fb.wf(),
            fb.width == old(fb).width,
            fb.height == old(fb).height,
            fb.buffer@.len() == old(fb).buffer@.len(),
            fb.width <= MAX_DIM,
            fb.height <= MAX_DIM,
            fb.current_color == marks,
            g == maze.deep_view(),
            k <= rays@.len(),
            off_x <= MAX_DIM,
            off_y <= MAX_DIM,
            1 <= unit <= crate::caster::MAX_UNIT,
            1 <= step_len <= unit,
            -crate::caster::MAX_COORD <= ox <= crate::caster::MAX_COORD,
            -crate::caster::MAX_COORD <= oy <= crate::caster::MAX_COORD,
            max_steps <= crate::caster::MAX_STEPS,
            0 <= scale <= crate::caster::FP,
            forall|j: int|
                0 <= j < rays@.len() ==> -step_len <= #[trigger] rays@[j].sx <= step_len
                    && -step_len <= rays@[j].sy <= step_len,
            forall|px: int, py: int|
                0 <= px < old(fb).width && 0 <= py < old(fb).height ==> #[trigger] fb.pixel(px, py)
                    == (if (exists|k2: int|
                    0 <= k2 < k && #[trigger] spec_sample_at(
                        g,
                        ox as int,
                        oy as int,
                        rays@[k2].sx as int,
                        rays@[k2].sy as int,
                        unit as int,
                        max_steps as int,
                        off_x as int,
                        off_y as int,
                        scale as int,
                        px,
                        py,
                    )) || (px == spec_world_to_screen(ox as int, off_x as int, scale as int) && py
                    == spec_world_to_screen(oy as int, off_y as int, scale as int)) {
                    marks
                } else {
                    match spec_map_cell_color_at(
                        g,
                        off_x as int,
                        off_y as int,
                        block as int,
                        px,
                        py,
                    ) {
                        Option::Some(c) => c,
                        Option::None => old(fb).pixel(px, py),
                    }
                }),
        decreases rays@.len() - k,
    {
        let rd = rays[k];
        let ghost before = *fb;
        let _ = cast_ray_overlay(
            fb,
            maze,
            ox,
            oy,
            rd.sx,
            rd.sy,
            step_len,
            unit,
            max_steps,
            off_x as i64,
            off_y as i64,
            scale,
        );
        proof {
            assert forall|px: int, py: int|
                0 <= px < old(fb).width && 0 <= py < old(fb).height implies #[trigger] fb.pixel(
                px,
                py,
            ) == (if (exists|k2: int|
                0 <= k2 < k + 1 && #[trigger] spec_sample_at(
                    g,
                    ox as int,
                    oy as int,
                    rays@[k2].sx as int,
                    rays@[k2].sy as int,
                    unit as int,
                    max_steps as int,
                    off_x as int,
                    off_y as int,
                    scale as int,
                    px,
                    py,
                )) || (px == spec_world_to_screen(ox as int, off_x as int, scale as int) && py
                == spec_world_to_screen(oy as int, off_y as int, scale as int)) {
                marks
            } else {
                match spec_map_cell_color_at(g, off_x as int, off_y as int, block as int, px, py) {
                    Option::Some(c) => c,
                    Option::None => old(fb).pixel(px, py),
                }
            }) by {
                if spec_sample_at(
                    g,
                    ox as int,
                    oy as int,
                    rays@[k as int].sx as int,
                    rays@[k as int].sy as int,
                    unit as int,
                    max_steps as int,
                    off_x as int,
                    off_y as int,
                    scale as int,
                    px,
                    py,
                ) {
                    assert(fb.pixel(px, py) == marks);
                } else {
                    assert(fb.pixel(px, py) == before.pixel(px, py));
                    if exists|k2: int|
                        0 <= k2 < k + 1 && #[trigger] spec_sample_at(
                            g,
                            ox as int,
                            oy as int,
                            rays@[k2].sx as int,
                            rays@[k2].sy as int,
                            unit as int,
                            max_steps as int,
                            off_x as int,
                            off_y as int,
                            scale as int,
                            px,
                            py,
                        ) {
                        let k2 = choose|k2: int|
                            0 <= k2 < k + 1 && #[trigger] spec_sample_at(
                                g,
                                ox as int,
                                oy as int,
                                rays@[k2].sx as int,
                                rays@[k2].sy as int,
                                unit as int,
                                max_steps as int,
                                off_x as int,
                                off_y as int,
                                scale as int,
                                px,
                                py,
                            );
                        assert(k2 < k);
                    }
                }
            }
        }
        k = k + 1;
    }
    proof {
        assert forall|px: int, py: int|
            0 <= px < old(fb).width && 0 <= py < old(fb).height implies #[trigger] fb.pixel(px, py)
            == spec_map_view_pixel(
            g,
            ox as int,
            oy as int,
            rays@,
            unit as int,
            max_steps as int,
            off_x as int,
            off_y as int,
            scale as int,
            block as int,
            marks,
            *old(fb),
            px,
            py,
        ) by {
            if spec_any_sample_at(
                g,
                ox as int,
                oy as int,
                rays@,
                unit as int,
                max_steps as int,
                off_x as int,
                off_y as int,
                scale as int,
                px,
                py,
            ) {
                let k2 = choose|k2: int|
                    0 <= k2 < rays@.len() && #[trigger] spec_sample_at(
                        g,
                        ox as int,
                        oy as int,
                        rays@[k2].sx as int,
                        rays@[k2].sy as int,
                        unit as int,
                        max_steps as int,
                        off_x as int,
                        off_y as int,
                        scale as int,
                        px,
                        py,
                    );
                assert(0 <= k2 < rays@.len());
            }
        }
    }
}

/// Number of whole frames per second corresponding to one frame that
/// took `elapsed_micros` microseconds; saturates when the frame took
/// no measurable time at all.
pub fn fps_from_micros(elapsed_micros: u64) -> (fps: u32)
    ensures
        elapsed_micros == 0 ==> fps == u32::MAX,
        elapsed_micros > 0 ==> fps == 1_000_000u64 / elapsed_micros,
{
    if elapsed_micros == 0 {
        u32::MAX
    } else {
        (1_000_000u64 / elapsed_micros) as u32
    }
}

} // verus!
