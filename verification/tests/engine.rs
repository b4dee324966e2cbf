use maze_caster::caster::{cast_ray, correct_fisheye, tex_u, FP};
use maze_caster::maze::{cell_of, is_wall, solid_at, Cell, CELL_SIZE};
use maze_caster::projector::{project_slice, texture_v};

const UNIT: i64 = (CELL_SIZE as i64) * FP;
const STEP: i64 = 10 * FP;
const MAX_STEPS: u32 = 4096;

fn grid(rows: &[&str]) -> Vec<Vec<char>> {
    rows.iter().map(|r| r.chars().collect()).collect()
}

#[test]
fn symbol_table() {
    assert_eq!(cell_of(' '), Cell::Empty);
    assert_eq!(cell_of('+'), Cell::WallA);
    assert_eq!(cell_of('-'), Cell::WallB);
    assert_eq!(cell_of('|'), Cell::WallC);
    assert_eq!(cell_of('g'), Cell::Goal);
    assert_eq!(cell_of('s'), Cell::Start);
    assert_eq!(cell_of('?'), Cell::Unknown);
}

#[test]
fn is_wall_lookup() {
    let m = grid(&["+-+", "| |", "+g+"]);
    // inside an empty cell
    assert!(!is_wall(&m, 150, 150));
    // wall cells
    assert!(is_wall(&m, 50, 50));
    assert!(is_wall(&m, 250, 50));
    // the goal door blocks rays
    assert!(is_wall(&m, 150, 250));
    // outside the stored rows is always a wall
    assert!(is_wall(&m, 1000, 150));
    assert!(is_wall(&m, 150, 1000));
}

#[test]
fn is_wall_unknown_symbol_is_solid() {
    let m = grid(&["? "]);
    assert!(is_wall(&m, 50, 50));
    assert!(!is_wall(&m, 150, 50));
}

#[test]
fn is_wall_start_marker_is_passable() {
    let m = grid(&["s+"]);
    assert!(!is_wall(&m, 50, 50));
    assert!(is_wall(&m, 150, 50));
}

#[test]
fn solid_at_negative_coordinates() {
    let m = grid(&["  "]);
    assert!(solid_at(&m, -1, 50 * FP, UNIT));
    assert!(solid_at(&m, 50 * FP, -1, UNIT));
    assert!(!solid_at(&m, 50 * FP, 50 * FP, UNIT));
}

// A cell-edge coordinate belongs to the cell on the higher side.
#[test]
fn boundary_coordinate_is_deterministic() {
    let m = grid(&[" + "]);
    // x == 100 is the first coordinate of the '+' cell
    assert!(is_wall(&m, 100, 50));
    assert!(!is_wall(&m, 99, 50));
    // x == 200 is the first coordinate of the trailing empty cell
    assert!(!is_wall(&m, 200, 50));
}

// An all-empty grid with enough margin around the pose: no
// intersection in any direction.
#[test]
fn empty_grid_reports_no_hit() {
    let m = grid(&["     ", "     ", "     ", "     ", "     "]);
    let ox = 250 * FP;
    let oy = 250 * FP;
    // 100 steps of one world unit travel at most 100 units < 250
    let dirs = [
        (FP, 0),
        (0, FP),
        (-FP, 0),
        (0, -FP),
        (724, 724),
        (-724, 724),
        (724, -724),
        (-724, -724),
    ];
    for (sx, sy) in dirs {
        let r = cast_ray(&m, ox, oy, sx, sy, FP, UNIT, 100);
        assert!(r.is_none());
    }
}

// A ray aimed straight at a wall face 350 world units ahead: the
// march divides the distance evenly, so the raw distance is exact.
#[test]
fn axis_aligned_distance_is_exact_here() {
    let m = grid(&["    +"]);
    let ox = 50 * FP;
    let oy = 50 * FP;
    let h = cast_ray(&m, ox, oy, STEP, 0, STEP, UNIT, MAX_STEPS).unwrap();
    assert_eq!(h.distance, 350 * FP);
    assert_eq!(h.steps, 35);
    assert_eq!(h.impact, '+');
    assert_eq!(h.hit_x, 400 * FP);
    assert_eq!(h.hit_y, oy);
}

// The distance tolerance: when the face distance does not divide
// evenly by the step, the overshoot stays below one step.
#[test]
fn axis_aligned_distance_within_one_step() {
    let m = grid(&["    +"]);
    let ox = 53 * FP;
    let oy = 50 * FP;
    let d = 400 * FP - ox;
    let h = cast_ray(&m, ox, oy, STEP, 0, STEP, UNIT, MAX_STEPS).unwrap();
    assert!(d <= h.distance && h.distance < d + STEP);
}

// Symmetric rays against a flat wall square to the view axis: same
// step count, equal raw and corrected distances, equal to the
// axis-aligned distance within tolerance.
#[test]
fn symmetric_rays_match() {
    let m = grid(&["    +", "    +", "    +", "    +", "    +"]);
    let ox = 50 * FP;
    let oy = 250 * FP;
    // cos(theta) ~ 0.966, sin(theta) ~ 0.259 at theta ~ 15 degrees
    let sx = 9891;
    let sy = 2651;
    let cos_off = 989; // ~0.966 * FP
    let up = cast_ray(&m, ox, oy, sx, sy, STEP, UNIT, MAX_STEPS).unwrap();
    let down = cast_ray(&m, ox, oy, sx, -sy, STEP, UNIT, MAX_STEPS).unwrap();
    assert_eq!(up.steps, down.steps);
    assert_eq!(up.distance, down.distance);
    let cu = correct_fisheye(up.distance, cos_off);
    let cd = correct_fisheye(down.distance, cos_off);
    assert_eq!(cu, cd);
    // axis-aligned raw distance for comparison
    let axis = cast_ray(&m, ox, oy, STEP, 0, STEP, UNIT, MAX_STEPS).unwrap();
    let tolerance = STEP + FP; // one march step plus fixed-point rounding
    assert!((cu - axis.distance).abs() <= tolerance);
}

// The engine is pure: identical calls return identical records.
#[test]
fn cast_is_deterministic() {
    let m = grid(&["+   +", "+   +"]);
    let a = cast_ray(&m, 150 * FP, 70 * FP, STEP, 173, STEP, UNIT, MAX_STEPS);
    let b = cast_ray(&m, 150 * FP, 70 * FP, STEP, 173, STEP, UNIT, MAX_STEPS);
    assert_eq!(a, b);
}

// Texture-u is invariant to the side of the boundary the hit landed
// on, for hits on a vertical face at the same offset.
#[test]
fn tex_u_side_invariant() {
    let y = 230 * FP + 700;
    let left = tex_u(2 * UNIT - 1, y, UNIT);
    let right = tex_u(2 * UNIT, y, UNIT);
    assert_eq!(left, right);
    assert_eq!(left, y % UNIT);
}

// A corner hit takes the horizontal face by the fixed tie-break.
#[test]
fn tex_u_corner_tie_takes_horizontal_face() {
    let t = tex_u(3 * UNIT, 2 * UNIT, UNIT);
    assert_eq!(t, 0);
}

#[test]
fn fisheye_correction_values() {
    // straight along the view axis: unchanged
    assert_eq!(correct_fisheye(1000 * FP, FP), 1000 * FP);
    // cos = 724/1024 ~ 0.707
    assert_eq!(correct_fisheye(1000 * FP, 724), 1000 * 724);
    // zero distance stays zero
    assert_eq!(correct_fisheye(0, 512), 0);
}

// A pose exactly on a cell edge casts without panicking and
// deterministically.
#[test]
fn boundary_pose_casts() {
    let m = grid(&["++++", "+  +", "+  +", "++++"]);
    let ox = 100 * FP; // exactly on the edge between columns 0 and 1
    let oy = 200 * FP; // exactly on the edge between rows 1 and 2
    let a = cast_ray(&m, ox, oy, STEP, 0, STEP, UNIT, MAX_STEPS);
    let b = cast_ray(&m, ox, oy, STEP, 0, STEP, UNIT, MAX_STEPS);
    assert_eq!(a, b);
    assert!(a.is_some());
}

// Scenario: 4x4 grid, border walls, interior empty, pose on the
// interior's edge facing a border wall two cells ahead, cell size
// 100: corrected distance 200 world units (within tolerance), and
// texture-u within one cell.
#[test]
fn scenario_border_wall_two_cells_ahead() {
    let m = grid(&["++++", "+  +", "+  +", "++++"]);
    let ox = 100 * FP;
    let oy = 200 * FP;
    let h = cast_ray(&m, ox, oy, STEP, 0, STEP, UNIT, MAX_STEPS).unwrap();
    let corrected = correct_fisheye(h.distance, FP);
    let expected = 200 * FP;
    assert!(expected <= corrected && corrected < expected + STEP);
    assert!(0 <= h.tx && h.tx < UNIT);
    assert_eq!(h.impact, '+');
}

// Slice height decreases with distance and the slice is centered.
#[test]
fn projector_monotone_and_centered() {
    let vh = 900;
    let mut last_height = usize::MAX;
    for d in [50 * FP, 100 * FP, 200 * FP, 400 * FP, 800 * FP] {
        let s = project_slice(d, vh);
        let height = s.bottom - s.top;
        assert!(height < last_height);
        last_height = height;
        // centered about the midline, up to one row of rounding
        let above = (vh / 2) - s.top;
        let below = s.bottom - (vh / 2);
        assert!(above <= below && below - above <= 1);
    }
}

#[test]
fn projector_exact_slice() {
    // height = 900 * 50 * FP / (200 * FP) = 225
    let s = project_slice(200 * FP, 900);
    assert_eq!(s.top, 450 - 112);
    assert_eq!(s.bottom, 450 + 113);
}

#[test]
fn projector_clamps_near_zero_distance() {
    let s = project_slice(0, 900);
    // clamped distance keeps the division defined; the slice fills
    // the whole viewport
    assert_eq!(s.top, 0);
    assert_eq!(s.bottom, 900);
}

#[test]
fn projector_empty_slice_when_far() {
    // so far away the slice height rounds to zero
    let s = project_slice(0x4_0000_0000_0000, 900);
    assert_eq!(s.top, 450);
    assert_eq!(s.bottom, 450);
}

#[test]
fn texture_v_spans_texture() {
    assert_eq!(texture_v(100, 100, 200, 128), 0);
    assert_eq!(texture_v(150, 100, 200, 128), 64);
    assert_eq!(texture_v(199, 100, 200, 128), 126);
    for y in 100..200 {
        let tv = texture_v(y, 100, 200, 128);
        assert!(tv < 128);
    }
}
