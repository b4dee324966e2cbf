use maze_caster::caster::{cast_ray, FP};
use maze_caster::framebuffer::Framebuffer;
use maze_caster::maze::CELL_SIZE;
use maze_caster::render::{
    blend_over, cast_ray_overlay, cell_map_color, cell_to_texture_color, draw_cell, draw_image,
    draw_text, fps_from_micros, render2d, render3d, render_minimap, scale_tex_coord,
    world_to_screen, RayDir, Sprite, Texture,
};

const UNIT: i64 = (CELL_SIZE as i64) * FP;
const STEP: i64 = 10 * FP;

fn grid(rows: &[&str]) -> Vec<Vec<char>> {
    rows.iter().map(|r| r.chars().collect()).collect()
}

fn solid_texture(color: u32, w: usize, h: usize) -> Texture {
    Texture::new(w, h, vec![color; w * h]).unwrap()
}

#[test]
fn framebuffer_starts_white() {
    let fb = Framebuffer::new(4, 3);
    assert_eq!(fb.buffer().len(), 12);
    for &c in fb.buffer() {
        assert_eq!(c, 0xFFFFFF);
    }
}

#[test]
fn framebuffer_point_writes_current_color() {
    let mut fb = Framebuffer::new(4, 3);
    fb.set_current_color(0x123456);
    fb.point(2, 1);
    assert_eq!(fb.get_pixel_color(2, 1), 0x123456);
    assert_eq!(fb.get_pixel_color(1, 1), 0xFFFFFF);
}

#[test]
fn framebuffer_point_outside_is_no_op() {
    let mut fb = Framebuffer::new(4, 3);
    fb.set_current_color(0x123456);
    fb.point(-1, 0);
    fb.point(4, 0);
    fb.point(0, 3);
    for &c in fb.buffer() {
        assert_eq!(c, 0xFFFFFF);
    }
}

#[test]
fn framebuffer_clear_resets() {
    let mut fb = Framebuffer::new(4, 3);
    fb.set_current_color(0x123456);
    fb.point(0, 0);
    fb.clear();
    for &c in fb.buffer() {
        assert_eq!(c, 0xFFFFFF);
    }
}

#[test]
fn texture_new_validates_size() {
    assert!(Texture::new(2, 2, vec![0; 4]).is_some());
    assert!(Texture::new(2, 2, vec![0; 3]).is_none());
}

#[test]
fn texture_lookup() {
    let t = Texture::new(2, 2, vec![1, 2, 3, 4]).unwrap();
    assert_eq!(t.get_pixel_color(0, 0), 1);
    assert_eq!(t.get_pixel_color(1, 0), 2);
    assert_eq!(t.get_pixel_color(0, 1), 3);
    assert_eq!(t.get_pixel_color(1, 1), 4);
    assert_eq!(t.get_pixel_color(2, 0), 0);
}

#[test]
fn cell_texture_color_table() {
    let wall = solid_texture(0x00FF00, 2, 2);
    let door = solid_texture(0xAA0000, 2, 2);
    assert_eq!(cell_to_texture_color('+', 0, 0, &wall, &door), 0x00FF00);
    assert_eq!(cell_to_texture_color('-', 1, 1, &wall, &door), 0x00FF00);
    assert_eq!(cell_to_texture_color('|', 0, 1, &wall, &door), 0x00FF00);
    assert_eq!(cell_to_texture_color('g', 0, 0, &wall, &door), 0xAA0000);
    assert_eq!(cell_to_texture_color(' ', 0, 0, &wall, &door), 0);
}

#[test]
fn cell_map_color_table() {
    assert_eq!(cell_map_color('+'), 0x345f01);
    assert_eq!(cell_map_color('-'), 0x345f01);
    assert_eq!(cell_map_color('|'), 0x345f01);
    assert_eq!(cell_map_color('g'), 0xFF0000);
    assert_eq!(cell_map_color(' '), 0x9fbf7a);
    assert_eq!(cell_map_color('s'), 0x9fbf7a);
}

#[test]
fn draw_cell_fills_exact_rectangle() {
    let mut fb = Framebuffer::new(10, 10);
    draw_cell(&mut fb, 2, 3, 4, '+');
    assert_eq!(fb.get_pixel_color(2, 3), 0x345f01);
    assert_eq!(fb.get_pixel_color(5, 6), 0x345f01);
    assert_eq!(fb.get_pixel_color(1, 3), 0xFFFFFF);
    assert_eq!(fb.get_pixel_color(6, 3), 0xFFFFFF);
    assert_eq!(fb.get_pixel_color(2, 7), 0xFFFFFF);
}

#[test]
fn draw_cell_clips_at_surface_edge() {
    let mut fb = Framebuffer::new(4, 4);
    draw_cell(&mut fb, 2, 2, 4, 'g');
    assert_eq!(fb.get_pixel_color(3, 3), 0xFF0000);
    assert_eq!(fb.get_pixel_color(1, 1), 0xFFFFFF);
}

#[test]
fn draw_text_renders_digit_dots() {
    let mut fb = Framebuffer::new(40, 10);
    draw_text(&mut fb, "1", 0, 0, 0xABCDEF);
    // the middle column of the glyph for 1 is fully lit
    assert_eq!(fb.get_pixel_color(2, 4), 0xABCDEF);
    // the first column of the glyph for 1 is blank
    assert_eq!(fb.get_pixel_color(0, 4), 0xFFFFFF);
}

#[test]
fn draw_text_skips_non_digits() {
    let mut fb = Framebuffer::new(40, 10);
    draw_text(&mut fb, "F:", 0, 0, 0xABCDEF);
    for &c in fb.buffer() {
        assert_eq!(c, 0xFFFFFF);
    }
}

#[test]
fn fps_values() {
    assert_eq!(fps_from_micros(0), u32::MAX);
    assert_eq!(fps_from_micros(16_667), 59);
    assert_eq!(fps_from_micros(1_000_000), 1);
}

#[test]
fn world_to_screen_values() {
    // one-to-one zoom: fixed-point world unit per pixel
    assert_eq!(world_to_screen(60 * FP, 0, FP), 60);
    // one-fifth zoom with an offset
    assert_eq!(world_to_screen(100 * FP, 20, 205), 40);
    assert_eq!(world_to_screen(-10 * FP, 5, FP), -5);
}

#[test]
fn scale_tex_coord_values() {
    assert_eq!(scale_tex_coord(0, 128, UNIT), 0);
    assert_eq!(scale_tex_coord(UNIT / 2, 128, UNIT), 64);
    assert_eq!(scale_tex_coord(UNIT - 1, 128, UNIT), 127);
}

#[test]
fn overlay_matches_plain_caster_and_plots() {
    let m = grid(&["    +"]);
    let mut fb = Framebuffer::new(500, 200);
    fb.set_current_color(0x123456);
    let plain = cast_ray(&m, 50 * FP, 50 * FP, STEP, 0, STEP, UNIT, 4096);
    let overlay = cast_ray_overlay(
        &mut fb,
        &m,
        50 * FP,
        50 * FP,
        STEP,
        0,
        STEP,
        UNIT,
        4096,
        0,
        0,
        FP,
    );
    assert_eq!(plain, overlay);
    // the first sample, at world (60, 50), was plotted
    assert_eq!(fb.get_pixel_color(60, 50), 0x123456);
    // a pixel off the ray is untouched
    assert_eq!(fb.get_pixel_color(60, 80), 0xFFFFFF);
}

#[test]
fn render3d_draws_sky_ground_and_wall() {
    let m = grid(&["    +"]);
    let mut fb = Framebuffer::new(1, 50);
    let wall = solid_texture(0x00FF00, 2, 2);
    let door = solid_texture(0xAA0000, 2, 2);
    let rays = vec![RayDir { sx: STEP, sy: 0, cos_off: FP }];
    render3d(&mut fb, &m, 300 * FP, 50 * FP, &rays, &wall, &door, STEP, UNIT, 4096);
    // hit 100 world units ahead: slice height 50*50/100 = 25 rows
    assert_eq!(fb.get_pixel_color(0, 0), 0x87CEEB);
    assert_eq!(fb.get_pixel_color(0, 25), 0x00FF00);
    assert_eq!(fb.get_pixel_color(0, 49), 0x006400);
}

#[test]
fn render2d_draws_map_and_pose() {
    let m = grid(&["+ "]);
    let mut fb = Framebuffer::new(300, 120);
    let rays = vec![RayDir { sx: FP, sy: 0, cos_off: FP }];
    render2d(&mut fb, &m, 150 * FP, 50 * FP, &rays, FP, UNIT, 64, 100);
    // wall cell fill
    assert_eq!(fb.get_pixel_color(10, 10), 0x345f01);
    // empty cell fill
    assert_eq!(fb.get_pixel_color(150, 10), 0x9fbf7a);
    // the pose dot
    assert_eq!(fb.get_pixel_color(150, 50), 0xFFFFFF);
}

#[test]
fn render_minimap_scales_map() {
    let m = grid(&["+ "]);
    let mut fb = Framebuffer::new(100, 100);
    let rays: Vec<RayDir> = Vec::new();
    // one-fifth zoom at offset (60, 60): cells become 20-pixel blocks
    render_minimap(&mut fb, &m, 50 * FP, 50 * FP, &rays, FP, UNIT, 64, 60, 60, FP / 5);
    assert_eq!(fb.get_pixel_color(65, 65), 0x345f01);
    assert_eq!(fb.get_pixel_color(85, 65), 0x9fbf7a);
    assert_eq!(fb.get_pixel_color(59, 59), 0xFFFFFF);
}

#[test]
fn blend_over_values() {
    // fully opaque source replaces the destination
    assert_eq!(blend_over(0xFF11_2233, 0x0000FF00), 0x112233);
    // fully transparent source keeps the destination
    assert_eq!(blend_over(0x0011_2233, 0x00AABBCC), 0xAABBCC);
    // half transparent: channels meet in the middle
    // r = (0xFF*128 + 0x00*127)/255 = 128
    assert_eq!(blend_over(0x80FF_0000, 0x000000), 128 << 16);
}

#[test]
fn draw_image_blits_scaled_blocks() {
    let sprite = Sprite::new(2, 1, vec![0xFFFF0000, 0x0000FF00]).unwrap();
    let mut fb = Framebuffer::new(10, 10);
    draw_image(&mut fb, &sprite, 2, 2, 2);
    // the opaque pixel covers a 2x2 block
    assert_eq!(fb.get_pixel_color(2, 2), 0xFF0000);
    assert_eq!(fb.get_pixel_color(3, 3), 0xFF0000);
    // the transparent pixel leaves its block untouched
    assert_eq!(fb.get_pixel_color(4, 2), 0xFFFFFF);
    // outside the sprite nothing changes
    assert_eq!(fb.get_pixel_color(2, 4), 0xFFFFFF);
}

#[test]
fn render_minimap_plots_ray_samples_and_dot() {
    let m = grid(&["  +"]);
    let mut fb = Framebuffer::new(200, 200);
    // one world unit per march step, aimed along +x from (50, 50)
    let rays = vec![RayDir { sx: FP, sy: 0, cos_off: FP }];
    render_minimap(&mut fb, &m, 50 * FP, 50 * FP, &rays, FP, UNIT, 4096, 0, 0, FP);
    // the pose dot and the march samples are drawn in red
    assert_eq!(fb.get_pixel_color(50, 50), 0xFF0000);
    assert_eq!(fb.get_pixel_color(51, 50), 0xFF0000);
    assert_eq!(fb.get_pixel_color(150, 50), 0xFF0000);
    // off the ray, the map cells show through
    assert_eq!(fb.get_pixel_color(51, 53), 0x9fbf7a);
}

#[test]
fn render3d_is_deterministic() {
    let m = grid(&["    +", "    +", "    +"]);
    let wall = solid_texture(0x00FF00, 4, 4);
    let door = solid_texture(0xAA0000, 4, 4);
    let rays = vec![
        RayDir { sx: STEP, sy: 0, cos_off: FP },
        RayDir { sx: 9891, sy: 2651, cos_off: 989 },
    ];
    let mut fb1 = Framebuffer::new(2, 60);
    let mut fb2 = Framebuffer::new(2, 60);
    render3d(&mut fb1, &m, 50 * FP, 150 * FP, &rays, &wall, &door, STEP, UNIT, 4096);
    render3d(&mut fb2, &m, 50 * FP, 150 * FP, &rays, &wall, &door, STEP, UNIT, 4096);
    assert_eq!(fb1.buffer(), fb2.buffer());
}
