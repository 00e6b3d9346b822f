use doom_iow::framebuffer::WHITE;
use doom_iow::walls::{cast_ray, draw_wall_column, RayHit, RaySample, WallStrip, CONE_COLOR};
use doom_iow::{Framebuffer, GridMap, RenderError, Texture};

fn fixed() -> GridMap {
    match GridMap::init(16, 16) {
        Ok(m) => m,
        Err(e) => panic!("no map: {:?}", e),
    }
}

/// A strip of `count` tiles of `size` by `size`. The pixel in column `x` of
/// row `y` of the strip has red `x`, green `y`, blue 0 and alpha 255.
fn strip(size: u32, count: u32) -> Texture {
    let mut bytes = Vec::new();
    for y in 0..size {
        for x in 0..size * count {
            bytes.extend_from_slice(&[x as u8, y as u8, 0, 255]);
        }
    }
    match Texture::new(size * count, size, &bytes) {
        Ok(t) => t,
        Err(e) => panic!("no atlas: {:?}", e),
    }
}

fn color(x: u32, y: u32) -> u32 {
    0xFF00_0000 + (y << 8) + x
}

fn sample(px: usize, py: usize, cell_x: u32, cell_y: u32) -> RaySample {
    RaySample { px, py, cell_x, cell_y, depth: 0, height: 0, offset: 0 }
}

#[test]
fn ray_stops_at_the_first_wall() {
    // Along row 1 of the map, from cell 1 to the wall in cell 15.
    let map = fixed();
    let mut fb = Framebuffer::new(32, 16);
    let samples: Vec<RaySample> = (0..20).map(|k| sample(1 + k, 1, 1 + k as u32, 1)).collect();
    let hit = cast_ray(&mut fb, &map, &samples);
    assert_eq!(hit, Ok(Some(RayHit { step: 14, tex_id: 0 })));
}

#[test]
fn ray_draws_a_dot_for_each_step_up_to_the_wall() {
    let map = fixed();
    let mut fb = Framebuffer::new(32, 16);
    let samples: Vec<RaySample> = (0..20).map(|k| sample(1 + k, 1, 1 + k as u32, 1)).collect();
    cast_ray(&mut fb, &map, &samples).unwrap();
    for y in 0..16 {
        for x in 0..32 {
            let dotted = y == 1 && (1..=15).contains(&x);
            let expected = if dotted { CONE_COLOR } else { WHITE };
            assert_eq!(fb.pixels()[x + y * 32], expected, "pixel ({}, {})", x, y);
        }
    }
}

#[test]
fn ray_that_starts_in_a_wall_stops_at_once() {
    let map = fixed();
    let mut fb = Framebuffer::new(32, 16);
    let samples = vec![sample(4, 0, 4, 0), sample(5, 1, 5, 1)];
    assert_eq!(
        cast_ray(&mut fb, &map, &samples),
        Ok(Some(RayHit { step: 0, tex_id: 2 }))
    );
    assert_eq!(fb.pixels()[4], CONE_COLOR);
    assert_eq!(fb.pixels()[5 + 32], WHITE);
}

#[test]
fn ray_that_meets_no_wall_gives_none() {
    let map = fixed();
    let mut fb = Framebuffer::new(32, 16);
    let samples: Vec<RaySample> = (0..5).map(|k| sample(k, 3, 1, 1)).collect();
    assert_eq!(cast_ray(&mut fb, &map, &samples), Ok(None));
    for x in 0..5 {
        assert_eq!(fb.pixels()[x + 3 * 32], CONE_COLOR);
    }
    assert_eq!(fb.pixels()[5 + 3 * 32], WHITE);
}

#[test]
fn ray_of_no_steps_gives_none() {
    let map = fixed();
    let mut fb = Framebuffer::new(4, 4);
    assert_eq!(cast_ray(&mut fb, &map, &[]), Ok(None));
    assert_eq!(fb.pixels(), &vec![WHITE; 16]);
}

#[test]
fn dot_outside_the_target_fails_the_march() {
    let map = fixed();
    let mut fb = Framebuffer::new(4, 4);
    let samples = vec![sample(1, 1, 1, 1), sample(4, 1, 2, 1), sample(2, 1, 3, 1)];
    assert_eq!(cast_ray(&mut fb, &map, &samples), Err(RenderError::PixelOutOfBounds));
    assert_eq!(fb.pixels()[1 + 4], CONE_COLOR);
    assert_eq!(fb.pixels()[2 + 4], WHITE);
}

#[test]
fn ray_that_leaves_the_map_fails_the_march() {
    let map = fixed();
    let mut fb = Framebuffer::new(32, 16);
    let samples = vec![sample(1, 1, 1, 1), sample(2, 1, 20, 1), sample(3, 1, 2, 1)];
    assert_eq!(cast_ray(&mut fb, &map, &samples), Err(RenderError::CellOutOfBounds));
    // The dot of the step that left the map is drawn, the one after is not.
    assert_eq!(fb.pixels()[2 + 32], CONE_COLOR);
    assert_eq!(fb.pixels()[3 + 32], WHITE);
}

#[test]
fn strip_is_centred_from_top_to_bottom() {
    let t = strip(2, 1);
    let mut fb = Framebuffer::new(8, 8);
    let mut depth = vec![100u32; 4];
    let s = WallStrip { tex_id: 0, depth: 7, height: 4, offset: 1 };
    assert_eq!(draw_wall_column(&mut fb, &t, &mut depth, 1, &s), Ok(()));
    // Column 1 of the view is column 5 of the target; rows 2 to 5.
    for y in 0..8usize {
        for x in 0..8usize {
            let expected = if x == 5 && (2..6).contains(&y) {
                color(1, ((y as u32 - 2) * 2) / 4)
            } else {
                WHITE
            };
            assert_eq!(fb.pixels()[x + y * 8], expected, "pixel ({}, {})", x, y);
        }
    }
    assert_eq!(depth, vec![100, 7, 100, 100]);
}

#[test]
fn strip_higher_than_the_target_is_clipped() {
    let t = strip(2, 1);
    let mut fb = Framebuffer::new(8, 8);
    let mut depth = vec![100u32; 4];
    let s = WallStrip { tex_id: 0, depth: 1, height: 20, offset: 0 };
    assert_eq!(draw_wall_column(&mut fb, &t, &mut depth, 0, &s), Ok(()));
    // Row y of the target shows row y + 6 of the strip.
    for y in 0..8u32 {
        assert_eq!(fb.pixels()[4 + (y as usize) * 8], color(0, ((y + 6) * 2) / 20));
    }
    assert_eq!(fb.pixels()[4], color(0, 0));
    assert_eq!(fb.pixels()[4 + 3 * 8], color(0, 0));
    assert_eq!(fb.pixels()[4 + 4 * 8], color(0, 1));
    assert_eq!(fb.pixels()[4 + 7 * 8], color(0, 1));
}

#[test]
fn strip_of_an_odd_height_starts_half_a_row_up() {
    let t = strip(4, 1);
    let mut fb = Framebuffer::new(4, 6);
    let mut depth = vec![0u32; 2];
    let s = WallStrip { tex_id: 0, depth: 3, height: 3, offset: -1 };
    assert_eq!(draw_wall_column(&mut fb, &t, &mut depth, 1, &s), Ok(()));
    // 6 / 2 - 3 / 2 = 2: rows 2, 3 and 4, from rows 0, 1 and 2 of the tile.
    let column: Vec<u32> = (0..6).map(|y| fb.pixels()[3 + y * 4]).collect();
    assert_eq!(column, vec![WHITE, WHITE, color(3, 0), color(3, 1), color(3, 2), WHITE]);
}

#[test]
fn strip_of_no_rows_draws_nothing_and_records_the_depth() {
    let t = strip(2, 1);
    let mut fb = Framebuffer::new(8, 8);
    let mut depth = vec![100u32; 4];
    let s = WallStrip { tex_id: 0, depth: 9, height: 0, offset: 0 };
    assert_eq!(draw_wall_column(&mut fb, &t, &mut depth, 3, &s), Ok(()));
    assert_eq!(fb.pixels(), &vec![WHITE; 64]);
    assert_eq!(depth, vec![100, 100, 100, 9]);
}

#[test]
fn strip_as_high_as_can_be_is_drawn() {
    let t = strip(2, 1);
    let mut fb = Framebuffer::new(4, 4);
    let mut depth = vec![0u32; 2];
    let s = WallStrip { tex_id: 0, depth: 0, height: u32::MAX, offset: 0 };
    assert_eq!(draw_wall_column(&mut fb, &t, &mut depth, 0, &s), Ok(()));
    // Row y of the target shows row y + 2147483645 of the strip, and row j
    // of the strip is taken from row (j * 2) / 4294967295 of the tile.
    assert_eq!(fb.pixels()[2], color(0, 0));
    assert_eq!(fb.pixels()[2 + 4], color(0, 0));
    assert_eq!(fb.pixels()[2 + 2 * 4], color(0, 0));
    assert_eq!(fb.pixels()[2 + 3 * 4], color(0, 1));
}

#[test]
fn strip_without_a_texture_fails_and_changes_nothing() {
    let t = strip(2, 1);
    let mut fb = Framebuffer::new(8, 8);
    let mut depth = vec![100u32; 4];
    let s = WallStrip { tex_id: 1, depth: 7, height: 4, offset: 0 };
    assert_eq!(
        draw_wall_column(&mut fb, &t, &mut depth, 1, &s),
        Err(RenderError::TextureOutOfBounds)
    );
    assert_eq!(fb.pixels(), &vec![WHITE; 64]);
    assert_eq!(depth, vec![100; 4]);
}

#[test]
fn strip_with_an_offset_outside_the_tile_fails_and_changes_nothing() {
    let t = strip(2, 1);
    let mut fb = Framebuffer::new(8, 8);
    let mut depth = vec![100u32; 4];
    for offset in [2, -3, i32::MAX, i32::MIN] {
        let s = WallStrip { tex_id: 0, depth: 7, height: 4, offset };
        assert_eq!(
            draw_wall_column(&mut fb, &t, &mut depth, 1, &s),
            Err(RenderError::TextureOutOfBounds)
        );
    }
    assert_eq!(fb.pixels(), &vec![WHITE; 64]);
    assert_eq!(depth, vec![100; 4]);
}
