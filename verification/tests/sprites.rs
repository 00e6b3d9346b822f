use doom_iow::framebuffer::WHITE;
use doom_iow::sprites::{
    draw_sprite, map_show_sprite, render_sprites, sort_sprites, Sprite, MARKER_COLOR,
};
use doom_iow::utils::pack_color_rgba;
use doom_iow::{Framebuffer, RenderError, Texture};

/// One tile of 2 by 2: the pixel at `(x, y)` has red `x + 1`, green `y + 1`
/// and the alpha that `alpha` gives for it.
fn tile(alpha: [[u8; 2]; 2]) -> Texture {
    let mut bytes = Vec::new();
    for y in 0..2 {
        for x in 0..2 {
            bytes.extend_from_slice(&[x as u8 + 1, y as u8 + 1, 0, alpha[y][x]]);
        }
    }
    match Texture::new(2, 2, &bytes) {
        Ok(t) => t,
        Err(e) => panic!("no atlas: {:?}", e),
    }
}

fn texel(x: u8, y: u8, alpha: u8) -> u32 {
    pack_color_rgba(x + 1, y + 1, 0, alpha)
}

fn opaque() -> Texture {
    tile([[255, 255], [255, 255]])
}

fn at(fb: &Framebuffer, x: usize, y: usize) -> u32 {
    fb.pixels()[x + y * fb.width()]
}

#[test]
fn sprite_is_drawn_in_the_view() {
    let t = opaque();
    let mut fb = Framebuffer::new(8, 8);
    let depth = vec![9u32; 4];
    let s = Sprite::new(0, 0, 5, 1, 2, 0, 0);
    assert_eq!(draw_sprite(&s, &depth, &mut fb, &t), Ok(()));
    // Columns 1 and 2 of the view are columns 5 and 6 of the target; the
    // top row is 8 / 2 - 2 / 2 = 3.
    for y in 0..8usize {
        for x in 0..8usize {
            let inside = (5..7).contains(&x) && (3..5).contains(&y);
            let expected = if inside { texel(x as u8 - 5, y as u8 - 3, 255) } else { WHITE };
            assert_eq!(at(&fb, x, y), expected, "pixel ({}, {})", x, y);
        }
    }
}

#[test]
fn sprite_behind_a_wall_is_not_drawn() {
    let t = opaque();
    let mut fb = Framebuffer::new(8, 8);
    // The wall of column 2 is nearer than the sprite, that of column 1 is not.
    let depth = vec![9u32, 9, 3, 9];
    let s = Sprite::new(0, 0, 5, 1, 2, 0, 0);
    assert_eq!(draw_sprite(&s, &depth, &mut fb, &t), Ok(()));
    assert_eq!(at(&fb, 5, 3), texel(0, 0, 255));
    assert_eq!(at(&fb, 5, 4), texel(0, 1, 255));
    assert_eq!(at(&fb, 6, 3), WHITE);
    assert_eq!(at(&fb, 6, 4), WHITE);
}

#[test]
fn sprite_as_far_as_the_wall_is_drawn() {
    let t = opaque();
    let mut fb = Framebuffer::new(8, 8);
    let depth = vec![5u32; 4];
    let s = Sprite::new(0, 0, 5, 1, 2, 0, 0);
    assert_eq!(draw_sprite(&s, &depth, &mut fb, &t), Ok(()));
    assert_eq!(at(&fb, 5, 3), texel(0, 0, 255));
    assert_eq!(at(&fb, 6, 4), texel(1, 1, 255));
}

#[test]
fn sprite_hidden_by_every_wall_changes_nothing() {
    let t = opaque();
    let mut fb = Framebuffer::new(8, 8);
    let depth = vec![4u32; 4];
    let s = Sprite::new(0, 0, 5, 0, 4, 0, 0);
    assert_eq!(draw_sprite(&s, &depth, &mut fb, &t), Ok(()));
    assert_eq!(fb.pixels(), &vec![WHITE; 64]);
}

#[test]
fn transparent_pixels_are_left_out() {
    // Alpha must be above 128 to show.
    let t = tile([[0, 128], [129, 255]]);
    let mut fb = Framebuffer::new(8, 8);
    let depth = vec![9u32; 4];
    let s = Sprite::new(0, 0, 5, 1, 2, 0, 0);
    assert_eq!(draw_sprite(&s, &depth, &mut fb, &t), Ok(()));
    assert_eq!(at(&fb, 5, 3), WHITE);
    assert_eq!(at(&fb, 6, 3), WHITE);
    assert_eq!(at(&fb, 5, 4), texel(0, 1, 129));
    assert_eq!(at(&fb, 6, 4), texel(1, 1, 255));
}

#[test]
fn sprite_is_stretched_to_its_size() {
    let t = opaque();
    let mut fb = Framebuffer::new(16, 8);
    let depth = vec![9u32; 8];
    let s = Sprite::new(0, 0, 5, 2, 4, 0, 0);
    assert_eq!(draw_sprite(&s, &depth, &mut fb, &t), Ok(()));
    // Pixel (i, j) of the square shows pixel (i * 2 / 4, j * 2 / 4) of the tile.
    for j in 0..4usize {
        for i in 0..4usize {
            let expected = texel((i * 2 / 4) as u8, (j * 2 / 4) as u8, 255);
            assert_eq!(at(&fb, 8 + 2 + i, 2 + j), expected);
        }
    }
    assert_eq!(at(&fb, 8 + 1, 2), WHITE);
    assert_eq!(at(&fb, 8 + 6, 2), WHITE);
    assert_eq!(at(&fb, 8 + 2, 1), WHITE);
    assert_eq!(at(&fb, 8 + 2, 6), WHITE);
}

#[test]
fn sprite_is_clipped_to_the_view() {
    let t = opaque();
    let mut fb = Framebuffer::new(8, 4);
    let depth = vec![9u32; 4];
    // Six pixels wide and high, one pixel to the left of the view.
    let s = Sprite::new(0, 0, 5, -1, 6, 0, 0);
    assert_eq!(draw_sprite(&s, &depth, &mut fb, &t), Ok(()));
    // The top row of the square is 4 / 2 - 6 / 2 = -1.
    for y in 0..4usize {
        for x in 0..8usize {
            let expected = if x >= 4 {
                let i = x - 4 + 1;
                let j = y + 1;
                texel((i * 2 / 6) as u8, (j * 2 / 6) as u8, 255)
            } else {
                WHITE
            };
            assert_eq!(at(&fb, x, y), expected, "pixel ({}, {})", x, y);
        }
    }
}

#[test]
fn sprite_never_touches_the_overhead_map() {
    let t = opaque();
    let mut fb = Framebuffer::new(8, 8);
    let depth = vec![9u32; 4];
    for offset in [-20, -3, 0, 2, 20] {
        let s = Sprite::new(0, 0, 5, offset, 8, 0, 0);
        assert_eq!(draw_sprite(&s, &depth, &mut fb, &t), Ok(()));
    }
    for y in 0..8 {
        for x in 0..4 {
            assert_eq!(at(&fb, x, y), WHITE);
        }
    }
}

#[test]
fn sprite_without_size_draws_nothing() {
    let t = opaque();
    let mut fb = Framebuffer::new(8, 8);
    let depth = vec![9u32; 4];
    for size in [0, -1, i32::MIN] {
        let s = Sprite::new(0, 0, 5, 1, size, 0, 0);
        assert_eq!(draw_sprite(&s, &depth, &mut fb, &t), Ok(()));
    }
    assert_eq!(fb.pixels(), &vec![WHITE; 64]);
}

#[test]
fn huge_sprite_is_drawn_where_it_shows() {
    let t = opaque();
    let mut fb = Framebuffer::new(8, 8);
    let depth = vec![9u32; 4];
    let s = Sprite::new(0, 0, 5, i32::MIN, i32::MAX, 0, 0);
    assert_eq!(draw_sprite(&s, &depth, &mut fb, &t), Ok(()));
    let s = Sprite::new(0, 0, 5, 0, i32::MAX, 0, 0);
    assert_eq!(draw_sprite(&s, &depth, &mut fb, &t), Ok(()));
    // The top left corner of the tile fills the view.
    assert_eq!(at(&fb, 4, 0), texel(0, 0, 255));
    assert_eq!(at(&fb, 7, 7), texel(0, 1, 255));
    assert_eq!(at(&fb, 3, 0), WHITE);
}

#[test]
fn sprite_without_a_texture_fails_and_changes_nothing() {
    let t = opaque();
    let mut fb = Framebuffer::new(8, 8);
    let depth = vec![9u32; 4];
    let s = Sprite::new(0, 1, 5, 1, 2, 0, 0);
    assert_eq!(draw_sprite(&s, &depth, &mut fb, &t), Err(RenderError::TextureOutOfBounds));
    assert_eq!(fb.pixels(), &vec![WHITE; 64]);
}

#[test]
fn sprite_without_a_texture_that_does_not_show_is_no_failure() {
    let t = opaque();
    let mut fb = Framebuffer::new(8, 8);
    // Hidden behind walls.
    let s = Sprite::new(0, 1, 5, 1, 2, 0, 0);
    assert_eq!(draw_sprite(&s, &vec![4u32; 4], &mut fb, &t), Ok(()));
    // Outside the view.
    let s = Sprite::new(0, 1, 5, 4, 2, 0, 0);
    assert_eq!(draw_sprite(&s, &vec![9u32; 4], &mut fb, &t), Ok(()));
    // Without size.
    let s = Sprite::new(0, 1, 5, 1, 0, 0, 0);
    assert_eq!(draw_sprite(&s, &vec![9u32; 4], &mut fb, &t), Ok(()));
    assert_eq!(fb.pixels(), &vec![WHITE; 64]);
}

#[test]
fn marker_is_a_square_of_six() {
    let mut fb = Framebuffer::new(16, 16);
    let s = Sprite::new(0, 0, 5, 0, 0, 3, 4);
    assert_eq!(map_show_sprite(&s, &mut fb), Ok(()));
    for y in 0..16usize {
        for x in 0..16usize {
            let inside = (3..9).contains(&x) && (4..10).contains(&y);
            let expected = if inside { MARKER_COLOR } else { WHITE };
            assert_eq!(at(&fb, x, y), expected, "pixel ({}, {})", x, y);
        }
    }
}

#[test]
fn marker_is_clipped_at_the_edge() {
    let mut fb = Framebuffer::new(8, 8);
    let s = Sprite::new(0, 0, 5, 0, 0, 6, 7);
    assert_eq!(map_show_sprite(&s, &mut fb), Ok(()));
    assert_eq!(at(&fb, 6, 7), MARKER_COLOR);
    assert_eq!(at(&fb, 7, 7), MARKER_COLOR);
    assert_eq!(at(&fb, 5, 7), WHITE);
    assert_eq!(at(&fb, 6, 6), WHITE);
    let s = Sprite::new(0, 0, 5, 0, 0, usize::MAX, usize::MAX);
    assert_eq!(map_show_sprite(&s, &mut fb), Ok(()));
}

#[test]
fn sort_puts_the_farthest_first() {
    let mut sprites: Vec<Sprite> =
        [3u32, 9, 1, 7].iter().enumerate().map(|(i, &d)| Sprite::new(0, i as u32, d, 0, 0, 0, 0)).collect();
    sort_sprites(&mut sprites);
    let depths: Vec<u32> = sprites.iter().map(|s| s.depth).collect();
    assert_eq!(depths, vec![9, 7, 3, 1]);
    let ids: Vec<u32> = sprites.iter().map(|s| s.tex_id).collect();
    assert_eq!(ids, vec![1, 3, 0, 2]);
}

#[test]
fn sort_keeps_sprites_at_one_depth_in_order() {
    let mut sprites: Vec<Sprite> = [5u32, 9, 5, 7, 5, 9]
        .iter()
        .enumerate()
        .map(|(i, &d)| Sprite::new(0, i as u32, d, 0, 0, 0, 0))
        .collect();
    sort_sprites(&mut sprites);
    let order: Vec<(u32, u32)> = sprites.iter().map(|s| (s.depth, s.tex_id)).collect();
    assert_eq!(order, vec![(9, 1), (9, 5), (7, 3), (5, 0), (5, 2), (5, 4)]);
}

#[test]
fn sort_keeps_what_each_sprite_holds() {
    let mut sprites = vec![
        Sprite::new(10, 1, 5, -3, 7, 11, 13),
        Sprite::new(11, 2, 9, 4, 8, 12, 14),
        Sprite::new(12, 3, 5, 5, 9, 13, 15),
    ];
    sort_sprites(&mut sprites);
    assert_eq!(
        sprites,
        vec![
            Sprite::new(11, 2, 9, 4, 8, 12, 14),
            Sprite::new(10, 1, 5, -3, 7, 11, 13),
            Sprite::new(12, 3, 5, 5, 9, 13, 15),
        ]
    );
    let ids: Vec<usize> = sprites.iter().map(|s| s.id).collect();
    assert_eq!(ids, vec![11, 10, 12]);
}

#[test]
fn sort_of_few_sprites() {
    let mut none: Vec<Sprite> = Vec::new();
    sort_sprites(&mut none);
    assert!(none.is_empty());
    let mut one = vec![Sprite::new(0, 4, 2, 0, 0, 0, 0)];
    sort_sprites(&mut one);
    assert_eq!(one, vec![Sprite::new(0, 4, 2, 0, 0, 0, 0)]);
}

#[test]
fn nearer_sprite_is_drawn_over_a_farther_one() {
    // Two tiles of one pixel each.
    let bytes = [10u8, 0, 0, 255, 20, 0, 0, 255];
    let t = match Texture::new(2, 1, &bytes) {
        Ok(t) => t,
        Err(e) => panic!("no atlas: {:?}", e),
    };
    let mut fb = Framebuffer::new(32, 16);
    let depth = vec![100u32; 16];
    // The near sprite comes first in the list and is drawn last.
    let mut sprites = vec![Sprite::new(0, 0, 2, 1, 2, 20, 0), Sprite::new(0, 1, 8, 0, 2, 0, 0)];
    assert_eq!(render_sprites(&mut fb, &depth, &mut sprites, &t), Ok(()));
    assert_eq!(sprites, vec![Sprite::new(0, 1, 8, 0, 2, 0, 0), Sprite::new(0, 0, 2, 1, 2, 20, 0)]);
    let far = pack_color_rgba(20, 0, 0, 255);
    let near = pack_color_rgba(10, 0, 0, 255);
    assert_eq!(at(&fb, 16, 7), far);
    assert_eq!(at(&fb, 17, 7), near);
    assert_eq!(at(&fb, 18, 7), near);
    assert_eq!(at(&fb, 17, 8), near);
    // Markers are drawn whether or not the sprite shows.
    assert_eq!(at(&fb, 0, 0), MARKER_COLOR);
    assert_eq!(at(&fb, 5, 5), MARKER_COLOR);
    assert_eq!(at(&fb, 6, 5), WHITE);
}

#[test]
fn marker_of_a_later_sprite_is_drawn_over_an_earlier_sprite() {
    let t = opaque();
    let mut fb = Framebuffer::new(8, 8);
    let depth = vec![100u32; 4];
    // The marker of the near sprite lies in the view, over the far sprite.
    let mut sprites = vec![Sprite::new(0, 0, 8, 0, 2, 0, 0), Sprite::new(0, 0, 2, 3, 1, 4, 3)];
    assert_eq!(render_sprites(&mut fb, &depth, &mut sprites, &t), Ok(()));
    assert_eq!(at(&fb, 4, 3), MARKER_COLOR);
    assert_eq!(at(&fb, 5, 4), MARKER_COLOR);
    // The near sprite itself is drawn after its marker.
    assert_eq!(at(&fb, 7, 4), texel(0, 0, 255));
}

#[test]
fn sprite_pass_stops_at_a_sprite_without_a_texture() {
    let t = opaque();
    let mut fb = Framebuffer::new(32, 16);
    let depth = vec![100u32; 16];
    let mut sprites = vec![
        Sprite::new(0, 0, 1, 8, 2, 24, 0),
        Sprite::new(0, 7, 5, 4, 2, 12, 0),
        Sprite::new(0, 0, 9, 0, 2, 0, 0),
    ];
    assert_eq!(
        render_sprites(&mut fb, &depth, &mut sprites, &t),
        Err(RenderError::TextureOutOfBounds)
    );
    let depths: Vec<u32> = sprites.iter().map(|s| s.depth).collect();
    assert_eq!(depths, vec![9, 5, 1]);
    // The farthest sprite is drawn, with its marker.
    assert_eq!(at(&fb, 16, 7), texel(0, 0, 255));
    assert_eq!(at(&fb, 0, 0), MARKER_COLOR);
    // Of the one without a texture only the marker.
    assert_eq!(at(&fb, 12, 0), MARKER_COLOR);
    assert_eq!(at(&fb, 20, 7), WHITE);
    // The nearest is not reached.
    assert_eq!(at(&fb, 24, 0), WHITE);
    assert_eq!(at(&fb, 24, 7), WHITE);
}
