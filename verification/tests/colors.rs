use doom_iow::utils;

#[test]
fn packs_ints() {
    let r = 2;
    let g = 4;
    let b = 8;
    let a = 16;
    let packed = utils::pack_color_rgba(r, g, b, a);
    assert_eq!(packed, 0b00010000000010000000010000000010);
}

#[test]
fn unpacks_ints() {
    let packed = 0b00010000000010000000010000000010;

    let (r, g, b, a) = utils::unpack_color(packed);

    assert_eq!(vec![2, 4, 8, 16], vec![r, g, b, a]);
}

#[test]
fn packs_ints_idempotently() {
    let r = 2;
    let g = 4;
    let b = 8;
    let a = 255;

    let color = utils::pack_color_rgba(r, g, b, a);

    let (rc, gc, bc, ac) = utils::unpack_color(color);

    assert_eq!(vec![r, g, b, a], vec![rc, gc, bc, ac]);
}

#[test]
fn pack_puts_red_in_the_low_byte() {
    assert_eq!(utils::pack_color_rgba(0x12, 0x34, 0x56, 0x78), 0x7856_3412);
    assert_eq!(utils::pack_color_rgba(0, 0, 0, 0), 0);
    assert_eq!(utils::pack_color_rgba(255, 255, 255, 255), 0xFFFF_FFFF);
}

#[test]
fn pack_rgb_is_opaque() {
    assert_eq!(utils::pack_color_rgb(1, 2, 3), 0xFF03_0201);
    assert_eq!(utils::pack_color_rgb(249, 209, 152), doom_iow::render::BACKGROUND);
    assert_eq!(utils::pack_color_rgb(160, 160, 160), doom_iow::walls::CONE_COLOR);
    assert_eq!(utils::pack_color_rgb(255, 0, 0), doom_iow::sprites::MARKER_COLOR);
    assert_eq!(utils::pack_color_rgb(255, 255, 255), doom_iow::framebuffer::WHITE);
}

#[test]
fn unpack_takes_each_byte() {
    assert_eq!(utils::unpack_color(0x7856_3412), (0x12, 0x34, 0x56, 0x78));
    assert_eq!(utils::unpack_color(0xFF00_0000), (0, 0, 0, 255));
    assert_eq!(utils::unpack_color(0x0000_00FF), (255, 0, 0, 0));
}

#[test]
fn unpack_of_pack_gives_the_channels_back() {
    let values = [0u8, 1, 2, 127, 128, 129, 254, 255];
    for &r in values.iter() {
        for &g in values.iter() {
            for &b in values.iter() {
                for &a in values.iter() {
                    let color = utils::pack_color_rgba(r, g, b, a);
                    assert_eq!(utils::unpack_color(color), (r, g, b, a));
                }
            }
        }
    }
}

#[test]
fn pack_of_unpack_gives_the_colour_back() {
    let colors = [0u32, 1, 0x8000_0000, 0xDEAD_BEEF, 0x0102_0304, u32::MAX];
    for &color in colors.iter() {
        let (r, g, b, a) = utils::unpack_color(color);
        assert_eq!(utils::pack_color_rgba(r, g, b, a), color);
    }
}
