//! Packed colours: four 8-bit channels in one `u32`, red in the low byte.

use vstd::prelude::*;

verus! {

/// The packed colour whose channels are `r`, `g`, `b` and `a`.
pub open spec fn pack_spec(r: u8, g: u8, b: u8, a: u8) -> u32 {
    (r as int + 0x100 * (g as int) + 0x1_0000 * (b as int) + 0x100_0000 * (a as int)) as u32
}

/// The channels of a packed colour, red first.
pub open spec fn unpack_spec(color: u32) -> (u8, u8, u8, u8) {
    (
        (color as int % 0x100) as u8,
        (color as int / 0x100 % 0x100) as u8,
        (color as int / 0x1_0000 % 0x100) as u8,
        (color as int / 0x100_0000) as u8,
    )
}

/// Packs four channels into one colour: red in bits 0..8, green in 8..16,
/// blue in 16..24, alpha in 24..32.
pub fn pack_color_rgba(r: u8, g: u8, b: u8, a: u8) -> (color: u32)
    ensures
        color == pack_spec(r, g, b, a),
        unpack_spec(color) == (r, g, b, a),
{
    proof {
        lemma_unpack_pack(r, g, b, a);
    }
    let b1: u32 = r as u32;
    let b2: u32 = g as u32;
    let b3: u32 = b as u32;
    let b4: u32 = a as u32;
    assert(b4 << 24 == 0x100_0000 * b4) by (bit_vector)
        requires
            b4 < 0x100,
    ;
    assert(b3 << 16 == 0x1_0000 * b3) by (bit_vector)
        requires
            b3 < 0x100,
    ;
    assert(b2 << 8 == 0x100 * b2) by (bit_vector)
        requires
            b2 < 0x100,
    ;
    (b4 << 24) + (b3 << 16) + (b2 << 8) + b1
}

/// Packs an opaque colour: alpha is 255.
pub fn pack_color_rgb(r: u8, g: u8, b: u8) -> (color: u32)
    ensures
        color == pack_spec(r, g, b, 255),
        unpack_spec(color) == (r, g, b, 255u8),
{
    pack_color_rgba(r, g, b, 255)
}

/// Splits a colour into its channels, red first.
pub fn unpack_color(color: u32) -> (channels: (u8, u8, u8, u8))
    ensures
        channels == unpack_spec(color),
        pack_spec(channels.0, channels.1, channels.2, channels.3) == color,
{
    proof {
        lemma_pack_unpack(color);
    }
    assert(color & 255 == color % 0x100) by (bit_vector);
    assert((color >> 8) & 255 == color / 0x100 % 0x100) by (bit_vector);
    assert((color >> 16) & 255 == color / 0x1_0000 % 0x100) by (bit_vector);
    assert((color >> 24) & 255 == color / 0x100_0000) by (bit_vector);
    let r: u8 = (color & 255) as u8;
    let g: u8 = ((color >> 8) & 255) as u8;
    let b: u8 = ((color >> 16) & 255) as u8;
    let a: u8 = ((color >> 24) & 255) as u8;
    (r, g, b, a)
}

/// Unpacking a packed colour gives the four channels back.
pub proof fn lemma_unpack_pack(r: u8, g: u8, b: u8, a: u8)
    ensures
        unpack_spec(pack_spec(r, g, b, a)) == (r, g, b, a),
{
    let n = r as int + 0x100 * (g as int) + 0x1_0000 * (b as int) + 0x100_0000 * (a as int);
    assert(0 <= n < 0x1_0000_0000);
    assert(n % 0x100 == r as int);
    assert(n / 0x100 == g as int + 0x100 * (b as int) + 0x1_0000 * (a as int));
    assert(n / 0x1_0000 == b as int + 0x100 * (a as int));
    assert(n / 0x100_0000 == a as int);
}

/// Packing the channels of a colour gives the colour back.
pub proof fn lemma_pack_unpack(color: u32)
    ensures
        pack_spec(
            unpack_spec(color).0,
            unpack_spec(color).1,
            unpack_spec(color).2,
            unpack_spec(color).3,
        ) == color,
{
}

} // verus!
