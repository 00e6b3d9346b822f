//! A frame as a binary PPM image: a short text header, then three bytes for
//! each pixel.

use crate::utils::{unpack_color, unpack_spec};
use vstd::prelude::*;

verus! {

/// The decimal digits of `n` in ASCII, without leading zeros.
pub open spec fn decimal(n: nat) -> Seq<u8>
    decreases n,
{
    if n < 10 {
        seq![(48 + n) as u8]
    } else {
        decimal(n / 10).push((48 + n % 10) as u8)
    }
}

/// The header of an image of `w` by `h` pixels with channels up to 255:
/// the two letters that name the format, the width and the height, and
/// `255`, each on a line of its own but for the space between width and
/// height.
pub open spec fn ppm_header(w: nat, h: nat) -> Seq<u8> {
    seq![80u8, 54u8, 10u8] + decimal(w) + seq![32u8] + decimal(h) + seq![10u8, 50u8, 53u8, 53u8, 10u8]
}

/// The red, green and blue channels of each pixel in turn; alpha is left
/// out.
pub open spec fn rgb_bytes(image: Seq<u32>) -> Seq<u8> {
    Seq::new(
        3 * image.len(),
        |k: int|
            {
                let channels = unpack_spec(image[k / 3]);
                if k % 3 == 0 {
                    channels.0
                } else if k % 3 == 1 {
                    channels.1
                } else {
                    channels.2
                }
            },
    )
}

/// The PPM image of `w` by `h` pixels that shows `image`.
pub open spec fn ppm_spec(image: Seq<u32>, w: nat, h: nat) -> Seq<u8> {
    ppm_header(w, h) + rgb_bytes(image)
}

/// Appends the decimal digits of `n` to `out`.
fn push_decimal(out: &mut Vec<u8>, n: usize)
    ensures
        final(out)@ == old(out)@ + decimal(n as nat),
    decreases n,
{
    if n >= 10 {
        push_decimal(out, n / 10);
    }
    out.push(48u8 + (n % 10) as u8);
    assert(out@ =~= old(out)@ + decimal(n as nat));
}

/// Encodes `image`, the pixels of a frame of `w` by `h`, as a binary PPM
/// image.
pub fn encode_ppm(image: &[u32], w: usize, h: usize) -> (bytes: Vec<u8>)
    requires
        image@.len() == w * h,
    ensures
        bytes@ == ppm_spec(image@, w as nat, h as nat),
{
    let mut out: Vec<u8> = Vec::new();
    out.push(80u8);
    out.push(54u8);
    out.push(10u8);
    push_decimal(&mut out, w);
    out.push(32u8);
    push_decimal(&mut out, h);
    out.push(10u8);
    out.push(50u8);
    out.push(53u8);
    out.push(53u8);
    out.push(10u8);
    assert(out@ =~= ppm_header(w as nat, h as nat));
    let ghost header = out@;
    let mut i: usize = 0;
    while i < image.len()
        invariant
            i <= image@.len(),
            out@.len() == header.len() + 3 * i,
            forall|k: int| 0 <= k < header.len() ==> out@[k] == header[k],
            forall|k: int|
                0 <= k < 3 * i ==> #[trigger] out@[header.len() + k] == rgb_bytes(image@)[k],
        decreases image@.len() - i,
    {
        let (r, g, b, _) = unpack_color(image[i]);
        let ghost prev = out@;
        out.push(r);
        out.push(g);
        out.push(b);
        proof {
            assert forall|k: int| 0 <= k < 3 * (i + 1) implies #[trigger] out@[header.len() + k]
                == rgb_bytes(image@)[k] by {
                if k < 3 * i {
                    assert(out@[header.len() + k] == prev[header.len() + k]);
                }
            }
        }
        i += 1;
    }
    proof {
        let whole = header + rgb_bytes(image@);
        assert forall|m: int| 0 <= m < out@.len() implies out@[m] == whole[m] by {
            if m >= header.len() {
                let k = m - header.len();
                assert(out@[header.len() + k] == rgb_bytes(image@)[k]);
            }
        }
        assert(out@ =~= whole);
    }
    out
}

} // verus!
