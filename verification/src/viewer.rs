//! The rules of the viewer loop: how the arrow and reset keys move the
//! captured region, and how a filtered frame is written into the 32-bit
//! window buffer.

use vstd::prelude::*;
use crate::buffer::{RgbBuffer, rgb_samples, rgb_pixel_count};
use crate::arith::lemma_mul_le;

verus! {

/// The keys of the viewer that move the captured region, as held down in
/// one frame.
pub struct PanKeys {
    pub right: bool,
    pub left: bool,
    pub up: bool,
    pub down: bool,
    pub reset: bool,
}

/// The offset of the captured region when the viewer starts or is reset.
pub const CAPTURE_ORIGIN: isize = 100;

/// How far one frame of a held arrow key moves the captured region.
pub const PAN_STEP: isize = 10;

/// The horizontal offset after the left and right keys, before a reset.
pub open spec fn panned_x(x: int, keys: PanKeys) -> int {
    x + (if keys.right {
        PAN_STEP as int
    } else {
        0
    }) - (if keys.left {
        PAN_STEP as int
    } else {
        0
    })
}

/// The vertical offset after the up and down keys, before a reset.
pub open spec fn panned_y(y: int, keys: PanKeys) -> int {
    y - (if keys.up {
        PAN_STEP as int
    } else {
        0
    }) + (if keys.down {
        PAN_STEP as int
    } else {
        0
    })
}

/// The offset of the captured region after one frame with `keys` held.
pub open spec fn pan_spec(x: int, y: int, keys: PanKeys) -> (int, int) {
    if keys.reset {
        (CAPTURE_ORIGIN as int, CAPTURE_ORIGIN as int)
    } else {
        (panned_x(x, keys), panned_y(y, keys))
    }
}

/// Every step of one frame's update stays an `isize`: right is applied
/// first, then left, up and down.
pub open spec fn pan_fits(x: int, y: int, keys: PanKeys) -> bool {
    let xr = x + (if keys.right {
        PAN_STEP as int
    } else {
        0
    });
    let yu = y - (if keys.up {
        PAN_STEP as int
    } else {
        0
    });
    &&& xr <= isize::MAX
    &&& panned_x(x, keys) >= isize::MIN
    &&& yu >= isize::MIN
    &&& panned_y(y, keys) <= isize::MAX
}

/// Moves the captured region by one frame of held keys: right and down add
/// `PAN_STEP`, left and up take it away, and reset puts the region back at
/// `CAPTURE_ORIGIN` on both axes.
pub fn pan(x: isize, y: isize, keys: &PanKeys) -> (r: (isize, isize))
    requires
        pan_fits(x as int, y as int, *keys),
    ensures
        (r.0 as int, r.1 as int) == pan_spec(x as int, y as int, *keys),
{
    let mut capx = x;
    let mut capy = y;
    if keys.right {
        capx = capx + PAN_STEP;
    }
    if keys.left {
        capx = capx - PAN_STEP;
    }
    if keys.up {
        capy = capy - PAN_STEP;
    }
    if keys.down {
        capy = capy + PAN_STEP;
    }
    if keys.reset {
        capx = CAPTURE_ORIGIN;
        capy = CAPTURE_ORIGIN;
    }
    (capx, capy)
}

/// `pan`, where a step may leave `isize`: `None` exactly then.
pub fn try_pan(x: isize, y: isize, keys: &PanKeys) -> (r: Option<(isize, isize)>)
    ensures
        r is Some <==> pan_fits(x as int, y as int, *keys),
        r matches Some(p) ==> (p.0 as int, p.1 as int) == pan_spec(x as int, y as int, *keys),
{
    let right_ok = !keys.right || x <= isize::MAX - PAN_STEP;
    let xr: i128 = x as i128 + if keys.right {
        PAN_STEP as i128
    } else {
        0
    };
    let left_ok = !keys.left || xr - (PAN_STEP as i128) >= isize::MIN as i128;
    let up_ok = !keys.up || y >= isize::MIN + PAN_STEP;
    let yu: i128 = y as i128 - if keys.up {
        PAN_STEP as i128
    } else {
        0
    };
    let down_ok = !keys.down || yu + (PAN_STEP as i128) <= isize::MAX as i128;
    if right_ok && left_ok && up_ok && down_ok {
        Some(pan(x, y, keys))
    } else {
        None
    }
}

/// An opaque 32-bit pixel of the window buffer: alpha 255 in the top byte,
/// then red, green and blue.
pub open spec fn argb(r: u8, g: u8, b: u8) -> u32 {
    (255 * 16777216 + r as int * 65536 + g as int * 256 + b as int) as u32
}

/// The window pixel made from the samples of pixel `i` of an RGB image.
pub open spec fn argb_at(samples: Seq<u8>, i: int) -> u32 {
    argb(samples[3 * i], samples[3 * i + 1], samples[3 * i + 2])
}

/// The window pixel made from pixel `i` is opaque and keeps its red, green
/// and blue samples in its bytes from high to low.
pub proof fn lemma_argb_at_channels(samples: Seq<u8>, i: int)
    ensures
        argb_at(samples, i) / 16777216 == 255,
        (argb_at(samples, i) / 65536) % 256 == samples[3 * i],
        (argb_at(samples, i) / 256) % 256 == samples[3 * i + 1],
        argb_at(samples, i) % 256 == samples[3 * i + 2],
{
    lemma_argb_keeps_channels(samples[3 * i], samples[3 * i + 1], samples[3 * i + 2]);
}

/// Writes the pixels of `img`, in row-major order, into the window buffer as
/// opaque 32-bit pixels, as far as both reach; the rest of the buffer keeps
/// what the previous frame left there.
pub fn fill_frame(buffer: &mut Vec<u32>, img: &RgbBuffer)
    ensures
        final(buffer)@.len() == old(buffer)@.len(),
        forall|i: int|
            0 <= i < old(buffer)@.len() ==> #[trigger] final(buffer)@[i] == if i < rgb_pixel_count(
                *img,
            ) {
                argb_at(rgb_samples(*img), i)
            } else {
                old(buffer)@[i]
            },
        forall|i: int|
            0 <= i < old(buffer)@.len() && i < rgb_pixel_count(*img) ==> {
                &&& #[trigger] final(buffer)@[i] / 16777216 == 255
                &&& (final(buffer)@[i] / 65536) % 256 == rgb_samples(*img)[3 * i]
                &&& (final(buffer)@[i] / 256) % 256 == rgb_samples(*img)[3 * i + 1]
                &&& final(buffer)@[i] % 256 == rgb_samples(*img)[3 * i + 2]
            },
{
    let (width, height) = img.dimensions();
    let raw = img.as_raw();
    let ghost s = rgb_samples(*img);
    let ghost before = buffer@;
    let raw_len = raw.len();
    proof {
        lemma_mul_le(0, height as int, width as int);
    }
    let pixels: usize = width as usize * height as usize;
    let n: usize = if buffer.len() <= pixels {
        buffer.len()
    } else {
        pixels
    };
    let mut i: usize = 0;
    while i < n
        invariant
            s == rgb_samples(*img),
            raw@ == s,
            s.len() >= 3 * pixels,
            s.len() == raw_len,
            pixels == rgb_pixel_count(*img),
            n <= pixels,
            n <= before.len(),
            n == before.len() || n == pixels,
            i <= n,
            buffer@.len() == before.len(),
            forall|k: int|
                0 <= k < before.len() ==> #[trigger] buffer@[k] == if k < i {
                    argb_at(s, k)
                } else {
                    before[k]
                },
        decreases n - i,
    {
        let r = raw[3 * i] as u32 * 65536;
        let g = raw[3 * i + 1] as u32 * 256;
        let b = raw[3 * i + 2] as u32;
        let a = 255u32 * 16777216;
        buffer.set(i, r + g + b + a);
        i += 1;
    }
    proof {
        assert forall|k: int| 0 <= k < before.len() && k < pixels implies {
            &&& #[trigger] buffer@[k] / 16777216 == 255
            &&& (buffer@[k] / 65536) % 256 == s[3 * k]
            &&& (buffer@[k] / 256) % 256 == s[3 * k + 1]
            &&& buffer@[k] % 256 == s[3 * k + 2]
        } by {
            lemma_argb_at_channels(s, k);
        }
    }
}


/// The same keys with left and right, and up and down, swapped.
pub open spec fn reversed(keys: PanKeys) -> PanKeys {
    PanKeys { right: keys.left, left: keys.right, up: keys.down, down: keys.up, reset: keys.reset }
}

/// Reset puts the captured region at the origin whatever else is held; with
/// no key held the region stays; opposite arrow keys held together cancel;
/// and a frame of the reversed arrows undoes a frame without reset.
pub proof fn lemma_pan_laws(x: int, y: int, keys: PanKeys)
    ensures
        keys.reset ==> pan_spec(x, y, keys) == (CAPTURE_ORIGIN as int, CAPTURE_ORIGIN as int),
        !keys.reset && keys.right == keys.left && keys.up == keys.down ==> pan_spec(x, y, keys)
            == (x, y),
        !keys.reset ==> pan_spec(pan_spec(x, y, keys).0, pan_spec(x, y, keys).1, reversed(keys))
            == (x, y),
{
}

/// Each arrow key held alone moves the region by `PAN_STEP` on its own axis
/// and in its own direction, and leaves the other axis.
pub proof fn lemma_pan_single_keys(x: int, y: int)
    ensures
        pan_spec(x, y, PanKeys { right: true, left: false, up: false, down: false, reset: false })
            == (x + 10, y),
        pan_spec(x, y, PanKeys { right: false, left: true, up: false, down: false, reset: false })
            == (x - 10, y),
        pan_spec(x, y, PanKeys { right: false, left: false, up: true, down: false, reset: false })
            == (x, y - 10),
        pan_spec(x, y, PanKeys { right: false, left: false, up: false, down: true, reset: false })
            == (x, y + 10),
        pan_spec(x, y, PanKeys { right: false, left: false, up: false, down: false, reset: true })
            == (100int, 100int),
{
}

/// A window pixel is opaque and keeps the three samples it was made from.
pub proof fn lemma_argb_keeps_channels(r: u8, g: u8, b: u8)
    ensures
        argb(r, g, b) as int == 255 * 16777216 + r as int * 65536 + g as int * 256 + b as int,
        argb(r, g, b) / 16777216 == 255,
        (argb(r, g, b) / 65536) % 256 == r,
        (argb(r, g, b) / 256) % 256 == g,
        argb(r, g, b) % 256 == b,
{
    let v = 255 * 16777216 + r as int * 65536 + g as int * 256 + b as int;
    assert(0 <= v <= u32::MAX);
    assert(argb(r, g, b) as int == v);
    assert(v / 16777216 == 255) by (nonlinear_arith)
        requires
            v == 255 * 16777216 + r as int * 65536 + g as int * 256 + b as int,
            0 <= r < 256,
            0 <= g < 256,
            0 <= b < 256,
    ;
    assert(v / 65536 == 255 * 256 + r as int) by (nonlinear_arith)
        requires
            v == 255 * 16777216 + r as int * 65536 + g as int * 256 + b as int,
            0 <= r < 256,
            0 <= g < 256,
            0 <= b < 256,
    ;
    assert(v / 256 == 255 * 65536 + r as int * 256 + g as int) by (nonlinear_arith)
        requires
            v == 255 * 16777216 + r as int * 65536 + g as int * 256 + b as int,
            0 <= r < 256,
            0 <= g < 256,
            0 <= b < 256,
    ;
    assert((255 * 256 + r as int) % 256 == r as int) by (nonlinear_arith)
        requires
            0 <= r < 256,
    ;
    assert((255 * 65536 + r as int * 256 + g as int) % 256 == g as int) by (nonlinear_arith)
        requires
            0 <= r < 256,
            0 <= g < 256,
    ;
    assert(v % 256 == b as int) by (nonlinear_arith)
        requires
            v == 255 * 16777216 + r as int * 65536 + g as int * 256 + b as int,
            0 <= r < 256,
            0 <= g < 256,
            0 <= b < 256,
    ;
}

} // verus!
