//! The brightest and darkest channel of an RGB pixel, from which the
//! lightness and saturation of its HSL form are computed.

use vstd::prelude::*;

verus! {

/// The largest of three samples.
pub open spec fn max3(r: u8, g: u8, b: u8) -> u8 {
    if r >= g && r >= b {
        r
    } else if g >= b {
        g
    } else {
        b
    }
}

/// The smallest of three samples.
pub open spec fn min3(r: u8, g: u8, b: u8) -> u8 {
    if r <= g && r <= b {
        r
    } else if g <= b {
        g
    } else {
        b
    }
}

/// The largest of the samples `rgb[0]`, `rgb[1]`, `rgb[2]`.
pub fn max_channel(rgb: &[u8]) -> (r: u8)
    requires
        rgb@.len() >= 3,
    ensures
        r == max3(rgb@[0], rgb@[1], rgb@[2]),
{
    let (r, g, b) = (rgb[0], rgb[1], rgb[2]);
    if g > b {
        if r > g {
            r
        } else {
            g
        }
    } else {
        if r > b {
            r
        } else {
            b
        }
    }
}

/// The smallest of the samples `rgb[0]`, `rgb[1]`, `rgb[2]`.
pub fn min_channel(rgb: &[u8]) -> (r: u8)
    requires
        rgb@.len() >= 3,
    ensures
        r == min3(rgb@[0], rgb@[1], rgb@[2]),
{
    let (r, g, b) = (rgb[0], rgb[1], rgb[2]);
    if g < b {
        if r < g {
            r
        } else {
            g
        }
    } else {
        if r < b {
            r
        } else {
            b
        }
    }
}


/// The darkest channel is at most the brightest, both are channels of the
/// pixel, and they are equal exactly for a gray pixel.
pub proof fn lemma_min_max_channels(r: u8, g: u8, b: u8)
    ensures
        min3(r, g, b) <= max3(r, g, b),
        max3(r, g, b) == r || max3(r, g, b) == g || max3(r, g, b) == b,
        min3(r, g, b) == r || min3(r, g, b) == g || min3(r, g, b) == b,
        r <= max3(r, g, b) && g <= max3(r, g, b) && b <= max3(r, g, b),
        min3(r, g, b) <= r && min3(r, g, b) <= g && min3(r, g, b) <= b,
        (min3(r, g, b) == max3(r, g, b)) <==> (r == g && g == b),
{
}

} // verus!
