//! Whole-image maps over RGB images: darkening a colour image by an edge
//! map, and packing mapped pixels back into an image.

use vstd::prelude::*;
use rayon::iter::{IntoParallelIterator, ParallelIterator};
use crate::arith::{lemma_mul_le, lemma_mul_add};
use crate::buffer::{
    RgbBuffer,
    GrayBuffer,
    rgb_samples,
    rgb_dimensions,
    rgb_pixel_count,
    gray_samples,
    gray_pixel_count,
};

verus! {

/// A colour sample darkened by half an edge sample, never below 0.
pub open spec fn darken_spec(c: u8, g: u8) -> u8 {
    if (c as int) < (g / 2) as int {
        0u8
    } else {
        (c - g / 2) as u8
    }
}

/// Subtracts half of the edge sample `g` from the colour sample `c`,
/// stopping at 0.
pub fn darken(c: u8, g: u8) -> (r: u8)
    ensures
        r == darken_spec(c, g),
        c as int >= g as int / 2 ==> r as int == c as int - g as int / 2,
        (c as int) < g as int / 2 ==> r == 0,
{
    assert(g >> 1u8 == g / 2) by (bit_vector);
    let r = (g >> 1) as i32;
    let a = c as i32 - r;
    if a < 0 {
        0u8
    } else {
        a as u8
    }
}

/// Pixel `i` of a colour image, given by its raw samples, darkened by
/// sample `i` of an edge map.
pub fn darken_pixel(colour: &Vec<u8>, edges: &Vec<u8>, i: usize) -> (r: [u8; 3])
    requires
        3 * i + 2 < colour@.len(),
        i < edges@.len(),
    ensures
        r@ == seq![
            darken_spec(colour@[3 * i], edges@[i as int]),
            darken_spec(colour@[3 * i + 1], edges@[i as int]),
            darken_spec(colour@[3 * i + 2], edges@[i as int]),
        ],
{
    let g = edges[i];
    // the length of a buffer bounds the index arithmetic on it
    let _ = colour.len();
    [darken(colour[3 * i], g), darken(colour[3 * i + 1], g), darken(colour[3 * i + 2], g)]
}

/// `into_par_iter` over `0..n`, `map` with `darken_pixel`, `collect` into a
/// `Vec` (rayon): the darkened pixels `0, 1, .., n - 1`, in that order,
/// which rayon keeps when it collects an indexed iterator such as a range.
#[verifier::external_body]
fn par_darken_pixels(colour: &Vec<u8>, edges: &Vec<u8>, n: usize) -> (r: Vec<[u8; 3]>)
    requires
        3 * n <= colour@.len(),
        n <= edges@.len(),
    ensures
        r@.len() == n,
        forall|i: int|
            0 <= i < n ==> (#[trigger] r@[i])@ == seq![
                darken_spec(colour@[3 * i], edges@[i]),
                darken_spec(colour@[3 * i + 1], edges@[i]),
                darken_spec(colour@[3 * i + 2], edges@[i]),
            ],
{
    (0..n).into_par_iter().map(|i| darken_pixel(colour, edges, i)).collect()
}

/// The samples of an RGB image after the first `n` pixels have been
/// darkened by the matching samples of an edge map.
pub open spec fn blended(colour: Seq<u8>, edges: Seq<u8>, n: int) -> Seq<u8> {
    Seq::new(
        colour.len(),
        |j: int|
            if j < 3 * n {
                darken_spec(colour[j], edges[j / 3])
            } else {
                colour[j]
            },
    )
}

/// The smaller of two integers.
pub open spec fn min_int(a: int, b: int) -> int {
    if a <= b {
        a
    } else {
        b
    }
}

/// Darkens `image1` by the edge map `image2`: pixel by pixel in row-major
/// order, as far as both images have pixels, each of the three samples
/// loses half of the edge sample, stopping at 0. The result has the size of
/// `image1`; its pixels past the end of `image2` are those of `image1`.
pub fn para_map2(image1: &RgbBuffer, image2: &GrayBuffer) -> (r: RgbBuffer)
    ensures
        rgb_dimensions(r) == rgb_dimensions(*image1),
        rgb_samples(r) == blended(
            rgb_samples(*image1),
            gray_samples(*image2),
            min_int(rgb_pixel_count(*image1), gray_pixel_count(*image2)),
        ),
        rgb_samples(r).len() == rgb_samples(*image1).len(),
        forall|j: int|
            0 <= j < rgb_samples(*image1).len() ==> {
                let c = rgb_samples(*image1)[j] as int;
                let half = gray_samples(*image2)[j / 3] as int / 2;
                let darkened = j < 3 * rgb_pixel_count(*image1) && j < 3 * gray_pixel_count(
                    *image2,
                );
                &&& darkened && c >= half ==> #[trigger] rgb_samples(r)[j] as int == c - half
                &&& darkened && c < half ==> rgb_samples(r)[j] == 0
                &&& !darkened ==> rgb_samples(r)[j] as int == c
            },
{
    let (width, height) = image1.dimensions();
    let (width2, height2) = image2.dimensions();
    let raw1 = image1.as_raw();
    let raw2 = image2.as_raw();
    let ghost w = width as int;
    let ghost h = height as int;
    let ghost s1 = rgb_samples(*image1);
    let ghost s2 = gray_samples(*image2);
    let len1 = raw1.len();
    let len2 = raw2.len();
    proof {
        lemma_mul_le(0, h, w);
        lemma_mul_le(0, height2 as int, width2 as int);
    }
    let n1: usize = width as usize * height as usize;
    let n2: usize = width2 as usize * height2 as usize;
    let n: usize = if n1 <= n2 {
        n1
    } else {
        n2
    };
    let darkened = par_darken_pixels(raw1, raw2, n);
    let mut out = image1.duplicate();
    proof {
        if w == 0 {
            assert(w * h == 0) by (nonlinear_arith)
                requires
                    w == 0,
            ;
        }
    }
    let mut i: usize = 0;
    let mut x: u32 = 0;
    let mut y: u32 = 0;
    while i < n
        invariant
            w == width,
            h == height,
            s1 == rgb_samples(*image1),
            s2 == gray_samples(*image2),
            raw1@ == s1,
            raw2@ == s2,
            darkened@.len() == n,
            forall|k: int|
                0 <= k < n ==> (#[trigger] darkened@[k])@ == seq![
                    darken_spec(s1[3 * k], s2[k]),
                    darken_spec(s1[3 * k + 1], s2[k]),
                    darken_spec(s1[3 * k + 2], s2[k]),
                ],
            s1.len() == len1,
            s1.len() >= 3 * (w * h),
            s2.len() >= n2,
            n1 == w * h,
            n == min_int(n1 as int, n2 as int),
            i <= n,
            x < w || n == 0,
            i == y * w + x,
            rgb_dimensions(out) == (width, height),
            rgb_samples(out) == Seq::new(
                s1.len(),
                |j: int|
                    if j < 3 * i {
                        darken_spec(s1[j], s2[j / 3])
                    } else {
                        s1[j]
                    },
            ),
        decreases n - i,
    {
        if y >= height {
            proof {
                lemma_mul_le(h, y as int, w);
                assert(false);
            }
        }
        let p = darkened[i];
        assert(p@ == darkened@[i as int]@);
        out.put_pixel(x, y, p);
        assert(rgb_samples(out) =~= Seq::new(
            s1.len(),
            |j: int|
                if j < 3 * (i + 1) {
                    darken_spec(s1[j], s2[j / 3])
                } else {
                    s1[j]
                },
        ));
        i += 1;
        x += 1;
        if x == width {
            x = 0;
            y += 1;
            proof {
                lemma_mul_add(w, y - 1, 1);
            }
        }
    }
    proof {
        assert(n as int == min_int(rgb_pixel_count(*image1), gray_pixel_count(*image2)));
        assert(s1.len() >= 3 * n);
        assert(s2.len() >= n);
        lemma_blended_formula(s1, s2, n as int);
    }
    out
}

/// The samples of a `w` by `h` RGB image made from a list of pixels in
/// row-major order; pixels past the end of the list are black.
pub open spec fn packed(pixels: Seq<[u8; 3]>, w: int, h: int) -> Seq<u8> {
    Seq::new(
        (3 * (w * h)) as nat,
        |j: int|
            if j / 3 < pixels.len() {
                pixels[j / 3][j % 3]
            } else {
                0u8
            },
    )
}

/// Packs pixels, given in row-major order, into a `width` by `height` RGB
/// image.
pub fn pack_rgb_pixels(width: u32, height: u32, pixels: &Vec<[u8; 3]>) -> (r: RgbBuffer)
    requires
        3 * (width as int * height as int) <= usize::MAX,
        3 * width as int <= usize::MAX,
        pixels@.len() <= width as int * height as int,
    ensures
        rgb_dimensions(r) == (width, height),
        rgb_samples(r) == packed(pixels@, width as int, height as int),
        rgb_samples(r).len() == 3 * (width as int * height as int),
        forall|k: int, c: int|
            0 <= k < pixels@.len() && 0 <= c < 3 ==> #[trigger] rgb_samples(r)[3 * k + c]
                == pixels@[k][c],
        forall|j: int|
            3 * pixels@.len() <= j < 3 * (width as int * height as int) ==> #[trigger] rgb_samples(
                r,
            )[j] == 0,
{
    let ghost w = width as int;
    let ghost h = height as int;
    proof {
        lemma_mul_le(0, h, w);
    }
    let total: usize = width as usize * height as usize * 3;
    let mut vr: Vec<u8> = vec![0u8; total];
    assert(vr@ =~= Seq::new(
        total as nat,
        |j: int|
            if j / 3 < 0 {
                pixels@[j / 3][j % 3]
            } else {
                0u8
            },
    ));
    let mut i: usize = 0;
    while i < pixels.len()
        invariant
            w == width,
            h == height,
            total == 3 * (w * h),
            pixels@.len() <= w * h,
            i <= pixels@.len(),
            vr@ == Seq::new(
                total as nat,
                |j: int|
                    if j / 3 < i {
                        pixels@[j / 3][j % 3]
                    } else {
                        0u8
                    },
            ),
        decreases pixels@.len() - i,
    {
        let v = pixels[i];
        vr.set(i * 3, v[0]);
        vr.set(i * 3 + 1, v[1]);
        vr.set(i * 3 + 2, v[2]);
        i += 1;
        assert(vr@ =~= Seq::new(
            total as nat,
            |j: int|
                if j / 3 < i {
                    pixels@[j / 3][j % 3]
                } else {
                    0u8
                },
        ));
    }
    assert(vr@ =~= packed(pixels@, w, h));
    let out = RgbBuffer::from_raw(width, height, vr);
    let r = out.unwrap();
    proof {
        assert forall|k: int, c: int| 0 <= k < pixels@.len() && 0 <= c < 3 implies #[trigger] rgb_samples(
            r,
        )[3 * k + c] == pixels@[k][c] by {
            assert((3 * k + c) / 3 == k && (3 * k + c) % 3 == c);
        }
    }
    r
}


/// Each darkened sample is the colour sample less half the matching edge
/// sample (rounded down), or 0 where that would be negative, whatever the
/// colour sample; the samples past the first `n` pixels stay as they were.
pub proof fn lemma_blended_formula(colour: Seq<u8>, edges: Seq<u8>, n: int)
    requires
        0 <= n,
        3 * n <= colour.len(),
        n <= edges.len(),
    ensures
        blended(colour, edges, n).len() == colour.len(),
        forall|j: int|
            0 <= j < colour.len() ==> {
                let c = colour[j] as int;
                let half = edges[j / 3] as int / 2;
                &&& j < 3 * n && c >= half ==> #[trigger] blended(colour, edges, n)[j] as int == c
                    - half
                &&& j < 3 * n && c < half ==> blended(colour, edges, n)[j] == 0
                &&& j >= 3 * n ==> blended(colour, edges, n)[j] == colour[j]
            },
{
}

/// Darkening by an edge map never brightens a sample, and an edge sample
/// below 2 leaves the colour sample as it was.
pub proof fn lemma_darken_never_brightens(c: u8, g: u8)
    ensures
        darken_spec(c, g) <= c,
        g < 2 ==> darken_spec(c, g) == c,
        darken_spec(c, g) == if c as int >= g as int / 2 {
            c as int - g as int / 2
        } else {
            0
        },
{
}

/// Every sample of a darkened image is at most the sample of the colour
/// image it came from, and darkening by an edge map whose samples are all
/// below 2 leaves the colour image as it was.
pub proof fn lemma_blend_never_brightens(colour: Seq<u8>, edges: Seq<u8>, n: int)
    requires
        0 <= n,
        3 * n <= colour.len(),
        n <= edges.len(),
    ensures
        blended(colour, edges, n).len() == colour.len(),
        forall|j: int| 0 <= j < colour.len() ==> #[trigger] blended(colour, edges, n)[j] <= colour[j],
        (forall|k: int| 0 <= k < n ==> #[trigger] edges[k] < 2) ==> blended(colour, edges, n)
            == colour,
{
    assert forall|j: int| 0 <= j < colour.len() implies #[trigger] blended(colour, edges, n)[j]
        <= colour[j] by {
        if j < 3 * n {
            lemma_darken_never_brightens(colour[j], edges[j / 3]);
        }
    }
    if forall|k: int| 0 <= k < n ==> #[trigger] edges[k] < 2 {
        assert forall|j: int| 0 <= j < colour.len() implies #[trigger] blended(colour, edges, n)[j]
            == colour[j] by {
            if j < 3 * n {
                assert(edges[j / 3] < 2);
                lemma_darken_never_brightens(colour[j], edges[j / 3]);
            }
        }
        assert(blended(colour, edges, n) =~= colour);
    }
}

} // verus!
