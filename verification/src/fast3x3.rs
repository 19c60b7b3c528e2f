//! The 3x3 integer filter on gray images and the zero padding it reads.

use vstd::prelude::*;
use rayon::iter::{IntoParallelIterator, ParallelIterator};
use crate::arith::{lemma_row_major_unique, lemma_row_major_bound, lemma_mul_le, lemma_mul_add};
use crate::buffer::{
    GrayBuffer,
    gray_samples,
    gray_dimensions,
    gray_width,
    gray_height,
    gray_at,
};

verus! {

/// An 8-bit sample range limit: below 0 gives 0, above 255 gives 255.
pub open spec fn clamp_spec(v: int) -> int {
    if v < 0 {
        0
    } else if v > 255 {
        255
    } else {
        v
    }
}

/// Limits a filter response to the range of an 8-bit sample.
pub fn clamp(input: i32) -> (r: i32)
    ensures
        r == clamp_spec(input as int),
        0 <= r <= 255,
        input > 255 ==> r == 255,
        input < 0 ==> r == 0,
        0 <= input <= 255 ==> r == input,
{
    if input < 0 {
        0
    } else if input > 255 {
        255
    } else {
        input
    }
}

/// The limit to the sample range: always in `0..=255`, 255 for every value
/// above 255, 0 for every value below 0, and the value itself in between.
pub proof fn lemma_clamp_limits(v: int)
    ensures
        0 <= clamp_spec(v) <= 255,
        v > 255 ==> clamp_spec(v) == 255,
        v < 0 ==> clamp_spec(v) == 0,
        0 <= v <= 255 ==> clamp_spec(v) == v,
{
}

/// The samples of a `w` by `h` gray image laid out in one dimension with a
/// zero row above, a zero row below, and one extra zero at either end: the
/// sample of pixel `(x, y)` moves to `x + (y + 1) * w + 1`.
pub open spec fn padded1d(samples: Seq<u8>, w: int, h: int) -> Seq<u8> {
    Seq::new(
        (w * (h + 2) + 2) as nat,
        |j: int|
            if w + 1 <= j < w + 1 + w * h {
                samples[j - w - 1]
            } else {
                0u8
            },
    )
}

/// The sizes for which the one-dimensional padding is computed without
/// leaving `u32`.
pub open spec fn padding1d_fits(w: int, h: int) -> bool {
    &&& h + 2 <= u32::MAX
    &&& w * (h + 2) + 2 <= u32::MAX
}

/// Lays the image out in one dimension between zero rows, as `padded1d`
/// describes; the 3x3 filter reads this buffer.
pub fn padding1d(image: &GrayBuffer) -> (r: Vec<u8>)
    requires
        padding1d_fits(gray_width(*image), gray_height(*image)),
    ensures
        r@ == padded1d(gray_samples(*image), gray_width(*image), gray_height(*image)),
        r@.len() == gray_width(*image) * (gray_height(*image) + 2) + 2,
        forall|i: int|
            0 <= i < gray_width(*image) * gray_height(*image) ==> #[trigger] r@[i + gray_width(
                *image,
            ) + 1] == gray_samples(*image)[i],
        forall|j: int|
            0 <= j < r@.len() && !(gray_width(*image) + 1 <= j < gray_width(*image) + 1 + gray_width(
                *image,
            ) * gray_height(*image)) ==> #[trigger] r@[j] == 0,
{
    let (width, height) = image.dimensions();
    let raw = image.as_raw();
    let ghost w = width as int;
    let ghost h = height as int;
    let ghost s = gray_samples(*image);
    proof {
        lemma_mul_add(w, h, 2);
        lemma_mul_le(0, h, w);
    }
    let len: u32 = width * (height + 2) + 2;
    let n: u32 = width * height;
    let mut out: Vec<u8> = vec![0u8; len as usize];
    assert(out@ =~= Seq::new(
        len as nat,
        |j: int|
            if w + 1 <= j < w + 1 + 0 {
                s[j - w - 1]
            } else {
                0u8
            },
    ));
    let mut i: u32 = 0;
    while i < n
        invariant
            w == width,
            h == height,
            gray_dimensions(*image) == (width, height),
            s == gray_samples(*image),
            raw@ == s,
            s.len() >= w * h,
            n == w * h,
            len == w * (h + 2) + 2,
            w * (h + 2) == w * h + 2 * w,
            i <= n,
            out@ == Seq::new(
                len as nat,
                |j: int|
                    if w + 1 <= j < w + 1 + i {
                        s[j - w - 1]
                    } else {
                        0u8
                    },
            ),
        decreases n - i,
    {
        let v = raw[i as usize];
        out.set((i + width + 1) as usize, v);
        i += 1;
        assert(out@ =~= Seq::new(
            len as nat,
            |j: int|
                if w + 1 <= j < w + 1 + i {
                    s[j - w - 1]
                } else {
                    0u8
                },
        ));
    }
    out
}


/// Whether a value is an `i32`.
pub open spec fn fits_i32(v: int) -> bool {
    i32::MIN <= v <= i32::MAX
}

/// The `n`-th of the nine filter taps for the output sample `i`, taken row by
/// row: weight `kernel[n]` times the padded sample at
/// `i + n % 3 + (n / 3) * w`.
pub open spec fn tap(padded: Seq<u8>, w: int, kernel: Seq<i32>, i: int, n: int) -> int {
    padded[i + n % 3 + (n / 3) * w] as int * kernel[n] as int
}

/// The sum of the first `n` taps for the output sample `i`.
pub open spec fn taps_sum(padded: Seq<u8>, w: int, kernel: Seq<i32>, i: int, n: nat) -> int
    decreases n,
{
    if n == 0 {
        0
    } else {
        taps_sum(padded, w, kernel, i, (n - 1) as nat) + tap(padded, w, kernel, i, n - 1)
    }
}

/// The filter response at output sample `i`: the weighted sum of the 3x3
/// neighbourhood of padded samples that starts at `i`.
pub open spec fn response(padded: Seq<u8>, w: int, kernel: Seq<i32>, i: int) -> int {
    taps_sum(padded, w, kernel, i, 9)
}

/// The response at `i` written out tap by tap: the three padded samples from
/// `i`, from `i + w` and from `i + 2 * w`, weighted by the kernel's rows.
pub proof fn lemma_response_expanded(padded: Seq<u8>, w: int, kernel: Seq<i32>, i: int)
    ensures
        response(padded, w, kernel, i) == padded[i] as int * kernel[0] as int + padded[i + 1] as int
            * kernel[1] as int + padded[i + 2] as int * kernel[2] as int + padded[i + w] as int
            * kernel[3] as int + padded[i + w + 1] as int * kernel[4] as int + padded[i + w + 2] as int
            * kernel[5] as int + padded[i + 2 * w] as int * kernel[6] as int + padded[i + 2 * w
            + 1] as int * kernel[7] as int + padded[i + 2 * w + 2] as int * kernel[8] as int,
{
    reveal_with_fuel(taps_sum, 10);
    assert(0int % 3 == 0 && 0int / 3 == 0 && 3int % 3 == 0 && 3int / 3 == 1);
    assert(6int % 3 == 0 && 6int / 3 == 2);
    assert(tap(padded, w, kernel, i, 0) == padded[i] as int * kernel[0] as int);
    assert(tap(padded, w, kernel, i, 3) == padded[i + w] as int * kernel[3] as int);
    assert(tap(padded, w, kernel, i, 6) == padded[i + 2 * w] as int * kernel[6] as int);
}

/// Every product and every running sum of the response at `i` is an `i32`,
/// so that the sum is computed in `i32` without overflow.
pub open spec fn response_fits(padded: Seq<u8>, w: int, kernel: Seq<i32>, i: int) -> bool {
    forall|n: int|
        0 <= n < 9 ==> fits_i32(#[trigger] tap(padded, w, kernel, i, n)) && fits_i32(
            taps_sum(padded, w, kernel, i, (n + 1) as nat),
        )
}

/// The filter response at output sample `i`, accumulated in `i32` tap by
/// tap; `None` when a product or a running sum leaves `i32`.
pub fn response_at(padded: &Vec<u8>, width: u32, kernel: &[i32], i: u32) -> (r: Option<i32>)
    requires
        kernel@.len() >= 9,
        i as int + 2 * width as int + 2 < padded@.len(),
        padded@.len() <= u32::MAX,
    ensures
        r is Some <==> response_fits(padded@, width as int, kernel@, i as int),
        r matches Some(v) ==> v == response(padded@, width as int, kernel@, i as int),
{
    let ghost p = padded@;
    let ghost w = width as int;
    let ghost k = kernel@;
    let mut t: i32 = 0;
    let mut k_y: u32 = 0;
    while k_y < 3
        invariant
            p == padded@,
            w == width,
            k == kernel@,
            k.len() >= 9,
            i as int + 2 * w + 2 < p.len(),
            p.len() <= u32::MAX,
            k_y <= 3,
            t == taps_sum(p, w, k, i as int, (3 * k_y) as nat),
            forall|m: int|
                0 <= m < 3 * k_y ==> fits_i32(#[trigger] tap(p, w, k, i as int, m)) && fits_i32(
                    taps_sum(p, w, k, i as int, (m + 1) as nat),
                ),
        decreases 3 - k_y,
    {
        proof {
            lemma_mul_le(k_y as int, 2, w);
        }
        let dy: u32 = k_y * width;
        let mut k_x: u32 = 0;
        while k_x < 3
            invariant
                p == padded@,
                w == width,
                k == kernel@,
                k.len() >= 9,
                i as int + 2 * w + 2 < p.len(),
                p.len() <= u32::MAX,
                k_y < 3,
                dy == k_y * w,
                dy <= 2 * w,
                k_x <= 3,
                t == taps_sum(p, w, k, i as int, (3 * k_y + k_x) as nat),
                forall|m: int|
                    0 <= m < 3 * k_y + k_x ==> fits_i32(#[trigger] tap(p, w, k, i as int, m))
                        && fits_i32(taps_sum(p, w, k, i as int, (m + 1) as nat)),
            decreases 3 - k_x,
        {
            let ghost n: int = 3 * k_y + k_x;
            assert(n % 3 == k_x && n / 3 == k_y);
            let kv = kernel[(k_x + k_y * 3) as usize];
            let v = padded[(i + k_x + dy) as usize] as i32;
            assert(v as int * kv as int == tap(p, w, k, i as int, n));
            match v.checked_mul(kv) {
                None => {
                    return None;
                },
                Some(prod) => {
                    match t.checked_add(prod) {
                        None => {
                            return None;
                        },
                        Some(sum) => {
                            t = sum;
                        },
                    }
                },
            }
            k_x += 1;
        }
        k_y += 1;
    }
    Some(t)
}


/// `into_par_iter` over `0..n`, `map` with `response_at`, `collect` into a
/// `Vec` (rayon): the responses at `0, 1, .., n - 1`, in that order, which
/// rayon keeps when it collects an indexed iterator such as a range.
#[verifier::external_body]
fn par_responses(padded: &Vec<u8>, width: u32, kernel: &[i32], n: u32) -> (r: Vec<Option<i32>>)
    requires
        kernel@.len() >= 9,
        n as int + 2 * width as int + 1 < padded@.len(),
        padded@.len() <= u32::MAX,
    ensures
        r@.len() == n,
        forall|i: int|
            0 <= i < n ==> (#[trigger] r@[i] is Some <==> response_fits(
                padded@,
                width as int,
                kernel@,
                i,
            )) && (r@[i] matches Some(v) ==> v == response(padded@, width as int, kernel@, i)),
{
    (0..n).into_par_iter().map(|i| response_at(padded, width, kernel, i)).collect()
}

/// The samples that the 3x3 filter gives for a `w` by `h` image: output
/// sample `i` is the clamped response of the one-dimensionally padded
/// samples at `i`.
pub open spec fn filtered(samples: Seq<u8>, w: int, h: int, kernel: Seq<i32>) -> Seq<u8> {
    Seq::new(
        (w * h) as nat,
        |i: int| clamp_spec(response(padded1d(samples, w, h), w, kernel, i)) as u8,
    )
}

/// Every response of the filter over the image is computed in `i32`
/// without overflow.
pub open spec fn filter_fits(samples: Seq<u8>, w: int, h: int, kernel: Seq<i32>) -> bool {
    forall|i: int|
        0 <= i < w * h ==> #[trigger] response_fits(padded1d(samples, w, h), w, kernel, i)
}

/// Each filtered sample is the response limited to `0..=255`: 0 for a
/// negative response, 255 for a response above 255, the response itself
/// otherwise.
pub proof fn lemma_filtered_limits(samples: Seq<u8>, w: int, h: int, kernel: Seq<i32>, i: int)
    requires
        0 <= i < w * h,
    ensures
        0 <= filtered(samples, w, h, kernel)[i] <= 255,
        response(padded1d(samples, w, h), w, kernel, i) < 0 ==> filtered(samples, w, h, kernel)[i]
            == 0,
        response(padded1d(samples, w, h), w, kernel, i) > 255 ==> filtered(samples, w, h, kernel)[i]
            == 255,
        0 <= response(padded1d(samples, w, h), w, kernel, i) <= 255 ==> filtered(
            samples,
            w,
            h,
            kernel,
        )[i] as int == response(padded1d(samples, w, h), w, kernel, i),
{
    let v = response(padded1d(samples, w, h), w, kernel, i);
    lemma_clamp_limits(v);
}

/// The 3x3 filter, where a product or a running sum of a response may leave
/// `i32`: `None` exactly then, and otherwise the filtered image.
pub fn flt3x3_checked(image: &GrayBuffer, kernel: &[i32]) -> (r: Option<GrayBuffer>)
    requires
        kernel@.len() >= 9,
        padding1d_fits(gray_width(*image), gray_height(*image)),
    ensures
        r is Some <==> filter_fits(
            gray_samples(*image),
            gray_width(*image),
            gray_height(*image),
            kernel@,
        ),
        r matches Some(out) ==> gray_dimensions(out) == gray_dimensions(*image) && gray_samples(
            out,
        ) == filtered(gray_samples(*image), gray_width(*image), gray_height(*image), kernel@),
{
    let (width, height) = image.dimensions();
    let ghost w = width as int;
    let ghost h = height as int;
    let ghost s = gray_samples(*image);
    let image_padded = padding1d(image);
    let ghost p = image_padded@;
    proof {
        lemma_mul_add(w, h, 2);
        lemma_mul_le(0, h, w);
    }
    let n: u32 = width * height;
    let responses = par_responses(&image_padded, width, kernel, n);
    let mut flt: Vec<u8> = Vec::new();
    let mut i: u32 = 0;
    while i < n
        invariant
            w == width,
            h == height,
            s == gray_samples(*image),
            gray_dimensions(*image) == (width, height),
            p == padded1d(s, w, h),
            kernel@.len() >= 9,
            n == w * h,
            i <= n,
            responses@.len() == n,
            forall|j: int|
                0 <= j < n ==> (#[trigger] responses@[j] is Some <==> response_fits(p, w, kernel@, j))
                    && (responses@[j] matches Some(v) ==> v == response(p, w, kernel@, j)),
            flt@.len() == i,
            forall|j: int| 0 <= j < i ==> #[trigger] response_fits(p, w, kernel@, j),
            forall|j: int|
                0 <= j < i ==> #[trigger] flt@[j] == clamp_spec(response(p, w, kernel@, j)) as u8,
        decreases n - i,
    {
        match responses[i as usize] {
            None => {
                assert(!response_fits(padded1d(s, w, h), w, kernel@, i as int));
                return None;
            },
            Some(t) => {
                let c = clamp(t);
                flt.push(c as u8);
            },
        }
        i += 1;
    }
    assert(flt@ =~= filtered(s, w, h, kernel@));
    let out = GrayBuffer::from_raw(width, height, flt);
    out
}

/// Performs the 3x3 filter with the nine weights `kernel[0..9]`, row by row,
/// on the image laid out by `padding1d`: output sample `i` is the weighted
/// sum of the padded samples `i + dx + dy * width` (`dx`, `dy` in `0..3`),
/// limited to `0..=255`. Near the left and right edges the neighbourhood
/// takes its samples from the end of the row above or the start of the row
/// below, as the one-dimensional padding places them.
pub fn flt3x3(image: &GrayBuffer, kernel: &[i32]) -> (r: GrayBuffer)
    requires
        kernel@.len() >= 9,
        padding1d_fits(gray_width(*image), gray_height(*image)),
        filter_fits(gray_samples(*image), gray_width(*image), gray_height(*image), kernel@),
    ensures
        gray_dimensions(r) == gray_dimensions(*image),
        gray_samples(r) == filtered(
            gray_samples(*image),
            gray_width(*image),
            gray_height(*image),
            kernel@,
        ),
        forall|i: int|
            0 <= i < gray_width(*image) * gray_height(*image) ==> {
                let v = response(
                    padded1d(gray_samples(*image), gray_width(*image), gray_height(*image)),
                    gray_width(*image),
                    kernel@,
                    i,
                );
                &&& v < 0 ==> #[trigger] gray_samples(r)[i] == 0
                &&& v > 255 ==> gray_samples(r)[i] == 255
                &&& 0 <= v <= 255 ==> gray_samples(r)[i] as int == v
            },
{
    let out = flt3x3_checked(image, kernel);
    let r = out.unwrap();
    proof {
        let s = gray_samples(*image);
        let w = gray_width(*image);
        let h = gray_height(*image);
        assert forall|i: int| 0 <= i < w * h implies {
            let v = response(padded1d(s, w, h), w, kernel@, i);
            &&& v < 0 ==> #[trigger] gray_samples(r)[i] == 0
            &&& v > 255 ==> gray_samples(r)[i] == 255
            &&& 0 <= v <= 255 ==> gray_samples(r)[i] as int == v
        } by {
            lemma_filtered_limits(s, w, h, kernel@, i);
        }
    }
    r
}


/// The sample at `(x, y)` of a `w` by `h` image framed by a one-pixel zero
/// border: the pixel `(x - 1, y - 1)` of the image inside the border, 0 on
/// the border.
pub open spec fn framed_at(samples: Seq<u8>, w: int, h: int, x: int, y: int) -> u8 {
    if 1 <= x <= w && 1 <= y <= h {
        samples[(y - 1) * w + (x - 1)]
    } else {
        0u8
    }
}

/// The zero frame is 0 on every pixel outside the image, in particular on
/// the first and last row and column, and holds pixel `(x - 1, y - 1)` of
/// the image at `(x, y)` inside.
pub proof fn lemma_framed_border(samples: Seq<u8>, w: int, h: int, x: int, y: int)
    ensures
        x == 0 || x == w + 1 || y == 0 || y == h + 1 ==> framed_at(samples, w, h, x, y) == 0,
        !(1 <= x <= w && 1 <= y <= h) ==> framed_at(samples, w, h, x, y) == 0,
        1 <= x <= w && 1 <= y <= h ==> framed_at(samples, w, h, x, y) == samples[(y - 1) * w + x
            - 1],
{
}

/// The sizes for which the framed image can be made.
pub open spec fn padding_fits(w: int, h: int) -> bool {
    &&& w + 2 <= u32::MAX
    &&& h + 2 <= u32::MAX
    &&& (w + 2) * (h + 2) <= usize::MAX
}

/// Which pixels of the framed image the loop in `padding` has written after
/// the rows before `y` and the first `x` pixels of row `y`.
pub open spec fn framed_so_far(samples: Seq<u8>, w: int, h: int, x: int, y: int, xx: int, yy: int) -> u8 {
    if 1 <= xx <= w && 1 <= yy <= h && (yy - 1 < y || (yy - 1 == y && xx - 1 < x)) {
        samples[(yy - 1) * w + (xx - 1)]
    } else {
        0u8
    }
}

/// Frames the image with a one-pixel zero border: the result is two pixels
/// wider and higher, holds the image from `(1, 1)` on, and is 0 elsewhere.
pub fn padding(image: &GrayBuffer) -> (r: GrayBuffer)
    requires
        padding_fits(gray_width(*image), gray_height(*image)),
    ensures
        gray_dimensions(r) == ((gray_width(*image) + 2) as u32, (gray_height(*image) + 2) as u32),
        gray_samples(r).len() == (gray_width(*image) + 2) * (gray_height(*image) + 2),
        forall|x: int, y: int|
            0 <= x < gray_width(*image) + 2 && 0 <= y < gray_height(*image) + 2 ==> #[trigger] gray_at(
                r,
                x,
                y,
            ) == framed_at(gray_samples(*image), gray_width(*image), gray_height(*image), x, y),
        forall|x: int, y: int|
            0 <= x < gray_width(*image) + 2 && 0 <= y < gray_height(*image) + 2 && !(1 <= x
                <= gray_width(*image) && 1 <= y <= gray_height(*image)) ==> #[trigger] gray_at(r, x, y)
                == 0,
        forall|x: int, y: int|
            1 <= x <= gray_width(*image) && 1 <= y <= gray_height(*image) ==> #[trigger] gray_at(
                r,
                x,
                y,
            ) == gray_at(*image, x - 1, y - 1),
{
    let (width, height) = image.dimensions();
    let raw = image.as_raw();
    let ghost w = width as int;
    let ghost h = height as int;
    let ghost s = gray_samples(*image);
    let mut out = GrayBuffer::new(width + 2, height + 2);
    let ghost w2 = w + 2;
    let ghost h2 = h + 2;
    let raw_len = raw.len();
    proof {
        assert forall|xx: int, yy: int|
            0 <= xx < w2 && 0 <= yy < h2 implies #[trigger] gray_samples(out)[yy * w2 + xx]
                == framed_so_far(s, w, h, 0, 0, xx, yy) by {
            lemma_row_major_bound(w2, h2, xx, yy);
        }
    }
    let mut y: u32 = 0;
    while y < height
        invariant
            w == width,
            h == height,
            w2 == w + 2,
            h2 == h + 2,
            padding_fits(w, h),
            s == gray_samples(*image),
            raw@ == s,
            s.len() >= w * h,
            s.len() == raw_len,
            y <= height,
            gray_dimensions(out) == (w2 as u32, h2 as u32),
            gray_samples(out).len() == w2 * h2,
            forall|xx: int, yy: int|
                0 <= xx < w2 && 0 <= yy < h2 ==> #[trigger] gray_samples(out)[yy * w2 + xx]
                    == framed_so_far(s, w, h, 0, y as int, xx, yy),
        decreases height - y,
    {
        let mut x: u32 = 0;
        while x < width
            invariant
                w == width,
                h == height,
                w2 == w + 2,
                h2 == h + 2,
                padding_fits(w, h),
                s == gray_samples(*image),
                raw@ == s,
                s.len() >= w * h,
                s.len() == raw_len,
                y < height,
                x <= width,
                gray_dimensions(out) == (w2 as u32, h2 as u32),
                gray_samples(out).len() == w2 * h2,
                forall|xx: int, yy: int|
                    0 <= xx < w2 && 0 <= yy < h2 ==> #[trigger] gray_samples(out)[yy * w2 + xx]
                        == framed_so_far(s, w, h, x as int, y as int, xx, yy),
            decreases width - x,
        {
            proof {
                lemma_row_major_bound(w, h, x as int, y as int);
                lemma_row_major_bound(w2, h2, x + 1, y + 1);
            }
            let v = raw[y as usize * width as usize + x as usize];
            let ghost before = gray_samples(out);
            out.put_pixel(x + 1, y + 1, v);
            proof {
                assert forall|xx: int, yy: int|
                    0 <= xx < w2 && 0 <= yy < h2 implies #[trigger] gray_samples(out)[yy * w2 + xx]
                        == framed_so_far(s, w, h, x + 1, y as int, xx, yy) by {
                    lemma_row_major_bound(w2, h2, xx, yy);
                    lemma_row_major_bound(w2, h2, x + 1, y + 1);
                    if xx != x + 1 || yy != y + 1 {
                        if yy * w2 + xx == (y + 1) * w2 + (x + 1) {
                            lemma_row_major_unique(w2, xx, yy, x + 1, y + 1);
                        }
                        assert(gray_samples(out)[yy * w2 + xx] == before[yy * w2 + xx]);
                    }
                }
            }
            x += 1;
        }
        proof {
            assert forall|xx: int, yy: int|
                0 <= xx < w2 && 0 <= yy < h2 implies #[trigger] gray_samples(out)[yy * w2 + xx]
                    == framed_so_far(s, w, h, 0, y + 1, xx, yy) by {
                lemma_row_major_bound(w2, h2, xx, yy);
                assert(framed_so_far(s, w, h, w, y as int, xx, yy) == framed_so_far(s, w, h, 0, y + 1, xx, yy));
            }
        }
        y += 1;
    }
    proof {
        assert forall|x: int, y: int|
            0 <= x < w2 && 0 <= y < h2 implies #[trigger] gray_at(out, x, y) == framed_at(s, w, h, x, y) by {
            lemma_row_major_bound(w2, h2, x, y);
            assert(gray_at(out, x, y) == gray_samples(out)[y * w2 + x]);
        }
        assert forall|x: int, y: int|
            0 <= x < w2 && 0 <= y < h2 && !(1 <= x <= w && 1 <= y <= h) implies #[trigger] gray_at(
            out,
            x,
            y,
        ) == 0 by {
            lemma_framed_border(s, w, h, x, y);
        }
        assert forall|x: int, y: int| 1 <= x <= w && 1 <= y <= h implies #[trigger] gray_at(out, x, y)
            == gray_at(*image, x - 1, y - 1) by {
            lemma_framed_border(s, w, h, x, y);
            assert(gray_at(out, x, y) == framed_at(s, w, h, x, y));
        }
    }
    out
}


/// The `n`-th tap of the 3x3 filter over the zero-framed image at `(x, y)`:
/// weight `kernel[n]` times the framed sample at `(x + n % 3, y + n / 3)`,
/// which is pixel `(x + n % 3 - 1, y + n / 3 - 1)` of the image.
pub open spec fn framed_tap(samples: Seq<u8>, w: int, h: int, kernel: Seq<i32>, x: int, y: int, n: int) -> int {
    framed_at(samples, w, h, x + n % 3, y + n / 3) as int * kernel[n] as int
}

/// The sum of the first `n` taps over the zero-framed image at `(x, y)`.
pub open spec fn framed_taps_sum(
    samples: Seq<u8>,
    w: int,
    h: int,
    kernel: Seq<i32>,
    x: int,
    y: int,
    n: nat,
) -> int
    decreases n,
{
    if n == 0 {
        0
    } else {
        framed_taps_sum(samples, w, h, kernel, x, y, (n - 1) as nat) + framed_tap(
            samples,
            w,
            h,
            kernel,
            x,
            y,
            n - 1,
        )
    }
}

/// One tap of the filter over the one-dimensional padding reads the same
/// sample as the tap over the zero-framed image, for a pixel that is not in
/// the first or last column.
proof fn lemma_tap_matches_framed(
    samples: Seq<u8>,
    w: int,
    h: int,
    kernel: Seq<i32>,
    x: int,
    y: int,
    n: int,
)
    requires
        0 <= y < h,
        1 <= x < w - 1,
        samples.len() >= w * h,
        0 <= n < 9,
    ensures
        tap(padded1d(samples, w, h), w, kernel, y * w + x, n) == framed_tap(
            samples,
            w,
            h,
            kernel,
            x,
            y,
            n,
        ),
{
    let kx = n % 3;
    let ky = n / 3;
    let j = y * w + x + kx + ky * w;
    let row = y + ky - 1;
    let col = x + kx - 1;
    lemma_mul_add(w, y, ky - 1);
    lemma_mul_add(w, y, ky);
    lemma_mul_add(w, ky - 1, 1);
    assert(j - w - 1 == row * w + col);
    lemma_mul_add(w, h, 2);
    lemma_row_major_bound(w, h, x, y);
    if 0 <= row < h {
        lemma_row_major_bound(w, h, col, row);
    } else if row < 0 {
        assert(row == -1);
        assert(row * w == -w);
    } else {
        assert(row == h);
        assert(row * w == h * w);
    }
    lemma_mul_le(ky, 2, w);
    lemma_mul_le(0, ky, w);
    assert(0 <= j < w * (h + 2) + 2);
}

/// Away from the first and last column, the 3x3 filter over the
/// one-dimensional padding is the 3x3 filter over the image framed by a
/// zero border, as `padding` makes it: the response at `(x, y)` weighs the
/// pixels `(x + dx - 1, y + dy - 1)`, and a neighbour above the first or
/// below the last row counts as 0.
pub proof fn lemma_filter_is_framed_filter(
    samples: Seq<u8>,
    w: int,
    h: int,
    kernel: Seq<i32>,
    x: int,
    y: int,
)
    requires
        0 <= y < h,
        1 <= x < w - 1,
        samples.len() >= w * h,
    ensures
        response(padded1d(samples, w, h), w, kernel, y * w + x) == framed_taps_sum(
            samples,
            w,
            h,
            kernel,
            x,
            y,
            9,
        ),
{
    lemma_tap_matches_framed(samples, w, h, kernel, x, y, 0);
    lemma_tap_matches_framed(samples, w, h, kernel, x, y, 1);
    lemma_tap_matches_framed(samples, w, h, kernel, x, y, 2);
    lemma_tap_matches_framed(samples, w, h, kernel, x, y, 3);
    lemma_tap_matches_framed(samples, w, h, kernel, x, y, 4);
    lemma_tap_matches_framed(samples, w, h, kernel, x, y, 5);
    lemma_tap_matches_framed(samples, w, h, kernel, x, y, 6);
    lemma_tap_matches_framed(samples, w, h, kernel, x, y, 7);
    lemma_tap_matches_framed(samples, w, h, kernel, x, y, 8);
    reveal_with_fuel(taps_sum, 10);
    reveal_with_fuel(framed_taps_sum, 10);
}

/// The kernel with weight 1 at the centre and 0 elsewhere.
pub open spec fn is_identity_kernel(kernel: Seq<i32>) -> bool {
    &&& kernel.len() >= 9
    &&& forall|n: int|
        0 <= n < 9 ==> #[trigger] kernel[n] == if n == 4 {
            1i32
        } else {
            0i32
        }
}

/// The response of the identity kernel at `i` is the sample `i`.
proof fn lemma_identity_response(samples: Seq<u8>, w: int, h: int, kernel: Seq<i32>, i: int)
    requires
        0 <= w,
        0 <= h,
        samples.len() >= w * h,
        is_identity_kernel(kernel),
        0 <= i < w * h,
    ensures
        response_fits(padded1d(samples, w, h), w, kernel, i),
        response(padded1d(samples, w, h), w, kernel, i) == samples[i] as int,
{
    let p = padded1d(samples, w, h);
    assert(kernel[0] == 0 && kernel[1] == 0 && kernel[2] == 0 && kernel[3] == 0);
    assert(kernel[4] == 1 && kernel[5] == 0 && kernel[6] == 0);
    assert(kernel[7] == 0 && kernel[8] == 0);
    lemma_mul_add(w, h, 2);
    assert(p[i + 1 + w] == samples[i]);
    assert(4int % 3 == 1 && 4int / 3 == 1);
    assert(tap(p, w, kernel, i, 4) == p[i + 1 + 1 * w] as int * kernel[4] as int);
    assert(tap(p, w, kernel, i, 4) == samples[i] as int);
    reveal_with_fuel(taps_sum, 10);
    let v = samples[i] as int;
    assert(taps_sum(p, w, kernel, i, 1) == 0);
    assert(taps_sum(p, w, kernel, i, 2) == 0);
    assert(taps_sum(p, w, kernel, i, 3) == 0);
    assert(taps_sum(p, w, kernel, i, 4) == 0);
    assert(taps_sum(p, w, kernel, i, 5) == v);
    assert(taps_sum(p, w, kernel, i, 6) == v);
    assert(taps_sum(p, w, kernel, i, 7) == v);
    assert(taps_sum(p, w, kernel, i, 8) == v);
    assert(taps_sum(p, w, kernel, i, 9) == v);
    assert forall|n: int| 0 <= n < 9 implies fits_i32(#[trigger] tap(p, w, kernel, i, n))
        && fits_i32(taps_sum(p, w, kernel, i, (n + 1) as nat)) by {
        if n == 0 {
        } else if n == 1 {
        } else if n == 2 {
        } else if n == 3 {
        } else if n == 4 {
        } else if n == 5 {
        } else if n == 6 {
        } else if n == 7 {
        } else {
        }
    }
}

/// The filter with weight 1 at the centre and 0 elsewhere never overflows
/// and gives back the samples of every pixel of the image: the first
/// `w * h` samples of its buffer.
pub proof fn lemma_identity_kernel(samples: Seq<u8>, w: int, h: int, kernel: Seq<i32>)
    requires
        0 <= w,
        0 <= h,
        samples.len() >= w * h,
        is_identity_kernel(kernel),
    ensures
        filter_fits(samples, w, h, kernel),
        filtered(samples, w, h, kernel) == samples.subrange(0, w * h),
{
    assert forall|i: int| 0 <= i < w * h implies #[trigger] response_fits(
        padded1d(samples, w, h),
        w,
        kernel,
        i,
    ) by {
        lemma_identity_response(samples, w, h, kernel, i);
    }
    assert forall|i: int| 0 <= i < w * h implies #[trigger] filtered(samples, w, h, kernel)[i]
        == samples[i] by {
        lemma_identity_response(samples, w, h, kernel, i);
    }
    assert(filtered(samples, w, h, kernel) =~= samples.subrange(0, w * h));
}

/// The response of the zero kernel is 0.
proof fn lemma_zero_response(samples: Seq<u8>, w: int, h: int, kernel: Seq<i32>, i: int)
    requires
        kernel.len() >= 9,
        forall|n: int| 0 <= n < 9 ==> #[trigger] kernel[n] == 0,
    ensures
        response_fits(padded1d(samples, w, h), w, kernel, i),
        response(padded1d(samples, w, h), w, kernel, i) == 0,
{
    assert(kernel[0] == 0 && kernel[1] == 0 && kernel[2] == 0 && kernel[3] == 0);
    assert(kernel[4] == 0 && kernel[5] == 0 && kernel[6] == 0);
    assert(kernel[7] == 0 && kernel[8] == 0);
    reveal_with_fuel(taps_sum, 10);
}

/// The filter with all nine weights 0 never overflows and gives a black
/// image.
pub proof fn lemma_zero_kernel(samples: Seq<u8>, w: int, h: int, kernel: Seq<i32>)
    requires
        0 <= w,
        0 <= h,
        kernel.len() >= 9,
        forall|n: int| 0 <= n < 9 ==> #[trigger] kernel[n] == 0,
    ensures
        filter_fits(samples, w, h, kernel),
        filtered(samples, w, h, kernel) == Seq::new((w * h) as nat, |i: int| 0u8),
{
    assert forall|i: int| 0 <= i < w * h implies #[trigger] response_fits(
        padded1d(samples, w, h),
        w,
        kernel,
        i,
    ) by {
        lemma_zero_response(samples, w, h, kernel, i);
    }
    assert forall|i: int| 0 <= i < w * h implies #[trigger] filtered(samples, w, h, kernel)[i]
        == 0u8 by {
        lemma_zero_response(samples, w, h, kernel, i);
    }
    assert(filtered(samples, w, h, kernel) =~= Seq::new((w * h) as nat, |i: int| 0u8));
}

} // verus!
