//! Gray and RGB images held in `image::ImageBuffer`.
//!
//! The image buffers of the `image` crate carry the pixel type as a generic
//! parameter bound by the crate's `Pixel` trait, which Verus cannot take as
//! a declared type. Each buffer therefore sits in a private field of a type
//! of this library. What a buffer holds is named by `gray_samples` /
//! `rgb_samples` (its raw sample buffer) and `gray_dimensions` /
//! `rgb_dimensions` (the width and height it was made with); the trusted
//! wrappers below state what each method of `ImageBuffer` does to those.

use vstd::prelude::*;

verus! {

/// A one-channel, 8-bit image (`image::GrayImage`).
#[verifier::external_body]
pub struct GrayBuffer {
    img: image::GrayImage,
}

/// A three-channel, 8-bit RGB image (`image::RgbImage`).
#[verifier::external_body]
pub struct RgbBuffer {
    img: image::RgbImage,
}

/// The raw sample buffer of a gray image, one sample per pixel, row by row.
pub uninterp spec fn gray_samples(img: GrayBuffer) -> Seq<u8>;

/// The width and height that a gray image was made with.
pub uninterp spec fn gray_dimensions(img: GrayBuffer) -> (u32, u32);

/// The raw sample buffer of an RGB image, three samples per pixel, row by row.
pub uninterp spec fn rgb_samples(img: RgbBuffer) -> Seq<u8>;

/// The width and height that an RGB image was made with.
pub uninterp spec fn rgb_dimensions(img: RgbBuffer) -> (u32, u32);

/// Width of a gray image.
pub open spec fn gray_width(img: GrayBuffer) -> int {
    gray_dimensions(img).0 as int
}

/// Height of a gray image.
pub open spec fn gray_height(img: GrayBuffer) -> int {
    gray_dimensions(img).1 as int
}

/// The sample of pixel `(x, y)` of a gray image.
pub open spec fn gray_at(img: GrayBuffer, x: int, y: int) -> u8 {
    gray_samples(img)[y * gray_width(img) + x]
}

/// Width of an RGB image.
pub open spec fn rgb_width(img: RgbBuffer) -> int {
    rgb_dimensions(img).0 as int
}

/// Height of an RGB image.
pub open spec fn rgb_height(img: RgbBuffer) -> int {
    rgb_dimensions(img).1 as int
}

/// The number of pixels of an RGB image.
pub open spec fn rgb_pixel_count(img: RgbBuffer) -> int {
    rgb_width(img) * rgb_height(img)
}

/// The number of pixels of a gray image.
pub open spec fn gray_pixel_count(img: GrayBuffer) -> int {
    gray_width(img) * gray_height(img)
}

/// What every `ImageBuffer` keeps: its buffer holds at least one sample per
/// channel and pixel.
pub open spec fn gray_wf(img: GrayBuffer) -> bool {
    gray_samples(img).len() >= gray_pixel_count(img)
}

/// What every `ImageBuffer` keeps, for three channels.
pub open spec fn rgb_wf(img: RgbBuffer) -> bool {
    rgb_samples(img).len() >= 3 * rgb_pixel_count(img)
}

/// `ImageBuffer::from_raw` for a gray image: `Some` exactly when
/// `width * height` fits in `usize` and the buffer holds at least that many
/// samples; the image then holds the buffer as given.
#[verifier::external_body]
fn gray_from_raw(width: u32, height: u32, buf: Vec<u8>) -> (r: Option<GrayBuffer>)
    ensures
        r is Some <==> (width as int * height as int <= usize::MAX && buf@.len()
            >= width as int * height as int),
        r matches Some(img) ==> gray_samples(img) == buf@ && gray_dimensions(img) == (
        width,
        height,
        ),
{
    match image::ImageBuffer::from_raw(width, height, buf) {
        Some(img) => Some(GrayBuffer { img }),
        None => None,
    }
}

/// `ImageBuffer::new` for a gray image: all `width * height` samples are 0.
/// It panics when `width * height` does not fit in `usize`.
#[verifier::external_body]
fn gray_new(width: u32, height: u32) -> (r: GrayBuffer)
    requires
        width as int * height as int <= usize::MAX,
    ensures
        gray_dimensions(r) == (width, height),
        gray_samples(r) == Seq::new((width as int * height as int) as nat, |i: int| 0u8),
{
    GrayBuffer { img: image::ImageBuffer::new(width, height) }
}

/// `ImageBuffer::put_pixel` for a gray image: writes the one sample of pixel
/// `(x, y)`, at index `y * width + x`. It panics outside the image.
#[verifier::external_body]
fn gray_put_pixel(img: &mut GrayBuffer, x: u32, y: u32, v: u8)
    requires
        x < gray_width(*old(img)),
        y < gray_height(*old(img)),
        gray_wf(*old(img)),
    ensures
        gray_dimensions(*final(img)) == gray_dimensions(*old(img)),
        gray_samples(*final(img)) == gray_samples(*old(img)).update(
            y * gray_width(*old(img)) + x,
            v,
        ),
{
    img.img.put_pixel(x, y, image::Luma([v]))
}

/// `ImageBuffer::as_raw` for a gray image. Every constructor of
/// `ImageBuffer` checks that the buffer holds a sample for each pixel.
#[verifier::external_body]
fn gray_as_raw(img: &GrayBuffer) -> (r: &Vec<u8>)
    ensures
        r@ == gray_samples(*img),
        r@.len() >= gray_pixel_count(*img),
{
    img.img.as_raw()
}

/// `ImageBuffer::dimensions` for a gray image.
#[verifier::external_body]
fn gray_dims(img: &GrayBuffer) -> (r: (u32, u32))
    ensures
        r == gray_dimensions(*img),
{
    img.img.dimensions()
}

/// `ImageBuffer::from_raw` for an RGB image: `Some` exactly when the
/// buffer length it needs, computed as `(3 * width) * height` with a check
/// on each product, fits in `usize` and the buffer holds at least that many
/// samples; the image then holds the buffer as given.
#[verifier::external_body]
fn rgb_from_raw(width: u32, height: u32, buf: Vec<u8>) -> (r: Option<RgbBuffer>)
    ensures
        r is Some <==> (3 * width as int <= usize::MAX && 3 * (width as int * height as int)
            <= usize::MAX && buf@.len() >= 3 * (
        width as int * height as int)),
        r matches Some(img) ==> rgb_samples(img) == buf@ && rgb_dimensions(img) == (
        width,
        height,
        ),
{
    match image::ImageBuffer::from_raw(width, height, buf) {
        Some(img) => Some(RgbBuffer { img }),
        None => None,
    }
}

/// `Clone::clone` of an RGB `ImageBuffer`: same size, same samples.
#[verifier::external_body]
fn rgb_clone(img: &RgbBuffer) -> (r: RgbBuffer)
    ensures
        rgb_dimensions(r) == rgb_dimensions(*img),
        rgb_samples(r) == rgb_samples(*img),
{
    RgbBuffer { img: img.img.clone() }
}

/// `ImageBuffer::put_pixel` for an RGB image: writes the three samples of
/// pixel `(x, y)`, from index `3 * (y * width + x)` on. It panics outside
/// the image.
#[verifier::external_body]
fn rgb_put_pixel(img: &mut RgbBuffer, x: u32, y: u32, p: [u8; 3])
    requires
        x < rgb_width(*old(img)),
        y < rgb_height(*old(img)),
        rgb_wf(*old(img)),
    ensures
        rgb_dimensions(*final(img)) == rgb_dimensions(*old(img)),
        rgb_samples(*final(img)) == rgb_samples(*old(img)).update(
            3 * (y * rgb_width(*old(img)) + x),
            p[0],
        ).update(3 * (y * rgb_width(*old(img)) + x) + 1, p[1]).update(
            3 * (y * rgb_width(*old(img)) + x) + 2,
            p[2],
        ),
{
    img.img.put_pixel(x, y, image::Rgb(p))
}

/// `ImageBuffer::as_raw` for an RGB image. Every constructor of
/// `ImageBuffer` checks that the buffer holds three samples for each pixel.
#[verifier::external_body]
fn rgb_as_raw(img: &RgbBuffer) -> (r: &Vec<u8>)
    ensures
        r@ == rgb_samples(*img),
        r@.len() >= 3 * rgb_pixel_count(*img),
{
    img.img.as_raw()
}

/// `ImageBuffer::dimensions` for an RGB image.
#[verifier::external_body]
fn rgb_dims(img: &RgbBuffer) -> (r: (u32, u32))
    ensures
        r == rgb_dimensions(*img),
{
    img.img.dimensions()
}

impl GrayBuffer {
    /// Makes a gray image of the given size from its raw samples; `None`
    /// when the buffer is too short or the size does not fit in memory.
    pub fn from_raw(width: u32, height: u32, buf: Vec<u8>) -> (r: Option<GrayBuffer>)
        ensures
            r is Some <==> (width as int * height as int <= usize::MAX && buf@.len()
                >= width as int * height as int),
            r matches Some(img) ==> gray_samples(img) == buf@ && gray_dimensions(img) == (
            width,
            height,
            ),
    {
        gray_from_raw(width, height, buf)
    }

    /// An all-black gray image of the given size.
    pub fn new(width: u32, height: u32) -> (r: GrayBuffer)
        requires
            width as int * height as int <= usize::MAX,
        ensures
            gray_dimensions(r) == (width, height),
            gray_samples(r) == Seq::new((width as int * height as int) as nat, |i: int| 0u8),
    {
        gray_new(width, height)
    }

    /// The width and height of the image.
    pub fn dimensions(&self) -> (r: (u32, u32))
        ensures
            r == gray_dimensions(*self),
    {
        gray_dims(self)
    }

    /// The raw samples of the image.
    pub fn as_raw(&self) -> (r: &Vec<u8>)
        ensures
            r@ == gray_samples(*self),
            gray_wf(*self),
    {
        gray_as_raw(self)
    }

    /// Sets the sample of pixel `(x, y)`.
    pub fn put_pixel(&mut self, x: u32, y: u32, v: u8)
        requires
            x < gray_width(*old(self)),
            y < gray_height(*old(self)),
        ensures
            gray_dimensions(*final(self)) == gray_dimensions(*old(self)),
            gray_samples(*final(self)) == gray_samples(*old(self)).update(
                y * gray_width(*old(self)) + x,
                v,
            ),
    {
        // every image holds a sample for each of its pixels
        let _ = gray_as_raw(self);
        gray_put_pixel(self, x, y, v)
    }
}

impl RgbBuffer {
    /// Makes an RGB image of the given size from its raw samples; `None`
    /// when the buffer is too short, or when `3 * width` or
    /// `3 * width * height` does not fit in `usize`.
    pub fn from_raw(width: u32, height: u32, buf: Vec<u8>) -> (r: Option<RgbBuffer>)
        ensures
            r is Some <==> (3 * width as int <= usize::MAX && 3 * (width as int * height as int)
                <= usize::MAX && buf@.len() >= 3 * (width as int * height as int)),
            r matches Some(img) ==> rgb_samples(img) == buf@ && rgb_dimensions(img) == (
            width,
            height,
            ),
    {
        rgb_from_raw(width, height, buf)
    }

    /// The width and height of the image.
    pub fn dimensions(&self) -> (r: (u32, u32))
        ensures
            r == rgb_dimensions(*self),
    {
        rgb_dims(self)
    }

    /// The raw samples of the image.
    pub fn as_raw(&self) -> (r: &Vec<u8>)
        ensures
            r@ == rgb_samples(*self),
            rgb_wf(*self),
    {
        rgb_as_raw(self)
    }

    /// A copy of the image.
    pub fn duplicate(&self) -> (r: RgbBuffer)
        ensures
            rgb_dimensions(r) == rgb_dimensions(*self),
            rgb_samples(r) == rgb_samples(*self),
    {
        rgb_clone(self)
    }

    /// Sets the three samples of pixel `(x, y)`.
    pub fn put_pixel(&mut self, x: u32, y: u32, p: [u8; 3])
        requires
            x < rgb_width(*old(self)),
            y < rgb_height(*old(self)),
        ensures
            rgb_dimensions(*final(self)) == rgb_dimensions(*old(self)),
            rgb_samples(*final(self)) == rgb_samples(*old(self)).update(
                3 * (y * rgb_width(*old(self)) + x),
                p[0],
            ).update(3 * (y * rgb_width(*old(self)) + x) + 1, p[1]).update(
                3 * (y * rgb_width(*old(self)) + x) + 2,
                p[2],
            ),
    {
        // every image holds three samples for each of its pixels
        let _ = rgb_as_raw(self);
        rgb_put_pixel(self, x, y, p)
    }
}

} // verus!
