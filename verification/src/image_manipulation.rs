//! Sharpening of grayscale images held in the `image` crate's buffers.

use vstd::prelude::*;

verus! {

/// A grayscale image in a buffer of the `image` crate, with exactly one
/// sample for each pixel. Nothing inside it is visible to the proofs; what
/// it holds is named by `gray_dims` and `gray_pixels`.
#[verifier::external_body]
pub struct GrayRaster {
    inner: image::GrayImage,
}

/// Width and height of the image.
pub uninterp spec fn gray_dims(im: GrayRaster) -> (u32, u32);

/// The sample of each pixel of the image, by column `x` and row `y`.
pub uninterp spec fn gray_pixels(im: GrayRaster) -> Map<(int, int), u8>;

/// Whether `(x, y)` is a pixel of an image of the given size.
pub open spec fn in_image(dims: (u32, u32), x: int, y: int) -> bool {
    0 <= x < dims.0 && 0 <= y < dims.1
}

/// Makes an image of samples given row after row with
/// `ImageBuffer::from_raw`, which keeps the buffer as it is and succeeds
/// when the buffer holds at least `width * height` samples; the pixel
/// `(x, y)` is then the sample `y * width + x`.
#[verifier::external_body]
fn raster_from_raw(width: u32, height: u32, samples: Vec<u8>) -> (im: Option<GrayRaster>)
    requires
        samples.len() == width * height,
    ensures
        im is Some,
        gray_dims(im->0) == (width, height),
        forall|x: int, y: int|
            in_image((width, height), x, y) ==> #[trigger] gray_pixels(im->0)[(x, y)]
                == samples[y * width + x],
{
    image::GrayImage::from_raw(width, height, samples).map(|inner| GrayRaster { inner })
}

/// Makes an image with `ImageBuffer::new`, which fills it with zeros. It
/// panics when the samples do not fit a `Vec`, which the precondition rules
/// out.
#[verifier::external_body]
fn raster_new(width: u32, height: u32) -> (im: GrayRaster)
    requires
        width * height <= isize::MAX,
    ensures
        gray_dims(im) == (width, height),
        forall|x: int, y: int|
            in_image((width, height), x, y) ==> #[trigger] gray_pixels(im)[(x, y)] == 0,
{
    GrayRaster { inner: image::GrayImage::new(width, height) }
}

/// Reads the size with `ImageBuffer::dimensions`, which returns the width
/// and height the buffer was made with. The samples lie in a `Vec`, which
/// never holds more than `isize::MAX` bytes.
#[verifier::external_body]
fn raster_size(im: &GrayRaster) -> (dims: (u32, u32))
    ensures
        dims == gray_dims(*im),
        dims.0 * dims.1 <= isize::MAX,
{
    im.inner.dimensions()
}

/// Reads a pixel with `ImageBuffer::get_pixel`, which panics outside the
/// image.
#[verifier::external_body]
fn raster_get(im: &GrayRaster, x: u32, y: u32) -> (sample: u8)
    requires
        in_image(gray_dims(*im), x as int, y as int),
    ensures
        sample == gray_pixels(*im)[(x as int, y as int)],
{
    im.inner.get_pixel(x, y).0[0]
}

/// Writes a pixel with `ImageBuffer::put_pixel`, which panics outside the
/// image and changes no other pixel.
#[verifier::external_body]
fn raster_put(im: &mut GrayRaster, x: u32, y: u32, sample: u8)
    requires
        in_image(gray_dims(*old(im)), x as int, y as int),
    ensures
        gray_dims(*final(im)) == gray_dims(*old(im)),
        gray_pixels(*final(im)) == gray_pixels(*old(im)).insert((x as int, y as int), sample),
{
    im.inner.put_pixel(x, y, image::Luma([sample]))
}

/// Takes the samples out with `ImageBuffer::into_raw`, which hands back the
/// buffer: row after row, the pixel `(x, y)` at `y * width + x`.
#[verifier::external_body]
fn raster_into_raw(im: GrayRaster) -> (samples: Vec<u8>)
    ensures
        samples.len() == gray_dims(im).0 * gray_dims(im).1,
        forall|x: int, y: int|
            in_image(gray_dims(im), x, y) ==> #[trigger] gray_pixels(im)[(x, y)] == samples[y
                * gray_dims(im).0 + x],
{
    im.inner.into_raw()
}

/// Horizontal offset of the `k`-th position of the 3 by 3 window.
pub open spec fn window_dx(k: int) -> int {
    k / 3 - 1
}

/// Vertical offset of the `k`-th position of the 3 by 3 window.
pub open spec fn window_dy(k: int) -> int {
    k % 3 - 1
}

/// Whether the `k`-th position of the window around `(x, y)` is a
/// neighbour inside the image. Position 4 is the pixel itself.
pub open spec fn is_neighbor(dims: (u32, u32), x: int, y: int, k: int) -> bool {
    k != 4 && in_image(dims, x + window_dx(k), y + window_dy(k))
}

/// The number of neighbours among the first `k` positions of the window.
pub open spec fn neighbor_count(dims: (u32, u32), x: int, y: int, k: int) -> int
    decreases k,
{
    if k <= 0 {
        0
    } else {
        neighbor_count(dims, x, y, k - 1) + if is_neighbor(dims, x, y, k - 1) {
            1int
        } else {
            0int
        }
    }
}

/// The sum of the neighbours' samples among the first `k` positions of the
/// window.
pub open spec fn neighbor_sum(
    pixels: Map<(int, int), u8>,
    dims: (u32, u32),
    x: int,
    y: int,
    k: int,
) -> int
    decreases k,
{
    if k <= 0 {
        0
    } else {
        neighbor_sum(pixels, dims, x, y, k - 1) + if is_neighbor(dims, x, y, k - 1) {
            pixels[(x + window_dx(k - 1), y + window_dy(k - 1))] as int
        } else {
            0int
        }
    }
}

/// Division that rounds toward zero.
pub open spec fn div_toward_zero(a: int, n: int) -> int {
    if a >= 0 {
        a / n
    } else {
        -((-a) / n)
    }
}

/// The sharpened sample of the pixel `(x, y)`: with `n` neighbours, the
/// pixel counts `2 * n` times, each neighbour is taken off once, and the
/// result is divided by `n`, rounding toward zero, and cut to its low
/// eight bits.
pub open spec fn sharpened(pixels: Map<(int, int), u8>, dims: (u32, u32), x: int, y: int) -> u8 {
    let n = neighbor_count(dims, x, y, 9);
    let total = pixels[(x, y)] * (2 * n) - neighbor_sum(pixels, dims, x, y, 9);
    (div_toward_zero(total, n) % 256) as u8
}

impl GrayRaster {
    /// Makes an image from its samples, given row after row. There must be
    /// exactly one sample for each pixel.
    pub fn from_samples(width: u32, height: u32, samples: Vec<u8>) -> (im: Option<GrayRaster>)
        ensures
            im is Some <==> samples.len() == width * height,
            im is Some ==> gray_dims(im->0) == (width, height),
            im is Some ==> forall|x: int, y: int|
                in_image((width, height), x, y) ==> #[trigger] gray_pixels(im->0)[(x, y)]
                    == samples[y * width + x],
    {
        assert(width * height <= 0xffff_ffff * 0xffff_ffff) by (nonlinear_arith)
            requires
                0 <= width <= 0xffff_ffff,
                0 <= height <= 0xffff_ffff,
        ;
        if samples.len() as u64 == (width as u64) * (height as u64) {
            raster_from_raw(width, height, samples)
        } else {
            None
        }
    }

    /// Width and height of the image.
    pub fn dimensions(&self) -> (dims: (u32, u32))
        ensures
            dims == gray_dims(*self),
    {
        raster_size(self)
    }

    /// The sample of the pixel `(x, y)`, if the image has such a pixel.
    pub fn sample(&self, x: u32, y: u32) -> (s: Option<u8>)
        ensures
            s == if in_image(gray_dims(*self), x as int, y as int) {
                Some(gray_pixels(*self)[(x as int, y as int)])
            } else {
                None
            },
    {
        let (w, h) = raster_size(self);
        if x < w && y < h {
            Some(raster_get(self, x, y))
        } else {
            None
        }
    }

    /// The samples of the image, row after row.
    pub fn into_samples(self) -> (samples: Vec<u8>)
        ensures
            samples.len() == gray_dims(self).0 * gray_dims(self).1,
            forall|x: int, y: int|
                in_image(gray_dims(self), x, y) ==> #[trigger] gray_pixels(self)[(x, y)]
                    == samples[y * gray_dims(self).0 + x],
    {
        raster_into_raw(self)
    }
}

/// In an image of more than one pixel every pixel has a neighbour, and none
/// has more than eight.
proof fn lemma_has_neighbor(dims: (u32, u32), x: int, y: int)
    requires
        in_image(dims, x, y),
        dims != (1u32, 1u32),
    ensures
        1 <= neighbor_count(dims, x, y, 9) <= 8,
{
    reveal_with_fuel(neighbor_count, 10);
    assert(is_neighbor(dims, x, y, 1) || is_neighbor(dims, x, y, 7) || is_neighbor(dims, x, y, 3)
        || is_neighbor(dims, x, y, 5));
}

/// Sharpens an image: every pixel is set against the mean of its
/// neighbours. The image must have more than one pixel, so that every
/// pixel has a neighbour.
pub fn sharpen(im: &GrayRaster) -> (out: GrayRaster)
    requires
        gray_dims(*im) != (1u32, 1u32),
    ensures
        gray_dims(out) == gray_dims(*im),
        forall|x: int, y: int|
            in_image(gray_dims(*im), x, y) ==> #[trigger] gray_pixels(out)[(x, y)] == sharpened(
                gray_pixels(*im),
                gray_dims(*im),
                x,
                y,
            ),
{
    let (w, h) = raster_size(im);
    let ghost dims = (w, h);
    let ghost pixels = gray_pixels(*im);
    let mut out = raster_new(w, h);
    let mut x: u32 = 0;
    while x < w
        invariant
            x <= w,
            dims == gray_dims(*im),
            dims == (w, h),
            dims != (1u32, 1u32),
            pixels == gray_pixels(*im),
            gray_dims(out) == dims,
            forall|a: int, b: int|
                0 <= a < x && 0 <= b < h ==> #[trigger] gray_pixels(out)[(a, b)] == sharpened(
                    pixels,
                    dims,
                    a,
                    b,
                ),
        decreases w - x,
    {
        let mut y: u32 = 0;
        while y < h
            invariant
                x < w,
                y <= h,
                dims == gray_dims(*im),
                dims == (w, h),
                dims != (1u32, 1u32),
                pixels == gray_pixels(*im),
                gray_dims(out) == dims,
                forall|a: int, b: int|
                    (0 <= a < x && 0 <= b < h) || (a == x && 0 <= b < y) ==> #[trigger] gray_pixels(
                        out,
                    )[(a, b)] == sharpened(pixels, dims, a, b),
            decreases h - y,
        {
            let mut value: i32 = 0;
            let mut neighbors: i32 = 0;
            let mut k: u8 = 0;
            while k < 9
                invariant
                    k <= 9,
                    x < w,
                    y < h,
                    dims == gray_dims(*im),
                    dims == (w, h),
                    pixels == gray_pixels(*im),
                    neighbors == neighbor_count(dims, x as int, y as int, k as int),
                    value == -neighbor_sum(pixels, dims, x as int, y as int, k as int),
                    0 <= neighbors <= k,
                    -255 * k <= value <= 0,
                decreases 9 - k,
            {
                let x2: i64 = x as i64 + (k / 3) as i64 - 1;
                let y2: i64 = y as i64 + (k % 3) as i64 - 1;
                if k != 4 && x2 >= 0 && x2 < w as i64 && y2 >= 0 && y2 < h as i64 {
                    value -= raster_get(im, x2 as u32, y2 as u32) as i32;
                    neighbors += 1;
                }
                k += 1;
            }
            proof {
                lemma_has_neighbor(dims, x as int, y as int);
            }
            let center = raster_get(im, x, y) as i32;
            assert(0 <= center * (neighbors * 2) <= 255 * 16) by (nonlinear_arith)
                requires
                    0 <= center <= 255,
                    0 <= neighbors <= 8,
            ;
            value += center * (neighbors * 2);
            let quotient: i32 = if value >= 0 {
                value / neighbors
            } else {
                -((-value) / neighbors)
            };
            assert(-4096 <= quotient <= 4096) by (nonlinear_arith)
                requires
                    quotient == div_toward_zero(value as int, neighbors as int),
                    -255 * 9 <= value <= 255 * 16,
                    1 <= neighbors <= 8,
            ;
            let sample = ((quotient + 4096) % 256) as u8;
            assert(sample == sharpened(pixels, dims, x as int, y as int));
            raster_put(&mut out, x, y, sample);
            y += 1;
        }
        x += 1;
    }
    out
}

/// Sharpens an image if it can be sharpened: an image of a single pixel,
/// which has no neighbour, gives `None`.
pub fn sharpen_checked(im: &GrayRaster) -> (out: Option<GrayRaster>)
    ensures
        out is None <==> gray_dims(*im) == (1u32, 1u32),
        out is Some ==> gray_dims(out->0) == gray_dims(*im),
        out is Some ==> forall|x: int, y: int|
            in_image(gray_dims(*im), x, y) ==> #[trigger] gray_pixels(out->0)[(x, y)] == sharpened(
                gray_pixels(*im),
                gray_dims(*im),
                x,
                y,
            ),
{
    let (w, h) = raster_size(im);
    if w == 1 && h == 1 {
        None
    } else {
        Some(sharpen(im))
    }
}

} // verus!
