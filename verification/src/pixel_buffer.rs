//! The carrier's pixels: an RGBA grid held by the `image` crate.
//!
//! Verified code never looks inside an `image::RgbaImage`. It goes through
//! the handful of private functions at the end of this module, whose
//! contracts restate what `image::ImageBuffer` does and are taken on trust.
//! Everything else in the crate is proved against them.

use vstd::prelude::*;

verus! {

/// An owned RGBA image: `width` by `height` pixels of four one-byte channels.
#[verifier::external_body]
pub struct PixelBuffer {
    image: image::RgbaImage,
}

/// The width of the image in pixels.
pub uninterp spec fn image_width(buffer: PixelBuffer) -> nat;

/// The height of the image in pixels.
pub uninterp spec fn image_height(buffer: PixelBuffer) -> nat;

/// The raw samples that back the image: four bytes per pixel (red, green,
/// blue, alpha), pixels row by row. The container may be longer than the
/// image needs.
pub uninterp spec fn image_samples(buffer: PixelBuffer) -> Seq<u8>;

/// What a pixel buffer is, as plain values.
pub struct Pixels {
    pub width: nat,
    pub height: nat,
    pub samples: Seq<u8>,
}

impl Pixels {
    /// The number of pixels.
    pub open spec fn area(self) -> nat {
        self.width * self.height
    }

    /// The samples cover every pixel of the grid and fit in memory.
    pub open spec fn wf(self) -> bool {
        4 * self.area() <= self.samples.len() <= usize::MAX
    }

    /// Index of channel `c` of the pixel at `(x, y)` among the samples.
    pub open spec fn index_of(self, x: int, y: int, c: int) -> int {
        4 * (y * self.width + x) + c
    }

    /// The value of channel `c` of the pixel at `(x, y)`.
    pub open spec fn channel(self, x: int, y: int, c: int) -> u8 {
        self.samples[self.index_of(x, y, c)]
    }
}

impl View for PixelBuffer {
    type V = Pixels;

    open spec fn view(&self) -> Pixels {
        Pixels {
            width: image_width(*self),
            height: image_height(*self),
            samples: image_samples(*self),
        }
    }
}

impl PixelBuffer {
    /// Builds a buffer of `width` by `height` pixels over `samples`, or
    /// returns `None` where the samples do not cover the grid, or where the
    /// length of a row of it does not fit a `usize`.
    pub fn from_raw(width: u32, height: u32, samples: Vec<u8>) -> (buffer: Option<PixelBuffer>)
        ensures
            buffer.is_some() <==> (4 * width <= usize::MAX && 4 * (width * height) <= samples.len()),
            buffer matches Some(b) ==> b@ == (Pixels {
                width: width as nat,
                height: height as nat,
                samples: samples@,
            }),
    {
        image_from_raw(width, height, samples)
    }

    /// Gives the samples back, with the dimensions they are laid out in.
    pub fn into_raw(self) -> (raw: (u32, u32, Vec<u8>))
        ensures
            self@.wf(),
            raw.0 == self@.width,
            raw.1 == self@.height,
            raw.2@ == self@.samples,
    {
        let (width, height) = image_dimensions(&self);
        let samples = image_into_raw(self);
        (width, height, samples)
    }

    /// The width and height in pixels.
    pub fn dimensions(&self) -> (dims: (u32, u32))
        ensures
            self@.wf(),
            dims.0 == self@.width,
            dims.1 == self@.height,
    {
        image_dimensions(self)
    }

    /// Reads channel `c` of the pixel at `(x, y)`.
    pub fn get(&self, x: u32, y: u32, c: u8) -> (value: u8)
        requires
            x < self@.width,
            y < self@.height,
            c < 4,
        ensures
            value == self@.channel(x as int, y as int, c as int),
    {
        image_get_sample(self, x, y, c)
    }

    /// Overwrites channel `c` of the pixel at `(x, y)`.
    pub fn set(&mut self, x: u32, y: u32, c: u8, value: u8)
        requires
            x < old(self)@.width,
            y < old(self)@.height,
            c < 4,
        ensures
            final(self)@ == (Pixels {
                samples: old(self)@.samples.update(old(self)@.index_of(x as int, y as int, c as int), value),
                ..old(self)@
            }),
        no_unwind
    {
        image_put_sample(self, x, y, c, value)
    }
}

/// Calls `ImageBuffer::from_raw`, which multiplies four by the width and
/// that by the height, accepts the container exactly when neither product
/// overflows and the second is no more than the container's length, and
/// then keeps the container as it is.
#[verifier::external_body]
fn image_from_raw(width: u32, height: u32, samples: Vec<u8>) -> (buffer: Option<PixelBuffer>)
    ensures
        buffer.is_some() <==> (4 * width <= usize::MAX && 4 * (width * height) <= samples.len()),
        buffer matches Some(b) ==> image_width(b) == width && image_height(b) == height
            && image_samples(b) == samples@,
{
    match image::RgbaImage::from_raw(width, height, samples) {
        Some(image) => Some(PixelBuffer { image }),
        None => None,
    }
}

/// Calls `ImageBuffer::into_raw`, which hands out the container.
#[verifier::external_body]
fn image_into_raw(buffer: PixelBuffer) -> (samples: Vec<u8>)
    ensures
        samples@ == image_samples(buffer),
{
    buffer.image.into_raw()
}

/// Calls `ImageBuffer::dimensions`. Every constructor of an image checks
/// that the container covers the grid, so that holds of each image; the
/// container is a `Vec`, whose length is a `usize`.
#[verifier::external_body]
fn image_dimensions(buffer: &PixelBuffer) -> (dims: (u32, u32))
    ensures
        dims.0 == image_width(*buffer),
        dims.1 == image_height(*buffer),
        4 * (dims.0 * dims.1) <= image_samples(*buffer).len() <= usize::MAX,
{
    buffer.image.dimensions()
}

/// Calls `ImageBuffer::get_pixel` and picks one channel of the pixel, which
/// is the sample at `4 * (y * width + x) + c`.
#[verifier::external_body]
fn image_get_sample(buffer: &PixelBuffer, x: u32, y: u32, c: u8) -> (value: u8)
    requires
        x < image_width(*buffer),
        y < image_height(*buffer),
        c < 4,
    ensures
        value == image_samples(*buffer)[4 * (y * image_width(*buffer) + x) + c],
{
    buffer.image.get_pixel(x, y).0[usize::from(c)]
}

/// Calls `ImageBuffer::get_pixel_mut` and stores one channel of the pixel,
/// which is the sample at `4 * (y * width + x) + c`. Nothing else changes.
/// The call panics only for a pixel outside the image, so it does not
/// unwind here.
#[verifier::external_body]
fn image_put_sample(buffer: &mut PixelBuffer, x: u32, y: u32, c: u8, value: u8)
    requires
        x < image_width(*old(buffer)),
        y < image_height(*old(buffer)),
        c < 4,
    ensures
        image_width(*final(buffer)) == image_width(*old(buffer)),
        image_height(*final(buffer)) == image_height(*old(buffer)),
        image_samples(*final(buffer)) == image_samples(*old(buffer)).update(
            4 * (y * image_width(*old(buffer)) + x) + c,
            value,
        ),
    no_unwind
{
    buffer.image.get_pixel_mut(x, y).0[usize::from(c)] = value;
}

} // verus!
