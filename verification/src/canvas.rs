//! The rendered image, held in a buffer of the image crate.

use crate::error::Error;
use image::{ImageBuffer, Rgb};
use vstd::prelude::*;

verus! {

/// The color type of the image crate, `Rgb`. Nothing is known of a value of
/// it but what [`rgb_channels`] names.
#[verifier::external_type_specification]
#[verifier::external_body]
#[verifier::reject_recursive_types(T)]
pub struct ExRgb<T>(image::Rgb<T>);

/// The red, green and blue samples that an `Rgb` color of the image crate
/// holds, in this order.
pub uninterp spec fn rgb_channels(color: Rgb<u8>) -> (u8, u8, u8);

/// What a canvas shows: its dimensions and its 8-bit colors, row by row.
pub struct Picture {
    pub width: nat,
    pub height: nat,
    pub pixels: Seq<(u8, u8, u8)>,
}

/// A rendered image, ready to be encoded. It holds an `ImageBuffer` of the
/// image crate with 8-bit `Rgb` pixels, which is out of the verifier's sight:
/// [`canvas_size`] and [`canvas_pixels`] name what is in it.
#[verifier::external_body]
pub struct Canvas {
    buffer: ImageBuffer<Rgb<u8>, Vec<u8>>,
}

/// The width and the height of the image buffer in a canvas.
pub uninterp spec fn canvas_size(canvas: Canvas) -> (nat, nat);

/// The colors of the pixels of the image buffer in a canvas, row by row from
/// the top and from left to right within a row.
pub uninterp spec fn canvas_pixels(canvas: Canvas) -> Seq<(u8, u8, u8)>;

impl View for Canvas {
    type V = Picture;

    open spec fn view(&self) -> Picture {
        Picture {
            width: canvas_size(*self).0,
            height: canvas_size(*self).1,
            pixels: canvas_pixels(*self),
        }
    }
}

/// The samples of a row of colors, one after the other: red, green and blue
/// of the first color, then of the second, and so on.
pub open spec fn flattened(pixels: Seq<(u8, u8, u8)>) -> Seq<u8> {
    Seq::new(
        3 * pixels.len(),
        |i: int|
            if i % 3 == 0 {
                pixels[i / 3].0
            } else if i % 3 == 1 {
                pixels[i / 3].1
            } else {
                pixels[i / 3].2
            },
    )
}

/// Whether `count` pixels of three samples each fit in one buffer: a buffer
/// holds no more than `isize::MAX` bytes.
pub open spec fn fits_a_buffer(count: nat) -> bool {
    3 * count <= isize::MAX
}

/// Makes an `Rgb` color of the image crate from its three samples. The
/// contract says that the color holds these samples.
#[verifier::external_body]
fn rgb(r: u8, g: u8, b: u8) -> (color: Rgb<u8>)
    ensures
        rgb_channels(color) == (r, g, b),
{
    Rgb([r, g, b])
}

/// The color at column `x` of row `y` in a row-major sequence of colors, as
/// a color of the image crate.
pub fn pick(pixels: &Vec<(u8, u8, u8)>, x: u32, y: u32, width: u32) -> (color: Rgb<u8>)
    requires
        x < width,
        y * width + x < pixels.len(),
    ensures
        rgb_channels(color) == pixels@[y * width + x],
{
    assert(0 <= y * width <= y * width + x) by (nonlinear_arith)
        requires
            0 <= x,
            0 <= y,
            0 <= width,
    ;
    let (r, g, b) = pixels[(y as usize) * (width as usize) + (x as usize)];
    rgb(r, g, b)
}

/// Fills an image buffer by `ImageBuffer::from_fn` of the image crate, which
/// makes a buffer of the given width and height and sets the pixel at each
/// `(x, y)` to what the function handed to it returns for `x` and `y`; here
/// that is [`pick`] on the given colors. The contract says that the buffer
/// has the given dimensions and holds the given colors in their order.
///
/// `from_fn` panics where the buffer would outgrow a vector. That is left
/// out: the colors are as many as `width * height`, so that [`pick`] finds
/// one for each pixel, and fit in a buffer.
#[verifier::external_body]
fn paint(width: u32, height: u32, pixels: &Vec<(u8, u8, u8)>) -> (canvas: Canvas)
    requires
        width * height == pixels.len(),
        fits_a_buffer(pixels.len() as nat),
    ensures
        canvas_size(canvas) == (width as nat, height as nat),
        canvas_pixels(canvas) == pixels@,
{
    Canvas { buffer: ImageBuffer::from_fn(width, height, |x, y| pick(pixels, x, y, width)) }
}

/// Reads the width and the height of the buffer by `ImageBuffer::dimensions`
/// of the image crate.
#[verifier::external_body]
fn buffer_dimensions(canvas: &Canvas) -> (size: (u32, u32))
    ensures
        canvas_size(*canvas) == (size.0 as nat, size.1 as nat),
{
    canvas.buffer.dimensions()
}

/// Takes the samples out of the buffer by `ImageBuffer::into_raw` of the
/// image crate: three for each pixel, in the order of the pixels.
#[verifier::external_body]
fn buffer_into_raw(canvas: Canvas) -> (raw: Vec<u8>)
    ensures
        raw@ == flattened(canvas_pixels(canvas)),
{
    canvas.buffer.into_raw()
}

impl Canvas {
    /// A canvas of the given width and height that shows the given colors,
    /// row by row. It is refused with `DimensionMismatch` where the colors
    /// are not as many as `width * height`, or are more than fit in a buffer.
    pub fn from_pixels(width: u32, height: u32, pixels: &Vec<(u8, u8, u8)>) -> (out: Result<
        Canvas,
        Error,
    >)
        ensures
            width * height == pixels.len() && fits_a_buffer(pixels.len() as nat) ==> out is Ok
                && out->Ok_0@ == (Picture {
                width: width as nat,
                height: height as nat,
                pixels: pixels@,
            }),
            !(width * height == pixels.len() && fits_a_buffer(pixels.len() as nat)) ==> out is Err
                && out->Err_0 == Error::DimensionMismatch,
    {
        assert(width * height <= 0xFFFF_FFFF * 0xFFFF_FFFF) by (nonlinear_arith)
            requires
                0 <= width <= 0xFFFF_FFFF,
                0 <= height <= 0xFFFF_FFFF,
        ;
        if (width as u64) * (height as u64) != pixels.len() as u64 {
            return Err(Error::DimensionMismatch);
        }
        if pixels.len() > (isize::MAX as usize) / 3 {
            return Err(Error::DimensionMismatch);
        }
        Ok(paint(width, height, pixels))
    }

    /// The width and the height of the canvas.
    pub fn dimensions(&self) -> (size: (u32, u32))
        ensures
            size.0 == self@.width,
            size.1 == self@.height,
    {
        buffer_dimensions(self)
    }

    /// The samples of the canvas: red, green and blue of each pixel, row by
    /// row.
    pub fn into_raw(self) -> (raw: Vec<u8>)
        ensures
            raw@ == flattened(self@.pixels),
    {
        buffer_into_raw(self)
    }
}

} // verus!
