//! The RGB image buffer of the `image` crate, as far as this library reads
//! and writes it.
//!
//! The buffer keeps its pixels row by row in one byte vector, three bytes
//! (red, green, blue) for each pixel, so that the pixel at column `x` of row
//! `y` begins at byte `3 * (y * width + x)`.
//!
//! [`RgbBuffer`] is the buffer itself. What this file says of it is taken
//! from the source of `image` and is not proved: the five functions whose
//! doc comment names a function of that crate. [`Canvas`] is a buffer of
//! which it is proved that its bytes have room for all its pixels.

use vstd::prelude::*;

verus! {

/// An `image::RgbImage`.
#[verifier::external_body]
pub struct RgbBuffer {
    image: image::RgbImage,
}

/// The bytes of the buffer's container, in the container's order.
pub uninterp spec fn buffer_bytes(buffer: RgbBuffer) -> Seq<u8>;

/// The width of the buffer's image in pixels.
pub uninterp spec fn buffer_width(buffer: RgbBuffer) -> nat;

/// The height of the buffer's image in pixels.
pub uninterp spec fn buffer_height(buffer: RgbBuffer) -> nat;

/// Index of the first byte of the pixel at column `x` of row `y`.
pub open spec fn pixel_offset(width: nat, x: int, y: int) -> int {
    3 * (y * width + x)
}

/// `bytes` with the pixel at column `x` of row `y` set to the given colour.
pub open spec fn with_pixel(
    bytes: Seq<u8>,
    width: nat,
    x: int,
    y: int,
    red: u8,
    green: u8,
    blue: u8,
) -> Seq<u8> {
    let at = pixel_offset(width, x, y);
    bytes.update(at, red).update(at + 1, green).update(at + 2, blue)
}

/// The colour of the pixel at column `x` of row `y`, as (red, green, blue).
pub open spec fn pixel_of(bytes: Seq<u8>, width: nat, x: int, y: int) -> (u8, u8, u8) {
    let at = pixel_offset(width, x, y);
    (bytes[at], bytes[at + 1], bytes[at + 2])
}

/// `image::ImageBuffer::from_raw`, for RGB pixels of one byte a channel.
/// It keeps `data` as the container when `3 * width * height` can be
/// computed in `usize`, multiplying from the left, and is at most the length
/// of `data`; else it answers `None`.
#[verifier::external_body]
fn buffer_from_raw(width: u32, height: u32, data: Vec<u8>) -> (made: Option<RgbBuffer>)
    ensures
        match made {
            Some(buffer) => {
                &&& 3 * width <= usize::MAX
                &&& 3 * width * height <= data@.len()
                &&& buffer_width(buffer) == width
                &&& buffer_height(buffer) == height
                &&& buffer_bytes(buffer) == data@
            },
            None => 3 * width > usize::MAX || 3 * width * height > data@.len(),
        },
{
    match image::RgbImage::from_raw(width, height, data) {
        Some(image) => Some(RgbBuffer { image }),
        None => None,
    }
}

/// `image::ImageBuffer::dimensions`: the width and the height.
#[verifier::external_body]
fn buffer_dimensions(buffer: &RgbBuffer) -> (dimensions: (u32, u32))
    ensures
        dimensions.0 == buffer_width(*buffer),
        dimensions.1 == buffer_height(*buffer),
{
    buffer.image.dimensions()
}

/// `image::ImageBuffer::as_raw`: the container.
#[verifier::external_body]
fn buffer_as_raw(buffer: &RgbBuffer) -> (raw: &Vec<u8>)
    ensures
        raw@ == buffer_bytes(*buffer),
{
    buffer.image.as_raw()
}

/// `image::ImageBuffer::into_raw`: the container.
#[verifier::external_body]
fn buffer_into_raw(buffer: RgbBuffer) -> (raw: Vec<u8>)
    ensures
        raw@ == buffer_bytes(buffer),
{
    buffer.image.into_raw()
}

/// `image::ImageBuffer::put_pixel`, which panics unless `x` is below the
/// width and `y` below the height. With both in range it returns, having
/// overwritten the three bytes of that pixel and nothing else.
#[verifier::external_body]
fn buffer_put_pixel(buffer: &mut RgbBuffer, x: u32, y: u32, red: u8, green: u8, blue: u8)
    requires
        x < buffer_width(*old(buffer)),
        y < buffer_height(*old(buffer)),
    ensures
        buffer_width(*final(buffer)) == buffer_width(*old(buffer)),
        buffer_height(*final(buffer)) == buffer_height(*old(buffer)),
        buffer_bytes(*final(buffer)) == with_pixel(
            buffer_bytes(*old(buffer)),
            buffer_width(*old(buffer)),
            x as int,
            y as int,
            red,
            green,
            blue,
        ),
    no_unwind
{
    buffer.image.put_pixel(x, y, image::Rgb([red, green, blue]));
}

/// An RGB image whose bytes have room for all its pixels.
pub struct Canvas {
    buffer: RgbBuffer,
}

/// The bytes of the canvas: its pixels row by row, and behind them what the
/// container holds beyond.
pub closed spec fn canvas_bytes(canvas: Canvas) -> Seq<u8> {
    buffer_bytes(canvas.buffer)
}

/// The width of the canvas in pixels.
pub closed spec fn canvas_width(canvas: Canvas) -> nat {
    buffer_width(canvas.buffer)
}

/// The height of the canvas in pixels.
pub closed spec fn canvas_height(canvas: Canvas) -> nat {
    buffer_height(canvas.buffer)
}

/// The colour of the canvas at column `x` of row `y`.
pub open spec fn spec_pixel(canvas: Canvas, x: int, y: int) -> (u8, u8, u8) {
    pixel_of(canvas_bytes(canvas), canvas_width(canvas), x, y)
}

/// Whether column `x` of row `y` is a pixel of the canvas.
pub open spec fn on_canvas(canvas: Canvas, x: int, y: int) -> bool {
    0 <= x < canvas_width(canvas) && 0 <= y < canvas_height(canvas)
}

/// The bytes have room for all the pixels.
pub open spec fn well_sized(canvas: Canvas) -> bool {
    3 * canvas_width(canvas) * canvas_height(canvas) <= canvas_bytes(canvas).len()
}

/// The bytes of a pixel of the canvas lie among the bytes of all its pixels.
pub proof fn lemma_pixel_in_range(width: nat, height: nat, x: int, y: int)
    requires
        0 <= x < width,
        0 <= y < height,
    ensures
        0 <= pixel_offset(width, x, y),
        pixel_offset(width, x, y) + 3 <= 3 * width * height,
{
    let w = width as int;
    let h = height as int;
    assert(0 <= y * w + x < w * h) by (nonlinear_arith)
        requires
            0 <= x < w,
            0 <= y < h,
    ;
    assert(3 * (y * w + x) + 3 <= 3 * w * h) by (nonlinear_arith)
        requires
            y * w + x < w * h,
    ;
}

impl Canvas {
    #[verifier::type_invariant]
    spec fn has_room(self) -> bool {
        3 * buffer_width(self.buffer) * buffer_height(self.buffer) <= buffer_bytes(
            self.buffer,
        ).len()
    }

    /// Makes a canvas of `width` by `height` pixels over `data`, if `data`
    /// has room for that many pixels.
    pub fn from_raw(width: u32, height: u32, data: Vec<u8>) -> (made: Option<Canvas>)
        ensures
            made is Some <==> 3 * width <= usize::MAX && 3 * width * height <= data@.len(),
            made matches Some(canvas) ==> {
                &&& canvas_width(canvas) == width
                &&& canvas_height(canvas) == height
                &&& canvas_bytes(canvas) == data@
                &&& well_sized(canvas)
            },
    {
        match buffer_from_raw(width, height, data) {
            Some(buffer) => Some(Canvas { buffer }),
            None => None,
        }
    }

    /// The width in pixels.
    pub fn width(&self) -> (width: u32)
        ensures
            width == canvas_width(*self),
            well_sized(*self),
    {
        proof {
            use_type_invariant(self);
        }
        buffer_dimensions(&self.buffer).0
    }

    /// The height in pixels.
    pub fn height(&self) -> (height: u32)
        ensures
            height == canvas_height(*self),
            well_sized(*self),
    {
        proof {
            use_type_invariant(self);
        }
        buffer_dimensions(&self.buffer).1
    }

    /// The bytes of the pixels, row by row.
    pub fn as_raw(&self) -> (raw: &Vec<u8>)
        ensures
            raw@ == canvas_bytes(*self),
            well_sized(*self),
    {
        proof {
            use_type_invariant(self);
        }
        buffer_as_raw(&self.buffer)
    }

    /// Gives up the canvas for its bytes.
    pub fn into_raw(self) -> (raw: Vec<u8>)
        ensures
            raw@ == canvas_bytes(self),
            well_sized(self),
    {
        proof {
            use_type_invariant(&self);
        }
        buffer_into_raw(self.buffer)
    }

    /// Sets the pixel at column `x` of row `y` to the given colour.
    pub fn put_pixel(&mut self, x: u32, y: u32, red: u8, green: u8, blue: u8)
        requires
            on_canvas(*old(self), x as int, y as int),
        ensures
            canvas_width(*final(self)) == canvas_width(*old(self)),
            canvas_height(*final(self)) == canvas_height(*old(self)),
            canvas_bytes(*final(self)) == with_pixel(
                canvas_bytes(*old(self)),
                canvas_width(*old(self)),
                x as int,
                y as int,
                red,
                green,
                blue,
            ),
            canvas_bytes(*final(self)).len() == canvas_bytes(*old(self)).len(),
    {
        proof {
            use_type_invariant(&*self);
            lemma_pixel_in_range(
                buffer_width(self.buffer),
                buffer_height(self.buffer),
                x as int,
                y as int,
            );
        }
        buffer_put_pixel(&mut self.buffer, x, y, red, green, blue);
    }
}

} // verus!
