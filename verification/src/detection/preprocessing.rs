//! Rearranging the bytes of an image for the network.
//!
//! The canvas keeps its bytes pixel by pixel (red, green, blue); the
//! network reads them channel by channel: all the red bytes row by row, then
//! the green ones, then the blue ones. Turning the bytes into normalised
//! floating-point numbers is left to the caller.

use crate::drawing::canvas::{canvas_bytes, canvas_height, canvas_width, Canvas};
use vstd::arithmetic::div_mod::*;
use vstd::prelude::*;

verus! {

/// The bytes of an image of `width` by `height` pixels, channel by channel.
/// Byte `k` belongs to channel `k / (width * height)` and to the pixel
/// `k % (width * height)`, counted row by row.
pub open spec fn planar(bytes: Seq<u8>, width: nat, height: nat) -> Seq<u8> {
    let pixels = (width * height) as int;
    Seq::new((3 * pixels) as nat, |k: int| bytes[3 * (k % pixels) + k / pixels])
}

/// In the channel-by-channel order the byte of `channel` at column `col` of
/// row `row` stands at `channel * width * height + row * width + col`, and it
/// is the byte at `3 * (row * width + col) + channel` of the image.
pub proof fn lemma_planar_at(
    bytes: Seq<u8>,
    width: nat,
    height: nat,
    channel: int,
    row: int,
    col: int,
)
    requires
        0 <= channel < 3,
        0 <= row < height,
        0 <= col < width,
    ensures
        0 <= channel * (width * height) + row * width + col < planar(bytes, width, height).len(),
        planar(bytes, width, height)[channel * (width * height) + row * width + col] == bytes[3 * (
        row * width + col) + channel],
{
    let w = width as int;
    let h = height as int;
    let pixels = w * h;
    let pixel = row * w + col;
    assert(0 <= pixel < pixels) by (nonlinear_arith)
        requires
            0 <= row < h,
            0 <= col < w,
            pixel == row * w + col,
            pixels == w * h,
    ;
    let k = channel * pixels + pixel;
    assert(0 <= k < 3 * pixels) by (nonlinear_arith)
        requires
            0 <= channel < 3,
            0 <= pixel < pixels,
            k == channel * pixels + pixel,
    ;
    lemma_fundamental_div_mod_converse(k, pixels, channel, pixel);
}

/// Hands back the bytes of the image channel by channel.
pub fn preprocess_image(rgb_image: &Canvas) -> (input: Vec<u8>)
    ensures
        input@ == planar(
            canvas_bytes(*rgb_image),
            canvas_width(*rgb_image),
            canvas_height(*rgb_image),
        ),
{
    let raw = rgb_image.as_raw();
    let width = rgb_image.width() as usize;
    let height = rgb_image.height() as usize;
    let len = raw.len();
    proof {
        assert(0 <= width * height && 3 * (width * height) == 3 * width * height)
            by (nonlinear_arith);
    }
    let pixels = width * height;
    let mut input: Vec<u8> = Vec::with_capacity(3 * pixels);
    let mut channel: usize = 0;
    while channel < 3
        invariant
            raw@ == canvas_bytes(*rgb_image),
            width == canvas_width(*rgb_image),
            height == canvas_height(*rgb_image),
            pixels == width * height,
            3 * pixels <= len == raw@.len(),
            channel <= 3,
            input@.len() == channel * pixels,
            forall|k: int|
                0 <= k < input@.len() ==> input@[k] == raw@[3 * (k % (pixels as int)) + k / (
                pixels as int)],
        decreases 3 - channel,
    {
        let mut row: usize = 0;
        while row < height
            invariant
                raw@ == canvas_bytes(*rgb_image),
                width == canvas_width(*rgb_image),
                height == canvas_height(*rgb_image),
                pixels == width * height,
                3 * pixels <= len == raw@.len(),
                channel < 3,
                row <= height,
                input@.len() == channel * pixels + row * width,
                forall|k: int|
                    0 <= k < input@.len() ==> input@[k] == raw@[3 * (k % (pixels as int)) + k / (
                    pixels as int)],
            decreases height - row,
        {
            let mut col: usize = 0;
            while col < width
                invariant
                    raw@ == canvas_bytes(*rgb_image),
                    width == canvas_width(*rgb_image),
                    height == canvas_height(*rgb_image),
                    pixels == width * height,
                    3 * pixels <= len == raw@.len(),
                    channel < 3,
                    row < height,
                    col <= width,
                    input@.len() == channel * pixels + row * width + col,
                    forall|k: int|
                        0 <= k < input@.len() ==> input@[k] == raw@[3 * (k % (pixels as int)) + k
                            / (pixels as int)],
                decreases width - col,
            {
                proof {
                    assert(0 <= row * width && 0 <= row * width + col < pixels)
                        by (nonlinear_arith)
                        requires
                            0 <= row < height,
                            0 <= col < width,
                            pixels == width * height,
                    ;
                    assert(0 <= channel * pixels) by (nonlinear_arith)
                        requires
                            0 <= channel,
                            0 <= pixels,
                    ;
                    lemma_fundamental_div_mod_converse(
                        channel * pixels + row * width + col,
                        pixels as int,
                        channel as int,
                        row * width + col,
                    );
                }
                let index = (row * width + col) * 3;
                input.push(raw[index + channel]);
                col += 1;
            }
            proof {
                assert(row * width + width == (row + 1) * width) by (nonlinear_arith);
            }
            row += 1;
        }
        proof {
            assert(channel * pixels + height * width == (channel + 1) * pixels)
                by (nonlinear_arith)
                requires
                    pixels == width * height,
            ;
        }
        channel += 1;
    }
    assert(input@ =~= planar(
        canvas_bytes(*rgb_image),
        canvas_width(*rgb_image),
        canvas_height(*rgb_image),
    ));
    input
}

} // verus!
