//! The outline of a box, three pixels thick, in red.

use crate::drawing::canvas::{
    canvas_bytes, canvas_height, canvas_width, on_canvas, pixel_offset, spec_pixel, well_sized,
    with_pixel, Canvas,
};
use vstd::arithmetic::div_mod::*;
use vstd::prelude::*;

verus! {

/// Thickness of the outline in pixels.
pub const THICKNESS: u32 = 3;

/// The colour of the outline, as (red, green, blue).
pub open spec fn line_colour() -> (u8, u8, u8) {
    (255u8, 0u8, 0u8)
}

/// Whether column `x` of row `y` belongs to the outline of the box with the
/// corners `(x1, y1)` and `(x2, y2)`.
///
/// The upper and the lower edge span the columns `x1` to `x2` and begin at
/// the rows `y1` and `y2`; the left and the right edge span the rows `y1` to
/// `y2` and begin at the columns `x1` and `x2`. Each edge grows by its
/// thickness towards larger coordinates. An edge whose span is empty (`x1`
/// above `x2`, or `y1` above `y2`) is not there.
pub open spec fn on_outline(x: int, y: int, x1: u32, y1: u32, x2: u32, y2: u32) -> bool {
    ||| x1 <= x <= x2 && (y1 <= y < y1 + THICKNESS || y2 <= y < y2 + THICKNESS)
    ||| y1 <= y <= y2 && (x1 <= x < x1 + THICKNESS || x2 <= x < x2 + THICKNESS)
}

/// `after` is `before` with the marked pixels of the canvas in the line
/// colour and every other byte as it was.
pub open spec fn repainted(before: Canvas, after: Canvas, marked: spec_fn(int, int) -> bool) -> bool {
    &&& canvas_width(after) == canvas_width(before)
    &&& canvas_height(after) == canvas_height(before)
    &&& canvas_bytes(after).len() == canvas_bytes(before).len()
    &&& forall|x: int, y: int|
        #![trigger spec_pixel(after, x, y)]
        on_canvas(before, x, y) ==> spec_pixel(after, x, y) == (if marked(x, y) {
            line_colour()
        } else {
            spec_pixel(before, x, y)
        })
    &&& forall|k: int|
        3 * canvas_width(before) * canvas_height(before) <= k < canvas_bytes(before).len()
            ==> #[trigger] canvas_bytes(after)[k] == canvas_bytes(before)[k]
}

/// The bytes of two pixels of a canvas lie inside the bytes of all its
/// pixels, and those of different pixels do not overlap.
proof fn lemma_pixels_apart(width: nat, height: nat, x: int, y: int, px: int, py: int)
    requires
        0 <= x < width,
        0 <= y < height,
        0 <= px < width,
        0 <= py < height,
    ensures
        0 <= pixel_offset(width, x, y),
        pixel_offset(width, x, y) + 3 <= 3 * width * height,
        (px != x || py != y) ==> pixel_offset(width, px, py) + 3 <= pixel_offset(width, x, y)
            || pixel_offset(width, x, y) + 3 <= pixel_offset(width, px, py),
{
    let w = width as int;
    let h = height as int;
    assert(0 <= y * w + x < w * h) by (nonlinear_arith)
        requires
            0 <= x < w,
            0 <= y < h,
    ;
    assert(3 * (y * w + x) + 3 <= 3 * w * h) by (nonlinear_arith)
        requires
            y * w + x < w * h,
    ;
    if py < y {
        assert(py * w + px < y * w + x) by (nonlinear_arith)
            requires
                py + 1 <= y,
                0 <= px < w,
                0 <= x,
        ;
    } else if py > y {
        assert(y * w + x < py * w + px) by (nonlinear_arith)
            requires
                y + 1 <= py,
                0 <= x < w,
                0 <= px,
        ;
    }
}

/// Painting one more pixel of the canvas marks that pixel too.
proof fn lemma_put_repaints(
    before: Canvas,
    current: Canvas,
    next: Canvas,
    marked: spec_fn(int, int) -> bool,
    wider: spec_fn(int, int) -> bool,
    x: int,
    y: int,
)
    requires
        well_sized(before),
        repainted(before, current, marked),
        on_canvas(current, x, y),
        canvas_width(next) == canvas_width(current),
        canvas_height(next) == canvas_height(current),
        canvas_bytes(next) == with_pixel(
            canvas_bytes(current),
            canvas_width(current),
            x,
            y,
            255,
            0,
            0,
        ),
        forall|px: int, py: int|
            on_canvas(before, px, py) ==> (#[trigger] wider(px, py) <==> marked(px, py) || (px == x
                && py == y)),
    ensures
        repainted(before, next, wider),
{
    let width = canvas_width(before);
    let height = canvas_height(before);
    lemma_pixels_apart(width, height, x, y, x, y);
    assert forall|px: int, py: int| on_canvas(before, px, py) implies #[trigger] spec_pixel(
        next,
        px,
        py,
    ) == (if wider(px, py) {
        line_colour()
    } else {
        spec_pixel(before, px, py)
    }) by {
        lemma_pixels_apart(width, height, x, y, px, py);
        lemma_pixels_apart(width, height, px, py, x, y);
        let kept = spec_pixel(current, px, py);
    }
}

/// Painting twice marks what either painting marks.
pub proof fn lemma_repainted_twice(
    before: Canvas,
    between: Canvas,
    after: Canvas,
    first: spec_fn(int, int) -> bool,
    second: spec_fn(int, int) -> bool,
    both: spec_fn(int, int) -> bool,
)
    requires
        repainted(before, between, first),
        repainted(between, after, second),
        forall|x: int, y: int|
            on_canvas(before, x, y) ==> (#[trigger] both(x, y) <==> first(x, y) || second(x, y)),
    ensures
        repainted(before, after, both),
{
    assert forall|x: int, y: int| on_canvas(before, x, y) implies #[trigger] spec_pixel(
        after,
        x,
        y,
    ) == (if both(x, y) {
        line_colour()
    } else {
        spec_pixel(before, x, y)
    }) by {
        let kept = spec_pixel(between, x, y);
    }
}

/// Repainting fixes every byte: two canvases that are both `before` with
/// the same pixels repainted hold the same bytes.
pub proof fn lemma_repainted_fixes_bytes(
    before: Canvas,
    first: Canvas,
    second: Canvas,
    marked: spec_fn(int, int) -> bool,
)
    requires
        well_sized(before),
        repainted(before, first, marked),
        repainted(before, second, marked),
    ensures
        canvas_bytes(first) == canvas_bytes(second),
{
    let width = canvas_width(before) as int;
    let height = canvas_height(before) as int;
    assert forall|k: int| 0 <= k < canvas_bytes(first).len() implies canvas_bytes(first)[k]
        == canvas_bytes(second)[k] by {
        if k < 3 * width * height {
            let pixel = k / 3;
            assert(width > 0 && 0 <= pixel < width * height) by (nonlinear_arith)
                requires
                    0 <= k < 3 * width * height,
                    0 <= width,
                    0 <= height,
                    pixel == k / 3,
            ;
            let x = pixel % width;
            let y = pixel / width;
            lemma_fundamental_div_mod(pixel, width);
            lemma_mod_bound(pixel, width);
            assert(0 <= y < height) by (nonlinear_arith)
                requires
                    0 <= pixel < width * height,
                    width > 0,
                    pixel == width * y + x,
                    0 <= x < width,
            ;
            assert(pixel_offset(width as nat, x, y) == 3 * pixel) by (nonlinear_arith)
                requires
                    pixel == width * y + x,
                    pixel_offset(width as nat, x, y) == 3 * (y * width + x),
            ;
            assert(spec_pixel(first, x, y) == spec_pixel(second, x, y));
        } else {
            assert(canvas_bytes(first)[k] == canvas_bytes(before)[k]);
            assert(canvas_bytes(second)[k] == canvas_bytes(before)[k]);
        }
    }
    assert(canvas_bytes(first) =~= canvas_bytes(second));
}

/// Paints the pixel at column `x` of row `y` in the line colour.
fn mark(image: &mut Canvas, x: u32, y: u32, Ghost(before): Ghost<Canvas>, Ghost(marked): Ghost<
    spec_fn(int, int) -> bool,
>, Ghost(wider): Ghost<spec_fn(int, int) -> bool>)
    requires
        well_sized(before),
        repainted(before, *old(image), marked),
        on_canvas(*old(image), x as int, y as int),
        forall|px: int, py: int|
            on_canvas(before, px, py) ==> (#[trigger] wider(px, py) <==> marked(px, py) || (px == x
                && py == y)),
    ensures
        repainted(before, *final(image), wider),
{
    let ghost current = *image;
    image.put_pixel(x, y, 255, 0, 0);
    proof {
        lemma_put_repaints(before, current, *image, marked, wider, x as int, y as int);
    }
}

/// Paints the pixels of the columns `x1` to `x2` in the rows `upper` and
/// `lower`, as far as they lie on the canvas.
fn draw_rows(image: &mut Canvas, x1: u32, x2: u32, upper: u32, lower: u32)
    ensures
        repainted(
            *old(image),
            *final(image),
            |x: int, y: int| x1 <= x <= x2 && (y == upper || y == lower),
        ),
{
    let ghost before = *image;
    let width = image.width();
    let height = image.height();
    let mut x = x1;
    while x <= x2 && x < width
        invariant
            well_sized(before),
            width == canvas_width(before),
            height == canvas_height(before),
            x1 <= x,
            x <= x2 + 1 || x == x1,
            repainted(before, *image, |px: int, py: int| x1 <= px < x && (py == upper || py == lower)),
        decreases width - x,
    {
        if upper < height {
            mark(
                image,
                x,
                upper,
                Ghost(before),
                Ghost(|px: int, py: int| x1 <= px < x && (py == upper || py == lower)),
                Ghost(
                    |px: int, py: int|
                        (x1 <= px < x && (py == upper || py == lower)) || (px == x && py == upper),
                ),
            );
        }
        if lower < height {
            mark(
                image,
                x,
                lower,
                Ghost(before),
                Ghost(
                    |px: int, py: int|
                        (x1 <= px < x && (py == upper || py == lower)) || (px == x && py == upper
                            && upper < height),
                ),
                Ghost(|px: int, py: int| x1 <= px < x + 1 && (py == upper || py == lower)),
            );
        }
        x = x + 1;
    }
}

/// Paints the pixels of the rows `y1` to `y2` in the columns `left` and
/// `right`, as far as they lie on the canvas.
fn draw_columns(image: &mut Canvas, y1: u32, y2: u32, left: u32, right: u32)
    ensures
        repainted(
            *old(image),
            *final(image),
            |x: int, y: int| y1 <= y <= y2 && (x == left || x == right),
        ),
{
    let ghost before = *image;
    let width = image.width();
    let height = image.height();
    let mut y = y1;
    while y <= y2 && y < height
        invariant
            well_sized(before),
            width == canvas_width(before),
            height == canvas_height(before),
            y1 <= y,
            y <= y2 + 1 || y == y1,
            repainted(before, *image, |px: int, py: int| y1 <= py < y && (px == left || px == right)),
        decreases height - y,
    {
        if left < width {
            mark(
                image,
                left,
                y,
                Ghost(before),
                Ghost(|px: int, py: int| y1 <= py < y && (px == left || px == right)),
                Ghost(
                    |px: int, py: int|
                        (y1 <= py < y && (px == left || px == right)) || (px == left && py == y),
                ),
            );
        }
        if right < width {
            mark(
                image,
                right,
                y,
                Ghost(before),
                Ghost(
                    |px: int, py: int|
                        (y1 <= py < y && (px == left || px == right)) || (px == left && py == y
                            && left < width),
                ),
                Ghost(|px: int, py: int| y1 <= py < y + 1 && (px == left || px == right)),
            );
        }
        y = y + 1;
    }
}

/// Draws the outline of the box with the corners `(x1, y1)` and `(x2, y2)`.
///
/// Every pixel of the canvas that belongs to the outline becomes red; the
/// rest of the canvas stays as it was. Parts of the outline beyond the
/// canvas are left out.
pub fn draw_rectangle(image: &mut Canvas, x1: u32, y1: u32, x2: u32, y2: u32)
    ensures
        repainted(*old(image), *final(image), |x: int, y: int| on_outline(x, y, x1, y1, x2, y2)),
{
    let ghost before = *image;
    let width = image.width();
    let height = image.height();
    let mut dy: u32 = 0;
    while dy < THICKNESS
        invariant
            dy <= THICKNESS,
            height == canvas_height(before),
            repainted(
                before,
                *image,
                |x: int, y: int| x1 <= x <= x2 && (y1 <= y < y1 + dy || y2 <= y < y2 + dy),
            ),
        decreases THICKNESS - dy,
    {
        let upper = y1.saturating_add(dy);
        let lower = y2.saturating_add(dy);
        let ghost between = *image;
        draw_rows(image, x1, x2, upper, lower);
        proof {
            lemma_repainted_twice(
                before,
                between,
                *image,
                |x: int, y: int| x1 <= x <= x2 && (y1 <= y < y1 + dy || y2 <= y < y2 + dy),
                |x: int, y: int| x1 <= x <= x2 && (y == upper || y == lower),
                |x: int, y: int| x1 <= x <= x2 && (y1 <= y < y1 + dy + 1 || y2 <= y < y2 + dy + 1),
            );
        }
        dy = dy + 1;
    }
    let ghost framed = *image;
    let mut dx: u32 = 0;
    while dx < THICKNESS
        invariant
            dx <= THICKNESS,
            width == canvas_width(framed),
            repainted(
                framed,
                *image,
                |x: int, y: int| y1 <= y <= y2 && (x1 <= x < x1 + dx || x2 <= x < x2 + dx),
            ),
        decreases THICKNESS - dx,
    {
        let left = x1.saturating_add(dx);
        let right = x2.saturating_add(dx);
        let ghost between = *image;
        draw_columns(image, y1, y2, left, right);
        proof {
            lemma_repainted_twice(
                framed,
                between,
                *image,
                |x: int, y: int| y1 <= y <= y2 && (x1 <= x < x1 + dx || x2 <= x < x2 + dx),
                |x: int, y: int| y1 <= y <= y2 && (x == left || x == right),
                |x: int, y: int| y1 <= y <= y2 && (x1 <= x < x1 + dx + 1 || x2 <= x < x2 + dx + 1),
            );
        }
        dx = dx + 1;
    }
    proof {
        lemma_repainted_twice(
            before,
            framed,
            *image,
            |x: int, y: int| x1 <= x <= x2 && (y1 <= y < y1 + THICKNESS || y2 <= y < y2 + THICKNESS),
            |x: int, y: int| y1 <= y <= y2 && (x1 <= x < x1 + THICKNESS || x2 <= x < x2 + THICKNESS),
            |x: int, y: int| on_outline(x, y, x1, y1, x2, y2),
        );
    }
}

} // verus!
