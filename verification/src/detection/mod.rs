//! Decoding of the network's per-stride tensors into located detections.
//!
//! The network answers with a score tensor and a delta tensor for each of
//! the strides 8, 16 and 32. Both hold floating-point values, which this
//! library does not touch: the caller compares every score with its
//! threshold and hands over the outcome, one `bool` per score. The decoder
//! checks the tensor layout against the stride table, walks the grid, and
//! reports for every passing score a [`Detection`]: where its confidence and
//! its four distances stand in the stride's tensors, and the pixel they are
//! measured from. Reading the floats at those places, scaling the distances
//! by the stride and adding them to the point is left to the caller.

pub mod bbox;
pub mod grid;
pub mod preprocessing;

use crate::detection::bbox::{get_scales, scales_of};
use crate::detection::grid::{
    cell_count, delta_start, grid_size, lemma_grid_bounds, lemma_reference_point_on_canvas,
    lemma_slot_of_index, reference_point, spec_cell_count, spec_delta_start, spec_grid_size,
    spec_reference_point, spec_slot_of, stride_in_range, Slot, INPUT_SIDE,
};
use crate::drawing::canvas::{on_canvas, Canvas};
use crate::drawing::rectangle::{draw_rectangle, lemma_repainted_twice, on_outline, repainted};
use vstd::arithmetic::div_mod::*;
use vstd::prelude::*;

verus! {

/// A score that passed its threshold, by position.
#[derive(Debug, Clone, Copy, PartialEq, Eq, Structural)]
pub struct Detection {
    /// Stride of the tensors that the two indices refer to.
    pub stride: u32,
    /// Index of the confidence in the score tensor.
    pub score_index: usize,
    /// Index of the first of the four distances in the delta tensor.
    pub delta_index: usize,
    /// Horizontal pixel coordinate of the reference point.
    pub x: u32,
    /// Vertical pixel coordinate of the reference point.
    pub y: u32,
}

/// The length of a score tensor implies another number of anchors per cell
/// than the stride table gives for its stride.
#[derive(Debug, Clone, Copy, PartialEq, Eq, Structural)]
pub struct LayoutMismatch {
    pub stride: u32,
    pub expected: usize,
    pub actual: usize,
}

/// Anchors per cell that the stride table gives for `stride`.
pub open spec fn expected_anchors(stride: u32) -> nat {
    scales_of(stride).len()
}

/// Anchors per cell that a score tensor of `len` entries implies.
pub open spec fn observed_anchors(len: nat, stride: u32) -> nat {
    len / spec_cell_count(stride)
}

/// Whether a score tensor of `len` entries has the layout of `stride`.
pub open spec fn layout_matches(len: nat, stride: u32) -> bool {
    observed_anchors(len, stride) == expected_anchors(stride)
}

/// The error for a score tensor of `len` entries that does not have the
/// layout of `stride`.
pub open spec fn mismatch_of(len: nat, stride: u32) -> LayoutMismatch {
    LayoutMismatch {
        stride,
        expected: expected_anchors(stride) as usize,
        actual: observed_anchors(len, stride) as usize,
    }
}

/// Number of slots that the decoder visits for `stride`.
pub open spec fn slot_total(stride: u32) -> nat {
    spec_cell_count(stride) * expected_anchors(stride)
}

/// The detection that the slot with flat index `index` gives when its score
/// passes.
pub open spec fn located(stride: u32, index: int) -> Detection {
    let slot = spec_slot_of(stride, expected_anchors(stride), index as nat);
    let point = spec_reference_point(stride, slot);
    Detection {
        stride,
        score_index: index as usize,
        delta_index: spec_delta_start(index as nat) as usize,
        x: point.0,
        y: point.1,
    }
}

/// The detections of the first `upto` slots, in the order of their flat
/// indices.
pub open spec fn hits(passing: Seq<bool>, stride: u32, upto: int) -> Seq<Detection>
    decreases upto,
{
    if upto <= 0 {
        Seq::empty()
    } else if passing[upto - 1] {
        hits(passing, stride, upto - 1).push(located(stride, upto - 1))
    } else {
        hits(passing, stride, upto - 1)
    }
}

/// What decoding one stride gives: the detections of all its slots, or the
/// layout error.
pub open spec fn scale_outcome(passing: Seq<bool>, stride: u32) -> Result<
    Seq<Detection>,
    LayoutMismatch,
> {
    if layout_matches(passing.len(), stride) {
        Ok(hits(passing, stride, slot_total(stride) as int))
    } else {
        Err(mismatch_of(passing.len(), stride))
    }
}

/// The stride table knows one or two anchors per cell.
pub proof fn lemma_expected_anchors(stride: u32)
    ensures
        expected_anchors(stride) == (if stride == 8 || stride == 16 || stride == 32 {
            2nat
        } else {
            1nat
        }),
{
}

/// A tensor with the layout of its stride holds a score for every slot
/// that the decoder visits, and there are at most two slots for each pixel
/// of the canvas.
pub proof fn lemma_slots_fit(len: nat, stride: u32)
    requires
        stride_in_range(stride),
        layout_matches(len, stride),
    ensures
        slot_total(stride) <= len,
        slot_total(stride) <= 2 * INPUT_SIDE * INPUT_SIDE,
{
    lemma_grid_bounds(stride);
    lemma_expected_anchors(stride);
    let cells = spec_cell_count(stride) as int;
    let n = expected_anchors(stride) as int;
    lemma_fundamental_div_mod(len as int, cells);
    lemma_mod_bound(len as int, cells);
    assert(cells * n <= 640 * 640 * 2) by (nonlinear_arith)
        requires
            1 <= cells <= 640 * 640,
            1 <= n <= 2,
    ;
}

/// Decodes the tensors of one stride.
///
/// `passing[i]` says whether score `i` of the stride's score tensor is
/// above the threshold. On a tensor with the layout of `stride`, the
/// detections of the passing slots are appended to `detections`, by rising
/// flat index: cell by cell along the rows, and inside a cell anchor by
/// anchor. Otherwise the layout error is returned and `detections` stays as
/// it was.
pub fn process_scale_detections(
    passing: &[bool],
    stride: u32,
    detections: &mut Vec<Detection>,
) -> (result: Result<(), LayoutMismatch>)
    requires
        stride_in_range(stride),
    ensures
        match scale_outcome(passing@, stride) {
            Ok(found) => result is Ok && final(detections)@ == old(detections)@ + found,
            Err(error) => result == Err::<(), LayoutMismatch>(error) && final(detections)@ == old(
                detections,
            )@,
        },
{
    let grid = grid_size(stride);
    let cells = cell_count(stride);
    let scales = get_scales(stride);
    proof {
        lemma_grid_bounds(stride);
    }
    let num_anchors = passing.len() / cells;
    if num_anchors != scales.len() {
        return Err(LayoutMismatch { stride, expected: scales.len(), actual: num_anchors });
    }
    proof {
        lemma_slots_fit(passing@.len(), stride);
    }
    let ghost before = detections@;
    let mut cell: usize = 0;
    while cell < cells
        invariant
            stride_in_range(stride),
            grid == spec_grid_size(stride),
            cells == spec_cell_count(stride),
            num_anchors == expected_anchors(stride),
            1 <= num_anchors <= 2,
            1 <= cells <= 640 * 640,
            cells * num_anchors <= passing@.len(),
            cell <= cells,
            detections@ == before + hits(passing@, stride, cell * num_anchors),
        decreases cells - cell,
    {
        let row = (cell as u32) / grid;
        let col = (cell as u32) % grid;
        let mut a: usize = 0;
        proof {
            assert(cell * num_anchors + num_anchors <= cells * num_anchors) by (nonlinear_arith)
                requires
                    cell < cells,
                    0 <= num_anchors,
            ;
        }
        while a < num_anchors
            invariant
                stride_in_range(stride),
                grid == spec_grid_size(stride),
                cells == spec_cell_count(stride),
                num_anchors == expected_anchors(stride),
                1 <= num_anchors <= 2,
                1 <= cells <= 640 * 640,
                cells * num_anchors <= passing@.len(),
                cell < cells,
                cell * num_anchors + num_anchors <= cells * num_anchors,
                a <= num_anchors,
                row == (cell as u32) / grid,
                col == (cell as u32) % grid,
                detections@ == before + hits(passing@, stride, cell * num_anchors + a),
            decreases num_anchors - a,
        {
            proof {
                assert(0 <= cell * num_anchors) by (nonlinear_arith)
                    requires
                        0 <= cell,
                        0 <= num_anchors,
                ;
                assert(cells * num_anchors <= 640 * 640 * 2) by (nonlinear_arith)
                    requires
                        1 <= cells <= 640 * 640,
                        1 <= num_anchors <= 2,
                ;
            }
            let index = cell * num_anchors + a;
            proof {
                let slot = spec_slot_of(stride, num_anchors as nat, index as nat);
                lemma_slot_of_index(stride, num_anchors as nat, index as nat);
                lemma_fundamental_div_mod_converse(
                    index as int,
                    num_anchors as int,
                    cell as int,
                    a as int,
                );
                assert(slot.row == row && slot.col == col);
            }
            if passing[index] {
                let point = reference_point(stride, Slot { row, col, anchor: a });
                detections.push(
                    Detection {
                        stride,
                        score_index: index,
                        delta_index: delta_start(index),
                        x: point.0,
                        y: point.1,
                    },
                );
            }
            a += 1;
        }
        proof {
            assert(cell * num_anchors + num_anchors == (cell + 1) * num_anchors)
                by (nonlinear_arith);
        }
        cell += 1;
    }
    Ok(())
}

/// What decoding the three strides gives: the detections of stride 8, then
/// those of stride 16, then those of stride 32, or the error of the first
/// stride, in that order, whose tensor does not have its layout.
pub open spec fn decode_outcome(
    passing08: Seq<bool>,
    passing16: Seq<bool>,
    passing32: Seq<bool>,
) -> Result<Seq<Detection>, LayoutMismatch> {
    match scale_outcome(passing08, 8) {
        Err(error) => Err(error),
        Ok(found08) => match scale_outcome(passing16, 16) {
            Err(error) => Err(error),
            Ok(found16) => match scale_outcome(passing32, 32) {
                Err(error) => Err(error),
                Ok(found32) => Ok(found08 + found16 + found32),
            },
        },
    }
}

/// A decoding result with the detections as a sequence.
pub open spec fn outcome_view(result: Result<Vec<Detection>, LayoutMismatch>) -> Result<
    Seq<Detection>,
    LayoutMismatch,
> {
    match result {
        Ok(detections) => Ok(detections@),
        Err(error) => Err(error),
    }
}

/// Decodes the tensors of the three strides.
///
/// `passing08[i]` says whether score `i` of the score tensor of stride 8 is
/// above the threshold, and so on for strides 16 and 32. The strides are
/// decoded in the order 8, 16, 32 and their detections are handed back in
/// that order, unsorted. The first stride whose tensor does not have its
/// layout ends the decoding with its error.
pub fn process_detections(passing08: &[bool], passing16: &[bool], passing32: &[bool]) -> (result:
    Result<Vec<Detection>, LayoutMismatch>)
    ensures
        outcome_view(result) == decode_outcome(passing08@, passing16@, passing32@),
{
    let mut detections: Vec<Detection> = Vec::new();
    match process_scale_detections(passing08, 8, &mut detections) {
        Err(error) => {
            return Err(error);
        },
        Ok(()) => {},
    }
    match process_scale_detections(passing16, 16, &mut detections) {
        Err(error) => {
            return Err(error);
        },
        Ok(()) => {},
    }
    match process_scale_detections(passing32, 32, &mut detections) {
        Err(error) => {
            return Err(error);
        },
        Ok(()) => {},
    }
    Ok(detections)
}

/// The detections of the first `upto` slots are the slots among them whose
/// score passes, each once, by rising flat index.
pub proof fn lemma_hits_are_passing_slots(passing: Seq<bool>, stride: u32, upto: int)
    requires
        0 <= upto <= passing.len(),
        upto <= usize::MAX,
    ensures
        hits(passing, stride, upto).len() <= upto,
        forall|j: int|
            0 <= j < hits(passing, stride, upto).len() ==> {
                let found = #[trigger] hits(passing, stride, upto)[j];
                &&& found.score_index < upto
                &&& passing[found.score_index as int]
                &&& found == located(stride, found.score_index as int)
            },
        forall|j: int, k: int|
            0 <= j < k < hits(passing, stride, upto).len() ==> (#[trigger] hits(
                passing,
                stride,
                upto,
            )[j]).score_index < (#[trigger] hits(passing, stride, upto)[k]).score_index,
        forall|i: int|
            0 <= i < upto && passing[i] ==> hits(passing, stride, upto).contains(
                #[trigger] located(stride, i),
            ),
    decreases upto,
{
    if upto > 0 {
        lemma_hits_are_passing_slots(passing, stride, upto - 1);
        let shorter = hits(passing, stride, upto - 1);
        let longer = hits(passing, stride, upto);
        assert forall|i: int| 0 <= i < upto && passing[i] implies longer.contains(
            #[trigger] located(stride, i),
        ) by {
            if i < upto - 1 {
                let j = choose|j: int| 0 <= j < shorter.len() && shorter[j] == located(stride, i);
                assert(longer[j] == located(stride, i));
            } else {
                assert(longer[longer.len() - 1] == located(stride, i));
            }
        }
    }
}

/// Every detection of a stride carries that stride, the index of its
/// distances is four times the index of its score, and its reference point is
/// the corner of a cell that lies on the canvas.
pub proof fn lemma_hits_on_canvas(passing: Seq<bool>, stride: u32, upto: int)
    requires
        stride_in_range(stride),
        0 <= upto <= slot_total(stride),
    ensures
        forall|j: int|
            0 <= j < hits(passing, stride, upto).len() ==> {
                let found = #[trigger] hits(passing, stride, upto)[j];
                &&& found.stride == stride
                &&& found.score_index < slot_total(stride)
                &&& found.delta_index == 4 * found.score_index
                &&& found.x % stride == 0
                &&& found.y % stride == 0
                &&& found.x + stride <= INPUT_SIDE
                &&& found.y + stride <= INPUT_SIDE
            },
    decreases upto,
{
    if upto > 0 {
        lemma_hits_on_canvas(passing, stride, upto - 1);
        lemma_grid_bounds(stride);
        lemma_expected_anchors(stride);
        let anchors = expected_anchors(stride);
        let cells = spec_cell_count(stride) as int;
        assert(cells * anchors <= 640 * 640 * 2) by (nonlinear_arith)
            requires
                1 <= cells <= 640 * 640,
                1 <= anchors <= 2,
        ;
        let index = (upto - 1) as nat;
        let slot = spec_slot_of(stride, anchors, index);
        lemma_slot_of_index(stride, anchors, index);
        lemma_reference_point_on_canvas(stride, anchors, slot);
        lemma_mod_multiples_basic(slot.col as int, stride as int);
        lemma_mod_multiples_basic(slot.row as int, stride as int);
        let last = located(stride, upto - 1);
        let shorter = hits(passing, stride, upto - 1);
        let longer = hits(passing, stride, upto);
        assert forall|j: int| 0 <= j < longer.len() implies ({
            let found = #[trigger] longer[j];
            &&& found.stride == stride
            &&& found.score_index < slot_total(stride)
            &&& found.delta_index == 4 * found.score_index
            &&& found.x % stride == 0
            &&& found.y % stride == 0
            &&& found.x + stride <= INPUT_SIDE
            &&& found.y + stride <= INPUT_SIDE
        }) by {
            if j < shorter.len() {
                assert(longer[j] == shorter[j]);
            } else {
                assert(longer[j] == last);
            }
        }
    }
}

/// The result of `process_detections` is fixed by the three inputs: two
/// results that its contract allows for the same inputs hold the same
/// detections in the same order, or the same error.
pub proof fn lemma_decoding_is_deterministic(
    passing08: Seq<bool>,
    passing16: Seq<bool>,
    passing32: Seq<bool>,
    first: Result<Vec<Detection>, LayoutMismatch>,
    second: Result<Vec<Detection>, LayoutMismatch>,
)
    requires
        outcome_view(first) == decode_outcome(passing08, passing16, passing32),
        outcome_view(second) == decode_outcome(passing08, passing16, passing32),
    ensures
        outcome_view(first) == outcome_view(second),
        first is Ok <==> second is Ok,
        first is Ok ==> first->Ok_0@ == second->Ok_0@,
        first is Err ==> first->Err_0 == second->Err_0,
{
}

/// Decoding keeps the strides apart: where it succeeds, no detection of a
/// larger stride stands before one of a smaller stride.
pub proof fn lemma_decoding_keeps_stride_order(
    passing08: Seq<bool>,
    passing16: Seq<bool>,
    passing32: Seq<bool>,
)
    requires
        decode_outcome(passing08, passing16, passing32) is Ok,
    ensures
        ({
            let found = decode_outcome(passing08, passing16, passing32)->Ok_0;
            &&& found == hits(passing08, 8, slot_total(8) as int) + hits(
                passing16,
                16,
                slot_total(16) as int,
            ) + hits(passing32, 32, slot_total(32) as int)
            &&& forall|j: int, k: int|
                0 <= j <= k < found.len() ==> (#[trigger] found[j]).stride <= (
                #[trigger] found[k]).stride
        }),
{
    lemma_hits_on_canvas(passing08, 8, slot_total(8) as int);
    lemma_hits_on_canvas(passing16, 16, slot_total(16) as int);
    lemma_hits_on_canvas(passing32, 32, slot_total(32) as int);
}

/// Whether column `x` of row `y` belongs to the outline of the box
/// `(x1, y1, x2, y2)`.
pub open spec fn on_box(x: int, y: int, corners: [u32; 4]) -> bool {
    on_outline(x, y, corners[0], corners[1], corners[2], corners[3])
}

/// Whether column `x` of row `y` belongs to the outline of one of the first
/// `upto` boxes.
pub open spec fn on_some_box(x: int, y: int, boxes: Seq<[u32; 4]>, upto: int) -> bool {
    exists|i: int| 0 <= i < upto && i < boxes.len() && on_box(x, y, #[trigger] boxes[i])
}

/// Draws the outline of every box, each given by its corners as
/// `[x1, y1, x2, y2]` in pixels.
///
/// Every pixel of the canvas that belongs to the outline of one of the
/// boxes becomes red, and the rest of the canvas stays as it was.
pub fn draw_detections(output_image: &mut Canvas, boxes: &[[u32; 4]])
    ensures
        repainted(
            *old(output_image),
            *final(output_image),
            |x: int, y: int| on_some_box(x, y, boxes@, boxes@.len() as int),
        ),
{
    let ghost before = *output_image;
    let mut i: usize = 0;
    while i < boxes.len()
        invariant
            i <= boxes@.len(),
            repainted(before, *output_image, |x: int, y: int| on_some_box(x, y, boxes@, i as int)),
        decreases boxes@.len() - i,
    {
        let corners = boxes[i];
        let ghost between = *output_image;
        draw_rectangle(output_image, corners[0], corners[1], corners[2], corners[3]);
        proof {
            assert forall|x: int, y: int| on_canvas(before, x, y) implies (on_some_box(
                x,
                y,
                boxes@,
                i + 1,
            ) <==> on_some_box(x, y, boxes@, i as int) || on_box(x, y, corners)) by {
                if on_box(x, y, corners) {
                    assert(on_box(x, y, boxes@[i as int]));
                }
            }
            lemma_repainted_twice(
                before,
                between,
                *output_image,
                |x: int, y: int| on_some_box(x, y, boxes@, i as int),
                |x: int, y: int| on_outline(x, y, corners[0], corners[1], corners[2], corners[3]),
                |x: int, y: int| on_some_box(x, y, boxes@, i + 1),
            );
        }
        i += 1;
    }
}

} // verus!
