//! The grid of one stride, and the mapping between a flat tensor index and
//! the (row, column, anchor) slot it stands for.
//!
//! A stride `s` divides the square canvas into `640 / s` rows and as many
//! columns. The cells are numbered row by row, and every cell holds the same
//! number of anchor slots, so that the flat index of a slot is
//! `(row * grid + col) * anchors + anchor`.

use vstd::arithmetic::div_mod::*;
use vstd::arithmetic::mul::*;
use vstd::prelude::*;

verus! {

/// Side of the square canvas, in pixels.
pub const INPUT_SIDE: u32 = 640;

/// Number of values that the delta tensor holds for each slot.
pub const DELTAS_PER_SLOT: usize = 4;

/// One anchor slot of a grid cell.
#[derive(Debug, Clone, Copy, PartialEq, Eq, Structural)]
pub struct Slot {
    pub row: u32,
    pub col: u32,
    pub anchor: usize,
}

/// A stride is usable when it leaves the canvas at least one cell.
pub open spec fn stride_in_range(stride: u32) -> bool {
    0 < stride <= INPUT_SIDE
}

/// Cells along one side of the grid of `stride`.
pub open spec fn spec_grid_size(stride: u32) -> nat {
    (INPUT_SIDE as nat) / (stride as nat)
}

/// Cells in the whole grid of `stride`.
pub open spec fn spec_cell_count(stride: u32) -> nat {
    spec_grid_size(stride) * spec_grid_size(stride)
}

/// Whether `slot` lies in the grid of `stride` with `anchors` slots per cell.
pub open spec fn slot_in_grid(stride: u32, anchors: nat, slot: Slot) -> bool {
    &&& slot.row < spec_grid_size(stride)
    &&& slot.col < spec_grid_size(stride)
    &&& slot.anchor < anchors
}

/// The slot that the flat index `index` stands for.
pub open spec fn spec_slot_of(stride: u32, anchors: nat, index: nat) -> Slot {
    let cell = index / anchors;
    Slot {
        row: (cell / spec_grid_size(stride)) as u32,
        col: (cell % spec_grid_size(stride)) as u32,
        anchor: (index % anchors) as usize,
    }
}

/// The flat index of `slot`.
pub open spec fn spec_flat_index(stride: u32, anchors: nat, slot: Slot) -> nat {
    ((slot.row * spec_grid_size(stride) + slot.col) * anchors + slot.anchor) as nat
}

/// The pixel that a slot's distances are measured from: the top-left corner
/// of its cell, as (x, y).
pub open spec fn spec_reference_point(stride: u32, slot: Slot) -> (u32, u32) {
    ((slot.col * stride) as u32, (slot.row * stride) as u32)
}

/// Where the distances of the slot with flat index `index` begin in the
/// delta tensor.
pub open spec fn spec_delta_start(index: nat) -> nat {
    DELTAS_PER_SLOT as nat * index
}

/// The grid of a usable stride has between 1 and 640 cells along a side,
/// and `grid * stride` does not pass the canvas's side.
pub proof fn lemma_grid_bounds(stride: u32)
    requires
        stride_in_range(stride),
    ensures
        1 <= spec_grid_size(stride) <= INPUT_SIDE,
        spec_grid_size(stride) * stride <= INPUT_SIDE,
        1 <= spec_cell_count(stride) <= INPUT_SIDE * INPUT_SIDE,
{
    let g = spec_grid_size(stride) as int;
    let s = stride as int;
    let rest = 640int % s;
    lemma_fundamental_div_mod(640, s);
    lemma_mod_bound(640, s);
    lemma_mul_is_commutative(s, g);
    assert(g * s <= 640);
    assert(g >= 1) by (nonlinear_arith)
        requires
            1 <= s <= 640,
            640 == s * g + rest,
            0 <= rest < s,
    ;
    assert(g <= 640) by (nonlinear_arith)
        requires
            1 <= s,
            g * s <= 640,
            g >= 1,
    ;
    assert(1 <= g * g <= 640 * 640) by (nonlinear_arith)
        requires
            1 <= g <= 640,
    ;
}

/// A flat index below `cells * anchors` names a slot of the grid, and that
/// slot's flat index is the index again.
pub proof fn lemma_slot_of_index(stride: u32, anchors: nat, index: nat)
    requires
        stride_in_range(stride),
        anchors > 0,
        index < spec_cell_count(stride) * anchors,
        index <= usize::MAX,
    ensures
        slot_in_grid(stride, anchors, spec_slot_of(stride, anchors, index)),
        spec_flat_index(stride, anchors, spec_slot_of(stride, anchors, index)) == index,
{
    lemma_grid_bounds(stride);
    let g = spec_grid_size(stride) as int;
    let n = anchors as int;
    let i = index as int;
    let cell = i / n;
    lemma_fundamental_div_mod(i, n);
    lemma_mod_bound(i, n);
    lemma_mul_is_commutative(n, cell);
    assert(0 <= cell < g * g) by (nonlinear_arith)
        requires
            0 <= i < (g * g) * n,
            n > 0,
            i == cell * n + i % n,
            0 <= i % n < n,
    ;
    lemma_fundamental_div_mod(cell, g);
    lemma_mod_bound(cell, g);
    lemma_mul_is_commutative(g, cell / g);
    assert(0 <= cell / g < g) by (nonlinear_arith)
        requires
            0 <= cell < g * g,
            g > 0,
            cell == (cell / g) * g + cell % g,
            0 <= cell % g < g,
    ;
    let slot = spec_slot_of(stride, anchors, index);
    assert(slot.row == cell / g && slot.col == cell % g && slot.anchor == i % n);
}

/// The flat index of a slot of the grid is below `cells * anchors`, and it
/// stands for that slot and no other.
pub proof fn lemma_index_of_slot(stride: u32, anchors: nat, slot: Slot)
    requires
        stride_in_range(stride),
        slot_in_grid(stride, anchors, slot),
    ensures
        spec_flat_index(stride, anchors, slot) < spec_cell_count(stride) * anchors,
        spec_slot_of(stride, anchors, spec_flat_index(stride, anchors, slot)) == slot,
{
    lemma_grid_bounds(stride);
    let g = spec_grid_size(stride) as int;
    let n = anchors as int;
    let row = slot.row as int;
    let col = slot.col as int;
    let a = slot.anchor as int;
    let cell = row * g + col;
    let i = cell * n + a;
    assert(0 <= cell < g * g) by (nonlinear_arith)
        requires
            0 <= row < g,
            0 <= col < g,
            cell == row * g + col,
    ;
    assert(0 <= i < (g * g) * n) by (nonlinear_arith)
        requires
            0 <= cell < g * g,
            0 <= a < n,
            i == cell * n + a,
    ;
    lemma_fundamental_div_mod_converse(i, n, cell, a);
    lemma_fundamental_div_mod_converse(cell, g, row, col);
}

/// The reference point of a slot of the grid leaves room for a whole cell
/// on the canvas.
pub proof fn lemma_reference_point_on_canvas(stride: u32, anchors: nat, slot: Slot)
    requires
        stride_in_range(stride),
        slot_in_grid(stride, anchors, slot),
    ensures
        slot.col * stride + stride <= INPUT_SIDE,
        slot.row * stride + stride <= INPUT_SIDE,
{
    lemma_grid_bounds(stride);
    let g = spec_grid_size(stride) as int;
    let s = stride as int;
    let row = slot.row as int;
    let col = slot.col as int;
    assert(col * s + s <= g * s && row * s + s <= g * s) by (nonlinear_arith)
        requires
            0 <= col < g,
            0 <= row < g,
            s > 0,
    ;
}

/// Cells along one side of the grid of `stride`.
pub fn grid_size(stride: u32) -> (grid: u32)
    requires
        stride > 0,
    ensures
        grid == spec_grid_size(stride),
{
    INPUT_SIDE / stride
}

/// Cells in the whole grid of `stride`.
pub fn cell_count(stride: u32) -> (cells: usize)
    requires
        stride_in_range(stride),
    ensures
        cells == spec_cell_count(stride),
{
    let grid = grid_size(stride);
    proof {
        lemma_grid_bounds(stride);
    }
    (grid * grid) as usize
}

/// Maps a flat index to its slot.
pub fn slot_of(stride: u32, anchors: usize, index: usize) -> (slot: Slot)
    requires
        stride_in_range(stride),
        anchors > 0,
        index < spec_cell_count(stride) * anchors,
    ensures
        slot == spec_slot_of(stride, anchors as nat, index as nat),
        slot_in_grid(stride, anchors as nat, slot),
{
    let grid = grid_size(stride);
    let cell = index / anchors;
    proof {
        lemma_grid_bounds(stride);
        lemma_slot_of_index(stride, anchors as nat, index as nat);
    }
    Slot { row: (cell / grid as usize) as u32, col: (cell % grid as usize) as u32, anchor: index % anchors }
}

/// Maps a slot of the grid back to its flat index.
pub fn flat_index(stride: u32, anchors: usize, slot: Slot) -> (index: usize)
    requires
        stride_in_range(stride),
        slot_in_grid(stride, anchors as nat, slot),
        spec_cell_count(stride) * anchors <= usize::MAX,
    ensures
        index == spec_flat_index(stride, anchors as nat, slot),
        index < spec_cell_count(stride) * anchors,
{
    let grid = grid_size(stride);
    proof {
        lemma_grid_bounds(stride);
        lemma_index_of_slot(stride, anchors as nat, slot);
        let g = grid as int;
        assert(0 <= slot.row * g + slot.col < g * g) by (nonlinear_arith)
            requires
                0 <= slot.row < g,
                0 <= slot.col < g,
        ;
        assert(0 <= (slot.row * g + slot.col) * anchors) by (nonlinear_arith)
            requires
                0 <= slot.row * g + slot.col,
                0 <= anchors,
        ;
    }
    let cell = (slot.row * grid + slot.col) as usize;
    cell * anchors + slot.anchor
}

/// The top-left corner of the slot's cell, in pixels, as (x, y).
pub fn reference_point(stride: u32, slot: Slot) -> (point: (u32, u32))
    requires
        stride_in_range(stride),
        slot.row < spec_grid_size(stride),
        slot.col < spec_grid_size(stride),
    ensures
        point == spec_reference_point(stride, slot),
        point.0 + stride <= INPUT_SIDE,
        point.1 + stride <= INPUT_SIDE,
{
    proof {
        lemma_reference_point_on_canvas(stride, (slot.anchor + 1) as nat, slot);
    }
    (slot.col * stride, slot.row * stride)
}

/// Where the four distances of the slot with flat index `index` begin in
/// the delta tensor.
pub fn delta_start(index: usize) -> (start: usize)
    requires
        spec_delta_start(index as nat) <= usize::MAX,
    ensures
        start == spec_delta_start(index as nat),
{
    DELTAS_PER_SLOT * index
}

} // verus!
