//! Post-processing for a multi-scale detection network on a 640 by 640
//! canvas.
//!
//! The network answers with a score tensor and a delta tensor for each of
//! the strides 8, 16 and 32. [`detection`] checks their layout against the
//! stride table, finds the grid slot of every score that passed its
//! threshold and says where on the canvas its box is measured from.
//! [`drawing`] paints the outlines of boxes on an RGB canvas, and
//! [`detection::preprocessing`] lays out the bytes of a canvas as the
//! network reads them.
//!
//! The library works on integers and bytes only. Comparing scores with a
//! threshold, scaling distances and adding them to a point is
//! floating-point work and is left to the caller.

pub mod detection;
pub mod drawing;
