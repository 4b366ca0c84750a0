//! Drawing on an RGB canvas.

pub mod canvas;
pub mod rectangle;
