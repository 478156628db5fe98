//! Fragments: candidate pixel writes produced by rasterization.

use vstd::prelude::*;
use crate::color::Color;

verus! {

/// A pixel position, its shaded color and its interpolated depth.
#[derive(Clone, Copy, Debug, PartialEq, Eq, Structural)]
pub struct Fragment {
    pub x: i32,
    pub y: i32,
    pub color: Color,
    pub depth: i64,
}

impl Fragment {
    pub fn new(x: i32, y: i32, color: Color, depth: i64) -> (f: Fragment)
        ensures
            f == (Fragment { x, y, color, depth }),
    {
        Fragment { x, y, color, depth }
    }
}

} // verus!
