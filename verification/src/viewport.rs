//! Viewport rectangles in target pixels.
use vstd::prelude::*;

verus! {

/// A viewport rectangle: origin and size in target pixels.
#[derive(Clone, Copy, Debug, PartialEq, Eq, Hash, Structural)]
pub struct RenderViewportRect {
    pub x: u32,
    pub y: u32,
    pub width: u32,
    pub height: u32,
}

impl RenderViewportRect {
    pub fn new(x: u32, y: u32, width: u32, height: u32) -> (r: Self)
        ensures
            r == (RenderViewportRect { x, y, width, height }),
    {
        RenderViewportRect { x, y, width, height }
    }
}

} // verus!
