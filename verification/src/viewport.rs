//! The terminal viewport: a size in character cells.

use vstd::prelude::*;

verus! {

/// A terminal viewport measured in character cells.
///
/// Cell dimensions are kept apart from framebuffer pixel dimensions: an encoder maps some number
/// of framebuffer pixels onto each cell (2×4 for Braille, 1×2 for half-blocks, 1×1 for ASCII).
#[derive(Clone, Copy, Debug, PartialEq, Eq, Structural)]
pub struct Viewport {
    /// Width in terminal columns.
    pub cols: u16,
    /// Height in terminal rows.
    pub rows: u16,
}

impl Viewport {
    /// Creates a viewport of `cols` × `rows` character cells.
    pub fn new(cols: u16, rows: u16) -> (v: Viewport)
        ensures
            v == (Viewport { cols, rows }),
    {
        Viewport { cols, rows }
    }

    /// The framebuffer pixel size for this viewport given per-cell subpixel factors.
    ///
    /// For Braille use `(2, 4)`, for half-blocks `(1, 2)`, for ASCII `(1, 1)`.
    pub fn render_size(self, subpixel_x: u16, subpixel_y: u16) -> (size: (usize, usize))
        ensures
            size.0 == self.cols * subpixel_x,
            size.1 == self.rows * subpixel_y,
    {
        assert(0 <= self.cols * subpixel_x <= 0xffff * 0xffff) by (nonlinear_arith)
            requires
                0 <= self.cols <= 0xffff,
                0 <= subpixel_x <= 0xffff,
        ;
        assert(0 <= self.rows * subpixel_y <= 0xffff * 0xffff) by (nonlinear_arith)
            requires
                0 <= self.rows <= 0xffff,
                0 <= subpixel_y <= 0xffff,
        ;
        (self.cols as usize * subpixel_x as usize, self.rows as usize * subpixel_y as usize)
    }
}

} // verus!
