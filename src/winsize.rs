use vstd::prelude::*;

use crate::term::IoFailure;

verus! {

/// Terminal geometry: character cells and pixels, as the terminal-geometry
/// control calls exchange it.
#[derive(Clone, Copy, Debug, PartialEq, Eq, Structural)]
pub struct WindowSize {
    pub rows: u16,
    pub cols: u16,
    pub pixel_width: u16,
    pub pixel_height: u16,
}

impl WindowSize {
    /// A geometry of `rows` x `cols` cells with the given pixel extent.
    pub fn new(rows: u16, cols: u16, pixel_width: u16, pixel_height: u16) -> (r: WindowSize)
        ensures
            r.rows == rows,
            r.cols == cols,
            r.pixel_width == pixel_width,
            r.pixel_height == pixel_height,
    {
        WindowSize { rows, cols, pixel_width, pixel_height }
    }
}

/// A device whose terminal geometry can be queried and set.
pub trait WinSizeExt {
    /// Reads the current geometry.
    fn get_term_size(&self) -> (r: Result<WindowSize, IoFailure>);

    /// Pushes `win` as the new geometry.
    fn set_term_size(&mut self, win: &WindowSize) -> (r: Result<(), IoFailure>);
}

} // verus!
