//! Pixel extents.

use vstd::prelude::*;

verus! {

/// Width and height of a frame or an output, in pixels.
#[derive(Debug, Clone, Copy, PartialEq, Eq, Structural)]
pub struct Size {
    pub width: u32,
    pub height: u32,
}

impl Size {
    /// The number of pixels of the extent.
    pub open spec fn area(self) -> int {
        self.width * self.height
    }
}

impl Default for Size {
    /// The empty extent.
    fn default() -> (size: Self)
        ensures
            size == (Size { width: 0, height: 0 }),
    {
        Size { width: 0, height: 0 }
    }
}

/// The empty extent has no pixels, and any other as many as its width times its height.
pub proof fn law_extents_have_pixels(size: Size, empty: Size)
    requires
        call_ensures(Size::default, (), empty),
    ensures
        empty.width == 0 && empty.height == 0,
        size.area() == size.width * size.height,
{
}

} // verus!
