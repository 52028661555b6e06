//! The part of a thumbnail that is kept when it is cropped to a square.

use vstd::prelude::*;

verus! {

/// A rectangle of pixels within an image.
#[derive(Clone, Copy, Debug, PartialEq, Eq, Structural)]
pub struct CropRect {
    pub x: u32,
    pub y: u32,
    pub width: u32,
    pub height: u32,
}

/// The square of full height in the middle of an image that is at least as
/// wide as it is high; an odd margin leaves the extra pixel on the right.
pub open spec fn centred_square(width: u32, height: u32) -> CropRect
    recommends
        width >= height,
{
    CropRect { x: ((width - height) / 2) as u32, y: 0, width: height, height }
}

/// The square of full height in the middle of the image.
pub fn square_crop(width: u32, height: u32) -> (rect: CropRect)
    requires
        width >= height,
    ensures
        rect == centred_square(width, height),
        rect.x + rect.width <= width,
        rect.y + rect.height <= height,
{
    CropRect { x: (width - height) / 2, y: 0, width: height, height }
}

} // verus!
