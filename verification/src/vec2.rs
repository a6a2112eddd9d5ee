//! Plain two-component integer vectors used for positions, sizes and
//! offsets throughout the rendering core.

use vstd::prelude::*;

verus! {

/// A vector of two unsigned coordinates (grid cells or pixels).
#[derive(Clone, Copy, Debug, PartialEq, Eq, Structural)]
pub struct UVec2 {
    pub x: u32,
    pub y: u32,
}

/// A vector of two signed coordinates (pixel positions and offsets).
#[derive(Clone, Copy, Debug, PartialEq, Eq, Structural)]
pub struct IVec2 {
    pub x: i32,
    pub y: i32,
}

/// Builds a `UVec2` from its two components.
pub fn uvec2(x: u32, y: u32) -> (r: UVec2)
    ensures
        r == (UVec2 { x, y }),
{
    UVec2 { x, y }
}

/// Builds an `IVec2` from its two components.
pub fn ivec2(x: i32, y: i32) -> (r: IVec2)
    ensures
        r == (IVec2 { x, y }),
{
    IVec2 { x, y }
}

} // verus!
