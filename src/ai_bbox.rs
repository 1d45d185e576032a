//! Integer 2D axis-aligned bounding boxes.
use vstd::prelude::*;

verus! {

/// 2D axis-aligned bounding box with integer corners.
#[derive(Debug, Clone, Copy, PartialEq, Eq, Structural)]
pub struct AtBBox2 {
    pub minx: i32,
    pub miny: i32,
    pub maxx: i32,
    pub maxy: i32,
}

} // verus!
