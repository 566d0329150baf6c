//! Plain two- and three-dimensional extents, offsets and rectangles.

use vstd::prelude::*;

verus! {

/// A width and height in pixels.
#[derive(Clone, Copy, Debug, PartialEq, Eq, Structural, Hash)]
pub struct Extent2d {
    pub width: u32,
    pub height: u32,
}

impl Extent2d {
    pub fn new(width: u32, height: u32) -> (r: Self)
        ensures
            r.width == width,
            r.height == height,
    {
        Self { width, height }
    }

    pub fn is_zero(&self) -> (r: bool)
        ensures
            r == (self.width == 0 && self.height == 0),
    {
        self.width == 0 && self.height == 0
    }
}

/// A width, height and depth in pixels.
#[derive(Clone, Copy, Debug, PartialEq, Eq, Structural, Hash)]
pub struct Extent3d {
    pub width: u32,
    pub height: u32,
    pub depth: u32,
}

impl Extent3d {
    pub fn new(width: u32, height: u32, depth: u32) -> (r: Self)
        ensures
            r.width == width,
            r.height == height,
            r.depth == depth,
    {
        Self { width, height, depth }
    }

    pub fn is_zero(&self) -> (r: bool)
        ensures
            r == (self.width == 0 && self.height == 0 && self.depth == 0),
    {
        self.width == 0 && self.height == 0 && self.depth == 0
    }

    /// Drop the depth, keeping width and height.
    pub fn to_2d(self) -> (r: Extent2d)
        ensures
            r.width == self.width,
            r.height == self.height,
    {
        Extent2d { width: self.width, height: self.height }
    }
}

/// A signed two-dimensional offset.
#[derive(Clone, Copy, Debug, PartialEq, Eq, Structural, Hash)]
pub struct Offset2d {
    pub x: i32,
    pub y: i32,
}

impl Offset2d {
    pub fn new(x: i32, y: i32) -> (r: Self)
        ensures
            r.x == x,
            r.y == y,
    {
        Self { x, y }
    }

    pub fn is_zero(&self) -> (r: bool)
        ensures
            r == (self.x == 0 && self.y == 0),
    {
        self.x == 0 && self.y == 0
    }
}

/// An axis-aligned rectangle given by an offset and an extent.
#[derive(Clone, Copy, Debug, PartialEq, Eq, Structural, Hash)]
pub struct Rect2d {
    pub offset: Offset2d,
    pub extent: Extent2d,
}

impl Rect2d {
    pub fn new(offset: Offset2d, extent: Extent2d) -> (r: Self)
        ensures
            r.offset == offset,
            r.extent == extent,
    {
        Self { offset, extent }
    }

    /// A rectangle of the given size at the origin.
    pub fn from_size(width: u32, height: u32) -> (r: Self)
        ensures
            r.offset == (Offset2d { x: 0, y: 0 }),
            r.extent == (Extent2d { width, height }),
    {
        Self { offset: Offset2d { x: 0, y: 0 }, extent: Extent2d { width, height } }
    }
}

} // verus!
