//! Plain geometry shared by the other modules.

use vstd::prelude::*;

verus! {

/// An axis-aligned region of an image, in pixels.
#[derive(Copy, Clone, Debug, PartialEq, Eq, Structural)]
pub struct Rect {
    pub x: u32,
    pub y: u32,
    pub w: u32,
    pub h: u32,
}

/// A pixel position.
#[derive(Copy, Clone, Debug, PartialEq, Eq, Structural)]
pub struct Pt {
    pub x: u32,
    pub y: u32,
}

impl Default for Rect {
    fn default() -> (r: Rect)
        ensures
            r == (Rect { x: 0, y: 0, w: 0, h: 0 }),
    {
        Rect { x: 0, y: 0, w: 0, h: 0 }
    }
}

impl Default for Pt {
    fn default() -> (p: Pt)
        ensures
            p == (Pt { x: 0, y: 0 }),
    {
        Pt { x: 0, y: 0 }
    }
}

impl Pt {
    /// The position as an `(x, y)` pair.
    pub fn tuple(&self) -> (t: (u32, u32))
        ensures
            t == (self.x, self.y),
    {
        (self.x, self.y)
    }
}

impl Rect {
    /// The pixel at the middle of the region, rounded towards the origin.
    pub fn centre(&self) -> (c: (u32, u32))
        requires
            self.x + self.w / 2 <= u32::MAX,
            self.y + self.h / 2 <= u32::MAX,
        ensures
            c.0 == self.x + self.w / 2,
            c.1 == self.y + self.h / 2,
    {
        (self.x + self.w / 2, self.y + self.h / 2)
    }
}

} // verus!
