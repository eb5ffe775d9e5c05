use vstd::prelude::*;

verus! {

/// A point or size in the plane, in sub-pixels.
#[derive(Debug, Clone, Copy, PartialEq, Eq, Structural, Default)]
pub struct Vec2 {
    pub x: i32,
    pub y: i32,
}

/// A point, rotation or scale in space, in sub-pixels (a scale factor of one is sixty).
#[derive(Debug, Clone, Copy, PartialEq, Eq, Structural)]
pub struct Vec3 {
    pub x: i32,
    pub y: i32,
    pub z: i32,
}

/// An RGBA colour, each channel in thousandths.
#[derive(Debug, Clone, Copy, PartialEq, Eq, Structural)]
pub struct Vec4 {
    pub x: i32,
    pub y: i32,
    pub z: i32,
    pub w: i32,
}

/// An axis-aligned rectangle, in sub-pixels, with its origin at the lower left.
#[derive(Debug, Clone, Copy, PartialEq, Eq, Structural)]
pub struct Rect {
    pub x: i32,
    pub y: i32,
    pub width: i32,
    pub height: i32,
}

impl Rect {
    pub open spec fn spec_contains(self, p: Vec2) -> bool {
        self.x <= p.x <= self.x + self.width && self.y <= p.y <= self.y + self.height
    }

    /// Whether the point lies inside the rectangle, borders included.
    pub fn contains(&self, point: Vec2) -> (r: bool)
        ensures
            r == self.spec_contains(point),
    {
        let px = point.x as i64;
        let py = point.y as i64;
        px >= self.x as i64 && px <= self.x as i64 + self.width as i64 && py >= self.y as i64
            && py <= self.y as i64 + self.height as i64
    }
}

} // verus!
