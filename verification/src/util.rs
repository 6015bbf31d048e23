use vstd::prelude::*;

verus! {

/// A rectangle of the page: the top left corner, the width and the height,
/// in whole page units.
#[derive(Clone, Copy, Debug, PartialEq, Eq, Structural)]
pub struct Rect {
    pub x: i32,
    pub y: i32,
    pub w: i32,
    pub h: i32,
}

/// Half of a length, rounded towards zero.
pub open spec fn half(n: int) -> int {
    if n >= 0 {
        n / 2
    } else {
        -((-n) / 2)
    }
}

impl Rect {
    /// Whether the point lies strictly inside the rectangle.
    pub open spec fn encloses_point(self, x: int, y: int) -> bool {
        self.x < x && x < self.x + self.w && self.y < y && y < self.y + self.h
    }

    /// Whether the point lies inside the rectangle or on its border.
    pub open spec fn contains_point(self, x: int, y: int) -> bool {
        self.x <= x && x <= self.x + self.w && self.y <= y && y <= self.y + self.h
    }

    /// The middle of the rectangle.
    pub open spec fn center_point(self) -> (int, int) {
        (self.x + half(self.w as int), self.y + half(self.h as int))
    }

    /// Whether the point lies strictly inside the rectangle.
    pub fn encloses(&self, x: i32, y: i32) -> (r: bool)
        ensures
            r == self.encloses_point(x as int, y as int),
    {
        let px = x as i64;
        let py = y as i64;
        (self.x as i64) < px && px < self.x as i64 + self.w as i64 && (self.y as i64) < py && py < self.y as i64
            + self.h as i64
    }

    /// Whether the point lies inside the rectangle or on its border.
    pub fn contains(&self, x: i32, y: i32) -> (r: bool)
        ensures
            r == self.contains_point(x as int, y as int),
    {
        let px = x as i64;
        let py = y as i64;
        (self.x as i64) <= px && px <= self.x as i64 + self.w as i64 && (self.y as i64) <= py && py <= self.y as i64
            + self.h as i64
    }

    /// The middle of the rectangle, each half rounded towards zero.
    pub fn center(&self) -> (r: (i64, i64))
        ensures
            (r.0 as int, r.1 as int) == self.center_point(),
    {
        (self.x as i64 + half_of(self.w), self.y as i64 + half_of(self.h))
    }
}

/// Half of a length, rounded towards zero.
fn half_of(n: i32) -> (r: i64)
    ensures
        r == half(n as int),
{
    let m = n as i64;
    if m >= 0 {
        m / 2
    } else {
        -((-m) / 2)
    }
}

/// Structural likeness: whether two values have the same shape, whatever
/// their identities.
pub trait Isomorphism {
    fn isomorphisms(&self, other: &Self) -> bool;
}

} // verus!
