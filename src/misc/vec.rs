use vstd::prelude::*;

verus! {

/// A plain two-component vector.
#[derive(Debug, Clone, Copy, PartialEq, Eq, Structural, Default)]
pub struct Vec2<T> {
    pub x: T,
    pub y: T,
}

impl<T> Vec2<T> {
    pub fn new(x: T, y: T) -> (r: Self)
        ensures
            r.x == x,
            r.y == y,
    {
        Self { x, y }
    }
}

impl Vec2<i64> {
    /// The vector mirrored across the y axis.
    pub fn inv_x(self) -> (r: Vec2<i64>)
        requires
            self.x != i64::MIN,
        ensures
            r.x == -self.x,
            r.y == self.y,
    {
        Vec2 { x: -self.x, y: self.y }
    }

    /// The vector mirrored across the x axis.
    pub fn inv_y(self) -> (r: Vec2<i64>)
        requires
            self.y != i64::MIN,
        ensures
            r.x == self.x,
            r.y == -self.y,
    {
        Vec2 { x: self.x, y: -self.y }
    }

    /// Both components made non-negative.
    pub fn abs(self) -> (r: Self)
        requires
            self.x != i64::MIN,
            self.y != i64::MIN,
        ensures
            r.x == (if self.x < 0 { -self.x } else { self.x as int }),
            r.y == (if self.y < 0 { -self.y } else { self.y as int }),
    {
        Vec2 {
            x: if self.x < 0 { -self.x } else { self.x },
            y: if self.y < 0 { -self.y } else { self.y },
        }
    }
}

} // verus!
