//! The shapes that can stand in the flow.

use crate::scalar::Scalar;
use vstd::prelude::*;

verus! {

/// Something solid: it tells of every point whether it lies inside.
pub trait Obstacle<T: Scalar> {
    /// The result of `is_inside`.
    spec fn spec_is_inside(&self, x: T, y: T) -> bool;

    /// Whether the point `(x, y)` lies inside the obstacle.
    #[verifier::when_used_as_spec(spec_is_inside)]
    fn is_inside(&self, x: T, y: T) -> (r: bool)
        ensures
            r == self.spec_is_inside(x, y),
    ;
}

/// Whether `(px, py)` lies less than `w` from `(x, y)` along x and less than
/// `h` along y.
pub open spec fn in_rectangle<T: Scalar>(x: T, y: T, w: T, h: T, px: T, py: T) -> bool {
    px.minus(x).abs().lt(w) && py.minus(y).abs().lt(h)
}

/// Whether `(px, py)` lies less than `r` from `(x, y)`.
pub open spec fn in_circle<T: Scalar>(x: T, y: T, r: T, px: T, py: T) -> bool {
    let dx = px.minus(x);
    let dy = py.minus(y);
    dx.times(dx).plus(dy.times(dy)).sqrt().lt(r)
}

/// A rectangle around `(x, y)` that reaches `w` to either side along x and
/// `h` along y.
#[derive(Debug)]
pub struct RectangularObstacle<T> {
    pub x: T,
    pub y: T,
    pub w: T,
    pub h: T,
}

impl<T: Scalar> RectangularObstacle<T> {
    /// The rectangle around `(x, y)` with half width `w` and half height `h`.
    pub fn new(x: T, y: T, w: T, h: T) -> (r: RectangularObstacle<T>)
        ensures
            r == (RectangularObstacle { x, y, w, h }),
    {
        RectangularObstacle { x, y, w, h }
    }
}

impl<T: Scalar> Obstacle<T> for RectangularObstacle<T> {
    open spec fn spec_is_inside(&self, x: T, y: T) -> bool {
        in_rectangle(self.x, self.y, self.w, self.h, x, y)
    }

    fn is_inside(&self, x: T, y: T) -> (r: bool) {
        let dx = x.minus(self.x);
        let dy = y.minus(self.y);
        assert(self.spec_is_inside(x, y) == in_rectangle(self.x, self.y, self.w, self.h, x, y));
        dx.abs().lt(self.w) && dy.abs().lt(self.h)
    }
}

/// A disc around `(x, y)` with radius `r`.
#[derive(Debug)]
pub struct CircularObstacle<T> {
    pub x: T,
    pub y: T,
    pub r: T,
}

impl<T: Scalar> CircularObstacle<T> {
    /// The disc around `(x, y)` with radius `r`.
    pub fn new(x: T, y: T, r: T) -> (c: CircularObstacle<T>)
        ensures
            c == (CircularObstacle { x, y, r }),
    {
        CircularObstacle { x, y, r }
    }
}

impl<T: Scalar> Obstacle<T> for CircularObstacle<T> {
    open spec fn spec_is_inside(&self, x: T, y: T) -> bool {
        in_circle(self.x, self.y, self.r, x, y)
    }

    fn is_inside(&self, x: T, y: T) -> (r: bool) {
        let dx = x.minus(self.x);
        let dy = y.minus(self.y);
        let d = dx.times(dx).plus(dy.times(dy)).sqrt();
        assert(self.spec_is_inside(x, y) == in_circle(self.x, self.y, self.r, x, y));
        d.lt(self.r)
    }
}

/// The shapes a scenario can be built from.
#[derive(Debug)]
pub enum ObstacleType<T> {
    /// A rectangle around `(x, y)` with half width `w` and half height `h`.
    Rectangular { x: T, y: T, w: T, h: T },
    /// A disc around `(x, y)` with radius `r`.
    Circular { x: T, y: T, r: T },
}

impl<T: Scalar> Obstacle<T> for ObstacleType<T> {
    open spec fn spec_is_inside(&self, x: T, y: T) -> bool {
        match *self {
            ObstacleType::Rectangular { x: cx, y: cy, w, h } => in_rectangle(cx, cy, w, h, x, y),
            ObstacleType::Circular { x: cx, y: cy, r } => in_circle(cx, cy, r, x, y),
        }
    }

    fn is_inside(&self, x: T, y: T) -> (r: bool) {
        match *self {
            ObstacleType::Rectangular { x: cx, y: cy, w, h } => RectangularObstacle::new(
                cx,
                cy,
                w,
                h,
            ).is_inside(x, y),
            ObstacleType::Circular { x: cx, y: cy, r } => CircularObstacle::new(cx, cy, r).is_inside(
                x,
                y,
            ),
        }
    }
}

/// Several shapes together: a point lies inside if it lies inside any of
/// them.
impl<T: Scalar> Obstacle<T> for Vec<ObstacleType<T>> {
    open spec fn spec_is_inside(&self, x: T, y: T) -> bool {
        exists|n: int| 0 <= n < self@.len() && (#[trigger] self@[n]).spec_is_inside(x, y)
    }

    fn is_inside(&self, x: T, y: T) -> (r: bool) {
        let mut found = false;
        let mut n: usize = 0;
        while n < self.len()
            invariant
                n <= self.len(),
                found == exists|l: int| 0 <= l < n && (#[trigger] self@[l]).spec_is_inside(x, y),
            decreases self.len() - n,
        {
            if self[n].is_inside(x, y) {
                found = true;
            }
            n += 1;
        }
        found
    }
}

} // verus!
