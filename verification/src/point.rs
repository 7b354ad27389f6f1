//! Points of the integer plane.

use crate::canvas::{lemma_extends_by_nothing, write_at, Displayable, Drawable};
use crate::sampling::{random_range, InvalidRange};
use vstd::prelude::*;

verus! {

/// A point with integer coordinates. It may lie outside any image.
#[derive(Debug, Copy, Clone, PartialEq, Eq, Structural)]
pub struct Point {
    pub x: i32,
    pub y: i32,
}

impl Point {
    /// The point `(x, y)`.
    pub fn new(x: i32, y: i32) -> (p: Self)
        ensures
            p.x == x,
            p.y == y,
    {
        Self { x, y }
    }

    /// The coordinate pair of the point.
    pub open spec fn coord(self) -> (int, int) {
        (self.x as int, self.y as int)
    }

    /// A point inside `[0, w) x [0, h)`.
    pub open spec fn within(self, w: int, h: int) -> bool {
        0 <= self.x < w && 0 <= self.y < h
    }

    /// What `random` answers on bounds it must reject: the first empty range
    /// among `[0, w)` and `[0, h)`.
    pub open spec fn random_failure(w: i32, h: i32) -> Option<InvalidRange> {
        if w <= 0 {
            Some(InvalidRange { low: 0, high: w })
        } else if h <= 0 {
            Some(InvalidRange { low: 0, high: h })
        } else {
            None
        }
    }

    /// A point with `x` sampled uniformly from `[0, w)` and `y` from `[0, h)`.
    ///
    /// Both bounds must be positive; otherwise the empty range is reported
    /// and nothing is sampled.
    pub fn random(w: i32, h: i32) -> (r: Result<Self, InvalidRange>)
        ensures
            r is Ok <==> w > 0 && h > 0,
            r matches Ok(p) ==> p.within(w as int, h as int),
            r matches Err(e) ==> Self::random_failure(w, h) == Some(e),
    {
        if w <= 0 {
            return Err(InvalidRange { low: 0, high: w });
        }
        if h <= 0 {
            return Err(InvalidRange { low: 0, high: h });
        }
        let x: i32 = random_range(0, w);
        let y: i32 = random_range(0, h);
        Ok(Self::new(x, y))
    }
}

impl Drawable for Point {
    /// A point writes itself, once.
    open spec fn pixels(&self) -> Seq<(int, int)> {
        seq![self.coord()]
    }

    open spec fn fits(&self) -> bool {
        true
    }

    fn draw<T: Displayable>(&self, img: &mut T) {
        let ghost before = img.written();
        proof {
            lemma_extends_by_nothing(before);
        }
        write_at(img, self.x, self.y, self.color(), Ghost(before), Ghost(Seq::empty()));
        assert(Seq::<(int, int)>::empty().push(self.coord()) == self.pixels());
    }
}

} // verus!
