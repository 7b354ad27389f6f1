//! Axis-aligned rectangles, drawn as their four edges.

use crate::canvas::{lemma_extends_by_concat, Displayable, Drawable};
use crate::line::{line_axis_aligned, line_within_box, Line};
use crate::point::Point;
use vstd::math::{abs, max, min};
use vstd::prelude::*;
use vstd::seq_lib::lemma_seq_concat_contains_all_elements;

verus! {

/// The rectangle with sides parallel to the axes whose diagonal runs from
/// `p1` to `p2`. Either diagonal and either direction will do.
#[derive(Debug, Copy, Clone)]
pub struct Rectangle {
    pub p1: Point,
    pub p2: Point,
}

impl Rectangle {
    /// The rectangle with the diagonal from `p1` to `p2`.
    pub fn new(p1: &Point, p2: &Point) -> (r: Self)
        ensures
            r.p1 == *p1,
            r.p2 == *p2,
    {
        Self { p1: *p1, p2: *p2 }
    }

    /// The corner that shares its column with `p2` and its row with `p1`.
    pub open spec fn corner_a(self) -> Point {
        Point { x: self.p2.x, y: self.p1.y }
    }

    /// The corner that shares its column with `p1` and its row with `p2`.
    pub open spec fn corner_c(self) -> Point {
        Point { x: self.p1.x, y: self.p2.y }
    }

    /// The four edges, in drawing order. With `b` for `p1` and `d` for `p2`
    /// they run from `a` to `b`, `b` to `c`, `c` to `d` and `d` to `a`.
    pub open spec fn edges(self) -> (Line, Line, Line, Line) {
        (
            Line { p1: self.corner_a(), p2: self.p1 },
            Line { p1: self.p1, p2: self.corner_c() },
            Line { p1: self.corner_c(), p2: self.p2 },
            Line { p1: self.p2, p2: self.corner_a() },
        )
    }

    /// The coordinate `(x, y)` lies on the border of the rectangle.
    pub open spec fn on_border(self, x: int, y: int) -> bool {
        &&& min(self.p1.x as int, self.p2.x as int) <= x <= max(self.p1.x as int, self.p2.x as int)
        &&& min(self.p1.y as int, self.p2.y as int) <= y <= max(self.p1.y as int, self.p2.y as int)
        &&& (x == self.p1.x || x == self.p2.x || y == self.p1.y || y == self.p2.y)
    }
}

impl Drawable for Rectangle {
    /// A rectangle writes its four edges one after the other. A corner is
    /// written by both edges that meet there.
    open spec fn pixels(&self) -> Seq<(int, int)> {
        self.edges().0.pixels() + self.edges().1.pixels() + self.edges().2.pixels()
            + self.edges().3.pixels()
    }

    open spec fn fits(&self) -> bool {
        true
    }

    fn draw<T: Displayable>(&self, img: &mut T) {
        let b = self.p1;
        let d = self.p2;
        let a = Point::new(d.x, b.y);
        let c = Point::new(b.x, d.y);
        let ghost s0 = img.written();
        let ab = Line::new(&a, &b);
        ab.draw(img);
        let ghost s1 = img.written();
        let bc = Line::new(&b, &c);
        bc.draw(img);
        let ghost s2 = img.written();
        let cd = Line::new(&c, &d);
        cd.draw(img);
        let ghost s3 = img.written();
        let da = Line::new(&d, &a);
        da.draw(img);
        proof {
            lemma_extends_by_concat(s0, s1, s2, ab.pixels(), bc.pixels());
            lemma_extends_by_concat(s0, s2, s3, ab.pixels() + bc.pixels(), cd.pixels());
            lemma_extends_by_concat(
                s0,
                s3,
                img.written(),
                ab.pixels() + bc.pixels() + cd.pixels(),
                da.pixels(),
            );
        }
    }
}

/// Drawing a rectangle is drawing four segments between its corners, in a
/// fixed order: from the corner beside `p1` in the row of `p1` to `p1`, on
/// to the corner below or above it in the row of `p2`, on to `p2`, and back
/// to the first corner.
pub proof fn rectangle_is_four_lines(r: Rectangle)
    ensures
        r.pixels() == (Line { p1: Point { x: r.p2.x, y: r.p1.y }, p2: r.p1 }).pixels() + (Line {
            p1: r.p1,
            p2: Point { x: r.p1.x, y: r.p2.y },
        }).pixels() + (Line { p1: Point { x: r.p1.x, y: r.p2.y }, p2: r.p2 }).pixels() + (Line {
            p1: r.p2,
            p2: Point { x: r.p2.x, y: r.p1.y },
        }).pixels(),
        r.pixels().len() == 2 * abs(r.p2.x - r.p1.x) + 2 * abs(r.p2.y - r.p1.y) + 4,
{
}

/// A rectangle writes exactly the coordinates on its border.
pub proof fn rectangle_covers_border(r: Rectangle, x: int, y: int)
    ensures
        r.pixels().contains((x, y)) <==> r.on_border(x, y),
{
    let e = r.edges();
    let p = (x, y);
    lemma_seq_concat_contains_all_elements(e.0.pixels(), e.1.pixels(), p);
    lemma_seq_concat_contains_all_elements(e.0.pixels() + e.1.pixels(), e.2.pixels(), p);
    lemma_seq_concat_contains_all_elements(
        e.0.pixels() + e.1.pixels() + e.2.pixels(),
        e.3.pixels(),
        p,
    );
    lemma_edge_covers(e.0, x, y);
    lemma_edge_covers(e.1, x, y);
    lemma_edge_covers(e.2, x, y);
    lemma_edge_covers(e.3, x, y);
}

/// A horizontal or vertical segment writes exactly the coordinates between
/// its ends.
proof fn lemma_edge_covers(l: Line, x: int, y: int)
    requires
        l.p1.x == l.p2.x || l.p1.y == l.p2.y,
    ensures
        l.pixels().contains((x, y)) <==> {
            &&& min(l.p1.x as int, l.p2.x as int) <= x <= max(l.p1.x as int, l.p2.x as int)
            &&& min(l.p1.y as int, l.p2.y as int) <= y <= max(l.p1.y as int, l.p2.y as int)
        },
{
    let p = (x, y);
    if l.pixels().contains(p) {
        let i = choose|i: int| 0 <= i < l.pixels().len() && l.pixels()[i] == p;
        line_within_box(l, i);
    }
    if min(l.p1.x as int, l.p2.x as int) <= x <= max(l.p1.x as int, l.p2.x as int) && min(
        l.p1.y as int,
        l.p2.y as int,
    ) <= y <= max(l.p1.y as int, l.p2.y as int) {
        let i = if l.p1.y == l.p2.y {
            abs(x - l.p1.x) as int
        } else {
            abs(y - l.p1.y) as int
        };
        line_axis_aligned(l, i);
        assert(l.pixels()[i] == p);
    }
}

} // verus!
