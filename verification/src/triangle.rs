//! Triangles, drawn as their three edges.

use crate::canvas::{lemma_extends_by_concat, Displayable, Drawable};
use crate::line::Line;
use crate::point::Point;
use vstd::prelude::*;
use vstd::seq_lib::seq_to_set_distributes_over_add;

verus! {

/// A triangle with the vertices `a`, `b` and `c`. Each vertex is joined to
/// the next, and the last to the first.
#[derive(Debug, Copy, Clone)]
pub struct Triangle {
    pub a: Point,
    pub b: Point,
    pub c: Point,
}

impl Triangle {
    /// The triangle with the given vertices.
    pub fn new(a: &Point, b: &Point, c: &Point) -> (t: Self)
        ensures
            t.a == *a,
            t.b == *b,
            t.c == *c,
    {
        Self { a: *a, b: *b, c: *c }
    }

    /// The three edges, in drawing order: `a` to `b`, `b` to `c`, `c` to
    /// `a`.
    pub open spec fn edges(self) -> (Line, Line, Line) {
        (
            Line { p1: self.a, p2: self.b },
            Line { p1: self.b, p2: self.c },
            Line { p1: self.c, p2: self.a },
        )
    }
}

impl Drawable for Triangle {
    /// A triangle writes its three edges one after the other. A shared
    /// vertex is written by both edges that meet there.
    open spec fn pixels(&self) -> Seq<(int, int)> {
        self.edges().0.pixels() + self.edges().1.pixels() + self.edges().2.pixels()
    }

    open spec fn fits(&self) -> bool {
        true
    }

    fn draw<T: Displayable>(&self, img: &mut T) {
        let ghost s0 = img.written();
        let ab = Line::new(&self.a, &self.b);
        ab.draw(img);
        let ghost s1 = img.written();
        let bc = Line::new(&self.b, &self.c);
        bc.draw(img);
        let ghost s2 = img.written();
        let ca = Line::new(&self.c, &self.a);
        ca.draw(img);
        proof {
            lemma_extends_by_concat(s0, s1, s2, ab.pixels(), bc.pixels());
            lemma_extends_by_concat(
                s0,
                s2,
                img.written(),
                ab.pixels() + bc.pixels(),
                ca.pixels(),
            );
        }
    }
}

/// The set of coordinates that a triangle writes is the union of the sets
/// that its three edges write.
pub proof fn triangle_is_union_of_edges(t: Triangle)
    ensures
        t.pixels().to_set() == t.edges().0.pixels().to_set().union(
            t.edges().1.pixels().to_set(),
        ).union(t.edges().2.pixels().to_set()),
{
    let ab = t.edges().0.pixels();
    let bc = t.edges().1.pixels();
    let ca = t.edges().2.pixels();
    seq_to_set_distributes_over_add(ab, bc);
    seq_to_set_distributes_over_add(ab + bc, ca);
}

} // verus!
