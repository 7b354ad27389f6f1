//! Line segments, rasterized by stepping along the dominant axis.

use crate::canvas::{extends_by, lemma_extends_by_nothing, write_at, Displayable, Drawable};
use crate::point::Point;
use crate::rounding::{
    lemma_round_div_exact, lemma_round_div_monotone, lemma_round_div_step, round_div,
    rounded_quotient,
};
use crate::sampling::InvalidRange;
use vstd::math::{abs, max, min};
use vstd::prelude::*;

verus! {

/// The number of steps from `p1` to `p2`: the larger of the two coordinate
/// distances.
pub open spec fn line_steps(p1: Point, p2: Point) -> int {
    max(abs(p2.x - p1.x) as int, abs(p2.y - p1.y) as int)
}

/// The coordinate reached after `i` of `s` equal steps from `a` to `b`,
/// rounded to the nearest integer, a tie going away from zero. With no step
/// to take it is `a`.
pub open spec fn interpolate(a: int, b: int, i: int, s: int) -> int {
    if s <= 0 {
        a
    } else {
        round_div(a * s + i * (b - a), s)
    }
}

/// The pixel written at step `i` of the segment from `p1` to `p2`.
pub open spec fn line_point(p1: Point, p2: Point, i: int) -> (int, int) {
    let s = line_steps(p1, p2);
    (interpolate(p1.x as int, p2.x as int, i, s), interpolate(p1.y as int, p2.y as int, i, s))
}

/// The pixels of the segment from `p1` to `p2`, in writing order: one for
/// each step from 0 to `line_steps(p1, p2)`, both included.
pub open spec fn line_pixels(p1: Point, p2: Point) -> Seq<(int, int)> {
    Seq::new((line_steps(p1, p2) + 1) as nat, |i: int| line_point(p1, p2, i))
}

/// An interpolated coordinate lies between the two ends.
pub proof fn lemma_interpolate_between(a: int, b: int, i: int, s: int)
    requires
        0 <= i <= s,
    ensures
        min(a, b) <= interpolate(a, b, i, s) <= max(a, b),
{
    if s > 0 {
        let n = a * s + i * (b - a);
        lemma_round_div_exact(a, s);
        lemma_round_div_exact(b, s);
        if a <= b {
            assert(a * s <= n <= b * s) by (nonlinear_arith)
                requires
                    n == a * s + i * (b - a),
                    0 <= i <= s,
                    a <= b,
            ;
            lemma_round_div_monotone(a * s, n, s);
            lemma_round_div_monotone(n, b * s, s);
        } else {
            assert(b * s <= n <= a * s) by (nonlinear_arith)
                requires
                    n == a * s + i * (b - a),
                    0 <= i <= s,
                    b < a,
            ;
            lemma_round_div_monotone(b * s, n, s);
            lemma_round_div_monotone(n, a * s, s);
        }
    }
}

/// Stepping from `b` to `a` visits the coordinates of the way from `a` to
/// `b` in reverse.
pub proof fn lemma_interpolate_reverse(a: int, b: int, i: int, s: int)
    requires
        abs(b - a) <= s,
    ensures
        interpolate(b, a, i, s) == interpolate(a, b, s - i, s),
{
    if s > 0 {
        assert(b * s + i * (a - b) == a * s + (s - i) * (b - a)) by (nonlinear_arith);
    }
}

/// The way starts at `a` and, when there is a step to take, ends at `b`.
pub proof fn lemma_interpolate_ends(a: int, b: int, s: int)
    ensures
        interpolate(a, b, 0, s) == a,
        s > 0 ==> interpolate(a, b, s, s) == b,
{
    if s > 0 {
        lemma_round_div_exact(a, s);
        lemma_round_div_exact(b, s);
        assert(a * s + 0 * (b - a) == a * s) by (nonlinear_arith);
        assert(a * s + s * (b - a) == b * s) by (nonlinear_arith);
    }
}

/// When the ends are no further apart than the number of steps, one step
/// moves the coordinate by at most one.
pub proof fn lemma_interpolate_step(a: int, b: int, i: int, s: int)
    requires
        abs(b - a) <= s,
    ensures
        abs(interpolate(a, b, i + 1, s) - interpolate(a, b, i, s)) <= 1,
{
    if s > 0 {
        let n1 = a * s + i * (b - a);
        let n2 = a * s + (i + 1) * (b - a);
        assert(n2 == n1 + (b - a)) by (nonlinear_arith)
            requires
                n1 == a * s + i * (b - a),
                n2 == a * s + (i + 1) * (b - a),
        ;
        if b - a == s {
            assert(n1 == (a + i) * s && n2 == (a + i + 1) * s) by (nonlinear_arith)
                requires
                    n1 == a * s + i * (b - a),
                    n2 == n1 + (b - a),
                    b - a == s,
            ;
            lemma_round_div_exact(a + i, s);
            lemma_round_div_exact(a + i + 1, s);
        } else if a - b == s {
            assert(n1 == (a - i) * s && n2 == (a - i - 1) * s) by (nonlinear_arith)
                requires
                    n1 == a * s + i * (b - a),
                    n2 == n1 + (b - a),
                    a - b == s,
            ;
            lemma_round_div_exact(a - i, s);
            lemma_round_div_exact(a - i - 1, s);
        } else if a <= b {
            lemma_round_div_step(n1, n2, s);
        } else {
            lemma_round_div_step(n2, n1, s);
        }
    }
}

/// Along the dominant axis, where the ends are exactly as far apart as
/// there are steps, each step moves the coordinate by exactly one.
pub proof fn lemma_interpolate_dominant(a: int, b: int, i: int, s: int)
    requires
        abs(b - a) == s,
        0 <= i <= s,
    ensures
        interpolate(a, b, i, s) == if a <= b { a + i } else { a - i },
{
    if s > 0 {
        if a <= b {
            assert(a * s + i * (b - a) == (a + i) * s) by (nonlinear_arith)
                requires
                    b - a == s,
            ;
            lemma_round_div_exact(a + i, s);
        } else {
            assert(a * s + i * (b - a) == (a - i) * s) by (nonlinear_arith)
                requires
                    a - b == s,
            ;
            lemma_round_div_exact(a - i, s);
        }
    }
}

/// A line segment between two points. The two ends are interchangeable: the
/// segment covers the same pixels whichever comes first.
#[derive(Debug, Copy, Clone)]
pub struct Line {
    pub p1: Point,
    pub p2: Point,
}

/// Computes `interpolate(a, b, i, s)`.
fn coordinate_at(a: i32, b: i32, i: i64, s: i64) -> (c: i32)
    requires
        0 <= i <= s,
        abs(b - a) <= s <= 0xffff_ffff,
    ensures
        c == interpolate(a as int, b as int, i as int, s as int),
{
    if s == 0 {
        return a;
    }
    let wide_a: i128 = a as i128;
    let wide_i: i128 = i as i128;
    let wide_s: i128 = s as i128;
    let delta: i128 = b as i128 - wide_a;
    assert(-0x8000_0000_0000_0000 <= wide_a * wide_s <= 0x8000_0000_0000_0000)
        by (nonlinear_arith)
        requires
            -0x8000_0000 <= wide_a <= 0x8000_0000,
            0 <= wide_s <= 0x1_0000_0000,
    ;
    assert(-0x1_0000_0000_0000_0000 <= wide_i * delta <= 0x1_0000_0000_0000_0000)
        by (nonlinear_arith)
        requires
            -0x1_0000_0000 <= delta <= 0x1_0000_0000,
            0 <= wide_i <= 0x1_0000_0000,
    ;
    let q: i128 = rounded_quotient(wide_a * wide_s + wide_i * delta, wide_s);
    proof {
        lemma_interpolate_between(a as int, b as int, i as int, s as int);
    }
    q as i32
}

impl Line {
    /// The segment from `p1` to `p2`.
    pub fn new(p1: &Point, p2: &Point) -> (l: Self)
        ensures
            l.p1 == *p1,
            l.p2 == *p2,
    {
        Self { p1: *p1, p2: *p2 }
    }

    /// A segment whose two ends are sampled independently and uniformly from
    /// `[0, w) x [0, h)`.
    ///
    /// Both bounds must be positive; otherwise the empty range is reported
    /// and nothing is sampled.
    pub fn random(w: i32, h: i32) -> (r: Result<Self, InvalidRange>)
        ensures
            r is Ok <==> w > 0 && h > 0,
            r matches Ok(l) ==> l.p1.within(w as int, h as int) && l.p2.within(w as int, h as int),
            r matches Err(e) ==> Point::random_failure(w, h) == Some(e),
    {
        let p1 = match Point::random(w, h) {
            Ok(p) => p,
            Err(e) => { return Err(e); },
        };
        let p2 = match Point::random(w, h) {
            Ok(p) => p,
            Err(e) => { return Err(e); },
        };
        Ok(Self::new(&p1, &p2))
    }

    /// The number of steps between the two ends.
    fn steps(&self) -> (s: i64)
        ensures
            s == line_steps(self.p1, self.p2),
            0 <= s <= 0xffff_ffff,
    {
        let dx: i64 = self.p2.x as i64 - self.p1.x as i64;
        let dy: i64 = self.p2.y as i64 - self.p1.y as i64;
        let across: i64 = if dx < 0 { -dx } else { dx };
        let down: i64 = if dy < 0 { -dy } else { dy };
        if across > down { across } else { down }
    }
}

impl Drawable for Line {
    /// A segment writes `line_pixels` of its two ends.
    open spec fn pixels(&self) -> Seq<(int, int)> {
        line_pixels(self.p1, self.p2)
    }

    open spec fn fits(&self) -> bool {
        true
    }

    fn draw<T: Displayable>(&self, img: &mut T) {
        let steps: i64 = self.steps();
        let ghost before = img.written();
        let ghost all = self.pixels();
        let mut i: i64 = 0;
        proof {
            lemma_extends_by_nothing(before);
            assert(all.subrange(0, 0) == Seq::<(int, int)>::empty());
        }
        while i <= steps
            invariant
                0 <= i <= steps + 1,
                steps == line_steps(self.p1, self.p2),
                steps <= 0xffff_ffff,
                all == self.pixels(),
                extends_by(before, img.written(), all.subrange(0, i as int)),
            decreases steps + 1 - i,
        {
            let x: i32 = coordinate_at(self.p1.x, self.p2.x, i, steps);
            let y: i32 = coordinate_at(self.p1.y, self.p2.y, i, steps);
            write_at(img, x, y, self.color(), Ghost(before), Ghost(all.subrange(0, i as int)));
            assert(all.subrange(0, i as int).push(all[i as int]) == all.subrange(0, i as int + 1));
            i += 1;
        }
        assert(all.subrange(0, i as int) == all);
    }
}

/// The number of writes is fixed by the two ends: one more than the larger
/// of the two coordinate distances. A segment whose ends coincide writes that
/// one point and nothing else.
pub proof fn line_pixel_count(l: Line)
    ensures
        l.pixels().len() == max(abs(l.p2.x - l.p1.x) as int, abs(l.p2.y - l.p1.y) as int) + 1,
        l.p1 == l.p2 ==> l.pixels() == seq![l.p1.coord()],
{
    if l.p1 == l.p2 {
        assert(l.pixels() =~= seq![l.p1.coord()]);
    }
}

/// Swapping the two ends reverses the order of the writes and leaves the set
/// of written coordinates unchanged.
pub proof fn line_reversal(l: Line)
    ensures
        (Line { p1: l.p2, p2: l.p1 }).pixels() == l.pixels().reverse(),
        (Line { p1: l.p2, p2: l.p1 }).pixels().to_set() == l.pixels().to_set(),
{
    let back = (Line { p1: l.p2, p2: l.p1 }).pixels();
    let forth = l.pixels();
    let s = line_steps(l.p1, l.p2);
    assert(line_steps(l.p2, l.p1) == s);
    assert forall|i: int| 0 <= i < back.len() implies back[i] == forth.reverse()[i] by {
        lemma_interpolate_reverse(l.p1.x as int, l.p2.x as int, i, s);
        lemma_interpolate_reverse(l.p1.y as int, l.p2.y as int, i, s);
        assert(forth.reverse()[i] == forth[s - i]);
    }
    assert(back =~= forth.reverse());
    assert forall|c: (int, int)| back.to_set().contains(c) <==> forth.to_set().contains(c) by {
        if back.contains(c) {
            let i = choose|i: int| 0 <= i < back.len() && back[i] == c;
            assert(forth[s - i] == c);
        }
        if forth.contains(c) {
            let i = choose|i: int| 0 <= i < forth.len() && forth[i] == c;
            assert(back[s - i] == forth.reverse()[s - i]);
            assert(back[s - i] == c);
        }
    }
    assert(back.to_set() =~= forth.to_set());
}

/// The first write is at the first end and the last write at the second.
pub proof fn line_ends(l: Line)
    ensures
        l.pixels().first() == l.p1.coord(),
        l.pixels().last() == l.p2.coord(),
{
    let s = line_steps(l.p1, l.p2);
    lemma_interpolate_ends(l.p1.x as int, l.p2.x as int, s);
    lemma_interpolate_ends(l.p1.y as int, l.p2.y as int, s);
}

/// Every written coordinate lies in the box spanned by the two ends.
pub proof fn line_within_box(l: Line, i: int)
    requires
        0 <= i < l.pixels().len(),
    ensures
        min(l.p1.x as int, l.p2.x as int) <= l.pixels()[i].0 <= max(l.p1.x as int, l.p2.x as int),
        min(l.p1.y as int, l.p2.y as int) <= l.pixels()[i].1 <= max(l.p1.y as int, l.p2.y as int),
{
    let s = line_steps(l.p1, l.p2);
    lemma_interpolate_between(l.p1.x as int, l.p2.x as int, i, s);
    lemma_interpolate_between(l.p1.y as int, l.p2.y as int, i, s);
}

/// The writes form a connected path: each one is at most one column and one
/// row from the one before it.
pub proof fn line_connected(l: Line, i: int)
    requires
        0 <= i < l.pixels().len() - 1,
    ensures
        abs(l.pixels()[i + 1].0 - l.pixels()[i].0) <= 1,
        abs(l.pixels()[i + 1].1 - l.pixels()[i].1) <= 1,
{
    let s = line_steps(l.p1, l.p2);
    lemma_interpolate_step(l.p1.x as int, l.p2.x as int, i, s);
    lemma_interpolate_step(l.p1.y as int, l.p2.y as int, i, s);
}

/// A horizontal segment writes every column between its ends once, in
/// order, all in its own row; a vertical segment does the same with its
/// rows.
pub proof fn line_axis_aligned(l: Line, i: int)
    requires
        0 <= i < l.pixels().len(),
    ensures
        l.p1.y == l.p2.y ==> l.pixels()[i] == (
            if l.p1.x <= l.p2.x { l.p1.x + i } else { l.p1.x - i },
            l.p1.y as int,
        ),
        l.p1.x == l.p2.x ==> l.pixels()[i] == (
            l.p1.x as int,
            if l.p1.y <= l.p2.y { l.p1.y + i } else { l.p1.y - i },
        ),
{
    let s = line_steps(l.p1, l.p2);
    if l.p1.y == l.p2.y {
        lemma_interpolate_dominant(l.p1.x as int, l.p2.x as int, i, s);
        lemma_interpolate_between(l.p1.y as int, l.p2.y as int, i, s);
    }
    if l.p1.x == l.p2.x {
        lemma_interpolate_dominant(l.p1.y as int, l.p2.y as int, i, s);
        lemma_interpolate_between(l.p1.x as int, l.p2.x as int, i, s);
    }
}

} // verus!
