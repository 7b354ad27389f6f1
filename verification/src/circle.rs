//! Circles, rasterized by the midpoint algorithm with eight-way symmetry.

use crate::canvas::{extends_by, lemma_extends_by_nothing, write_at, Displayable, Drawable};
use crate::point::Point;
use crate::sampling::{random_range, InvalidRange};
use vstd::prelude::*;

verus! {

/// A circle around `center`. The radius is never negative.
#[derive(Debug, Copy, Clone)]
pub struct Circle {
    pub center: Point,
    pub radius: i32,
}

/// The midpoint correction in column `x`. The arc is tracked above the
/// center, at the offset `y <= 0`. When the midpoint between `y` and `y + 1`
/// lies outside the circle of radius `r`, the arc moves one row towards the
/// center.
pub open spec fn corrected(r: int, x: int, y: int) -> int {
    if 4 * x * x + (2 * y + 1) * (2 * y + 1) > 4 * r * r {
        y + 1
    } else {
        y
    }
}

/// The eight images of the offset `(x, y)` around `(cx, cy)`, in writing
/// order.
pub open spec fn octants(cx: int, cy: int, x: int, y: int) -> Seq<(int, int)> {
    seq![
        (cx + x, cy + y),
        (cx - x, cy + y),
        (cx + x, cy - y),
        (cx - x, cy - y),
        (cx + y, cy + x),
        (cx - y, cy + x),
        (cx + y, cy - x),
        (cx - y, cy - x),
    ]
}

/// The pixels written from column `x` on, when the arc stood at row `y`
/// after the column before: while `x < -y`, the row is corrected, the eight
/// images of the column's offset are written, and the next column follows.
pub open spec fn arc_pixels(cx: int, cy: int, r: int, x: int, y: int) -> Seq<(int, int)>
    decreases 1 - y - x,
{
    if x < -y {
        let row = corrected(r, x, y);
        octants(cx, cy, x, row) + arc_pixels(cx, cy, r, x + 1, row)
    } else {
        Seq::empty()
    }
}

/// The pixels of the circle of radius `r` around `center`, in writing order.
pub open spec fn circle_pixels(center: Point, r: int) -> Seq<(int, int)> {
    arc_pixels(center.x as int, center.y as int, r, 0, -r)
}

/// The offset `(x, y)` lies on the traced arc of the circle of radius `r`:
/// in the octant above the center and right of it, with the row `y` the one
/// nearest to the circle in column `x`, less than half a row away.
pub open spec fn on_arc(r: int, x: int, y: int) -> bool {
    &&& 0 <= x <= -y <= r
    &&& 4 * x * x + (2 * y + 1) * (2 * y + 1) <= 4 * r * r
    &&& 4 * r * r < 4 * x * x + (2 * y - 1) * (2 * y - 1)
}

/// The state before column `x`: either the start, or the row that the
/// column before left behind.
pub open spec fn arc_state(r: int, x: int, y: int) -> bool {
    &&& 0 <= x
    &&& -r <= y
    &&& x == 0 ==> y == -r
    &&& x > 0 ==> on_arc(r, x - 1, y)
}

/// A column inside the loop leaves its offset on the arc.
pub proof fn lemma_corrected_on_arc(r: int, x: int, y: int)
    requires
        arc_state(r, x, y),
        x < -y,
    ensures
        on_arc(r, x, corrected(r, x, y)),
        arc_state(r, x + 1, corrected(r, x, y)),
{
    let row = corrected(r, x, y);
    if x == 0 {
        assert(4 * x * x + (2 * y + 1) * (2 * y + 1) <= 4 * r * r) by (nonlinear_arith)
            requires
                x == 0,
                y == -r,
                r > 0,
        ;
        assert(4 * r * r < 4 * x * x + (2 * y - 1) * (2 * y - 1)) by (nonlinear_arith)
            requires
                x == 0,
                y == -r,
                r > 0,
        ;
    } else if row == y {
        assert(4 * r * r < 4 * x * x + (2 * y - 1) * (2 * y - 1)) by (nonlinear_arith)
            requires
                x > 0,
                4 * r * r < 4 * (x - 1) * (x - 1) + (2 * y - 1) * (2 * y - 1),
        ;
    } else {
        assert(4 * x * x + (2 * row + 1) * (2 * row + 1) <= 4 * r * r) by (nonlinear_arith)
            requires
                x > 0,
                x < -y,
                row == y + 1,
                4 * (x - 1) * (x - 1) + (2 * y + 1) * (2 * y + 1) <= 4 * r * r,
        ;
        assert((2 * row - 1) * (2 * row - 1) == (2 * y + 1) * (2 * y + 1)) by (nonlinear_arith)
            requires
                row == y + 1,
        ;
    }
}

/// Each column writes eight pixels.
pub proof fn lemma_arc_pixels_len(cx: int, cy: int, r: int, x: int, y: int)
    ensures
        arc_pixels(cx, cy, r, x, y).len() % 8 == 0,
        arc_pixels(cx, cy, r, x, y).len() <= 8 * vstd::math::max(0, -y - x),
    decreases 1 - y - x,
{
    if x < -y {
        let row = corrected(r, x, y);
        lemma_arc_pixels_len(cx, cy, r, x + 1, row);
        assert(octants(cx, cy, x, row).len() == 8);
    }
}

/// The `k`-th column written from the state `(x, y)` on: its offset lies on
/// the arc, and its eight writes are the eight images of that offset.
pub proof fn lemma_arc_column(cx: int, cy: int, r: int, x: int, y: int, k: int) -> (w: (int, int))
    requires
        arc_state(r, x, y),
        0 <= k,
        8 * k < arc_pixels(cx, cy, r, x, y).len(),
    ensures
        on_arc(r, w.0, w.1),
        8 * k + 8 <= arc_pixels(cx, cy, r, x, y).len(),
        forall|j: int|
            0 <= j < 8 ==> #[trigger] arc_pixels(cx, cy, r, x, y)[8 * k + j] == octants(
                cx,
                cy,
                w.0,
                w.1,
            )[j],
    decreases 1 - y - x,
{
    let row = corrected(r, x, y);
    let head = octants(cx, cy, x, row);
    let tail = arc_pixels(cx, cy, r, x + 1, row);
    lemma_arc_pixels_len(cx, cy, r, x, y);
    lemma_corrected_on_arc(r, x, y);
    assert(head.len() == 8);
    if k == 0 {
        assert forall|j: int| 0 <= j < 8 implies #[trigger] arc_pixels(cx, cy, r, x, y)[8 * k + j]
            == head[j] by {
            assert((head + tail)[j] == head[j]);
        }
        (x, row)
    } else {
        let w = lemma_arc_column(cx, cy, r, x + 1, row, k - 1);
        assert forall|j: int| 0 <= j < 8 implies #[trigger] arc_pixels(cx, cy, r, x, y)[8 * k + j]
            == octants(cx, cy, w.0, w.1)[j] by {
            assert((head + tail)[8 * k + j] == tail[8 * (k - 1) + j]);
        }
        w
    }
}

impl Circle {
    /// The radius is not negative.
    pub open spec fn well_formed(self) -> bool {
        self.radius >= 0
    }

    /// The circle of the given radius around `center`.
    pub fn new(center: &Point, radius: i32) -> (c: Self)
        requires
            radius >= 0,
        ensures
            c.center == *center,
            c.radius == radius,
            c.well_formed(),
    {
        Self { center: *center, radius }
    }

    /// Whether the circle can be drawn: computes `fits`.
    pub fn is_drawable(&self) -> (b: bool)
        ensures
            b == self.fits(),
    {
        let cx: i64 = self.center.x as i64;
        let cy: i64 = self.center.y as i64;
        let r: i64 = self.radius as i64;
        r >= 0 && i32::MIN as i64 <= cx - r && cx + r <= i32::MAX as i64 && i32::MIN as i64 <= cy
            - r && cy + r <= i32::MAX as i64
    }

    /// What `random` answers on bounds it must reject: the first empty range
    /// among `[0, w)` and `[0, h)` for the center and `[5, w - 5)` for the
    /// radius.
    pub open spec fn random_failure(w: i32, h: i32) -> Option<InvalidRange> {
        if w <= 0 {
            Some(InvalidRange { low: 0, high: w })
        } else if h <= 0 {
            Some(InvalidRange { low: 0, high: h })
        } else if w <= 10 {
            Some(InvalidRange { low: 5, high: (w - 5) as i32 })
        } else {
            None
        }
    }

    /// A circle whose center is sampled uniformly from `[0, w) x [0, h)` and
    /// whose radius is sampled uniformly from `[5, w - 5)`.
    ///
    /// The width must exceed 10 and the height must be positive; otherwise
    /// the empty range is reported and nothing is sampled.
    pub fn random(w: i32, h: i32) -> (r: Result<Self, InvalidRange>)
        ensures
            r is Ok <==> w > 10 && h > 0,
            r matches Ok(c) ==> {
                &&& c.center.within(w as int, h as int)
                &&& 5 <= c.radius < w - 5
                &&& c.well_formed()
            },
            r matches Err(e) ==> Self::random_failure(w, h) == Some(e),
    {
        if w <= 0 {
            return Err(InvalidRange { low: 0, high: w });
        }
        if h <= 0 {
            return Err(InvalidRange { low: 0, high: h });
        }
        if w <= 10 {
            return Err(InvalidRange { low: 5, high: w - 5 });
        }
        let center = match Point::random(w, h) {
            Ok(p) => p,
            Err(e) => { return Err(e); },
        };
        let radius: i32 = random_range(5, w - 5);
        Ok(Self::new(&center, radius))
    }
}

/// Decides the midpoint correction: computes `corrected(r, x, y)`.
fn correct_row(r: i64, x: i64, y: i64) -> (row: i64)
    requires
        0 <= x <= r <= 0x8000_0000,
        -r <= y <= 0,
    ensures
        row == corrected(r as int, x as int, y as int),
{
    let wide_r: i128 = r as i128;
    let wide_x: i128 = x as i128;
    let mid: i128 = 2 * (y as i128) + 1;
    assert(0 <= wide_x * wide_x <= 0x4000_0000_0000_0000) by (nonlinear_arith)
        requires
            0 <= wide_x <= 0x8000_0000,
    ;
    assert(0 <= wide_r * wide_r <= 0x4000_0000_0000_0000) by (nonlinear_arith)
        requires
            0 <= wide_r <= 0x8000_0000,
    ;
    assert(0 <= mid * mid <= 0x1_0000_0000_0000_0000) by (nonlinear_arith)
        requires
            -0x1_0000_0000 <= mid <= 0x1_0000_0000,
    ;
    assert(4 * x * x == 4 * (wide_x * wide_x) && 4 * r * r == 4 * (wide_r * wide_r))
        by (nonlinear_arith)
        requires
            wide_x == x,
            wide_r == r,
    ;
    if 4 * (wide_x * wide_x) + mid * mid > 4 * (wide_r * wide_r) {
        y + 1
    } else {
        y
    }
}

impl Drawable for Circle {
    /// A circle writes `circle_pixels` of its center and radius.
    open spec fn pixels(&self) -> Seq<(int, int)> {
        circle_pixels(self.center, self.radius as int)
    }

    /// The radius is not negative, and the square that encloses the circle
    /// fits the target's 32-bit coordinates.
    open spec fn fits(&self) -> bool {
        &&& self.well_formed()
        &&& i32::MIN <= self.center.x - self.radius
        &&& self.center.x + self.radius <= i32::MAX
        &&& i32::MIN <= self.center.y - self.radius
        &&& self.center.y + self.radius <= i32::MAX
    }

    fn draw<T: Displayable>(&self, img: &mut T) {
        let cx: i64 = self.center.x as i64;
        let cy: i64 = self.center.y as i64;
        let r: i64 = self.radius as i64;
        let ghost before = img.written();
        let ghost all = self.pixels();
        let ghost mut done: Seq<(int, int)> = Seq::empty();
        let mut x: i64 = 0;
        let mut y: i64 = -r;
        proof {
            lemma_extends_by_nothing(before);
        }
        while x < -y
            invariant
                self.fits(),
                cx == self.center.x,
                cy == self.center.y,
                r == self.radius,
                arc_state(r as int, x as int, y as int),
                y <= 0,
                all == done + arc_pixels(cx as int, cy as int, r as int, x as int, y as int),
                extends_by(before, img.written(), done),
            decreases 1 - y - x,
        {
            proof {
                lemma_corrected_on_arc(r as int, x as int, y as int);
            }
            let ghost rest = arc_pixels(cx as int, cy as int, r as int, x as int, y as int);
            y = correct_row(r, x, y);
            let ghost start = done;
            write_at(img, (cx + x) as i32, (cy + y) as i32, self.color(), Ghost(before), Ghost(done));
            proof { done = done.push((cx + x, cy + y)); }
            write_at(img, (cx - x) as i32, (cy + y) as i32, self.color(), Ghost(before), Ghost(done));
            proof { done = done.push((cx - x, cy + y)); }
            write_at(img, (cx + x) as i32, (cy - y) as i32, self.color(), Ghost(before), Ghost(done));
            proof { done = done.push((cx + x, cy - y)); }
            write_at(img, (cx - x) as i32, (cy - y) as i32, self.color(), Ghost(before), Ghost(done));
            proof { done = done.push((cx - x, cy - y)); }
            write_at(img, (cx + y) as i32, (cy + x) as i32, self.color(), Ghost(before), Ghost(done));
            proof { done = done.push((cx + y, cy + x)); }
            write_at(img, (cx - y) as i32, (cy + x) as i32, self.color(), Ghost(before), Ghost(done));
            proof { done = done.push((cx - y, cy + x)); }
            write_at(img, (cx + y) as i32, (cy - x) as i32, self.color(), Ghost(before), Ghost(done));
            proof { done = done.push((cx + y, cy - x)); }
            write_at(img, (cx - y) as i32, (cy - x) as i32, self.color(), Ghost(before), Ghost(done));
            proof {
                done = done.push((cx - y, cy - x));
                let eight = octants(cx as int, cy as int, x as int, y as int);
                let tail = arc_pixels(cx as int, cy as int, r as int, x + 1, y as int);
                assert(done =~= start + eight);
                assert(rest == eight + tail);
                assert(start + (eight + tail) =~= (start + eight) + tail);
            }
            x += 1;
        }
        assert(arc_pixels(cx as int, cy as int, r as int, x as int, y as int) =~= Seq::empty());
        assert(done + Seq::<(int, int)>::empty() =~= done);
    }
}

/// The offset `(dx, dy)` is one of the eight images of `(u, v)` under the
/// reflections about the two axes and the two diagonals.
pub open spec fn is_image(u: int, v: int, dx: int, dy: int) -> bool {
    ||| (dx == u || dx == -u) && (dy == v || dy == -v)
    ||| (dx == v || dx == -v) && (dy == u || dy == -u)
}

/// The offset of the `i`-th write from the center is an image of an offset
/// on the arc, and all eight images of that offset are written in the same
/// column.
proof fn lemma_write_on_arc(c: Circle, i: int) -> (w: (int, int))
    requires
        0 <= i < c.pixels().len(),
    ensures
        on_arc(c.radius as int, w.0, w.1),
        is_image(w.0, w.1, c.pixels()[i].0 - c.center.x, c.pixels()[i].1 - c.center.y),
        forall|dx: int, dy: int| #[trigger]
            is_image(w.0, w.1, dx, dy) ==> c.pixels().contains(
                (c.center.x + dx, c.center.y + dy),
            ),
{
    let cx = c.center.x as int;
    let cy = c.center.y as int;
    let r = c.radius as int;
    let all = c.pixels();
    let k = i / 8;
    let j = i % 8;
    let w = lemma_arc_column(cx, cy, r, 0, -r, k);
    let eight = octants(cx, cy, w.0, w.1);
    assert(all[8 * k + j] == eight[j]);
    assert forall|dx: int, dy: int| #[trigger] is_image(w.0, w.1, dx, dy) implies all.contains(
        (cx + dx, cy + dy),
    ) by {
        let p = (cx + dx, cy + dy);
        let m = choose|m: int| 0 <= m < 8 && eight[m] == p;
        assert(all[8 * k + m] == eight[m]);
    }
    w
}

/// A circle of radius zero writes nothing.
pub proof fn circle_zero_radius(c: Circle)
    requires
        c.radius == 0,
    ensures
        c.pixels() == Seq::<(int, int)>::empty(),
{
    assert(c.pixels() =~= Seq::<(int, int)>::empty());
}

/// The writes come in columns of eight, and there are fewer columns than
/// the radius is long.
pub proof fn circle_pixel_count(c: Circle)
    requires
        c.well_formed(),
    ensures
        c.pixels().len() % 8 == 0,
        c.pixels().len() <= 8 * c.radius,
{
    lemma_arc_pixels_len(c.center.x as int, c.center.y as int, c.radius as int, 0, -c.radius);
}

/// Every write lies on the circle up to rounding: the square of its
/// distance from the center differs from the square of the radius by at
/// most the radius, so the distance itself is at most one away from the
/// radius. No write is further than the radius from the center along
/// either axis.
pub proof fn circle_near_radius(c: Circle, i: int)
    requires
        0 <= i < c.pixels().len(),
    ensures
        ({
            let dx = c.pixels()[i].0 - c.center.x;
            let dy = c.pixels()[i].1 - c.center.y;
            let r = c.radius as int;
            &&& r * r - r <= dx * dx + dy * dy < r * r + r
            &&& (r - 1) * (r - 1) <= dx * dx + dy * dy < (r + 1) * (r + 1)
            &&& -r <= dx <= r
            &&& -r <= dy <= r
        }),
{
    let dx = c.pixels()[i].0 - c.center.x;
    let dy = c.pixels()[i].1 - c.center.y;
    let r = c.radius as int;
    let w = lemma_write_on_arc(c, i);
    let u = w.0;
    let v = w.1;
    assert(dx * dx + dy * dy == u * u + v * v) by (nonlinear_arith)
        requires
            is_image(u, v, dx, dy),
    ;
    assert(r * r - r <= u * u + v * v < r * r + r) by (nonlinear_arith)
        requires
            0 <= u <= -v <= r,
            4 * u * u + (2 * v + 1) * (2 * v + 1) <= 4 * r * r,
            4 * r * r < 4 * u * u + (2 * v - 1) * (2 * v - 1),
    ;
    assert((r - 1) * (r - 1) <= r * r - r && r * r + r < (r + 1) * (r + 1)) by (nonlinear_arith)
        requires
            r >= 1,
    ;
}

/// The set of written coordinates is symmetric about the center: with a
/// write at the offset `(dx, dy)` there is one at its mirror image in the
/// vertical axis, one at its mirror image in the horizontal axis, and one
/// at its mirror image in the diagonal. These three reflections generate all
/// eight.
pub proof fn circle_symmetric(c: Circle, dx: int, dy: int)
    requires
        c.pixels().contains((c.center.x + dx, c.center.y + dy)),
    ensures
        c.pixels().contains((c.center.x - dx, c.center.y + dy)),
        c.pixels().contains((c.center.x + dx, c.center.y - dy)),
        c.pixels().contains((c.center.x + dy, c.center.y + dx)),
{
    let p = (c.center.x + dx, c.center.y + dy);
    let i = choose|i: int| 0 <= i < c.pixels().len() && c.pixels()[i] == p;
    let w = lemma_write_on_arc(c, i);
    assert(is_image(w.0, w.1, dx, dy));
    assert(is_image(w.0, w.1, -dx, dy));
    assert(is_image(w.0, w.1, dx, -dy));
    assert(is_image(w.0, w.1, dy, dx));
    assert(c.pixels().contains((c.center.x + (-dx), c.center.y + dy)));
    assert(c.pixels().contains((c.center.x + dx, c.center.y + (-dy))));
    assert(c.pixels().contains((c.center.x + dy, c.center.y + dx)));
}

} // verus!
