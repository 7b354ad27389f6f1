//! The drawing contract: targets that accept pixel writes, and shapes that
//! write a fixed sequence of coordinates to them.

use crate::color::{is_default_color, random_color};
use raster::Color;
use vstd::prelude::*;

verus! {

/// One pixel write: a coordinate and the color written there.
#[derive(Debug)]
pub struct Pixel {
    pub x: i32,
    pub y: i32,
    pub color: Color,
}

impl Pixel {
    /// The coordinate of the write.
    pub open spec fn coord(self) -> (int, int) {
        (self.x as int, self.y as int)
    }
}

/// A target that pixels can be written to.
///
/// Its model is the history of writes it has received, oldest first. What a
/// target does with a coordinate outside its own bounds is its own concern.
pub trait Displayable {
    /// Every write received so far, oldest first.
    spec fn written(&self) -> Seq<Pixel>;

    /// Writes `color` at `(x, y)`.
    fn display(&mut self, x: i32, y: i32, color: Color)
        ensures
            final(self).written() == old(self).written().push((Pixel { x, y, color })),
    ;
}

/// `after` is `before` followed by one write at each coordinate of `coords`,
/// in order, each in a color of the default palette.
pub open spec fn extends_by(before: Seq<Pixel>, after: Seq<Pixel>, coords: Seq<(int, int)>) -> bool {
    &&& after.len() == before.len() + coords.len()
    &&& after.subrange(0, before.len() as int) == before
    &&& forall|k: int|
        before.len() <= k < after.len() ==> {
            &&& (#[trigger] after[k]).coord() == coords[k - before.len()]
            &&& is_default_color(after[k].color)
        }
}

/// Writing nothing extends a history by the empty sequence.
pub proof fn lemma_extends_by_nothing(before: Seq<Pixel>)
    ensures
        extends_by(before, before, Seq::empty()),
{
    assert(before.subrange(0, before.len() as int) == before);
}

/// Two runs of writes, one after the other, are one run over the
/// concatenated coordinates.
pub proof fn lemma_extends_by_concat(
    s0: Seq<Pixel>,
    s1: Seq<Pixel>,
    s2: Seq<Pixel>,
    c1: Seq<(int, int)>,
    c2: Seq<(int, int)>,
)
    requires
        extends_by(s0, s1, c1),
        extends_by(s1, s2, c2),
    ensures
        extends_by(s0, s2, c1 + c2),
{
    let c = c1 + c2;
    assert(s2.subrange(0, s0.len() as int) == s0) by {
        assert(s2.subrange(0, s1.len() as int).subrange(0, s0.len() as int) == s2.subrange(
            0,
            s0.len() as int,
        ));
    }
    assert forall|k: int| s0.len() <= k < s2.len() implies {
        &&& (#[trigger] s2[k]).coord() == c[k - s0.len()]
        &&& is_default_color(s2[k].color)
    } by {
        if k < s1.len() {
            assert(s2[k] == s2.subrange(0, s1.len() as int)[k]);
            assert(s1[k].coord() == c1[k - s0.len()]);
        }
    }
}

/// One more write, in a default color, extends a run by its coordinate.
pub proof fn lemma_extends_by_push(
    s0: Seq<Pixel>,
    s1: Seq<Pixel>,
    c: Seq<(int, int)>,
    p: Pixel,
)
    requires
        extends_by(s0, s1, c),
        is_default_color(p.color),
    ensures
        extends_by(s0, s1.push(p), c.push(p.coord())),
{
    let s2 = s1.push(p);
    let one = seq![p.coord()];
    assert(s2.subrange(0, s1.len() as int) == s1);
    assert(extends_by(s1, s2, one));
    lemma_extends_by_concat(s0, s1, s2, c, one);
    assert(c + one == c.push(p.coord()));
}

/// A shape that can be drawn onto any target.
pub trait Drawable {
    /// The coordinates that `draw` writes, in the order it writes them.
    /// A coordinate occurs once for each time it is written.
    spec fn pixels(&self) -> Seq<(int, int)>;

    /// Every coordinate of `pixels` fits the target's 32-bit coordinates.
    spec fn fits(&self) -> bool;

    /// Writes one pixel at each coordinate of `pixels`, in order, asking
    /// `color` anew for every write. Nothing else is written.
    fn draw<T: Displayable>(&self, img: &mut T)
        requires
            self.fits(),
        ensures
            extends_by(old(img).written(), final(img).written(), self.pixels()),
    ;

    /// The color for the next write: opaque, each channel sampled
    /// independently and uniformly from `[1, 254]`.
    fn color(&self) -> (c: Color)
        ensures
            is_default_color(c),
    {
        random_color()
    }
}

/// Writes `color` at `(x, y)` as the next pixel of a run of writes.
pub(crate) fn write_at<T: Displayable>(
    img: &mut T,
    x: i32,
    y: i32,
    color: Color,
    Ghost(before): Ghost<Seq<Pixel>>,
    Ghost(done): Ghost<Seq<(int, int)>>,
)
    requires
        extends_by(before, old(img).written(), done),
        is_default_color(color),
    ensures
        extends_by(before, final(img).written(), done.push((x as int, y as int))),
{
    let ghost sofar = img.written();
    img.display(x, y, color);
    proof {
        lemma_extends_by_push(before, sofar, done, Pixel { x, y, color });
    }
}

/// A target that keeps every write it receives.
pub struct Recorder {
    pixels: Vec<Pixel>,
}

impl Recorder {
    /// A recorder that has received nothing.
    pub fn new() -> (r: Self)
        ensures
            r.written() == Seq::<Pixel>::empty(),
    {
        Recorder { pixels: Vec::new() }
    }

    /// The number of writes received.
    pub fn len(&self) -> (n: usize)
        ensures
            n == self.written().len(),
    {
        self.pixels.len()
    }

    /// The `i`-th write received, counting from zero.
    pub fn get(&self, i: usize) -> (p: Option<&Pixel>)
        ensures
            i < self.written().len() ==> p == Some(&self.written()[i as int]),
            i >= self.written().len() ==> p is None,
    {
        if i < self.pixels.len() {
            Some(&self.pixels[i])
        } else {
            None
        }
    }

    /// The coordinates of the writes received, in order.
    pub fn coords(&self) -> (c: Vec<(i32, i32)>)
        ensures
            c@.len() == self.written().len(),
            forall|i: int|
                0 <= i < c@.len() ==> (c@[i].0 as int, c@[i].1 as int)
                    == (#[trigger] self.written()[i]).coord(),
    {
        let mut out: Vec<(i32, i32)> = Vec::new();
        let mut i: usize = 0;
        while i < self.pixels.len()
            invariant
                i <= self.pixels@.len(),
                out@.len() == i,
                forall|k: int|
                    0 <= k < i ==> (out@[k].0 as int, out@[k].1 as int)
                        == (#[trigger] self.pixels@[k]).coord(),
            decreases self.pixels@.len() - i,
        {
            out.push((self.pixels[i].x, self.pixels[i].y));
            i += 1;
        }
        out
    }
}

impl Displayable for Recorder {
    closed spec fn written(&self) -> Seq<Pixel> {
        self.pixels@
    }

    fn display(&mut self, x: i32, y: i32, color: Color) {
        self.pixels.push(Pixel { x, y, color });
    }
}

} // verus!
