//! Colors, as the `raster` crate represents them, and the default palette.

use crate::sampling::random_range;
use raster::Color;
use vstd::prelude::*;

verus! {

/// `raster::Color`: four public 8-bit channels `r`, `g`, `b`, `a`.
#[verifier::external_type_specification]
pub struct ExColor(raster::Color);

/// `raster::Color::rgb` builds an opaque color: the three channels are the
/// arguments and alpha is 255.
pub assume_specification<'a>[ raster::Color::rgb ](r: u8, g: u8, b: u8) -> (c: Color)
    ensures
        c.r == r,
        c.g == g,
        c.b == b,
        c.a == 255,
;

/// A channel value that the default palette can produce.
pub open spec fn is_default_channel(v: u8) -> bool {
    1 <= v <= 254
}

/// A color that the default palette can produce: opaque, with each of the
/// three channels in `[1, 254]`.
pub open spec fn is_default_color(c: Color) -> bool {
    &&& is_default_channel(c.r)
    &&& is_default_channel(c.g)
    &&& is_default_channel(c.b)
    &&& c.a == 255
}

/// Samples one channel uniformly from `[1, 254]`.
fn random_channel() -> (v: u8)
    ensures
        is_default_channel(v),
{
    let v: i32 = random_range(1, 255);
    v as u8
}

/// Samples a color of the default palette, each channel independently.
pub fn random_color() -> (c: Color)
    ensures
        is_default_color(c),
{
    let r: u8 = random_channel();
    let g: u8 = random_channel();
    let b: u8 = random_channel();
    Color::rgb(r, g, b)
}

} // verus!
