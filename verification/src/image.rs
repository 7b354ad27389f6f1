//! Drawing onto a `raster` image.

use crate::canvas::{Displayable, Pixel};
use raster::error::RasterError;
use raster::{Color, Image};
use vstd::prelude::*;

verus! {

/// `raster::Image`: a public width and height in pixels and the public
/// buffer `bytes`, four bytes per pixel in the order red, green, blue,
/// alpha, row after row.
#[verifier::external_type_specification]
pub struct ExImage(raster::Image);

/// `raster::error::RasterError`, the error of every fallible `raster` call.
#[verifier::external_type_specification]
#[verifier::external_body]
pub struct ExRasterError(raster::error::RasterError);

/// Where the pixel `(x, y)` starts in the buffer of an image `width` pixels
/// wide.
pub open spec fn pixel_offset(width: int, x: int, y: int) -> int {
    4 * (y * width + x)
}

/// The image has a pixel at `(x, y)` that `raster` can address: the
/// coordinate is inside the image, its four bytes are in the buffer, and
/// its offset fits the 32-bit arithmetic that `raster` computes it in.
pub open spec fn holds_pixel(img: Image, x: int, y: int) -> bool {
    &&& 0 <= x < img.width
    &&& 0 <= y < img.height
    &&& pixel_offset(img.width as int, x, y) <= i32::MAX
    &&& pixel_offset(img.width as int, x, y) + 4 <= img.bytes@.len()
}

/// The buffer after `color` has been stored in the four bytes from
/// `offset` on.
pub open spec fn with_pixel(bytes: Seq<u8>, offset: int, color: Color) -> Seq<u8> {
    bytes.update(offset, color.r).update(offset + 1, color.g).update(offset + 2, color.b).update(
        offset + 3,
        color.a,
    )
}

/// `raster::Image::set_pixel` on a pixel that the image holds stores the
/// four channels of the color at the pixel's offset, leaves every other
/// byte and the dimensions as they were, and succeeds.
///
/// Outside the precondition the call answers with an error, writes to
/// another pixel, or panics on its index or its arithmetic; none of that is
/// specified here.
pub assume_specification<'a>[ raster::Image::set_pixel ](
    img: &mut Image,
    x: i32,
    y: i32,
    color: Color,
) -> (r: Result<(), RasterError>)
    requires
        holds_pixel(*old(img), x as int, y as int),
    ensures
        r is Ok,
        final(img).width == old(img).width,
        final(img).height == old(img).height,
        final(img).bytes@ == with_pixel(
            old(img).bytes@,
            pixel_offset(old(img).width as int, x as int, y as int),
            color,
        ),
;

/// A `raster` image as a drawing target. A write to a pixel that the image
/// holds is stored in the image; any other write is recorded and otherwise
/// ignored.
///
/// The view of a canvas is its image.
pub struct Canvas {
    image: Image,
    history: Ghost<Seq<Pixel>>,
}

impl View for Canvas {
    type V = Image;

    closed spec fn view(&self) -> Image {
        self.image
    }
}

impl Canvas {
    /// A canvas over `image` that has received no write.
    pub fn new(image: Image) -> (c: Self)
        ensures
            c@ == image,
            c.written() == Seq::<Pixel>::empty(),
    {
        Canvas { image, history: Ghost(Seq::empty()) }
    }

    /// The image as it stands.
    pub fn image(&self) -> (image: &Image)
        ensures
            *image == self@,
    {
        &self.image
    }

    /// Gives the image back.
    pub fn into_image(self) -> (image: Image)
        ensures
            image == self@,
    {
        self.image
    }

    /// Whether the image holds the pixel `(x, y)`.
    pub fn holds(&self, x: i32, y: i32) -> (b: bool)
        ensures
            b == holds_pixel(self@, x as int, y as int),
    {
        let width: i32 = self.image.width;
        if x < 0 || x >= width || y < 0 || y >= self.image.height {
            return false;
        }
        let wide_y: i64 = y as i64;
        let wide_width: i64 = width as i64;
        assert(0 <= wide_y * wide_width <= 0x4000_0000_0000_0000) by (nonlinear_arith)
            requires
                0 <= wide_y <= 0x8000_0000,
                0 <= wide_width <= 0x8000_0000,
        ;
        let cell: i64 = wide_y * wide_width + x as i64;
        if cell > 0x1fff_ffff {
            return false;
        }
        let offset: usize = 4 * (cell as usize);
        offset + 4 <= self.image.bytes.len()
    }
}

impl Displayable for Canvas {
    closed spec fn written(&self) -> Seq<Pixel> {
        self.history@
    }

    /// Stores the color in the image where the image holds the pixel, and
    /// leaves the image as it is where it does not.
    fn display(&mut self, x: i32, y: i32, color: Color)
        ensures
            final(self)@.width == old(self)@.width,
            final(self)@.height == old(self)@.height,
            holds_pixel(old(self)@, x as int, y as int) ==> final(self)@.bytes@ == with_pixel(
                old(self)@.bytes@,
                pixel_offset(old(self)@.width as int, x as int, y as int),
                color,
            ),
            !holds_pixel(old(self)@, x as int, y as int) ==> final(self)@.bytes@ == old(
                self,
            )@.bytes@,
    {
        let ghost pixel = Pixel { x, y, color };
        if self.holds(x, y) {
            let _ = self.image.set_pixel(x, y, color);
        }
        proof {
            self.history@ = self.history@.push(pixel);
        }
    }
}

} // verus!
