use geometrical_shapes::{Canvas, Circle, Displayable, Drawable, Line, Point, Rectangle};
use raster::{Color, Image};

fn pixel(image: &Image, x: i32, y: i32) -> (u8, u8, u8, u8) {
    let at = 4 * (y * image.width + x) as usize;
    (image.bytes[at], image.bytes[at + 1], image.bytes[at + 2], image.bytes[at + 3])
}

#[test]
fn canvas_stores_a_write_inside_the_image() {
    let mut canvas = Canvas::new(Image::blank(4, 3));
    assert!(canvas.holds(2, 1));
    canvas.display(2, 1, Color::rgba(10, 20, 30, 40));
    let image = canvas.into_image();
    assert_eq!((image.width, image.height), (4, 3));
    for y in 0..3 {
        for x in 0..4 {
            let expected = if (x, y) == (2, 1) { (10, 20, 30, 40) } else { (0, 0, 0, 255) };
            assert_eq!(pixel(&image, x, y), expected);
        }
    }
    assert_eq!(&image.bytes[24..28], &[10, 20, 30, 40]);
}

#[test]
fn canvas_lets_the_last_write_win() {
    let mut canvas = Canvas::new(Image::blank(2, 2));
    canvas.display(1, 1, Color::rgb(1, 2, 3));
    canvas.display(1, 1, Color::rgb(4, 5, 6));
    assert_eq!(pixel(canvas.image(), 1, 1), (4, 5, 6, 255));
}

#[test]
fn canvas_ignores_writes_outside_the_image() {
    let mut canvas = Canvas::new(Image::blank(4, 3));
    let blank = Image::blank(4, 3).bytes;
    for (x, y) in [(-1, 0), (0, -1), (4, 0), (0, 3), (-1, 2), (4, 2), (i32::MAX, i32::MAX), (i32::MIN, 1)] {
        assert!(!canvas.holds(x, y));
        canvas.display(x, y, Color::rgb(9, 9, 9));
    }
    assert_eq!(canvas.image().bytes, blank);
}

#[test]
fn canvas_ignores_pixels_that_the_buffer_lacks() {
    let mut image = Image::blank(3, 3);
    image.bytes.truncate(4 * 4);
    let mut canvas = Canvas::new(image);
    assert!(canvas.holds(0, 1));
    assert!(!canvas.holds(1, 1));
    canvas.display(1, 1, Color::rgb(9, 9, 9));
    canvas.display(2, 2, Color::rgb(9, 9, 9));
    assert_eq!(canvas.image().bytes, Image::blank(2, 2).bytes);
}

#[test]
fn canvas_of_an_empty_image_holds_nothing() {
    let mut canvas = Canvas::new(Image::blank(0, 0));
    assert!(!canvas.holds(0, 0));
    Point::new(0, 0).draw(&mut canvas);
    assert!(canvas.into_image().bytes.is_empty());
}

#[test]
fn line_on_a_canvas_colors_its_pixels_and_no_others() {
    let mut canvas = Canvas::new(Image::blank(5, 3));
    Line::new(&Point::new(0, 0), &Point::new(4, 2)).draw(&mut canvas);
    let image = canvas.into_image();
    let on_line = [(0, 0), (1, 1), (2, 1), (3, 2), (4, 2)];
    for y in 0..3 {
        for x in 0..5 {
            let (r, g, b, a) = pixel(&image, x, y);
            if on_line.contains(&(x, y)) {
                assert!(r >= 1 && r <= 254 && g >= 1 && g <= 254 && b >= 1 && b <= 254);
                assert_eq!(a, 255);
            } else {
                assert_eq!((r, g, b, a), (0, 0, 0, 255));
            }
        }
    }
}

#[test]
fn shapes_that_leave_the_canvas_are_clipped_by_it() {
    let mut canvas = Canvas::new(Image::blank(8, 8));
    Rectangle::new(&Point::new(-3, -3), &Point::new(4, 4)).draw(&mut canvas);
    Circle::new(&Point::new(7, 7), 3).draw(&mut canvas);
    let image = canvas.into_image();
    assert_eq!(image.bytes.len(), 8 * 8 * 4);
    assert_ne!(pixel(&image, 4, 0), (0, 0, 0, 255));
    assert_ne!(pixel(&image, 0, 4), (0, 0, 0, 255));
    assert_ne!(pixel(&image, 7, 4), (0, 0, 0, 255));
    assert_ne!(pixel(&image, 4, 7), (0, 0, 0, 255));
    assert_eq!(pixel(&image, 0, 0), (0, 0, 0, 255));
    assert_eq!(pixel(&image, 7, 7), (0, 0, 0, 255));
}
