use geometrical_shapes::{Drawable, Line, Point, Recorder};

fn drawn(x1: i32, y1: i32, x2: i32, y2: i32) -> Vec<(i32, i32)> {
    let mut rec = Recorder::new();
    Line::new(&Point::new(x1, y1), &Point::new(x2, y2)).draw(&mut rec);
    rec.coords()
}

fn sorted_unique(mut v: Vec<(i32, i32)>) -> Vec<(i32, i32)> {
    v.sort();
    v.dedup();
    v
}

#[test]
fn shallow_line_rounds_ties_away_from_zero() {
    assert_eq!(drawn(0, 0, 4, 2), vec![(0, 0), (1, 1), (2, 1), (3, 2), (4, 2)]);
}

#[test]
fn shallow_line_into_negative_quadrant_rounds_ties_away_from_zero() {
    assert_eq!(drawn(0, 0, -4, -2), vec![(0, 0), (-1, -1), (-2, -1), (-3, -2), (-4, -2)]);
}

#[test]
fn steep_line_steps_one_row_at_a_time() {
    assert_eq!(drawn(1, 1, 2, 5), vec![(1, 1), (1, 2), (2, 3), (2, 4), (2, 5)]);
}

#[test]
fn diagonal_line_moves_on_both_axes() {
    assert_eq!(drawn(3, -2, 0, 1), vec![(3, -2), (2, -1), (1, 0), (0, 1)]);
}

#[test]
fn horizontal_and_vertical_lines_fill_every_cell() {
    assert_eq!(drawn(2, 7, 5, 7), vec![(2, 7), (3, 7), (4, 7), (5, 7)]);
    assert_eq!(drawn(2, 7, 2, 4), vec![(2, 7), (2, 6), (2, 5), (2, 4)]);
}

#[test]
fn degenerate_line_writes_one_pixel() {
    assert_eq!(drawn(7, -3, 7, -3), vec![(7, -3)]);
    assert_eq!(drawn(0, 0, 0, 0), vec![(0, 0)]);
}

#[test]
fn line_writes_one_more_pixel_than_its_longer_extent() {
    let cases: [(i32, i32, i32, i32); 6] = [
        (0, 0, 4, 2),
        (0, 0, 2, 4),
        (-5, 3, 10, -20),
        (10, 10, 10, 10),
        (0, 0, -100, 99),
        (17, 4, 3, 4),
    ];
    for (x1, y1, x2, y2) in cases {
        let steps = std::cmp::max((x2 - x1).abs(), (y2 - y1).abs());
        assert_eq!(drawn(x1, y1, x2, y2).len(), steps as usize + 1);
    }
}

#[test]
fn swapping_the_ends_reverses_the_writes() {
    let cases: [(i32, i32, i32, i32); 5] =
        [(0, 0, 4, 2), (0, 0, 7, 3), (-3, -9, 8, 2), (5, 5, -6, 0), (1, 0, 0, 11)];
    for (x1, y1, x2, y2) in cases {
        let forth = drawn(x1, y1, x2, y2);
        let mut back = drawn(x2, y2, x1, y1);
        assert_eq!(sorted_unique(forth.clone()), sorted_unique(back.clone()));
        back.reverse();
        assert_eq!(forth, back);
    }
}

#[test]
fn line_starts_and_ends_at_its_ends_and_is_connected() {
    let pixels = drawn(-13, 40, 29, 11);
    assert_eq!(pixels[0], (-13, 40));
    assert_eq!(pixels[pixels.len() - 1], (29, 11));
    for pair in pixels.windows(2) {
        assert!((pair[1].0 - pair[0].0).abs() <= 1);
        assert!((pair[1].1 - pair[0].1).abs() <= 1);
    }
}

#[test]
fn line_between_extreme_points_stays_in_range() {
    let pixels = drawn(i32::MAX - 2, i32::MIN, i32::MAX, i32::MIN + 1);
    assert_eq!(
        pixels,
        vec![(i32::MAX - 2, i32::MIN), (i32::MAX - 1, i32::MIN), (i32::MAX, i32::MIN + 1)]
    );
}

#[test]
fn line_colors_every_pixel_from_the_default_palette() {
    let mut rec = Recorder::new();
    Line::new(&Point::new(0, 0), &Point::new(200, 50)).draw(&mut rec);
    assert_eq!(rec.len(), 201);
    for i in 0..rec.len() {
        let p = rec.get(i).unwrap();
        assert!(p.color.r >= 1 && p.color.r <= 254);
        assert!(p.color.g >= 1 && p.color.g <= 254);
        assert!(p.color.b >= 1 && p.color.b <= 254);
        assert_eq!(p.color.a, 255);
    }
    assert!(rec.get(201).is_none());
}

#[test]
fn random_line_lies_within_the_bounds() {
    for _ in 0..1000 {
        let l = Line::random(30, 20).unwrap();
        assert!(l.p1.x >= 0 && l.p1.x < 30 && l.p1.y >= 0 && l.p1.y < 20);
        assert!(l.p2.x >= 0 && l.p2.x < 30 && l.p2.y >= 0 && l.p2.y < 20);
    }
}

#[test]
fn random_line_rejects_empty_bounds() {
    let e = Line::random(0, 20).unwrap_err();
    assert_eq!((e.low, e.high), (0, 0));
    let e = Line::random(20, -1).unwrap_err();
    assert_eq!((e.low, e.high), (0, -1));
}
