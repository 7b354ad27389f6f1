use geometrical_shapes::{Circle, Drawable, Point, Recorder};

fn drawn(cx: i32, cy: i32, r: i32) -> Vec<(i32, i32)> {
    let mut rec = Recorder::new();
    Circle::new(&Point::new(cx, cy), r).draw(&mut rec);
    rec.coords()
}

#[test]
fn circle_of_radius_zero_writes_nothing() {
    assert_eq!(drawn(10, 10, 0), Vec::<(i32, i32)>::new());
}

#[test]
fn circle_of_radius_one_writes_its_four_neighbours_twice() {
    assert_eq!(
        drawn(0, 0, 1),
        vec![(0, -1), (0, -1), (0, 1), (0, 1), (-1, 0), (1, 0), (-1, 0), (1, 0)]
    );
}

#[test]
fn circle_of_radius_three_writes_three_columns_of_eight() {
    let expected: Vec<(i32, i32)> = vec![
        (10, 7), (10, 7), (10, 13), (10, 13), (7, 10), (13, 10), (7, 10), (13, 10),
        (11, 7), (9, 7), (11, 13), (9, 13), (7, 11), (13, 11), (7, 9), (13, 9),
        (12, 8), (8, 8), (12, 12), (8, 12), (8, 12), (12, 12), (8, 8), (12, 8),
    ];
    assert_eq!(drawn(10, 10, 3), expected);
}

#[test]
fn circle_of_radius_three_is_symmetric_and_close_to_its_center() {
    let pixels = drawn(10, 10, 3);
    for &(x, y) in &pixels {
        let (dx, dy) = (x - 10, y - 10);
        assert!(dx.abs() <= 4 && dy.abs() <= 4);
        assert!(pixels.contains(&(10 - dx, 10 + dy)));
        assert!(pixels.contains(&(10 + dx, 10 - dy)));
        assert!(pixels.contains(&(10 + dy, 10 + dx)));
    }
}

#[test]
fn circle_pixels_lie_within_one_of_the_radius() {
    for r in 1..60 {
        let pixels = drawn(-7, 3, r);
        assert!(!pixels.is_empty());
        assert_eq!(pixels.len() % 8, 0);
        assert!(pixels.len() <= 8 * r as usize);
        for &(x, y) in &pixels {
            let (dx, dy) = ((x + 7) as i64, (y - 3) as i64);
            let d2 = dx * dx + dy * dy;
            let r = r as i64;
            assert!(r * r - r <= d2 && d2 < r * r + r);
            assert!((r - 1) * (r - 1) <= d2 && d2 <= (r + 1) * (r + 1));
            assert!(pixels.contains(&(-7 - dx as i32, 3 + dy as i32)));
            assert!(pixels.contains(&(-7 + dx as i32, 3 - dy as i32)));
            assert!(pixels.contains(&(-7 + dy as i32, 3 + dx as i32)));
        }
    }
}

#[test]
fn circle_touching_the_coordinate_limits_is_drawn() {
    let pixels = drawn(i32::MAX - 2, i32::MIN + 2, 2);
    assert_eq!(pixels.len(), 16);
    assert!(pixels.contains(&(i32::MAX, i32::MIN + 2)));
    assert!(pixels.contains(&(i32::MAX - 2, i32::MIN)));
}

#[test]
fn circle_colors_every_pixel_from_the_default_palette() {
    let mut rec = Recorder::new();
    Circle::new(&Point::new(50, 50), 40).draw(&mut rec);
    assert!(rec.len() > 0);
    let mut distinct = std::collections::HashSet::new();
    for i in 0..rec.len() {
        let c = &rec.get(i).unwrap().color;
        assert!(c.r >= 1 && c.r <= 254 && c.g >= 1 && c.g <= 254 && c.b >= 1 && c.b <= 254);
        assert_eq!(c.a, 255);
        distinct.insert((c.r, c.g, c.b));
    }
    assert!(distinct.len() > 1);
}

#[test]
fn random_circle_respects_its_ranges() {
    for _ in 0..1000 {
        let c = Circle::random(40, 25).unwrap();
        assert!(c.center.x >= 0 && c.center.x < 40);
        assert!(c.center.y >= 0 && c.center.y < 25);
        assert!(c.radius >= 5 && c.radius < 35);
    }
}

#[test]
fn random_circle_with_the_narrowest_width_has_radius_five() {
    for _ in 0..100 {
        assert_eq!(Circle::random(11, 1).unwrap().radius, 5);
    }
}

#[test]
fn random_circle_rejects_a_width_of_five() {
    let e = Circle::random(5, 100).unwrap_err();
    assert_eq!((e.low, e.high), (5, 0));
}

#[test]
fn random_circle_rejects_every_width_up_to_ten() {
    let e = Circle::random(10, 100).unwrap_err();
    assert_eq!((e.low, e.high), (5, 5));
    let e = Circle::random(0, 100).unwrap_err();
    assert_eq!((e.low, e.high), (0, 0));
    let e = Circle::random(-3, 100).unwrap_err();
    assert_eq!((e.low, e.high), (0, -3));
    let e = Circle::random(i32::MIN, 100).unwrap_err();
    assert_eq!((e.low, e.high), (0, i32::MIN));
    let e = Circle::random(50, 0).unwrap_err();
    assert_eq!((e.low, e.high), (0, 0));
    assert!(Circle::random(11, 1).is_ok());
}
