use calendar_display::geometry::{
    bottom_right, corner_text_origin, diagonal_lines, extend_rectangle, footer_frame, with_corners,
    Point, Rect, Segment,
};

#[test]
fn rectangle_from_corners() {
    let r = with_corners(Point { x: 5, y: 5 }, Point { x: 1, y: 2 });
    assert_eq!(r, Rect { top_left: Point { x: 1, y: 2 }, width: 5, height: 4 });
    assert_eq!(bottom_right(&r), Point { x: 5, y: 5 });
    let single = with_corners(Point { x: 3, y: 3 }, Point { x: 3, y: 3 });
    assert_eq!(single.width, 1);
}

#[test]
fn extending_a_rectangle() {
    let mut r = Rect { top_left: Point { x: 10, y: 4 }, width: 20, height: 7 };
    extend_rectangle(&mut r);
    assert_eq!(r, Rect { top_left: Point { x: 8, y: 4 }, width: 23, height: 7 });
}

#[test]
fn hatch_lines() {
    let rect = Rect { top_left: Point { x: 0, y: 0 }, width: 50, height: 10 };
    let lines = diagonal_lines(&rect);
    let expected: Vec<Segment> = [0, 20, 40, 60]
        .iter()
        .map(|&x| Segment { from: Point { x, y: 9 }, to: Point { x: x + 5, y: 0 } })
        .collect();
    assert_eq!(lines, expected);
}

#[test]
fn hatch_of_narrow_rectangle_has_one_line() {
    let rect = Rect { top_left: Point { x: 10, y: 0 }, width: 3, height: 20 };
    assert_eq!(diagonal_lines(&rect).len(), 1);
}

#[test]
fn footer_geometry() {
    let f = footer_frame(Rect { top_left: Point { x: 200, y: 390 }, width: 80, height: 10 });
    assert_eq!(f, Rect { top_left: Point { x: 199, y: 390 }, width: 82, height: 11 });
    assert_eq!(corner_text_origin(Point { x: 295, y: 127 }, 15, 5, 10), Point { x: 220, y: 117 });
}
