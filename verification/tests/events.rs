use calendar_display::dates::LocalTime;
use calendar_display::events::{
    event_frame, event_text_bounds, frame_spans, mini_text_bounds, place_event, try_place_event,
};
use calendar_display::geometry::{Point, Rect};
use calendar_display::spaces::{InclusiveRange, OccupiedSpaces};

fn t(hour: u8, minute: u8) -> LocalTime {
    LocalTime { hour, minute }
}

#[test]
fn text_boxes_measure_glyph_cells() {
    // 11 glyphs of 5 pixels without spacing, 10 high
    assert_eq!(
        mini_text_bounds("08:10-08:50", Point { x: 37, y: 100 }),
        Rect { top_left: Point { x: 37, y: 100 }, width: 55, height: 10 }
    );
    // 9 glyphs of 6 pixels with 1 pixel between them, 12 high
    assert_eq!(
        event_text_bounds("Breakfast", Point { x: 37, y: 110 }),
        Rect { top_left: Point { x: 37, y: 110 }, width: 62, height: 12 }
    );
    // two lines stack downwards, the box is as wide as the longest
    let two = event_text_bounds("ab\nabcd", Point { x: 0, y: 0 });
    assert_eq!(two, Rect { top_left: Point { x: 0, y: 0 }, width: 27, height: 24 });
}

#[test]
fn frame_covers_texts_and_end_row() {
    let time_box = Rect { top_left: Point { x: 37, y: 100 }, width: 55, height: 10 };
    let title_box = Rect { top_left: Point { x: 37, y: 110 }, width: 62, height: 12 };
    let frame = event_frame(time_box, title_box, 100, 150);
    assert_eq!(frame, Rect { top_left: Point { x: 35, y: 100 }, width: 66, height: 51 });
    let (rows, cols) = frame_spans(&frame);
    assert_eq!(rows, InclusiveRange { start: 100, last: 150 });
    assert_eq!(cols, InclusiveRange { start: 0, last: 65 });
}

#[test]
fn multi_line_event_placement() {
    let mut spaces = OccupiedSpaces::new();
    let p = place_event(&mut spaces, 100, 150, 385, "Breakfast", t(8, 10), t(8, 50));
    assert!(!p.oneline);
    assert_eq!(p.x, 37);
    assert_eq!(p.end_y, 150);
    assert_eq!(p.time_label, "08:10-08:50");
    assert_eq!(p.title, "Breakfast");
    assert_eq!(p.time_at, Point { x: 37, y: 100 });
    assert_eq!(p.title_at, Point { x: 37, y: 110 });
    assert_eq!(p.frame, Rect { top_left: Point { x: 35, y: 100 }, width: 66, height: 51 });
    // a second event on the same rows goes beside the first
    let q = place_event(&mut spaces, 120, 180, 385, "Lunch", t(8, 30), t(9, 30));
    assert_eq!(q.x, 37 + 65);
}

#[test]
fn short_event_is_one_line_and_grows_to_time_height() {
    let mut spaces = OccupiedSpaces::new();
    let p = place_event(&mut spaces, 200, 205, 385, "S", t(7, 20), t(7, 30));
    assert!(p.oneline);
    assert_eq!(p.end_y, 210);
    assert_eq!(p.title_at, Point { x: 37 + 55 + 3, y: 200 });
}

#[test]
fn end_is_cut_at_grid_end() {
    let mut spaces = OccupiedSpaces::new();
    let p = place_event(&mut spaces, 300, 500, 385, "Late", t(22, 0), t(23, 59));
    assert_eq!(p.end_y, 385);
}

#[test]
fn checked_placement_matches_and_refuses_huge_rows() {
    let mut a = OccupiedSpaces::new();
    let mut b = OccupiedSpaces::new();
    let p = place_event(&mut a, 100, 150, 385, "Breakfast", t(8, 10), t(8, 50));
    let q = try_place_event(&mut b, 100, 150, 385, "Breakfast", t(8, 10), t(8, 50)).unwrap();
    assert_eq!(p.frame, q.frame);
    assert_eq!(p.title, q.title);
    assert!(try_place_event(&mut b, u32::MAX - 5, u32::MAX, u32::MAX, "x", t(1, 0), t(2, 0)).is_none());
}

#[test]
fn text_boxes_of_blank_and_broken_lines() {
    // a leading empty line moves the box one line down
    assert_eq!(
        event_text_bounds("\nab", Point { x: 5, y: 10 }),
        Rect { top_left: Point { x: 5, y: 22 }, width: 13, height: 12 }
    );
    // a blank line in the middle still counts in the height; '\r' before '\n' is dropped
    assert_eq!(
        event_text_bounds("ab\r\n\ncd", Point { x: 0, y: 0 }),
        Rect { top_left: Point { x: 0, y: 0 }, width: 13, height: 36 }
    );
    // a '\r' ending the text is dropped too
    assert_eq!(
        event_text_bounds("x\r", Point { x: 0, y: 0 }),
        Rect { top_left: Point { x: 0, y: 0 }, width: 6, height: 12 }
    );
    // without any character the box is empty at the position
    assert_eq!(event_text_bounds("", Point { x: 3, y: 4 }), Rect { top_left: Point { x: 3, y: 4 }, width: 0, height: 0 });
    assert_eq!(mini_text_bounds("\n", Point { x: 3, y: 4 }), Rect { top_left: Point { x: 3, y: 4 }, width: 0, height: 0 });
    assert_eq!(
        mini_text_bounds("a\nbcd", Point { x: 1, y: 2 }),
        Rect { top_left: Point { x: 1, y: 2 }, width: 15, height: 20 }
    );
}
