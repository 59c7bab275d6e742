use calendar_display::spaces::{InclusiveRange, OccupiedSpaces};

fn r(start: u16, last: u16) -> InclusiveRange {
    InclusiveRange { start, last }
}

#[test]
fn empty_grid_places_at_first_column() {
    let spaces = OccupiedSpaces::new();
    assert_eq!(spaces.get_next_free_slot(r(10, 50), 20), 0);
}

#[test]
fn overlapping_box_pushes_event_right() {
    let mut spaces = OccupiedSpaces::new();
    spaces.add_space(r(0, 100), r(0, 50));
    assert_eq!(spaces.get_next_free_slot(r(10, 50), 20), 50);
}

#[test]
fn box_touching_at_an_edge_row_does_not_count() {
    let mut spaces = OccupiedSpaces::new();
    spaces.add_space(r(0, 10), r(0, 50));
    assert_eq!(spaces.get_next_free_slot(r(10, 50), 20), 0);
    spaces.add_space(r(50, 80), r(0, 50));
    assert_eq!(spaces.get_next_free_slot(r(10, 50), 20), 0);
}

#[test]
fn gap_between_boxes_is_used_when_wide_enough() {
    let mut spaces = OccupiedSpaces::new();
    spaces.add_space(r(0, 100), r(80, 120));
    spaces.add_space(r(0, 100), r(0, 50));
    // drawn out of order: the search sorts the boxes by their first column
    assert_eq!(spaces.get_next_free_slot(r(10, 50), 20), 50);
    assert_eq!(spaces.get_next_free_slot(r(10, 50), 40), 120);
}

#[test]
fn gap_before_first_box() {
    let mut spaces = OccupiedSpaces::new();
    spaces.add_space(r(0, 100), r(30, 60));
    assert_eq!(spaces.get_next_free_slot(r(10, 50), 20), 0);
    assert_eq!(spaces.get_next_free_slot(r(10, 50), 30), 60);
}

#[test]
fn slot_does_not_collide_with_overlapping_boxes() {
    let mut spaces = OccupiedSpaces::new();
    let boxes = [(0, 60, 0, 40), (20, 90, 45, 70), (100, 120, 0, 200), (30, 50, 150, 160)];
    for (y0, y1, x0, x1) in boxes {
        spaces.add_space(r(y0, y1), r(x0, x1));
    }
    for width in [5u16, 20, 60, 100] {
        let slot = spaces.get_next_free_slot(r(25, 55), width);
        for (y0, y1, x0, x1) in boxes {
            if y0 < 55 && y1 > 25 {
                assert!(x1 <= slot || x0 > slot + width, "width {width}: slot {slot}");
            }
        }
    }
}

#[test]
fn checked_search_reports_overflow() {
    let mut spaces = OccupiedSpaces::new();
    spaces.add_space(r(0, 100), r(0, 65000));
    spaces.add_space(r(0, 100), r(65010, 65020));
    assert_eq!(spaces.next_free_slot_checked(r(10, 50), 5), Some(65000));
    assert_eq!(spaces.next_free_slot_checked(r(10, 50), 100), Some(65020));
    // the second box is reached with 65000 + 1000 beyond u16
    assert_eq!(spaces.next_free_slot_checked(r(10, 50), 1000), None);
    assert_eq!(OccupiedSpaces::new().next_free_slot_checked(r(10, 50), u16::MAX), Some(0));
}

#[test]
fn no_column_left_of_the_slot_is_free() {
    let mut spaces = OccupiedSpaces::new();
    let boxes = [(0u16, 60u16, 0u16, 40u16), (20, 90, 45, 70), (100, 120, 0, 200), (30, 50, 150, 160)];
    for (y0, y1, x0, x1) in boxes {
        spaces.add_space(r(y0, y1), r(x0, x1));
    }
    for width in [5u16, 20, 60, 100] {
        let slot = spaces.get_next_free_slot(r(25, 55), width);
        for c in 0..slot {
            let blocked = boxes
                .iter()
                .any(|&(y0, y1, x0, x1)| y0 < 55 && y1 > 25 && x1 > c && x0 as u32 <= c as u32 + width as u32);
            assert!(blocked, "width {width}: column {c} left of slot {slot} is free");
        }
    }
}
