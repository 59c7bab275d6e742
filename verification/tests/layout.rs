use calendar_display::dates::{CivilDate, LocalDateTime, LocalTime, Weekday};
use calendar_display::font::{calculate_text_width, event_font, mini_font};
use calendar_display::geometry::{Point, Rect, Segment};
use calendar_display::layout::{
    base_calendar_layout, calculate_row_padding, day_labels, event_window, get_display_hours,
    limit_to_today, start_display_hour, time_row_header_rows, time_ticker_offset, DisplaySettings,
    EventWindow, HeaderRow,
};

fn settings(hours: u8, today_only: bool) -> DisplaySettings {
    DisplaySettings { display_hours: hours, show_current_day_only: today_only }
}

fn at(date: CivilDate, hour: u8, minute: u8) -> LocalDateTime {
    LocalDateTime { date, time: LocalTime { hour, minute } }
}

const DAY: CivilDate = CivilDate { year: 2026, month: 7, day: 11 };
const NEXT_DAY: CivilDate = CivilDate { year: 2026, month: 7, day: 12 };
const PREV_DAY: CivilDate = CivilDate { year: 2026, month: 7, day: 10 };

#[test]
fn row_padding_splits_free_height() {
    // 385 pixels above the margin, 7 rows of 12-pixel labels
    assert_eq!(calculate_row_padding(8, 15), 43);
    assert_eq!(calculate_row_padding(0, 1), 373);
}

#[test]
fn row_padding_rounds_toward_zero_when_overfull() {
    // 40 rows need 480 pixels: (385 - 480) / 40 rounds to -2
    assert_eq!(calculate_row_padding(0, 40), -2);
}

#[test]
fn text_width_of_runs() {
    assert_eq!(calculate_text_width(5, event_font()), 37);
    assert_eq!(calculate_text_width(0, event_font()), 0);
    assert_eq!(calculate_text_width(1, event_font()), 9);
    assert_eq!(calculate_text_width(11, mini_font()), 57);
}

#[test]
fn font_metrics_come_from_profont() {
    let e = event_font();
    assert_eq!((e.width, e.height, e.spacing), (6, 12, 1));
    let m = mini_font();
    assert_eq!((m.width, m.height, m.spacing), (5, 10, 0));
}

#[test]
fn settings_defaults_and_accessors() {
    let s = DisplaySettings::new();
    assert_eq!(s.display_hours, 8);
    assert!(!limit_to_today(&s));
    assert_eq!(get_display_hours(&s), 7);
    assert!(limit_to_today(&settings(8, true)));
}

#[test]
fn start_hour_is_pulled_back_to_end_by_midnight() {
    assert_eq!(start_display_hour(&settings(18, false), 10), 7);
    assert_eq!(start_display_hour(&settings(18, false), 5), 5);
    assert_eq!(start_display_hour(&settings(18, true), 10), 10);
    assert_eq!(start_display_hour(&settings(8, false), 23), 17);
}

#[test]
fn header_rows_gap_at_midnight() {
    let rows = time_row_header_rows(&settings(8, false), 20);
    let expected = [
        (20, 0),
        (21, 55),
        (22, 110),
        (23, 165),
        (0, 275),
        (1, 330),
        (2, 385),
        (3, 440),
    ];
    assert_eq!(rows.len(), expected.len());
    for (row, (hour, y)) in rows.iter().zip(expected.iter()) {
        assert_eq!(*row, HeaderRow { hour: *hour, y_offset: *y });
    }
}

#[test]
fn header_rows_descend_without_midnight() {
    let rows = time_row_header_rows(&settings(8, false), 8);
    for pair in rows.windows(2) {
        assert!(pair[1].y_offset > pair[0].y_offset);
        assert_eq!(pair[1].hour, (pair[0].hour + 1) % 24);
    }
    assert_eq!(rows[0], HeaderRow { hour: 8, y_offset: 0 });
}

#[test]
fn header_rows_starting_at_midnight_shift_first_row() {
    let rows = time_row_header_rows(&settings(3, false), 0);
    assert_eq!(rows[0].hour, 0);
    assert!(rows[0].y_offset > 0);
}

#[test]
fn calendar_lines_and_day_break() {
    let layout = base_calendar_layout(&settings(8, false), 20, 300, DAY);
    assert_eq!(layout.lines.len(), 8);
    assert_eq!(
        layout.lines[1],
        Segment { from: Point { x: 36, y: 61 }, to: Point { x: 300, y: 61 } }
    );
    let day_break = layout.day_break.expect("the grid passes midnight");
    assert_eq!(
        day_break.hatch,
        Rect { top_left: Point { x: -20, y: 226 }, width: 321, height: 56 }
    );
    assert_eq!(day_break.label_at, Point { x: 36, y: 247 });
    assert!(day_break.label.contains("2026"));
    assert!(day_break.label.contains("11"));
}

#[test]
fn calendar_without_midnight_has_no_day_break() {
    let layout = base_calendar_layout(&settings(8, false), 8, 300, DAY);
    assert!(layout.day_break.is_none());
    assert_eq!(layout.lines[0].from, Point { x: 36, y: 6 });
}

#[test]
fn ticker_inside_and_outside_grid() {
    let s = settings(8, true);
    assert_eq!(time_ticker_offset(&s, 8, LocalTime { hour: 10, minute: 30 }), Some(150));
    assert_eq!(time_ticker_offset(&s, 8, LocalTime { hour: 15, minute: 59 }), Some(479));
    assert_eq!(time_ticker_offset(&s, 8, LocalTime { hour: 16, minute: 0 }), None);
    assert_eq!(time_ticker_offset(&s, 8, LocalTime { hour: 7, minute: 59 }), None);
}

#[test]
fn event_window_same_day() {
    let w = event_window(&settings(8, false), 8, DAY, at(DAY, 9, 0), at(DAY, 10, 30));
    assert_eq!(w, Some(EventWindow { start_offset: 60, end_offset: 150, limit_offset: 420 }));
}

#[test]
fn event_window_past_midnight_gets_extra_hour() {
    let w = event_window(&settings(8, false), 20, DAY, at(DAY, 23, 0), at(NEXT_DAY, 0, 30));
    // 1470 minutes from the start of the day, plus 60 for the new-day row, minus 1200
    assert_eq!(w, Some(EventWindow { start_offset: 180, end_offset: 330, limit_offset: 420 }));
}

#[test]
fn event_window_starting_before_grid_is_clipped() {
    let w = event_window(&settings(8, false), 8, DAY, at(PREV_DAY, 22, 0), at(DAY, 9, 0));
    assert_eq!(w, Some(EventWindow { start_offset: 0, end_offset: 60, limit_offset: 420 }));
}

#[test]
fn event_window_outside_grid() {
    assert_eq!(event_window(&settings(8, false), 8, DAY, at(DAY, 6, 0), at(DAY, 8, 0)), None);
    assert_eq!(event_window(&settings(8, false), 8, DAY, at(DAY, 15, 0), at(DAY, 16, 0)), None);
    assert_eq!(event_window(&settings(8, false), 8, DAY, at(PREV_DAY, 9, 0), at(PREV_DAY, 10, 0)), None);
}

#[test]
fn day_strip_labels() {
    let labels = day_labels(Weekday::Monday, 3, 400);
    assert_eq!(labels.len(), 3);
    assert_eq!(labels[0].day, Weekday::Monday);
    assert_eq!(labels[0].at, Point { x: 88, y: 388 });
    assert_eq!(labels[1].day, Weekday::Tuesday);
    assert_eq!(labels[1].at, Point { x: 145, y: 388 });
    assert_eq!(labels[2].day, Weekday::Wednesday);
    assert_eq!(labels[2].at, Point { x: 214, y: 388 });
}

#[test]
fn day_strip_count_is_clamped() {
    assert_eq!(day_labels(Weekday::Sunday, 0, 400).len(), 1);
    let week = day_labels(Weekday::Sunday, 10, 400);
    assert_eq!(week.len(), 7);
    assert_eq!(week[1].day, Weekday::Monday);
}

#[test]
fn each_further_glyph_adds_width_and_spacing() {
    assert_eq!(calculate_text_width(6, event_font()) - calculate_text_width(5, event_font()), 7);
    assert_eq!(calculate_text_width(12, mini_font()) - calculate_text_width(11, mini_font()), 5);
}

#[test]
fn hour_rows_fit_above_the_bottom_margin() {
    for (start, end) in [(8u8, 15u8), (0, 1), (0, 24), (6, 30), (17, 49)] {
        let rows = (end - start) as i32;
        let step = 12 + calculate_row_padding(start, end);
        assert!(rows * step <= 385, "{start}..{end}");
        assert!(step >= 1);
    }
}

#[test]
fn ticker_lines_up_with_event_starting_now() {
    let s = settings(8, true);
    for (hour, minute) in [(8u8, 0u8), (10, 30), (14, 59)] {
        let tick = time_ticker_offset(&s, 8, LocalTime { hour, minute }).unwrap();
        let w = event_window(&s, 8, DAY, at(DAY, hour, minute), at(NEXT_DAY, 1, 0)).unwrap();
        assert_eq!(w.start_offset, tick);
    }
}
