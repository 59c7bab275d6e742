//! Vertical geometry of the hour grid.
use vstd::prelude::*;

use crate::dates::{
    day_name, days_since, epoch_day, weekday_at, weekday_index, weekday_name_len, weekday_wrapping_add,
    Weekday, format_long_date_hu, hungarian_long_date, minutes_of_day, valid_date,
    valid_time, CivilDate, LocalDateTime, LocalTime,
};
use crate::font::event_font;
use crate::geometry::{spec_with_corners, with_corners, Point, Rect, Segment};

verus! {

/// Height of the panel in pixels (the panel is used rotated, 300 wide and 400 high).
pub const DISPLAY_HEIGHT: u32 = 400;
/// Width of the panel in pixels.
pub const DISPLAY_WIDTH: u32 = 300;
/// Pixels kept free below the last hour row.
pub const EXTRA_BOTTOM_SPACE: i32 = 15;

/// Integer division that rounds toward zero, as Rust's `/` does on signed values.
pub open spec fn div_toward_zero(a: int, b: int) -> int {
    if a >= 0 {
        a / b
    } else {
        -((-a) / b)
    }
}

/// The gap between two hour labels when the hours `start..end` share the panel height:
/// the height left after the labels and the bottom margin, split over the rows.
pub open spec fn row_padding(start_hour: int, end_hour: int) -> int {
    let count = end_hour - start_hour;
    div_toward_zero(DISPLAY_HEIGHT - EXTRA_BOTTOM_SPACE - 12 * count, count)
}

/// Padding between hour rows for a grid that shows `start_hour` to `end_hour`.
pub fn calculate_row_padding(start_hour: u8, end_hour: u8) -> (r: i32)
    requires
        end_hour > start_hour,
    ensures
        r == row_padding(start_hour as int, end_hour as int),
{
    let text_height = event_font().height as i32;
    let item_count = (end_hour - start_hour) as i32;
    let total_text_size = text_height * item_count;
    let remaining_space = DISPLAY_HEIGHT as i32 - EXTRA_BOTTOM_SPACE - total_text_size;
    if remaining_space >= 0 {
        remaining_space / item_count
    } else {
        -((-remaining_space) / item_count)
    }
}

/// What the display shows: how many hours the grid spans and whether only today's
/// events are shown (then the grid starts at the current hour).
#[derive(Clone, Copy, Debug, PartialEq, Eq, Structural)]
pub struct DisplaySettings {
    pub display_hours: u8,
    pub show_current_day_only: bool,
}

impl DisplaySettings {
    /// The settings the device starts with: eight hours, all days.
    pub fn new() -> (r: Self)
        ensures
            r.display_hours == 8,
            !r.show_current_day_only,
    {
        DisplaySettings { display_hours: 8, show_current_day_only: false }
    }
}

/// Whether only the current day is shown.
pub fn limit_to_today(settings: &DisplaySettings) -> (r: bool)
    ensures
        r == settings.show_current_day_only,
{
    settings.show_current_day_only
}

/// Number of hour steps in the grid: one of the configured hours is taken by the row
/// that marks a new day.
pub fn get_display_hours(settings: &DisplaySettings) -> (r: u8)
    requires
        settings.display_hours >= 1,
    ensures
        r == settings.display_hours - 1,
{
    settings.display_hours - 1
}

/// The hour the grid starts at, for the current hour `now_hour`: the current hour,
/// moved earlier when showing several days so that the grid ends by midnight.
pub fn start_display_hour(settings: &DisplaySettings, now_hour: u8) -> (r: u8)
    requires
        settings.display_hours >= 1,
        !settings.show_current_day_only ==> settings.display_hours - 1 <= 24,
    ensures
        settings.show_current_day_only ==> r == now_hour,
        !settings.show_current_day_only ==> r == min_u(now_hour as int, 24 - (settings.display_hours - 1)),
{
    let mut start = now_hour;
    if !limit_to_today(settings) {
        let max = 24 - get_display_hours(settings);
        if start > max {
            start = max;
        }
    }
    start
}

pub open spec fn min_u(a: int, b: int) -> int {
    if a <= b { a } else { b }
}

/// Vertical distance between two hour rows of a grid from `start_hour` to `end_hour`.
pub open spec fn row_step(start_hour: int, end_hour: int) -> int {
    12 + row_padding(start_hour, end_hour)
}

proof fn lemma_row_step_bounds(start_hour: int, end_hour: int)
    requires
        0 <= start_hour < end_hour <= 255,
    ensures
        1 <= row_step(start_hour, end_hour) <= 385,
{
    let c = end_hour - start_hour;
    let rem = 385 - 12 * c;
    if rem >= 0 {
        assert(0 <= rem / c <= rem) by (nonlinear_arith)
            requires rem >= 0, c >= 1;
    } else {
        assert((-rem) / c <= 11) by (nonlinear_arith)
            requires -rem == 12 * c - 385, c >= 1;
    }
}

/// The hour rows, their paddings and the bottom margin never need more than the panel's
/// height when the labels alone fit: `count` rows of one step each end within the 385
/// pixels above the margin.
pub proof fn lemma_grid_fits_panel(start_hour: int, end_hour: int)
    requires
        0 <= start_hour < end_hour <= 255,
        12 * (end_hour - start_hour) <= DISPLAY_HEIGHT - EXTRA_BOTTOM_SPACE,
    ensures
        (end_hour - start_hour) * row_step(start_hour, end_hour) <= DISPLAY_HEIGHT - EXTRA_BOTTOM_SPACE,
{
    let c = end_hour - start_hour;
    let rem = 385 - 12 * c;
    assert(c * (12 + rem / c) <= 385) by (nonlinear_arith)
        requires c >= 1, rem >= 0, rem == 385 - 12 * c;
}

/// Whether row `i` of a grid starting at `start_hour` is at or after the first midnight.
pub open spec fn midnight_reached(start_hour: int, i: int) -> bool {
    start_hour % 24 == 0 || start_hour % 24 + i >= 24
}

/// The index of the first row that shows midnight.
pub open spec fn first_midnight_row(start_hour: int) -> int {
    if start_hour % 24 == 0 { 0 } else { 24 - start_hour % 24 }
}

/// One label of the hour column: the hour shown and its distance from the top.
#[derive(Clone, Copy, Debug, PartialEq, Eq, Structural)]
pub struct HeaderRow {
    pub hour: u8,
    pub y_offset: i32,
}

/// Row `i` of the hour column: the hour of day, and its offset, one extra step lower
/// from the first midnight on (the gap marks the new day).
pub open spec fn header_row(start_hour: int, i: int, step: int) -> HeaderRow {
    HeaderRow {
        hour: ((start_hour + i) % 24) as u8,
        y_offset: (i * step + if midnight_reached(start_hour, i) { step } else { 0 }) as i32,
    }
}

/// Hour labels go down the column: each row is below the one before it, and the hours
/// follow each other around the clock.
pub proof fn lemma_header_rows_descend(start_hour: int, i: int, step: int)
    requires
        0 <= start_hour <= 255,
        0 <= i < 256,
        1 <= step <= 385,
    ensures
        header_row(start_hour, i + 1, step).y_offset > header_row(start_hour, i, step).y_offset,
        header_row(start_hour, i + 1, step).hour == (header_row(start_hour, i, step).hour + 1) % 24,
{
    assert((i + 1) * step == i * step + step) by (nonlinear_arith);
    assert(0 <= i * step <= 256 * 385) by (nonlinear_arith)
        requires 0 <= i < 256, 1 <= step <= 385;
}

/// The labels of the hour column for a grid that starts at `start_display_hour`.
pub fn time_row_header_rows(settings: &DisplaySettings, start_display_hour: u8) -> (rows: Vec<HeaderRow>)
    requires
        settings.display_hours >= 2,
        start_display_hour + settings.display_hours - 1 <= 255,
    ensures
        rows.len() == settings.display_hours,
        forall|i: int| 0 <= i < rows.len() ==> #[trigger] rows@[i] == header_row(
            start_display_hour as int,
            i,
            row_step(start_display_hour as int, start_display_hour + settings.display_hours - 1),
        ),
{
    let hours = get_display_hours(settings);
    let end_hour = start_display_hour + hours;
    let text_height = event_font().height as i32;
    let row_padding = calculate_row_padding(start_display_hour, end_hour);
    let ghost step_spec = row_step(start_display_hour as int, end_hour as int);
    proof {
        lemma_row_step_bounds(start_display_hour as int, end_hour as int);
    }
    let y_step = text_height + row_padding;
    let mut y_offset: i32 = 0;
    let mut drawn_day = false;
    let mut rows: Vec<HeaderRow> = Vec::new();
    let mut i: u16 = 0;
    while i <= hours as u16
        invariant
            i <= hours + 1,
            end_hour == start_display_hour + hours,
            hours == settings.display_hours - 1,
            1 <= y_step <= 385,
            y_step == step_spec,
            rows.len() == i,
            drawn_day == (i > 0 && midnight_reached(start_display_hour as int, i - 1)),
            y_offset == i * y_step + if drawn_day { y_step as int } else { 0 },
            forall|j: int| 0 <= j < i ==> #[trigger] rows@[j] == header_row(
                start_display_hour as int,
                j,
                step_spec,
            ),
        decreases hours + 1 - i,
    {
        let hour = start_display_hour as u16 + i;
        let rel_hour = (hour % 24) as u8;
        proof {
            assert(i * y_step <= 256 * 385) by (nonlinear_arith)
                requires i <= 256, 1 <= y_step <= 385;
            assert(0 <= i * y_step) by (nonlinear_arith)
                requires i >= 0, 1 <= y_step;
        }
        if rel_hour == 0 && !drawn_day {
            drawn_day = true;
            y_offset = y_offset + y_step;
        }
        proof {
            assert(drawn_day == midnight_reached(start_display_hour as int, i as int));
        }
        rows.push(HeaderRow { hour: rel_hour, y_offset });
        proof {
            assert((i + 1) * y_step == i * y_step + y_step) by (nonlinear_arith);
        }
        y_offset = y_offset + y_step;
        i = i + 1;
    }
    rows
}

/// Column where the grid lines start: five glyphs of "00:00" and one space of the event font.
pub const GRID_LEFT: i32 = 36;

/// The part of the grid marked as the next day: a hatched rectangle and the date text.
pub struct DayBreak {
    pub hatch: Rect,
    pub label_at: Point,
    pub label: String,
}

/// Everything drawn for the empty calendar grid.
pub struct CalendarLayout {
    pub lines: Vec<Segment>,
    pub day_break: Option<DayBreak>,
}

/// The horizontal grid line of row `i`.
pub open spec fn grid_line(i: int, step: int, width: u32) -> Segment {
    Segment {
        from: Point { x: GRID_LEFT, y: (i * step + 6) as i32 },
        to: Point { x: width as i32, y: (i * step + 6) as i32 },
    }
}

/// The hatched rectangle of the row where the day changes.
pub open spec fn day_break_hatch(row: int, step: int, width: u32) -> Rect {
    spec_with_corners(
        Point { x: -20i32, y: (row * step + 6) as i32 },
        Point { x: width as i32, y: (row * step + 6 + step) as i32 },
    )
}

/// The grid of a calendar that starts at `start_display_hour` on a panel `width` pixels
/// wide: one line per hour and, if the grid reaches midnight, the next-day marker at the
/// first midnight row, labelled with `today` written out in Hungarian.
pub fn base_calendar_layout(
    settings: &DisplaySettings,
    start_display_hour: u8,
    width: u32,
    today: CivilDate,
) -> (layout: CalendarLayout)
    requires
        settings.display_hours >= 2,
        start_display_hour + settings.display_hours - 1 <= 255,
        (width as i32) <= i32::MAX - 20,
        valid_date(today),
    ensures
        ({
            let end = start_display_hour + settings.display_hours - 1;
            let step = row_step(start_display_hour as int, end);
            let row = first_midnight_row(start_display_hour as int);
            &&& layout.lines.len() == settings.display_hours
            &&& forall|i: int| 0 <= i < layout.lines.len() ==> #[trigger] layout.lines@[i]
                == grid_line(i, step, width)
            &&& (layout.day_break is Some <==> midnight_reached(
                start_display_hour as int,
                settings.display_hours - 1,
            ))
            &&& (layout.day_break matches Some(b) ==> {
                &&& b.hatch == day_break_hatch(row, step, width)
                &&& b.label_at == (Point { x: GRID_LEFT, y: (row * step + step / 2) as i32 })
                &&& b.label@ == hungarian_long_date(
                    today.year as int,
                    today.month as int,
                    today.day as int,
                )
            })
        }),
{
    let hours = get_display_hours(settings);
    let end_hour = start_display_hour + hours;
    let text_height = event_font().height as i32;
    let row_padding = calculate_row_padding(start_display_hour, end_hour);
    let ghost step_spec = row_step(start_display_hour as int, end_hour as int);
    proof {
        lemma_row_step_bounds(start_display_hour as int, end_hour as int);
    }
    let y_step = text_height + row_padding;
    let right = width as i32;
    let mut y_offset: i32 = 0;
    let mut day_break: Option<DayBreak> = None;
    let mut lines: Vec<Segment> = Vec::new();
    let mut i: u16 = 0;
    while i <= hours as u16
        invariant
            i <= hours + 1,
            end_hour == start_display_hour + hours,
            hours == settings.display_hours - 1,
            1 <= y_step <= 385,
            y_step == step_spec,
            right == width as i32,
            right <= i32::MAX - 20,
            text_height == 12,
            valid_date(today),
            lines.len() == i,
            y_offset == i * y_step,
            day_break is Some <==> (i > 0 && midnight_reached(start_display_hour as int, i - 1)),
            day_break matches Some(b) ==> {
                let row = first_midnight_row(start_display_hour as int);
                &&& b.hatch == day_break_hatch(row, step_spec, width)
                &&& b.label_at == (Point { x: GRID_LEFT, y: (row * step_spec + step_spec / 2) as i32 })
                &&& b.label@ == hungarian_long_date(today.year as int, today.month as int, today.day as int)
            },
            forall|j: int| 0 <= j < i ==> #[trigger] lines@[j] == grid_line(j, step_spec, width),
        decreases hours + 1 - i,
    {
        let hour = start_display_hour as u16 + i;
        let rel_hour = hour % 24;
        proof {
            assert(i * y_step <= 256 * 385) by (nonlinear_arith)
                requires i <= 256, 1 <= y_step <= 385;
            assert(0 <= i * y_step) by (nonlinear_arith)
                requires i >= 0, 1 <= y_step;
        }
        let line_y = y_offset + text_height / 2;
        if rel_hour == 0 && day_break.is_none() {
            proof {
                assert(i == first_midnight_row(start_display_hour as int));
            }
            let rect_start = Point { x: -20, y: line_y };
            let rect_end = Point { x: right, y: line_y + y_step };
            let hatch = with_corners(rect_start, rect_end);
            let label = format_long_date_hu(today);
            day_break = Some(DayBreak {
                hatch,
                label_at: Point { x: GRID_LEFT, y: y_offset + y_step / 2 },
                label,
            });
        }
        lines.push(Segment { from: Point { x: GRID_LEFT, y: line_y }, to: Point { x: right, y: line_y } });
        proof {
            assert((i + 1) * y_step == i * y_step + y_step) by (nonlinear_arith);
        }
        y_offset = y_offset + y_step;
        i = i + 1;
    }
    CalendarLayout { lines, day_break }
}

/// Converts an hour in `0..=255` the way `as i8` does.
pub open spec fn wrap_i8(v: int) -> int {
    if v < 128 { v } else { v - 256 }
}

/// Whether the mark for the current time is left out: the current hour lies before the
/// grid's first hour or after its last, both compared as `i8`.
pub open spec fn ticker_hidden(start_display_hour: int, display_hours: int, now: LocalTime) -> bool {
    now.hour < wrap_i8(start_display_hour) || now.hour > wrap_i8(start_display_hour + display_hours - 1)
}

/// Where the mark for the current time goes: `None` when the current hour is outside
/// the grid (the hours are compared as `i8`, as the time library gives them), otherwise
/// the minutes from the grid's first hour.
pub fn time_ticker_offset(settings: &DisplaySettings, start_display_hour: u8, now: LocalTime) -> (r: Option<u16>)
    requires
        settings.display_hours >= 1,
        start_display_hour + settings.display_hours - 1 <= 255,
        valid_time(now),
    ensures
        r is None <==> ticker_hidden(start_display_hour as int, settings.display_hours as int, now),
        r matches Some(m) ==> m == minutes_of_day(now) - start_display_hour * 60,
{
    let hours = get_display_hours(settings);
    let end = start_display_hour + hours;
    let before_start = start_display_hour <= 127 && now.hour < start_display_hour;
    let after_end = end >= 128 || now.hour > end;
    if before_start || after_end {
        return None;
    }
    Some(crate::dates::date_to_mins(now) - start_display_hour as u16 * 60)
}

/// Minutes from the start of `today` to a date and time (negative before it).
pub open spec fn minutes_from(today: CivilDate, t: LocalDateTime) -> int {
    (epoch_day(t.date) - epoch_day(today)) * 1440 + minutes_of_day(t.time)
}

/// Whether computing `minutes_from` step by step stays inside `i32`.
pub open spec fn minutes_fit(today: CivilDate, t: LocalDateTime) -> bool {
    let d = epoch_day(t.date) - epoch_day(today);
    &&& i32::MIN <= d * 1440
    &&& d * 1440 + minutes_of_day(t.time) + 60 <= i32::MAX
}

/// Minutes from the start of `today` to `t`.
fn minutes_since_start_of(today: CivilDate, t: LocalDateTime) -> (r: i32)
    requires
        valid_date(today),
        valid_date(t.date),
        valid_time(t.time),
        minutes_fit(today, t),
    ensures
        r == minutes_from(today, t),
        r + 60 <= i32::MAX,
{
    let days = days_since(t.date, today);
    proof {
        let d = days as int;
        assert(i32::MIN <= d * 24 <= i32::MAX && d * 24 * 60 == d * 1440) by (nonlinear_arith)
            requires i32::MIN <= d * 1440, d * 1440 + 60 <= i32::MAX;
    }
    let day_minutes = days * 24 * 60;
    day_minutes + t.time.hour as i32 * 60 + t.time.minute as i32
}

/// The rows an event takes, in minutes from the first hour of the grid: where it starts,
/// where it ends (one hour later when it ends on or after the next midnight, to make room
/// for the new-day row), and where the grid ends.
#[derive(Clone, Copy, Debug, PartialEq, Eq, Structural)]
pub struct EventWindow {
    pub start_offset: u16,
    pub end_offset: u16,
    pub limit_offset: u16,
}

pub open spec fn max_zero(a: int) -> int {
    if a >= 0 { a } else { 0 }
}

/// Minutes from the grid's first hour to the start of an event, zero when it starts
/// earlier.
pub open spec fn event_start_offset(today: CivilDate, start_display_hour: int, start: LocalDateTime) -> int {
    max_zero(minutes_from(today, start) - start_display_hour * 60)
}

/// The mark for the current time and an event that starts now begin at the same
/// minute offset of the grid, whenever the mark is shown.
pub proof fn lemma_ticker_meets_event_starting_now(
    today: CivilDate,
    start_display_hour: int,
    display_hours: int,
    now: LocalTime,
)
    requires
        0 <= start_display_hour,
        display_hours >= 1,
        start_display_hour + display_hours - 1 <= 255,
        valid_time(now),
        !ticker_hidden(start_display_hour, display_hours, now),
    ensures
        event_start_offset(today, start_display_hour, LocalDateTime { date: today, time: now })
            == minutes_of_day(now) - start_display_hour * 60,
{
    assert(start_display_hour < 128);
    assert(minutes_from(today, LocalDateTime { date: today, time: now }) == minutes_of_day(now));
}

/// Which part of the grid an event from `start` to `end` covers, or `None` when it lies
/// entirely before or after the grid.
pub fn event_window(
    settings: &DisplaySettings,
    start_display_hour: u8,
    today: CivilDate,
    start: LocalDateTime,
    end: LocalDateTime,
) -> (r: Option<EventWindow>)
    requires
        settings.display_hours >= 1,
        valid_date(today),
        valid_date(start.date),
        valid_date(end.date),
        valid_time(start.time),
        valid_time(end.time),
        minutes_fit(today, start),
        minutes_fit(today, end),
        minutes_from(today, end) > start_display_hour * 60 && minutes_from(today, start) < (
        start_display_hour + settings.display_hours - 1) * 60 ==> minutes_from(today, start)
            - start_display_hour * 60 >= i32::MIN,
    ensures
        ({
            let first = start_display_hour * 60;
            let last = (start_display_hour + settings.display_hours - 1) * 60;
            let s = minutes_from(today, start);
            let e = minutes_from(today, end);
            let e2 = if e >= 1440 { e + 60 } else { e };
            &&& (r is None <==> (e <= first || s >= last))
            &&& (r matches Some(w) ==> {
                &&& w.start_offset == event_start_offset(today, start_display_hour as int, start)
                &&& w.end_offset == (max_zero(e2 - first)) as u16
                &&& w.limit_offset == (settings.display_hours - 1) * 60
            })
        }),
{
    let start_min = minutes_since_start_of(today, start);
    let mut end_min = minutes_since_start_of(today, end);
    let hours = get_display_hours(settings);
    let display_start_mins = start_display_hour as i32 * 60;
    let display_end_mins = (start_display_hour as i32 + hours as i32) * 60;
    if end_min <= display_start_mins || start_min >= display_end_mins {
        return None;
    }
    let start_rel = start_min - display_start_mins;
    let start_offset: u16 = if start_rel > 0 { start_rel as u16 } else { 0 };
    if end_min >= 1440 {
        end_min = end_min + 60;
    }
    let end_rel = end_min - display_start_mins;
    let end_offset: u16 = if end_rel > 0 { #[verifier::truncate] (end_rel as u16) } else { 0 };
    Some(EventWindow { start_offset, end_offset, limit_offset: hours as u16 * 60 })
}

/// One weekday label of the day strip and where it is written.
#[derive(Clone, Copy, Debug, PartialEq, Eq, Structural)]
pub struct DayLabel {
    pub day: Weekday,
    pub at: Point,
}

/// How many days the strip shows: `count`, but at least one and at most a week.
pub open spec fn day_count(count: int) -> int {
    if count < 1 { 1 } else if count > 7 { 7 } else { count }
}

/// Horizontal offset of label `k` from the start of the events column: each label moves
/// right by the width of its own name (six pixels per letter) and fifteen pixels.
pub open spec fn day_label_offset(first: Weekday, k: int) -> int
    decreases k + 1,
{
    if k < 0 {
        0
    } else {
        day_label_offset(first, k - 1) + weekday_name_len(weekday_at(weekday_index(first) + k)) * 6 + 15
    }
}

proof fn lemma_day_label_offset_bounds(first: Weekday, k: int)
    requires
        k >= -1,
    ensures
        0 <= day_label_offset(first, k) <= (k + 1) * 69,
    decreases k + 1,
{
    if k >= 0 {
        lemma_day_label_offset_bounds(first, k - 1);
    }
}

/// The weekday labels along the bottom of a panel `height` pixels high, starting with
/// `current_day`.
pub fn day_labels(current_day: Weekday, count: u8, height: u32) -> (labels: Vec<DayLabel>)
    requires
        height >= 12,
    ensures
        labels.len() == day_count(count as int),
        forall|k: int| 0 <= k < labels.len() ==> #[trigger] labels@[k] == (DayLabel {
            day: weekday_at(weekday_index(current_day) + k),
            at: Point { x: (37 + day_label_offset(current_day, k)) as i32, y: (height - 12) as i32 },
        }),
{
    let y = height - event_font().height;
    let n: u8 = if count < 1 { 1 } else if count > 7 { 7 } else { count };
    let mut x_offset: i32 = 0;
    let mut labels: Vec<DayLabel> = Vec::new();
    let mut i: u8 = 0;
    while i < n
        invariant
            i <= n,
            n == day_count(count as int),
            n <= 7,
            y == height - 12,
            labels.len() == i,
            x_offset == day_label_offset(current_day, i - 1),
            forall|k: int| 0 <= k < i ==> #[trigger] labels@[k] == (DayLabel {
                day: weekday_at(weekday_index(current_day) + k),
                at: Point { x: (37 + day_label_offset(current_day, k)) as i32, y: (height - 12) as i32 },
            }),
        decreases n - i,
    {
        proof {
            lemma_day_label_offset_bounds(current_day, i as int);
        }
        let day = weekday_wrapping_add(current_day, i);
        let name = day_name(day);
        let letters = crate::labels::chars_of(name).len() as i32;
        x_offset = x_offset + letters * 6 + 15;
        labels.push(DayLabel { day, at: Point { x: 37 + x_offset, y: #[verifier::truncate] (y as i32) } });
        i = i + 1;
    }
    labels
}

} // verus!
