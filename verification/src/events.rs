//! Placement of one calendar event in the grid: its box, its texts and the slot beside
//! events drawn earlier on the same rows.
use embedded_graphics::prelude::Dimensions;
use vstd::prelude::*;

use crate::dates::{valid_time, LocalTime};
use crate::font::{calculate_text_width, event_font, mini_font, text_width};
use crate::geometry::{
    bottom_right, corners_fit, extend_rectangle, has_bottom_right, spec_bottom_right,
    spec_with_corners, with_corners, Point, Rect,
};
use crate::labels::{
    lemma_multiline_title_breaks_at_spaces, lemma_multiline_title_lines, lemma_short_oneline_title_is_text,
    lemma_utf8_size_bounds, lemma_utf8_size_prefix, lemma_wrapped_title_fits, spaces_near_breaks,
    title_line_budget, unbreak, lemma_title_shows_text, TITLE_CAPACITY, chars_of, clock_text, time_range_label, utf8_size, utf8_width, wrap_title, wrapped_title,
};
use crate::spaces::{
    free_slot, free_slot_fits, lemma_free_slot_bound, lemma_free_slot_is_clear, lemma_free_slot_origin,
    overlaps_rows, InclusiveRange, OccupiedSpace, OccupiedSpaces,
};

verus! {

/// Where events start: the width of the hour column, five glyphs of the event font.
pub const START_POS: i32 = 37;

/// A text that `embedded_graphics` lays out as one line: not empty, no line break, and
/// no carriage return at its end (which it would drop).
pub open spec fn single_line(text: Seq<char>) -> bool {
    &&& text.len() > 0
    &&& !text.contains('\n')
    &&& text.last() != '\r'
}

/// Whether measuring `text` at `at` keeps `embedded_graphics`' point arithmetic inside
/// `i32`: every line (there are at most one more than characters) moves down by a line
/// height of at most 12 pixels, and no line is wider than 7 pixels per character.
pub open spec fn text_box_fits(text: Seq<char>, at: Point) -> bool {
    &&& text.len() <= 4096
    &&& at.x + 7 * text.len() <= i32::MAX
    &&& at.y + 12 * (text.len() + 1) <= i32::MAX
}

/// The pieces of a text between its line breaks (`str::split('\n')`): one piece more
/// than there are breaks, empty pieces included.
pub open spec fn text_lines(t: Seq<char>) -> Seq<Seq<char>>
    decreases t.len(),
{
    if t.len() == 0 {
        seq![Seq::<char>::empty()]
    } else {
        let p = text_lines(t.drop_last());
        if t.last() == '\n' {
            p.push(Seq::<char>::empty())
        } else {
            p.update(p.len() - 1, p.last().push(t.last()))
        }
    }
}

/// A line as it is drawn: without a carriage return at its end.
pub open spec fn strip_cr(line: Seq<char>) -> Seq<char> {
    if line.len() > 0 && line.last() == '\r' {
        line.drop_last()
    } else {
        line
    }
}

/// The lines that take room: the index of the first and of the last line with at least
/// one character (after `strip_cr`), and the most characters on a line; `None` when no
/// line has any.
pub open spec fn line_span(lines: Seq<Seq<char>>) -> Option<(int, int, int)>
    decreases lines.len(),
{
    if lines.len() == 0 {
        None
    } else {
        let p = line_span(lines.drop_last());
        let n = strip_cr(lines.last()).len() as int;
        let i = lines.len() - 1;
        if n == 0 {
            p
        } else {
            match p {
                None => Some((i, i, n)),
                Some(q) => Some((q.0, i, if q.2 >= n { q.2 } else { n })),
            }
        }
    }
}

/// The box `embedded_graphics` gives a left-aligned, top-aligned text at `(x, y)` in a
/// monospace font of glyphs `w` wide and `h` high with spacing `s`: each line that has
/// characters is a box `h` high starting `h` pixels below the line before, `n` glyphs
/// wide without the spacing after the last; the text's box spans all of them, and is an
/// empty box at `(x, y)` when no line has a character.
pub open spec fn mono_text_box(text: Seq<char>, x: int, y: int, w: int, s: int, h: int) -> Rect {
    match line_span(text_lines(text)) {
        None => Rect { top_left: Point { x: x as i32, y: y as i32 }, width: 0, height: 0 },
        Some(q) => Rect {
            top_left: Point { x: x as i32, y: (y + h * q.0) as i32 },
            width: (q.2 * (w + s) - s) as u32,
            height: (h * (q.1 - q.0) + h) as u32,
        },
    }
}

/// The box of a text set in `profont::PROFONT_10_POINT` (6x12 glyphs, spacing 1) with
/// its top left at `(x, y)`.
pub open spec fn event_text_box(text: Seq<char>, x: int, y: int) -> Rect {
    mono_text_box(text, x, y, 6, 1, 12)
}

/// The box of a text set in `profont::PROFONT_7_POINT` (5x10 glyphs, no spacing) with
/// its top left at `(x, y)`.
pub open spec fn mini_text_box(text: Seq<char>, x: int, y: int) -> Rect {
    mono_text_box(text, x, y, 5, 0, 10)
}

proof fn lemma_lines_without_break(t: Seq<char>)
    requires
        !t.contains('\n'),
    ensures
        text_lines(t) == seq![t],
    decreases t.len(),
{
    if t.len() == 0 {
        assert(t =~= Seq::<char>::empty());
        assert(text_lines(t) =~= seq![t]);
    } else {
        let d = t.drop_last();
        if d.contains('\n') {
            let i = choose|i: int| 0 <= i < d.len() && d[i] == '\n';
            assert(t[i] == '\n');
        }
        lemma_lines_without_break(d);
        assert(t[t.len() - 1] == t.last());
        assert(t.last() != '\n');
        assert(d.push(t.last()) =~= t);
        assert(text_lines(t) =~= seq![t]);
    }
}

/// A single line's box starts at its position, is one glyph high and `n` glyphs wide.
pub proof fn lemma_single_line_box(t: Seq<char>, x: int, y: int, w: int, s: int, h: int)
    requires
        single_line(t),
    ensures
        mono_text_box(t, x, y, w, s, h) == (Rect {
            top_left: Point { x: x as i32, y: y as i32 },
            width: (t.len() * (w + s) - s) as u32,
            height: h as u32,
        }),
{
    lemma_lines_without_break(t);
    let l = seq![t];
    assert(l.drop_last() =~= Seq::<Seq<char>>::empty());
    assert(l.last() == t);
    assert(line_span(l.drop_last()) is None);
    assert(strip_cr(t) == t);
    assert(line_span(l) == Some((0int, 0int, t.len() as int)));
    assert(line_span(text_lines(t)) == Some((0int, 0int, t.len() as int)));
    assert(h * 0 == 0 && h * (0 - 0) + h == h) by (nonlinear_arith);
}

/// The box `embedded_graphics` computes for `text` set in the event font, top-aligned at
/// `at` (`Text::with_baseline(.., Baseline::Top).bounding_box()`): the crate cuts the text
/// at each '\n' (`Text::lines`), drops a '\r' ending a line, measures each line with
/// `MonoTextStyle::measure_string` one line height (12 pixels) lower than the one before,
/// and joins the non-empty boxes with `Rectangle::with_corners`; `mono_text_box` states
/// that result.
#[verifier::external_body]
pub fn event_text_bounds(text: &str, at: Point) -> (r: Rect)
    requires
        text_box_fits(text@, at),
    ensures
        r == event_text_box(text@, at.x as int, at.y as int),
{
    let style = embedded_graphics::mono_font::MonoTextStyle::new(
        &profont::PROFONT_10_POINT,
        embedded_graphics::pixelcolor::BinaryColor::On,
    );
    let bb = embedded_graphics::text::Text::with_baseline(
        text,
        embedded_graphics::prelude::Point::new(at.x, at.y),
        style,
        embedded_graphics::text::Baseline::Top,
    ).bounding_box();
    Rect { top_left: Point { x: bb.top_left.x, y: bb.top_left.y }, width: bb.size.width, height: bb.size.height }
}

/// The box `embedded_graphics` computes for `text` set in the small font, top-aligned at
/// `at`, measured as for the event font with 5x10 glyphs and no spacing.
#[verifier::external_body]
pub fn mini_text_bounds(text: &str, at: Point) -> (r: Rect)
    requires
        text_box_fits(text@, at),
    ensures
        r == mini_text_box(text@, at.x as int, at.y as int),
{
    let style = embedded_graphics::mono_font::MonoTextStyle::new(
        &profont::PROFONT_7_POINT,
        embedded_graphics::pixelcolor::BinaryColor::On,
    );
    let bb = embedded_graphics::text::Text::with_baseline(
        text,
        embedded_graphics::prelude::Point::new(at.x, at.y),
        style,
        embedded_graphics::text::Baseline::Top,
    ).bounding_box();
    Rect { top_left: Point { x: bb.top_left.x, y: bb.top_left.y }, width: bb.size.width, height: bb.size.height }
}

/// The box of the time text "HH:MM-HH:MM" of an event whose texts start at `(x, y)`:
/// eleven glyphs of the small font.
pub open spec fn time_box_at(x: int, y: int) -> Rect {
    Rect { top_left: Point { x: x as i32, y: y as i32 }, width: 55, height: 10 }
}

/// The time text of an event is one line of eleven characters.
proof fn lemma_time_label_single_line(start: LocalTime, end: LocalTime)
    requires
        valid_time(start),
        valid_time(end),
    ensures
        (clock_text(start) + "-"@ + clock_text(end)).len() == 11,
        single_line(clock_text(start) + "-"@ + clock_text(end)),
{
    reveal_strlit("-");
    reveal_strlit(":");
    let s = clock_text(start) + "-"@ + clock_text(end);
    assert(s.len() == 11);
    assert forall|i: int| 0 <= i < s.len() implies (s[i] as u32) >= 45 by {
        assert(s[i] == s[i]);
    }
    if s.contains('\n') {
        let i = choose|i: int| 0 <= i < s.len() && s[i] == '\n';
        assert((s[i] as u32) >= 45);
    }
    assert((s.last() as u32) >= 45);
}

pub open spec fn max_of(a: int, b: int) -> int {
    if a >= b { a } else { b }
}

pub open spec fn min_of(a: int, b: int) -> int {
    if a <= b { a } else { b }
}

/// Right edge (exclusive) and bottom edge (exclusive) of a box, in plain integers.
pub open spec fn box_right(r: Rect) -> int {
    r.top_left.x + r.width
}

pub open spec fn box_bottom(r: Rect) -> int {
    r.top_left.y + r.height
}

/// The corners of the frame around an event's two texts: from the leftmost text column
/// on row `y` to the farthest text edge or the event's end row, whichever is lower.
pub open spec fn frame_corners(time_box: Rect, title_box: Rect, y: u32, end_y: u32) -> (Point, Point) {
    (
        Point { x: min_of(time_box.top_left.x as int, title_box.top_left.x as int) as i32, y: y as i32 },
        Point {
            x: max_of(box_right(time_box), box_right(title_box)) as i32,
            y: max_of(max_of(box_bottom(time_box), box_bottom(title_box)), end_y as int) as i32,
        },
    )
}

/// The frame drawn around an event: the box spanned by `frame_corners`, widened by
/// `extend_rectangle`.
pub open spec fn spec_event_frame(time_box: Rect, title_box: Rect, y: u32, end_y: u32) -> Rect {
    let c = frame_corners(time_box, title_box, y, end_y);
    let r = spec_with_corners(c.0, c.1);
    Rect { top_left: Point { x: (r.top_left.x - 2) as i32, y: r.top_left.y }, width: (r.width + 3) as u32, height: r.height }
}

/// Whether the frame arithmetic stays inside the integer types the drawing code uses.
pub open spec fn frame_fits(time_box: Rect, title_box: Rect, y: u32, end_y: u32) -> bool {
    &&& time_box.width <= i32::MAX && time_box.height <= i32::MAX
    &&& title_box.width <= i32::MAX && title_box.height <= i32::MAX
    &&& box_right(time_box) <= i32::MAX && box_right(title_box) <= i32::MAX
    &&& box_bottom(time_box) <= i32::MAX && box_bottom(title_box) <= i32::MAX
    &&& y <= i32::MAX && end_y <= i32::MAX
    &&& corners_fit(frame_corners(time_box, title_box, y, end_y).0, frame_corners(time_box, title_box, y, end_y).1)
    &&& spec_with_corners(frame_corners(time_box, title_box, y, end_y).0, frame_corners(time_box, title_box, y, end_y).1).width + 3 <= u32::MAX
    &&& spec_with_corners(frame_corners(time_box, title_box, y, end_y).0, frame_corners(time_box, title_box, y, end_y).1).top_left.x - 2 >= i32::MIN
    &&& has_bottom_right(spec_event_frame(time_box, title_box, y, end_y))
    &&& spec_bottom_right(spec_event_frame(time_box, title_box, y, end_y)).x + 2 <= i32::MAX
}

/// The frame around an event whose time text has box `time_box` and whose title has box
/// `title_box`, starting on row `y` and reaching at least row `end_y`.
pub fn event_frame(time_box: Rect, title_box: Rect, y: u32, end_y: u32) -> (r: Rect)
    requires
        frame_fits(time_box, title_box, y, end_y),
    ensures
        r == spec_event_frame(time_box, title_box, y, end_y),
{
    let min_x = if time_box.top_left.x <= title_box.top_left.x { time_box.top_left.x } else { title_box.top_left.x };
    let time_right = time_box.top_left.x + time_box.width as i32;
    let title_right = title_box.top_left.x + title_box.width as i32;
    let max_x = if time_right >= title_right { time_right } else { title_right };
    let time_bottom = time_box.top_left.y + time_box.height as i32;
    let title_bottom = title_box.top_left.y + title_box.height as i32;
    let mut max_y = if time_bottom >= title_bottom { time_bottom } else { title_bottom };
    if (end_y as i32) > max_y {
        max_y = end_y as i32;
    }
    let mut frame = with_corners(Point { x: min_x, y: y as i32 }, Point { x: max_x, y: max_y });
    extend_rectangle(&mut frame);
    frame
}

/// The rows and columns an event frame takes, as stored for later events: rows from the
/// frame's top to its bottom, columns measured from `START_POS` (clipped at zero on the
/// left) to two pixels past the frame, each stored as `u16` the way `as u16` does.
pub open spec fn frame_rows(frame: Rect) -> InclusiveRange {
    InclusiveRange { start: frame.top_left.y as u16, last: spec_bottom_right(frame).y as u16 }
}

pub open spec fn frame_columns(frame: Rect) -> InclusiveRange {
    InclusiveRange {
        start: max_of(frame.top_left.x - START_POS, 0) as u16,
        last: (spec_bottom_right(frame).x + 2 - START_POS) as u16,
    }
}

/// Rows and columns of an event frame as recorded among the occupied spaces.
pub fn frame_spans(frame: &Rect) -> (r: (InclusiveRange, InclusiveRange))
    requires
        has_bottom_right(*frame),
        spec_bottom_right(*frame).x + 2 <= i32::MAX,
    ensures
        r.0 == frame_rows(*frame),
        r.1 == frame_columns(*frame),
{
    let br = bottom_right(frame);
    let left = frame.top_left.x as i64 - START_POS as i64;
    let start_col: i64 = if left > 0 { left } else { 0 };
    let last_col: i64 = br.x as i64 + 2 - START_POS as i64;
    (
        InclusiveRange { start: #[verifier::truncate] (frame.top_left.y as u16), last: #[verifier::truncate] (br.y as u16) },
        InclusiveRange { start: #[verifier::truncate] (start_col as u16), last: #[verifier::truncate] (last_col as u16) },
    )
}

/// The longest line of a text in bytes, lines as `str::lines` cuts them: at each `'\n'`,
/// dropping a `'\r'` right before it.
pub open spec fn line_scan(s: Seq<char>) -> (int, int, bool)
    decreases s.len(),
{
    if s.len() == 0 {
        (0, 0, false)
    } else {
        let p = line_scan(s.drop_last());
        let c = s.last();
        if c == '\n' {
            (max_of(p.0, p.1 - if p.2 { 1int } else { 0 }), 0, false)
        } else {
            (p.0, p.1 + utf8_width(c), c == '\r')
        }
    }
}

pub open spec fn longest_line_bytes(s: Seq<char>) -> int {
    max_of(line_scan(s).0, line_scan(s).1)
}

proof fn lemma_line_scan_bounds(s: Seq<char>)
    ensures
        0 <= line_scan(s).0 <= utf8_size(s),
        0 <= line_scan(s).1 <= utf8_size(s),
        line_scan(s).2 ==> line_scan(s).1 >= 1,
    decreases s.len(),
{
    if s.len() > 0 {
        lemma_line_scan_bounds(s.drop_last());
    }
}

/// Length in bytes of the longest line of `chars`.
fn longest_line(chars: &Vec<char>) -> (n: usize)
    requires
        utf8_size(chars@) <= 64,
    ensures
        n == longest_line_bytes(chars@),
{
    let mut best: usize = 0;
    let mut cur: usize = 0;
    let mut cr = false;
    let mut i: usize = 0;
    while i < chars.len()
        invariant
            i <= chars.len(),
            utf8_size(chars@) <= 64,
            (best as int, cur as int, cr) == line_scan(chars@.take(i as int)),
        decreases chars.len() - i,
    {
        proof {
            assert(chars@.take(i as int + 1).drop_last() =~= chars@.take(i as int));
            lemma_line_scan_bounds(chars@.take(i as int + 1));
            lemma_line_scan_bounds(chars@.take(i as int));
            lemma_utf8_size_prefix(chars@, i as int + 1);
        }
        let c = chars[i];
        if c == '\n' {
            let line = if cr { cur - 1 } else { cur };
            if line > best {
                best = line;
            }
            cur = 0;
            cr = false;
        } else {
            cur = cur + crate::labels::char_utf8_width(c);
            cr = c == '\r';
        }
        i = i + 1;
    }
    proof {
        assert(chars@.take(i as int) =~= chars@);
    }
    if cur > best { cur } else { best }
}

/// Size in bytes of the UTF-8 encoding of `chars`.
fn byte_len(chars: &Vec<char>) -> (n: u128)
    ensures
        n == utf8_size(chars@),
{
    let mut n: u128 = 0;
    let mut i: usize = 0;
    while i < chars.len()
        invariant
            i <= chars.len(),
            n == utf8_size(chars@.take(i as int)),
            n <= 4 * i,
        decreases chars.len() - i,
    {
        proof {
            assert(chars@.take(i as int + 1).drop_last() =~= chars@.take(i as int));
        }
        n = n + crate::labels::char_utf8_width(chars[i]) as u128;
        i = i + 1;
    }
    proof {
        assert(chars@.take(i as int) =~= chars@);
    }
    n
}

/// Width of the time text "HH:MM-HH:MM" in the small font: eleven glyphs.
pub open spec fn time_text_width() -> int {
    text_width(11, 5, 0)
}

/// The width reserved for an event: on one line the time and the whole text side by side,
/// otherwise the wider of the time and the longest title line; plus five pixels.
pub open spec fn estimated_width(text_bytes: int, title: Seq<char>, oneline: bool) -> int {
    if oneline {
        time_text_width() + text_width((text_bytes as u16) as int, 6, 1) + 5
    } else {
        max_of(time_text_width(), text_width(longest_line_bytes(title), 6, 1)) + 5
    }
}

/// Where and how an event is drawn.
pub struct EventPlacement {
    /// Column of the event's texts.
    pub x: i32,
    /// Row where the event starts.
    pub y: u32,
    /// Row where the event's frame ends at least.
    pub end_y: u32,
    /// Whether the time and the title share one line.
    pub oneline: bool,
    /// The event's times, "HH:MM-HH:MM".
    pub time_label: String,
    /// The shortened title.
    pub title: String,
    pub time_at: Point,
    pub title_at: Point,
    /// The frame drawn (filled) behind the texts.
    pub frame: Rect,
}

pub open spec fn clamped_end(end_y_raw: u32, end_y_limit: u32) -> int {
    min_of(end_y_raw as int, end_y_limit as int)
}

pub open spec fn available_height(y: u32, end_y_raw: u32, end_y_limit: u32) -> int {
    max_of(clamped_end(end_y_raw, end_y_limit) - y, 0)
}

pub open spec fn is_oneline(y: u32, end_y_raw: u32, end_y_limit: u32) -> bool {
    available_height(y, end_y_raw, end_y_limit) < 22
}

pub open spec fn final_end(y: u32, end_y_raw: u32, end_y_limit: u32) -> int {
    if available_height(y, end_y_raw, end_y_limit) < 10 {
        y + 10
    } else {
        clamped_end(end_y_raw, end_y_limit)
    }
}

pub open spec fn event_rows(y: u32, end_y: int) -> InclusiveRange {
    InclusiveRange { start: y as u16, last: end_y as u16 }
}

pub open spec fn event_title(text: Seq<char>, y: u32, end_y_raw: u32, end_y_limit: u32) -> Seq<char> {
    wrapped_title(text, is_oneline(y, end_y_raw, end_y_limit), available_height(y, end_y_raw, end_y_limit))
}

pub open spec fn event_width(text: Seq<char>, y: u32, end_y_raw: u32, end_y_limit: u32) -> int {
    estimated_width(
        utf8_size(text),
        event_title(text, y, end_y_raw, end_y_limit),
        is_oneline(y, end_y_raw, end_y_limit),
    )
}

/// Whether the size arithmetic of an event stays inside the integer types the drawing
/// code uses (the text's size in bytes is kept as `u16`), including the measuring of
/// its two texts, which lie at most ten rows below `y`.
pub open spec fn event_fits(text: Seq<char>, y: u32, end_y_raw: u32, end_y_limit: u32) -> bool {
    &&& y + 410 <= i32::MAX
    &&& end_y_limit <= i32::MAX
    &&& (is_oneline(y, end_y_raw, end_y_limit) ==> text_width((utf8_size(text) as u16) as int, 6, 1)
        + time_text_width() + 5 <= u16::MAX)
}

/// The column of an event, given the boxes drawn earlier.
pub open spec fn event_x(spaces: Seq<crate::spaces::OccupiedSpace>, text: Seq<char>, y: u32, end_y_raw: u32, end_y_limit: u32) -> int {
    START_POS + free_slot(
        spaces,
        event_rows(y, final_end(y, end_y_raw, end_y_limit)),
        event_width(text, y, end_y_raw, end_y_limit),
    )
}

/// The parts of an event's layout that do not depend on other events.
struct EventMeasure {
    end_y: u32,
    available: u32,
    oneline: bool,
    title: String,
    width: u16,
}

fn measure_event(text: &str, y: u32, end_y_raw: u32, end_y_limit: u32) -> (m: EventMeasure)
    requires
        event_fits(text@, y, end_y_raw, end_y_limit),
    ensures
        m.end_y == final_end(y, end_y_raw, end_y_limit),
        m.available == available_height(y, end_y_raw, end_y_limit),
        m.oneline == is_oneline(y, end_y_raw, end_y_limit),
        m.title@ == event_title(text@, y, end_y_raw, end_y_limit),
        m.width == event_width(text@, y, end_y_raw, end_y_limit),
{
    let end_y_clamped = if end_y_raw <= end_y_limit { end_y_raw } else { end_y_limit };
    let available = if end_y_clamped >= y { end_y_clamped - y } else { 0 };
    let event_line = event_font().height;
    let time_line = mini_font().height;
    let oneline = available < event_line + time_line;
    let mut end_y = end_y_clamped;
    if available < time_line {
        end_y = y + time_line;
    }
    let title = wrap_title(text, oneline, available);
    let text_chars = chars_of(text);
    let text_bytes = byte_len(&text_chars);
    let time_width = calculate_text_width(11, mini_font());
    let width: u16 = if oneline {
        let tw = calculate_text_width(#[verifier::truncate] (text_bytes as u16), event_font());
        time_width + tw + 5
    } else {
        let title_chars = chars_of(title.as_str());
        proof {
            crate::labels::lemma_wrapped_title_fits(text@, oneline, available as int);
        }
        let longest = longest_line(&title_chars);
        proof {
            lemma_line_scan_bounds(title_chars@);
        }
        let tw = calculate_text_width(longest as u16, event_font());
        (if time_width >= tw { time_width } else { tw }) + 5
    };
    EventMeasure { end_y, available, oneline, title, width }
}

/// Where the title of an event whose texts start at `(x, y)` goes: right of the time
/// text (its 55 pixels and 3 more) when both share a line, otherwise below it.
pub open spec fn title_point(x: int, y: u32, oneline: bool) -> Point {
    if oneline {
        Point { x: (x + 58) as i32, y: y as i32 }
    } else {
        Point { x: x as i32, y: (y + 10) as i32 }
    }
}

/// The box of the title of an event placed at column `x`.
pub open spec fn title_box_of(x: int, text: Seq<char>, y: u32, end_y_raw: u32, end_y_limit: u32) -> Rect {
    let at = title_point(x, y, is_oneline(y, end_y_raw, end_y_limit));
    event_text_box(event_title(text, y, end_y_raw, end_y_limit), at.x as int, at.y as int)
}

/// Whether an event, placed beside the boxes `spaces`, can be laid out inside the
/// integer types the drawing code uses.
pub open spec fn placement_fits(
    spaces: Seq<crate::spaces::OccupiedSpace>,
    text: Seq<char>,
    y: u32,
    end_y_raw: u32,
    end_y_limit: u32,
) -> bool {
    let rows = event_rows(y, final_end(y, end_y_raw, end_y_limit));
    let x = event_x(spaces, text, y, end_y_raw, end_y_limit);
    &&& event_fits(text, y, end_y_raw, end_y_limit)
    &&& free_slot_fits(spaces, rows, event_width(text, y, end_y_raw, end_y_limit))
    &&& frame_fits(
        time_box_at(x, y as int),
        title_box_of(x, text, y, end_y_raw, end_y_limit),
        y,
        final_end(y, end_y_raw, end_y_limit) as u32,
    )
}

/// How an event titled `text`, from `start` to `end`, starting on row `y` and ending on
/// row `end_y_raw` (cut at `end_y_limit`), is laid out beside the boxes `spaces` drawn
/// before it.
pub open spec fn placed_as(
    p: EventPlacement,
    spaces: Seq<crate::spaces::OccupiedSpace>,
    text: Seq<char>,
    y: u32,
    end_y_raw: u32,
    end_y_limit: u32,
    start: LocalTime,
    end: LocalTime,
) -> bool {
    let x = event_x(spaces, text, y, end_y_raw, end_y_limit);
    let oneline = is_oneline(y, end_y_raw, end_y_limit);
    &&& p.x == x
    &&& p.y == y
    &&& p.end_y == final_end(y, end_y_raw, end_y_limit)
    &&& p.oneline == oneline
    &&& p.time_label@ == clock_text(start) + "-"@ + clock_text(end)
    &&& p.title@ == event_title(text, y, end_y_raw, end_y_limit)
    &&& p.time_at == (Point { x: x as i32, y: y as i32 })
    &&& p.title_at == title_point(x, y, oneline)
    &&& p.frame == spec_event_frame(
        time_box_at(x, y as int),
        title_box_of(x, text, y, end_y_raw, end_y_limit),
        y,
        p.end_y,
    )
}

/// Places an event that starts on row `y` and ends on row `end_y_raw` (cut at
/// `end_y_limit`, the end of the grid), titled `text`, from `start` to `end`: picks its
/// texts, a column beside the events drawn before on the same rows, its frame, and
/// records the frame among `spaces`.
pub fn place_event(
    spaces: &mut OccupiedSpaces,
    y: u32,
    end_y_raw: u32,
    end_y_limit: u32,
    text: &str,
    start: LocalTime,
    end: LocalTime,
) -> (p: EventPlacement)
    requires
        valid_time(start),
        valid_time(end),
        placement_fits(old(spaces)@, text@, y, end_y_raw, end_y_limit),
    ensures
        placed_as(p, old(spaces)@, text@, y, end_y_raw, end_y_limit, start, end),
        final(spaces)@ == old(spaces)@.push(crate::spaces::OccupiedSpace {
            y_range: frame_rows(p.frame),
            x_range: frame_columns(p.frame),
        }),
{
    let m = measure_event(text, y, end_y_raw, end_y_limit);
    let end_y = m.end_y;
    let oneline = m.oneline;
    let title = m.title;
    let estimated = m.width;
    let time_label = time_range_label(start, end);
    let rows = InclusiveRange { start: #[verifier::truncate] (y as u16), last: #[verifier::truncate] (end_y as u16) };
    let slot = spaces.get_next_free_slot(rows, estimated);
    let x: i32 = START_POS + slot as i32;
    let time_at = Point { x, y: y as i32 };
    proof {
        lemma_time_label_single_line(start, end);
        lemma_single_line_box(time_label@, x as int, y as int, 5, 0, 10);
    }
    let time_box = mini_text_bounds(time_label.as_str(), time_at);
    let title_at = if oneline {
        Point { x: x + time_box.width as i32 + 3, y: y as i32 }
    } else {
        Point { x, y: y as i32 + mini_font().height as i32 }
    };
    proof {
        crate::labels::lemma_wrapped_title_fits(text@, oneline, m.available as int);
        crate::labels::lemma_utf8_size_bounds(title@);
    }
    let title_box = event_text_bounds(title.as_str(), title_at);
    let frame = event_frame(time_box, title_box, y, end_y);
    let spans = frame_spans(&frame);
    spaces.add_space(spans.0, spans.1);
    EventPlacement { x, y, end_y, oneline, time_label, title, time_at, title_at, frame }
}

/// An event is placed clear of every box drawn before it on its rows: each such box
/// ends at or left of the event's first column, or starts right of the width reserved
/// for the event.
pub proof fn lemma_placed_event_is_clear(
    p: EventPlacement,
    spaces: Seq<crate::spaces::OccupiedSpace>,
    text: Seq<char>,
    y: u32,
    end_y_raw: u32,
    end_y_limit: u32,
    start: LocalTime,
    end: LocalTime,
)
    requires
        placed_as(p, spaces, text, y, end_y_raw, end_y_limit, start, end),
    ensures
        forall|i: int| 0 <= i < spaces.len() && overlaps_rows(spaces[i], event_rows(y, p.end_y as int)) ==>
            (#[trigger] spaces[i]).x_range.last <= p.x - START_POS
            || spaces[i].x_range.start > p.x - START_POS + event_width(text, y, end_y_raw, end_y_limit),
{
    let rows = event_rows(y, final_end(y, end_y_raw, end_y_limit));
    let width = event_width(text, y, end_y_raw, end_y_limit);
    lemma_line_scan_bounds(event_title(text, y, end_y_raw, end_y_limit));
    assert(width >= 0);
    lemma_free_slot_is_clear(spaces, rows, width);
}

/// The frame around an event covers both of its texts: it starts at least two pixels
/// left of each and reaches past the right edge of each.
pub proof fn lemma_frame_covers_texts(time_box: Rect, title_box: Rect, y: u32, end_y: u32)
    requires
        frame_fits(time_box, title_box, y, end_y),
    ensures
        ({
            let f = spec_event_frame(time_box, title_box, y, end_y);
            &&& f.top_left.x + 2 <= time_box.top_left.x
            &&& f.top_left.x + 2 <= title_box.top_left.x
            &&& box_right(f) >= box_right(time_box)
            &&& box_right(f) >= box_right(title_box)
            &&& f.top_left.y <= y
            &&& box_bottom(f) > end_y
        }),
{
}

/// Tests `frame_fits` at run time.
#[verifier::rlimit(60)]
fn frame_fits_check(time_box: Rect, title_box: Rect, y: u32, end_y: u32) -> (b: bool)
    ensures
        b == frame_fits(time_box, title_box, y, end_y),
{
    let max32: i64 = 0x7fff_ffff;
    if time_box.width as i64 > max32 || time_box.height as i64 > max32 || title_box.width as i64 > max32
        || title_box.height as i64 > max32 {
        return false;
    }
    let time_right = time_box.top_left.x as i64 + time_box.width as i64;
    let title_right = title_box.top_left.x as i64 + title_box.width as i64;
    let time_bottom = time_box.top_left.y as i64 + time_box.height as i64;
    let title_bottom = title_box.top_left.y as i64 + title_box.height as i64;
    if time_right > max32 || title_right > max32 || time_bottom > max32 || title_bottom > max32 {
        return false;
    }
    if y as i64 > max32 || end_y as i64 > max32 {
        return false;
    }
    let min_x: i64 = if time_box.top_left.x <= title_box.top_left.x { time_box.top_left.x as i64 } else { title_box.top_left.x as i64 };
    let max_x: i64 = if time_right >= title_right { time_right } else { title_right };
    let bottom: i64 = if time_bottom >= title_bottom { time_bottom } else { title_bottom };
    let max_y: i64 = if end_y as i64 > bottom { end_y as i64 } else { bottom };
    let dx = min_x - max_x;
    let dy = y as i64 - max_y;
    let min32: i64 = -0x8000_0000;
    if dx < min32 || dx > max32 || dy < min32 || dy > max32 {
        return false;
    }
    let adx: i64 = if dx >= 0 { dx } else { -dx };
    let ady: i64 = if dy >= 0 { dy } else { -dy };
    if adx + 1 > 0xffff_ffff || ady + 1 > 0xffff_ffff {
        return false;
    }
    let w = adx + 1;
    let h = ady + 1;
    let left: i64 = if min_x <= max_x { min_x } else { max_x };
    let top: i64 = if (y as i64) <= max_y { y as i64 } else { max_y };
    if w + 3 > 0xffff_ffff || left - 2 < min32 {
        return false;
    }
    let fw = w + 3;
    let fx = left - 2;
    if fw > max32 || h > max32 || fx + fw > max32 || top + h > max32 {
        return false;
    }
    if fx + fw - 1 + 2 > max32 {
        return false;
    }
    true
}

/// Places an event like `place_event` when its arithmetic stays inside the integer types
/// the drawing code uses; otherwise leaves `spaces` as it is and returns `None`.
pub fn try_place_event(
    spaces: &mut OccupiedSpaces,
    y: u32,
    end_y_raw: u32,
    end_y_limit: u32,
    text: &str,
    start: LocalTime,
    end: LocalTime,
) -> (r: Option<EventPlacement>)
    requires
        valid_time(start),
        valid_time(end),
    ensures
        r is Some <==> placement_fits(old(spaces)@, text@, y, end_y_raw, end_y_limit),
        r is None ==> final(spaces)@ == old(spaces)@,
        r matches Some(p) ==> {
            &&& placed_as(p, old(spaces)@, text@, y, end_y_raw, end_y_limit, start, end)
            &&& final(spaces)@ == old(spaces)@.push(crate::spaces::OccupiedSpace {
                y_range: frame_rows(p.frame),
                x_range: frame_columns(p.frame),
            })
        },
{
    if !(y as u64 + 410 <= 0x7fff_ffff && end_y_limit as u64 <= 0x7fff_ffff) {
        return None;
    }
    let end_y_clamped = if end_y_raw <= end_y_limit { end_y_raw } else { end_y_limit };
    let available = if end_y_clamped >= y { end_y_clamped - y } else { 0 };
    if available < 22 {
        let text_chars = chars_of(text);
        let text_bytes = byte_len(&text_chars);
        let n = #[verifier::truncate] (text_bytes as u16);
        let needed: u64 = if n == 0 { 0 } else { n as u64 * 6 + (n as u64 - 1) + 3 };
        if needed + text_width_u64(11, 5, 0) + 5 > 0xffff {
            return None;
        }
    }
    let m = measure_event(text, y, end_y_raw, end_y_limit);
    let rows = InclusiveRange { start: #[verifier::truncate] (y as u16), last: #[verifier::truncate] (m.end_y as u16) };
    let slot = match spaces.next_free_slot_checked(rows, m.width) {
        Some(s) => s,
        None => {
            return None;
        },
    };
    let x: i32 = START_POS + slot as i32;
    let title_at = if m.oneline {
        Point { x: x + 58, y: y as i32 }
    } else {
        Point { x, y: y as i32 + 10 }
    };
    proof {
        crate::labels::lemma_wrapped_title_fits(text@, m.oneline, m.available as int);
        crate::labels::lemma_utf8_size_bounds(m.title@);
    }
    let title_box = event_text_bounds(m.title.as_str(), title_at);
    let time_box = Rect { top_left: Point { x, y: y as i32 }, width: 55, height: 10 };
    if !frame_fits_check(time_box, title_box, y, m.end_y) {
        return None;
    }
    Some(place_event(spaces, y, end_y_raw, end_y_limit, text, start, end))
}

fn text_width_u64(count: u64, w: u64, s: u64) -> (r: u64)
    requires
        count <= 1000,
        w <= 1000,
        s <= 1000,
    ensures
        r == text_width(count as int, w as int, s as int),
{
    if count == 0 {
        0
    } else {
        proof {
            assert(count * w <= 1_000_000 && (count - 1) * s <= 1_000_000) by (nonlinear_arith)
                requires count <= 1000, w <= 1000, s <= 1000, count >= 1;
        }
        count * w + (count - 1) * s + w / 2
    }
}

/// The lines of a text against `line_scan`: every line but the last, without a final
/// '\r', is no longer (in characters) than the longest finished line counted in bytes;
/// the last line is no longer than the open line; and the open line ends with '\r'
/// when the scan says so.
proof fn lemma_lines_vs_scan(t: Seq<char>)
    ensures
        text_lines(t).len() >= 1,
        text_lines(t).len() <= t.len() + 1,
        forall|i: int| 0 <= i < text_lines(t).len() - 1 ==> strip_cr(#[trigger] text_lines(t)[i]).len() <= line_scan(t).0,
        text_lines(t).last().len() <= line_scan(t).1,
        line_scan(t).2 ==> text_lines(t).last().len() >= 1 && text_lines(t).last().last() == '\r',
        line_scan(t).0 >= 0,
    decreases t.len(),
{
    lemma_line_scan_bounds(t);
    if t.len() > 0 {
        let d = t.drop_last();
        lemma_lines_vs_scan(d);
        lemma_line_scan_bounds(d);
        let p = text_lines(d);
        let ls = text_lines(t);
        let c = t.last();
        if c == '\n' {
            assert(ls == p.push(Seq::<char>::empty()));
            assert forall|i: int| 0 <= i < ls.len() - 1 implies strip_cr(#[trigger] ls[i]).len() <= line_scan(t).0 by {
                assert(ls[i] == p[i]);
                if i == p.len() - 1 {
                    if line_scan(d).2 {
                        assert(strip_cr(p[i]).len() == p[i].len() - 1);
                    }
                }
            }
        } else {
            assert(ls == p.update(p.len() - 1, p.last().push(c)));
            assert forall|i: int| 0 <= i < ls.len() - 1 implies strip_cr(#[trigger] ls[i]).len() <= line_scan(t).0 by {
                assert(ls[i] == p[i]);
            }
            assert(ls.last() == p.last().push(c));
        }
    }
}

proof fn lemma_span_bound(ls: Seq<Seq<char>>, m: int)
    requires
        forall|i: int| 0 <= i < ls.len() ==> strip_cr(#[trigger] ls[i]).len() <= m,
    ensures
        line_span(ls) matches Some(q) ==> 0 <= q.0 <= q.1 < ls.len() && 1 <= q.2 <= m,
    decreases ls.len(),
{
    if ls.len() > 0 {
        let d = ls.drop_last();
        assert forall|i: int| 0 <= i < d.len() implies strip_cr(#[trigger] d[i]).len() <= m by {
            assert(d[i] == ls[i]);
        }
        lemma_span_bound(d, m);
        assert(ls.last() == ls[ls.len() - 1]);
    }
}

/// The widest drawn line of a text has at most as many characters as its longest line
/// has bytes, and the lines that take room lie among its lines.
proof fn lemma_text_box_lines(t: Seq<char>)
    ensures
        line_span(text_lines(t)) matches Some(q) ==> 0 <= q.0 <= q.1 < text_lines(t).len()
            && 1 <= q.2 <= longest_line_bytes(t),
        text_lines(t).len() <= t.len() + 1,
{
    lemma_lines_vs_scan(t);
    let ls = text_lines(t);
    let m = longest_line_bytes(t);
    assert forall|i: int| 0 <= i < ls.len() implies strip_cr(#[trigger] ls[i]).len() <= m by {
        if i == ls.len() - 1 {
            assert(ls[i] == ls.last());
        }
    }
    lemma_span_bound(ls, m);
}

/// Whether a drawn box keeps clear of a recorded box, whose columns count from
/// `START_POS`: the recorded box ends at or left of the drawn box's first column, or
/// starts right of its last one (an empty drawn box is clear of everything).
pub open spec fn clear_of(space: OccupiedSpace, b: Rect) -> bool {
    ||| b.width == 0
    ||| space.x_range.last <= b.top_left.x - START_POS
    ||| space.x_range.start > b.top_left.x + b.width - 1 - START_POS
}

/// What an event draws keeps clear of every box drawn before it on its rows: its time
/// text, and its title when the event has several lines or its text takes at most 29
/// bytes (then a one-line title is the whole text).
pub proof fn lemma_placed_texts_are_clear(
    p: EventPlacement,
    spaces: Seq<OccupiedSpace>,
    text: Seq<char>,
    y: u32,
    end_y_raw: u32,
    end_y_limit: u32,
    start: LocalTime,
    end: LocalTime,
)
    requires
        valid_time(start),
        valid_time(end),
        placed_as(p, spaces, text, y, end_y_raw, end_y_limit, start, end),
    ensures
        forall|i: int| 0 <= i < spaces.len() && overlaps_rows(spaces[i], event_rows(y, p.end_y as int)) ==>
            clear_of(#[trigger] spaces[i], mini_text_box(p.time_label@, p.time_at.x as int, p.time_at.y as int)),
        !p.oneline || utf8_size(text) + 3 <= TITLE_CAPACITY ==> forall|i: int| 0 <= i < spaces.len()
            && overlaps_rows(spaces[i], event_rows(y, p.end_y as int)) ==> clear_of(
            #[trigger] spaces[i],
            event_text_box(p.title@, p.title_at.x as int, p.title_at.y as int),
        ),
{
    let rows = event_rows(y, final_end(y, end_y_raw, end_y_limit));
    let width = event_width(text, y, end_y_raw, end_y_limit);
    let oneline = is_oneline(y, end_y_raw, end_y_limit);
    let avail = available_height(y, end_y_raw, end_y_limit);
    let title = event_title(text, y, end_y_raw, end_y_limit);
    let slot = free_slot(spaces, rows, width);
    let x = START_POS + slot;
    lemma_placed_event_is_clear(p, spaces, text, y, end_y_raw, end_y_limit, start, end);
    lemma_free_slot_bound(spaces, rows, width);
    lemma_free_slot_origin(spaces, rows, width);
    lemma_time_label_single_line(start, end);
    lemma_single_line_box(p.time_label@, p.time_at.x as int, p.time_at.y as int, 5, 0, 10);
    lemma_line_scan_bounds(title);
    lemma_wrapped_title_fits(text, oneline, avail);
    let tb = mini_text_box(p.time_label@, p.time_at.x as int, p.time_at.y as int);
    assert(tb.top_left.x == x && tb.width == 55);
    assert(width >= 60);
    let b = event_text_box(p.title@, p.title_at.x as int, p.title_at.y as int);
    lemma_text_box_lines(title);
    if !oneline || utf8_size(text) + 3 <= TITLE_CAPACITY {
        match line_span(text_lines(title)) {
            None => {
                assert(b.width == 0);
            },
            Some(q) => {
                assert(b.top_left.x == p.title_at.x);
                assert(b.width == q.2 * 7 - 1);
                if oneline {
                    lemma_short_oneline_title_is_text(text, avail);
                    assert(title == text);
                    lemma_utf8_size_bounds(text);
                    assert(p.title_at.x == x + 58);
                    assert(text_width((utf8_size(text) as u16) as int, 6, 1) == 7 * utf8_size(text) + 2);
                    assert(b.top_left.x + b.width - 1 - START_POS <= slot + width);
                } else {
                    assert(p.title_at.x == x);
                    assert(text_width(longest_line_bytes(title), 6, 1) == 7 * longest_line_bytes(title) + 2);
                    assert(b.top_left.x + b.width - 1 - START_POS <= slot + width);
                }
            },
        }
    }
}

/// The title of an event with several lines, whose text has no line break of its own,
/// ends at or above the lower of the event's end row and the grid's end.
pub proof fn lemma_title_stays_in_event(
    p: EventPlacement,
    spaces: Seq<OccupiedSpace>,
    text: Seq<char>,
    y: u32,
    end_y_raw: u32,
    end_y_limit: u32,
    start: LocalTime,
    end: LocalTime,
)
    requires
        placement_fits(spaces, text, y, end_y_raw, end_y_limit),
        placed_as(p, spaces, text, y, end_y_raw, end_y_limit, start, end),
        !text.contains('\n'),
        !p.oneline,
    ensures
        ({
            let b = event_text_box(p.title@, p.title_at.x as int, p.title_at.y as int);
            b.height == 0 || b.top_left.y + b.height <= min_of(end_y_raw as int, end_y_limit as int)
        }),
{
    let avail = available_height(y, end_y_raw, end_y_limit);
    let title = event_title(text, y, end_y_raw, end_y_limit);
    let m = title_line_budget(avail);
    assert(avail >= 22);
    assert(avail == min_of(end_y_raw as int, end_y_limit as int) - y);
    assert(m >= 1);
    assert(12 * m <= avail - 10);
    lemma_multiline_title_lines(text, avail);
    lemma_text_box_lines(title);
    lemma_wrapped_title_fits(text, false, avail);
    lemma_utf8_size_bounds(title);
    assert(p.title_at.y == y + 10);
    let b = event_text_box(p.title@, p.title_at.x as int, p.title_at.y as int);
    match line_span(text_lines(title)) {
        None => {},
        Some(q) => {
            assert(q.1 <= 32);
            assert(b.top_left.y == y + 10 + 12 * q.0);
            assert(b.height == 12 * (q.1 - q.0) + 12);
            assert(b.top_left.y + b.height <= y + 10 + 12 * text_lines(title).len());
        },
    }
}

/// In the title of an event with several lines, each space stands among the first five
/// characters of its line: a space after more than four characters of a line has become
/// a line break, or the title was cut there.
pub proof fn lemma_placed_title_breaks_at_spaces(
    p: EventPlacement,
    spaces: Seq<OccupiedSpace>,
    text: Seq<char>,
    y: u32,
    end_y_raw: u32,
    end_y_limit: u32,
    start: LocalTime,
    end: LocalTime,
)
    requires
        placed_as(p, spaces, text, y, end_y_raw, end_y_limit, start, end),
        !p.oneline,
    ensures
        spaces_near_breaks(p.title@),
{
    lemma_multiline_title_breaks_at_spaces(text, available_height(y, end_y_raw, end_y_limit));
}

/// The title an event shows is its text (one without line breaks of its own) whole, or
/// a beginning of it followed by "...", with line breaks only where the text has spaces.
pub proof fn lemma_placed_title_shows_text(
    p: EventPlacement,
    spaces: Seq<OccupiedSpace>,
    text: Seq<char>,
    y: u32,
    end_y_raw: u32,
    end_y_limit: u32,
    start: LocalTime,
    end: LocalTime,
)
    requires
        placed_as(p, spaces, text, y, end_y_raw, end_y_limit, start, end),
        !text.contains('\n'),
    ensures
        unbreak(p.title@) == text || exists|k: int| 0 <= k <= text.len() && unbreak(p.title@) == #[trigger] text.take(k) + "..."@,
{
    lemma_title_shows_text(text, is_oneline(y, end_y_raw, end_y_limit), available_height(y, end_y_raw, end_y_limit));
}

} // verus!
