//! Points, rectangles and line segments in panel coordinates.
use vstd::prelude::*;

verus! {

/// A pixel position; `x` grows to the right and `y` downwards.
#[derive(Clone, Copy, Debug, PartialEq, Eq, Structural)]
pub struct Point {
    pub x: i32,
    pub y: i32,
}

/// An axis-aligned rectangle given by its top left corner and its size in pixels.
#[derive(Clone, Copy, Debug, PartialEq, Eq, Structural)]
pub struct Rect {
    pub top_left: Point,
    pub width: u32,
    pub height: u32,
}

/// A straight line between two points.
#[derive(Clone, Copy, Debug, PartialEq, Eq, Structural)]
pub struct Segment {
    pub from: Point,
    pub to: Point,
}

pub open spec fn min_int(a: int, b: int) -> int {
    if a <= b { a } else { b }
}

pub open spec fn max_int(a: int, b: int) -> int {
    if a >= b { a } else { b }
}

pub open spec fn abs_int(a: int) -> int {
    if a >= 0 { a } else { -a }
}

/// Whether both coordinates of a point lie in the range where the corner arithmetic
/// of a rectangle cannot leave `i32`.
pub open spec fn corners_fit(a: Point, b: Point) -> bool {
    &&& i32::MIN <= a.x - b.x <= i32::MAX
    &&& i32::MIN <= a.y - b.y <= i32::MAX
    &&& abs_int(a.x - b.x) + 1 <= u32::MAX
    &&& abs_int(a.y - b.y) + 1 <= u32::MAX
}

/// The smallest rectangle that holds both corners (both corners inclusive).
pub open spec fn spec_with_corners(a: Point, b: Point) -> Rect {
    Rect {
        top_left: Point { x: min_int(a.x as int, b.x as int) as i32, y: min_int(a.y as int, b.y as int) as i32 },
        width: (abs_int(a.x - b.x) + 1) as u32,
        height: (abs_int(a.y - b.y) + 1) as u32,
    }
}

/// The rectangle spanned by two corners, both included.
pub fn with_corners(a: Point, b: Point) -> (r: Rect)
    requires
        corners_fit(a, b),
    ensures
        r == spec_with_corners(a, b),
{
    let left = if a.x <= b.x { a.x } else { b.x };
    let top = if a.y <= b.y { a.y } else { b.y };
    let dx = a.x - b.x;
    let dy = a.y - b.y;
    let w: u32 = if dx >= 0 { dx as u32 } else { (-(dx as i64)) as u32 };
    let h: u32 = if dy >= 0 { dy as u32 } else { (-(dy as i64)) as u32 };
    Rect { top_left: Point { x: left, y: top }, width: w + 1, height: h + 1 }
}

/// Whether the bottom right corner of a non-empty rectangle stays inside `i32`.
pub open spec fn has_bottom_right(r: Rect) -> bool {
    &&& r.width > 0
    &&& r.height > 0
    &&& r.width <= i32::MAX
    &&& r.height <= i32::MAX
    &&& r.top_left.x + r.width <= i32::MAX
    &&& r.top_left.y + r.height <= i32::MAX
}

/// The last pixel inside a rectangle, at its bottom right.
pub open spec fn spec_bottom_right(r: Rect) -> Point {
    Point { x: (r.top_left.x + r.width - 1) as i32, y: (r.top_left.y + r.height - 1) as i32 }
}

/// The bottom right pixel of a non-empty rectangle.
pub fn bottom_right(r: &Rect) -> (p: Point)
    requires
        has_bottom_right(*r),
    ensures
        p == spec_bottom_right(*r),
{
    Point { x: r.top_left.x + r.width as i32 - 1, y: r.top_left.y + r.height as i32 - 1 }
}

/// Widens a rectangle by three pixels, two of them to the left, so that a frame drawn
/// around text does not touch its first glyph.
pub fn extend_rectangle(rec: &mut Rect)
    requires
        old(rec).width + 3 <= u32::MAX,
        old(rec).top_left.x - 2 >= i32::MIN,
    ensures
        final(rec).width == old(rec).width + 3,
        final(rec).top_left.x == old(rec).top_left.x - 2,
        final(rec).top_left.y == old(rec).top_left.y,
        final(rec).height == old(rec).height,
{
    rec.width = rec.width + 3;
    rec.top_left.x = rec.top_left.x - 2;
}

/// The box cleared behind the build stamp: the text's box grown by two pixels in width
/// (one of them to the left) and one pixel in height.
pub fn footer_frame(text_box: Rect) -> (r: Rect)
    requires
        text_box.width + 2 <= u32::MAX,
        text_box.height + 1 <= u32::MAX,
        text_box.top_left.x - 1 >= i32::MIN,
    ensures
        r == (Rect {
            top_left: Point { x: (text_box.top_left.x - 1) as i32, y: text_box.top_left.y },
            width: (text_box.width + 2) as u32,
            height: (text_box.height + 1) as u32,
        }),
{
    let mut r = text_box;
    r.width = r.width + 2;
    r.height = r.height + 1;
    r.top_left.x = r.top_left.x - 1;
    r
}

/// Where a one-line text of `char_count` glyphs `glyph_width` wide and `glyph_height`
/// high starts so that it ends at the pixel `bottom_right`.
pub fn corner_text_origin(bottom_right: Point, char_count: i32, glyph_width: i32, glyph_height: i32) -> (p: Point)
    requires
        i32::MIN <= char_count * glyph_width <= i32::MAX,
        i32::MIN <= bottom_right.x - char_count * glyph_width <= i32::MAX,
        i32::MIN <= bottom_right.y - glyph_height <= i32::MAX,
    ensures
        p == (Point {
            x: (bottom_right.x - char_count * glyph_width) as i32,
            y: (bottom_right.y - glyph_height) as i32,
        }),
{
    let text_width = char_count * glyph_width;
    Point { x: bottom_right.x - text_width, y: bottom_right.y - glyph_height }
}

/// Horizontal distance between two hatch lines.
pub const HATCH_STEP: i32 = 20;

/// The x coordinate where the first hatch line of a rectangle meets its top edge.
pub open spec fn hatch_top_start(r: Rect) -> int {
    r.top_left.x + (r.height as i32) / 2
}

/// How many hatch lines a rectangle gets: lines are added every 20 pixels until one
/// reaches the right edge at the top, and there is always at least one.
pub open spec fn hatch_count(start: int, right: int) -> int {
    if start >= right {
        1
    } else {
        (right - start + 19) / 20 + 1
    }
}

/// The `k`-th hatch line: from the bottom edge up and to the right.
pub open spec fn hatch_line(r: Rect, k: int) -> Segment {
    Segment {
        from: Point { x: (r.top_left.x + HATCH_STEP * k) as i32, y: spec_bottom_right(r).y },
        to: Point { x: (hatch_top_start(r) + HATCH_STEP * k) as i32, y: r.top_left.y },
    }
}

proof fn lemma_hatch_count(start: int, right: int, k: int)
    requires
        k >= 0,
        k == 0 || start + 20 * (k - 1) < right,
    ensures
        k < hatch_count(start, right) || (k == 0 && start >= right),
        start + 20 * k >= right ==> hatch_count(start, right) == k + 1,
{
    if start < right {
        let d = right - start;
        assert(k == 0 || 20 * (k - 1) < d);
        assert(k <= (d + 19) / 20) by (nonlinear_arith)
            requires k >= 0, d > 0, k == 0 || 20 * (k - 1) < d;
        assert(20 * k >= d ==> k == (d + 19) / 20) by (nonlinear_arith)
            requires k >= 0, d > 0, k == 0 || 20 * (k - 1) < d;
    }
}

/// The diagonal hatch lines that mark a rectangle as belonging to the next day.
pub fn diagonal_lines(rect: &Rect) -> (lines: Vec<Segment>)
    requires
        has_bottom_right(*rect),
        rect.top_left.x + (rect.height as i32) / 2 <= i32::MAX,
        rect.top_left.x + rect.width + HATCH_STEP <= i32::MAX,
    ensures
        lines.len() == hatch_count(hatch_top_start(*rect), spec_bottom_right(*rect).x as int),
        forall|k: int| 0 <= k < lines.len() ==> #[trigger] lines@[k] == hatch_line(*rect, k),
{
    let right = bottom_right(rect).x;
    let mut bottom_left = Point { x: rect.top_left.x, y: bottom_right(rect).y };
    let mut top_point = rect.top_left;
    top_point.x = top_point.x + rect.height as i32 / 2;
    let ghost start = hatch_top_start(*rect);
    let ghost total = hatch_count(start, right as int);
    let mut lines: Vec<Segment> = Vec::new();
    let mut k: usize = 0;
    loop
        invariant_except_break
            lines.len() == k,
            k == 0 || start + HATCH_STEP * (k - 1) < right,
            forall|j: int| 0 <= j < k ==> #[trigger] lines@[j] == hatch_line(*rect, j),
        invariant
            has_bottom_right(*rect),
            rect.top_left.x + rect.width + HATCH_STEP <= i32::MAX,
            right == spec_bottom_right(*rect).x,
            start == hatch_top_start(*rect),
            total == hatch_count(start, right as int),
            k < total,
            bottom_left == hatch_line(*rect, k as int).from,
            top_point == hatch_line(*rect, k as int).to,
            top_point.x == start + HATCH_STEP * k,
            bottom_left.x == rect.top_left.x + HATCH_STEP * k,
        ensures
            lines.len() == total,
            forall|j: int| 0 <= j < total ==> #[trigger] lines@[j] == hatch_line(*rect, j),
        decreases total - k,
    {
        proof {
            lemma_hatch_count(start, right as int, k as int);
        }
        lines.push(Segment { from: bottom_left, to: top_point });
        if top_point.x >= right {
            break;
        }
        bottom_left.x = bottom_left.x + HATCH_STEP;
        top_point.x = top_point.x + HATCH_STEP;
        k = k + 1;
        proof {
            lemma_hatch_count(start, right as int, k as int);
        }
    }
    lines
}

} // verus!
