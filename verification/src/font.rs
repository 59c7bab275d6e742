//! Metrics of the monospace fonts the display uses.
use vstd::prelude::*;

verus! {

/// Width and height of one glyph cell and the spacing between glyphs, in pixels.
#[derive(Clone, Copy, Debug, PartialEq, Eq, Structural)]
pub struct FontMetrics {
    pub width: u32,
    pub height: u32,
    pub spacing: u32,
}

/// Reads the glyph metrics of `profont::PROFONT_10_POINT` (the event font).
/// The crate's source defines it with `character_size: Size::new(6, 12)` and
/// `character_spacing: 1`; the contract states those numbers.
#[verifier::external_body]
pub fn event_font() -> (f: FontMetrics)
    ensures
        f.width == 6,
        f.height == 12,
        f.spacing == 1,
{
    let font = profont::PROFONT_10_POINT;
    FontMetrics {
        width: font.character_size.width,
        height: font.character_size.height,
        spacing: font.character_spacing,
    }
}

/// Reads the glyph metrics of `profont::PROFONT_7_POINT` (the small font).
/// The crate's source defines it with `character_size: Size::new(5, 10)` and
/// `character_spacing: 0`; the contract states those numbers.
#[verifier::external_body]
pub fn mini_font() -> (f: FontMetrics)
    ensures
        f.width == 5,
        f.height == 10,
        f.spacing == 0,
{
    let font = profont::PROFONT_7_POINT;
    FontMetrics {
        width: font.character_size.width,
        height: font.character_size.height,
        spacing: font.character_spacing,
    }
}

/// Width in pixels of `count` glyphs set in a font of glyph width `w` and spacing `s`,
/// with half a glyph of slack at the end; zero glyphs take no room.
pub open spec fn text_width(count: int, w: int, s: int) -> int {
    if count == 0 {
        0
    } else {
        count * w + (count - 1) * s + w / 2
    }
}

/// Each further glyph widens a run by one glyph and one spacing.
pub proof fn lemma_text_width_step(count: int, w: int, s: int)
    requires
        count >= 1,
    ensures
        text_width(count + 1, w, s) == text_width(count, w, s) + w + s,
{
    assert((count + 1) * w == count * w + w) by (nonlinear_arith);
    assert(count * s == (count - 1) * s + s) by (nonlinear_arith);
}

/// Estimated width of a run of `char_count` glyphs of `font`; the glyph width and
/// spacing are read as `u16`, as the drawing code keeps them.
pub fn calculate_text_width(char_count: u16, font: FontMetrics) -> (r: u16)
    requires
        text_width(char_count as int, (font.width as u16) as int, (font.spacing as u16) as int)
            <= u16::MAX,
    ensures
        r == text_width(char_count as int, (font.width as u16) as int, (font.spacing as u16) as int),
{
    if char_count == 0 {
        return 0;
    }
    let w = font.width as u16;
    let s = font.spacing as u16;
    proof {
        let c = char_count as int;
        assert(0 <= c * w && 0 <= (c - 1) * s) by (nonlinear_arith)
            requires c >= 1, w >= 0, s >= 0;
    }
    let a: u16 = char_count * w;
    let b: u16 = (char_count - 1) * s;
    a + b + w / 2
}

} // verus!
