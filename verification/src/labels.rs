//! The texts the display writes: times, the sync stamp, the build footer and event
//! titles shortened to fit their box.
use vstd::prelude::*;
use vstd::string::StrSliceExecFns;

use crate::dates::{valid_time, LocalTime};
use crate::events::text_lines;

verus! {

/// The characters of a string, in order.
pub fn chars_of(text: &str) -> (v: Vec<char>)
    ensures
        v@ == text@,
{
    let n = text.unicode_len();
    let mut v: Vec<char> = Vec::new();
    let mut i: usize = 0;
    while i < n
        invariant
            n == text@.len(),
            i <= n,
            v@ == text@.take(i as int),
        decreases n - i,
    {
        v.push(text.get_char(i));
        i = i + 1;
        proof {
            assert(v@ =~= text@.take(i as int));
        }
    }
    proof {
        assert(text@.take(i as int) =~= text@);
    }
    v
}

/// Builds a string from characters with `String::from_iter`.
#[verifier::external_body]
pub fn string_from_chars(chars: &Vec<char>) -> (s: String)
    ensures
        s@ == chars@,
{
    String::from_iter(chars.iter())
}

/// The ASCII digit for a value below ten.
pub open spec fn digit(d: int) -> char {
    (48 + d) as char
}

/// A number below one hundred written with two digits, zero first when needed.
pub open spec fn two_digits(v: int) -> Seq<char> {
    seq![digit(v / 10), digit(v % 10)]
}

fn push_two_digits(out: &mut Vec<char>, v: u8)
    requires
        v < 100,
    ensures
        final(out)@ == old(out)@ + two_digits(v as int),
{
    let tens = (v / 10) as u32 + 48;
    let ones = (v % 10) as u32 + 48;
    let a = char_from_ascii(tens);
    let b = char_from_ascii(ones);
    out.push(a);
    out.push(b);
    proof {
        assert(final(out)@ =~= old(out)@ + two_digits(v as int));
    }
}

fn char_from_ascii(v: u32) -> (c: char)
    requires
        48 <= v < 58,
    ensures
        c == v as char,
{
    let b = v as u8;
    b as char
}

fn push_literal(out: &mut Vec<char>, text: &str)
    ensures
        final(out)@ == old(out)@ + text@,
{
    let chars = chars_of(text);
    let mut i: usize = 0;
    while i < chars.len()
        invariant
            i <= chars.len(),
            chars@ == text@,
            out@ == old(out)@ + text@.take(i as int),
        decreases chars.len() - i,
    {
        out.push(chars[i]);
        i = i + 1;
        proof {
            assert(text@.take(i as int) =~= text@.take(i - 1) + seq![text@[i - 1]]);
        }
    }
    proof {
        assert(text@.take(i as int) =~= text@);
    }
}

/// The label of an hour row: the hour with two digits and ":00".
pub fn hour_label(hour: u8) -> (s: String)
    requires
        hour < 24,
    ensures
        s@ == two_digits(hour as int) + ":00"@,
{
    let mut out: Vec<char> = Vec::new();
    push_two_digits(&mut out, hour);
    push_literal(&mut out, ":00");
    string_from_chars(&out)
}

/// A wall-clock time as "HH:MM".
pub open spec fn clock_text(t: LocalTime) -> Seq<char> {
    two_digits(t.hour as int) + ":"@ + two_digits(t.minute as int)
}

/// The stamp of the last calendar sync, "Sync: HH:MM".
pub fn sync_label(time: LocalTime) -> (s: String)
    requires
        valid_time(time),
    ensures
        s@ == "Sync: "@ + clock_text(time),
{
    let mut out: Vec<char> = Vec::new();
    push_literal(&mut out, "Sync: ");
    push_two_digits(&mut out, time.hour);
    push_literal(&mut out, ":");
    push_two_digits(&mut out, time.minute);
    proof {
        assert(out@ =~= "Sync: "@ + clock_text(time));
    }
    string_from_chars(&out)
}

/// The time span of an event, "HH:MM-HH:MM".
pub fn time_range_label(start: LocalTime, end: LocalTime) -> (s: String)
    requires
        valid_time(start),
        valid_time(end),
    ensures
        s@ == clock_text(start) + "-"@ + clock_text(end),
{
    let mut out: Vec<char> = Vec::new();
    push_two_digits(&mut out, start.hour);
    push_literal(&mut out, ":");
    push_two_digits(&mut out, start.minute);
    push_literal(&mut out, "-");
    push_two_digits(&mut out, end.hour);
    push_literal(&mut out, ":");
    push_two_digits(&mut out, end.minute);
    proof {
        assert(out@ =~= clock_text(start) + "-"@ + clock_text(end));
    }
    string_from_chars(&out)
}

/// The build stamp in the corner: "commit: " and the short hash, with a star when the
/// build had uncommitted changes. The stamp has room for 17 bytes.
pub fn footer_label(commit: &str, dirty: bool) -> (s: String)
    requires
        commit.len() + 8 + (if dirty { 1int } else { 0 }) <= 17,
    ensures
        s@ == "commit: "@ + commit@ + (if dirty { "*"@ } else { Seq::<char>::empty() }),
{
    let mut out: Vec<char> = Vec::new();
    push_literal(&mut out, "commit: ");
    push_literal(&mut out, commit);
    if dirty {
        push_literal(&mut out, "*");
    }
    proof {
        assert(out@ =~= "commit: "@ + commit@ + (if dirty { "*"@ } else { Seq::<char>::empty() }));
    }
    string_from_chars(&out)
}

/// Number of bytes of the UTF-8 encoding of a character.
pub open spec fn utf8_width(c: char) -> int {
    if (c as u32) < 0x80 {
        1
    } else if (c as u32) < 0x800 {
        2
    } else if (c as u32) < 0x10000 {
        3
    } else {
        4
    }
}

/// Number of bytes of the UTF-8 encoding of a text.
pub open spec fn utf8_size(s: Seq<char>) -> int
    decreases s.len(),
{
    if s.len() == 0 {
        0
    } else {
        utf8_size(s.drop_last()) + utf8_width(s.last())
    }
}

pub(crate) fn char_utf8_width(c: char) -> (n: usize)
    ensures
        n == utf8_width(c),
{
    let v = c as u32;
    if v < 0x80 {
        1
    } else if v < 0x800 {
        2
    } else if v < 0x10000 {
        3
    } else {
        4
    }
}

/// Room of an event title in bytes.
pub const TITLE_CAPACITY: usize = 32;

/// What copying a title has produced so far: the text, its size in bytes, the line
/// breaks put in and the characters since the last break.
pub struct WrapState {
    pub out: Seq<char>,
    pub bytes: int,
    pub lines: int,
    pub counted: int,
}

/// Copies `text` from index `i` on: stops (reporting a cut) when a character and a
/// following "..." would not fit the 32 bytes; in a multi-line box, turns a space that
/// follows more than four characters of the current line into a line break, and stops
/// (reporting a cut) when that break would leave no line for it.
pub open spec fn wrap_from(
    text: Seq<char>,
    oneline: bool,
    max_lines: int,
    st: WrapState,
    i: int,
) -> (Seq<char>, bool)
    decreases text.len() - i,
{
    if i < 0 || i >= text.len() {
        (st.out, false)
    } else {
        let c = text[i];
        if st.bytes + utf8_width(c) + 3 > TITLE_CAPACITY {
            (st.out, true)
        } else if !oneline && st.counted > 4 && c == ' ' {
            if st.lines + 1 >= max_lines {
                (st.out, true)
            } else {
                wrap_from(
                    text,
                    oneline,
                    max_lines,
                    WrapState { out: st.out.push('\n'), bytes: st.bytes + 1, lines: st.lines + 1, counted: 0 },
                    i + 1,
                )
            }
        } else {
            wrap_from(
                text,
                oneline,
                max_lines,
                WrapState { out: st.out.push(c), bytes: st.bytes + utf8_width(c), lines: st.lines, counted: st.counted + 1 },
                i + 1,
            )
        }
    }
}

/// How many title lines fit below the time line of a box `available_height` pixels high.
pub open spec fn title_line_budget(available_height: int) -> int {
    (if available_height >= 10 { available_height - 10 } else { 0 }) / 12
}

/// The title shown for an event: the copy made by `wrap_from`, followed by "..." when
/// the copy was cut or the text has more than 29 characters.
pub open spec fn wrapped_title(text: Seq<char>, oneline: bool, available_height: int) -> Seq<char> {
    let r = wrap_from(
        text,
        oneline,
        title_line_budget(available_height),
        WrapState { out: Seq::empty(), bytes: 0, lines: 0, counted: 0 },
        0,
    );
    if r.1 || text.len() > TITLE_CAPACITY - 3 {
        r.0 + "..."@
    } else {
        r.0
    }
}

proof fn lemma_wrap_from_bytes(text: Seq<char>, oneline: bool, max_lines: int, st: WrapState, i: int)
    requires
        st.bytes == utf8_size(st.out),
        st.bytes + 3 <= TITLE_CAPACITY,
    ensures
        utf8_size(wrap_from(text, oneline, max_lines, st, i).0) + 3 <= TITLE_CAPACITY,
    decreases text.len() - i,
{
    if 0 <= i < text.len() {
        let c = text[i];
        if st.bytes + utf8_width(c) + 3 > TITLE_CAPACITY {
        } else if !oneline && st.counted > 4 && c == ' ' {
            if st.lines + 1 < max_lines {
                let o = st.out.push('\n');
                assert(o.drop_last() == st.out);
                lemma_wrap_from_bytes(
                    text,
                    oneline,
                    max_lines,
                    WrapState { out: o, bytes: st.bytes + 1, lines: st.lines + 1, counted: 0 },
                    i + 1,
                );
            }
        } else {
            let o = st.out.push(c);
            assert(o.drop_last() == st.out);
            lemma_wrap_from_bytes(
                text,
                oneline,
                max_lines,
                WrapState { out: o, bytes: st.bytes + utf8_width(c), lines: st.lines, counted: st.counted + 1 },
                i + 1,
            );
        }
    }
}

proof fn lemma_utf8_size_concat(a: Seq<char>, b: Seq<char>)
    ensures
        utf8_size(a + b) == utf8_size(a) + utf8_size(b),
    decreases b.len(),
{
    if b.len() == 0 {
        assert(a + b =~= a);
    } else {
        lemma_utf8_size_concat(a, b.drop_last());
        assert((a + b).drop_last() =~= a + b.drop_last());
    }
}

/// A text takes at least one and at most four bytes per character.
pub proof fn lemma_utf8_size_bounds(s: Seq<char>)
    ensures
        s.len() <= utf8_size(s) <= 4 * s.len(),
    decreases s.len(),
{
    if s.len() > 0 {
        lemma_utf8_size_bounds(s.drop_last());
    }
}

/// A shortened title always fits the 32 bytes of its box.
pub proof fn lemma_wrapped_title_fits(text: Seq<char>, oneline: bool, available_height: int)
    ensures
        utf8_size(wrapped_title(text, oneline, available_height)) <= TITLE_CAPACITY,
{
    let st = WrapState { out: Seq::empty(), bytes: 0, lines: 0, counted: 0 };
    lemma_wrap_from_bytes(text, oneline, title_line_budget(available_height), st, 0);
    let r = wrap_from(text, oneline, title_line_budget(available_height), st, 0);
    lemma_utf8_size_concat(r.0, "..."@);
    reveal_strlit("...");
    assert(utf8_size("..."@) == 3) by {
        let d = "..."@;
        assert(d =~= seq!['.', '.', '.']);
        assert(('.' as u32) < 0x80);
        reveal_with_fuel(utf8_size, 4);
        assert(d.drop_last() =~= seq!['.', '.']);
        assert(d.drop_last().drop_last() =~= seq!['.']);
        assert(d.drop_last().drop_last().drop_last() =~= Seq::<char>::empty());
    }
}

proof fn lemma_wrap_from_oneline_prefix(text: Seq<char>, max_lines: int, st: WrapState, i: int)
    requires
        0 <= i <= text.len(),
        st.out == text.take(i),
    ensures
        exists|k: int| i <= k <= text.len() && #[trigger] wrap_from(text, true, max_lines, st, i).0 == text.take(k),
    decreases text.len() - i,
{
    if i < text.len() {
        let c = text[i];
        if st.bytes + utf8_width(c) + 3 > TITLE_CAPACITY {
            assert(wrap_from(text, true, max_lines, st, i).0 == text.take(i));
        } else {
            let o = st.out.push(c);
            assert(o =~= text.take(i + 1));
            lemma_wrap_from_oneline_prefix(
                text,
                max_lines,
                WrapState { out: o, bytes: st.bytes + utf8_width(c), lines: st.lines, counted: st.counted + 1 },
                i + 1,
            );
        }
    } else {
        assert(wrap_from(text, true, max_lines, st, i).0 == text.take(i));
    }
}

/// On a one-line box the title is the text's beginning, unchanged, possibly followed by "...".
pub proof fn lemma_oneline_title_is_prefix(text: Seq<char>, available_height: int)
    ensures
        exists|k: int| 0 <= k <= text.len() && (#[trigger] wrapped_title(text, true, available_height)
            == text.take(k) || wrapped_title(text, true, available_height) == text.take(k) + "..."@),
{
    let st = WrapState { out: Seq::empty(), bytes: 0, lines: 0, counted: 0 };
    assert(st.out =~= text.take(0));
    lemma_wrap_from_oneline_prefix(text, title_line_budget(available_height), st, 0);
    let k = choose|k: int| 0 <= k <= text.len() && #[trigger] wrap_from(text, true, title_line_budget(available_height), st, 0).0 == text.take(k);
    assert(wrapped_title(text, true, available_height) == text.take(k) || wrapped_title(text, true, available_height) == text.take(k) + "..."@);
}

/// Shortens an event title to what its box of `available_height` pixels holds, with line
/// breaks when the box has room for several lines.
pub fn wrap_title(text: &str, oneline: bool, available_height: u32) -> (s: String)
    ensures
        s@ == wrapped_title(text@, oneline, available_height as int),
{
    let chars = chars_of(text);
    let max_lines: u32 = (if available_height >= 10 { available_height - 10 } else { 0 }) / 12;
    let mut out: Vec<char> = Vec::new();
    let mut bytes: usize = 0;
    let mut lines: u32 = 0;
    let mut counted: u32 = 0;
    let mut truncated = false;
    let mut i: usize = 0;
    let ghost init = WrapState { out: Seq::empty(), bytes: 0, lines: 0, counted: 0 };
    while i < chars.len()
        invariant_except_break
            wrap_from(text@, oneline, max_lines as int, init, 0) == wrap_from(
                text@,
                oneline,
                max_lines as int,
                WrapState { out: out@, bytes: bytes as int, lines: lines as int, counted: counted as int },
                i as int,
            ),
            !truncated,
        invariant
            i <= chars.len(),
            chars@ == text@,
            max_lines as int == title_line_budget(available_height as int),
            bytes + 3 <= TITLE_CAPACITY,
            lines <= bytes,
            counted <= bytes,
        ensures
            wrap_from(text@, oneline, max_lines as int, init, 0) == (out@, truncated),
        decreases chars.len() - i,
    {
        let c = chars[i];
        let width = char_utf8_width(c);
        if bytes + width + 3 > TITLE_CAPACITY {
            truncated = true;
            break;
        }
        if !oneline && counted > 4 && c == ' ' {
            if lines + 1 >= max_lines {
                truncated = true;
                break;
            }
            out.push('\n');
            bytes = bytes + 1;
            counted = 0;
            lines = lines + 1;
        } else {
            out.push(c);
            bytes = bytes + width;
            counted = counted + 1;
        }
        i = i + 1;
    }
    if truncated || chars.len() > TITLE_CAPACITY - 3 {
        push_literal(&mut out, "...");
    }
    string_from_chars(&out)
}

/// A prefix of a text takes no more bytes than the text.
pub(crate) proof fn lemma_utf8_size_prefix(s: Seq<char>, k: int)
    requires
        0 <= k <= s.len(),
    ensures
        utf8_size(s.take(k)) <= utf8_size(s),
    decreases s.len() - k,
{
    if k < s.len() {
        lemma_utf8_size_prefix(s, k + 1);
        assert(s.take(k + 1).drop_last() =~= s.take(k));
    } else {
        assert(s.take(k) =~= s);
    }
}

proof fn lemma_wrap_oneline_copy(text: Seq<char>, max_lines: int, st: WrapState, i: int)
    requires
        0 <= i <= text.len(),
        st.out == text.take(i),
        st.bytes == utf8_size(text.take(i)),
        utf8_size(text) + 3 <= TITLE_CAPACITY,
    ensures
        wrap_from(text, true, max_lines, st, i) == (text, false),
    decreases text.len() - i,
{
    if i < text.len() {
        let c = text[i];
        assert(text.take(i + 1).drop_last() =~= text.take(i));
        assert(text.take(i + 1).last() == c);
        lemma_utf8_size_prefix(text, i + 1);
        let o = st.out.push(c);
        assert(o =~= text.take(i + 1));
        lemma_wrap_oneline_copy(
            text,
            max_lines,
            WrapState { out: o, bytes: st.bytes + utf8_width(c), lines: st.lines, counted: st.counted + 1 },
            i + 1,
        );
    } else {
        assert(text.take(i) =~= text);
    }
}

/// On one line, a title of at most 29 bytes is shown whole and unchanged.
pub proof fn lemma_short_oneline_title_is_text(text: Seq<char>, available_height: int)
    requires
        utf8_size(text) + 3 <= TITLE_CAPACITY,
    ensures
        wrapped_title(text, true, available_height) == text,
{
    let st = WrapState { out: Seq::empty(), bytes: 0, lines: 0, counted: 0 };
    assert(st.out =~= text.take(0));
    assert(text.take(0) =~= Seq::<char>::empty());
    lemma_wrap_oneline_copy(text, title_line_budget(available_height), st, 0);
    lemma_utf8_size_bounds(text);
}

/// Appending a character other than a line break leaves the number of lines as it was;
/// a line break adds one.
pub proof fn lemma_push_lines(s: Seq<char>, c: char)
    ensures
        c != '\n' ==> text_lines(s.push(c)).len() == text_lines(s).len(),
        c == '\n' ==> text_lines(s.push(c)).len() == text_lines(s).len() + 1,
{
    lemma_text_lines_nonempty(s);
    assert(s.push(c).drop_last() =~= s);
    assert(s.push(c).last() == c);
}

proof fn lemma_text_lines_nonempty(s: Seq<char>)
    ensures
        text_lines(s).len() >= 1,
    decreases s.len(),
{
    if s.len() > 0 {
        lemma_text_lines_nonempty(s.drop_last());
    }
}

proof fn lemma_wrap_line_count(text: Seq<char>, max_lines: int, st: WrapState, i: int)
    requires
        !text.contains('\n'),
        text_lines(st.out).len() == st.lines + 1,
        0 <= st.lines <= max_lines - 1,
    ensures
        text_lines(wrap_from(text, false, max_lines, st, i).0).len() <= max_lines,
    decreases text.len() - i,
{
    if 0 <= i < text.len() {
        let c = text[i];
        if st.bytes + utf8_width(c) + 3 > TITLE_CAPACITY {
        } else if st.counted > 4 && c == ' ' {
            if st.lines + 1 < max_lines {
                lemma_push_lines(st.out, '\n');
                lemma_wrap_line_count(
                    text,
                    max_lines,
                    WrapState { out: st.out.push('\n'), bytes: st.bytes + 1, lines: st.lines + 1, counted: 0 },
                    i + 1,
                );
            }
        } else {
            assert(c != '\n');
            lemma_push_lines(st.out, c);
            lemma_wrap_line_count(
                text,
                max_lines,
                WrapState { out: st.out.push(c), bytes: st.bytes + utf8_width(c), lines: st.lines, counted: st.counted + 1 },
                i + 1,
            );
        }
    }
}

proof fn lemma_dots_keep(s: Seq<char>)
    ensures
        s + "..."@ == s.push('.').push('.').push('.'),
{
    reveal_strlit("...");
    assert(s + "..."@ =~= s.push('.').push('.').push('.'));
}

/// A multi-line title of a text without line breaks has no more lines than the box has
/// room for.
pub proof fn lemma_multiline_title_lines(text: Seq<char>, available_height: int)
    requires
        !text.contains('\n'),
        title_line_budget(available_height) >= 1,
    ensures
        text_lines(wrapped_title(text, false, available_height)).len() <= title_line_budget(available_height),
{
    let m = title_line_budget(available_height);
    let st = WrapState { out: Seq::empty(), bytes: 0, lines: 0, counted: 0 };
    assert(text_lines(st.out).len() == 1);
    lemma_wrap_line_count(text, m, st, 0);
    let r = wrap_from(text, false, m, st, 0);
    lemma_dots_keep(r.0);
    lemma_push_lines(r.0, '.');
    lemma_push_lines(r.0.push('.'), '.');
    lemma_push_lines(r.0.push('.').push('.'), '.');
}

/// Characters after the last line break of a text (all of them when it has none).
pub open spec fn since_break(s: Seq<char>) -> int
    decreases s.len(),
{
    if s.len() == 0 {
        0
    } else if s.last() == '\n' {
        0
    } else {
        since_break(s.drop_last()) + 1
    }
}

/// Every space of a text stands among the first five characters of its line.
pub open spec fn spaces_near_breaks(s: Seq<char>) -> bool {
    forall|i: int| 0 <= i < s.len() && #[trigger] s[i] == ' ' ==> i < 5 || exists|j: int|
        i - 5 <= j < i && #[trigger] s[j] == '\n'
}

proof fn lemma_since_break(s: Seq<char>)
    ensures
        0 <= since_break(s) <= s.len(),
        since_break(s) < s.len() ==> s[s.len() - 1 - since_break(s)] == '\n',
    decreases s.len(),
{
    if s.len() > 0 && s.last() != '\n' {
        lemma_since_break(s.drop_last());
    }
}

proof fn lemma_push_near_breaks(s: Seq<char>, c: char)
    requires
        spaces_near_breaks(s),
        c == ' ' ==> since_break(s) <= 4,
    ensures
        spaces_near_breaks(s.push(c)),
        since_break(s.push(c)) == if c == '\n' { 0 } else { since_break(s) + 1 },
{
    let t = s.push(c);
    assert(t.drop_last() =~= s);
    assert(t.last() == c);
    lemma_since_break(s);
    assert forall|i: int| 0 <= i < t.len() && #[trigger] t[i] == ' ' implies i < 5 || exists|j: int|
        i - 5 <= j < i && #[trigger] t[j] == '\n' by {
        if i < s.len() {
            assert(s[i] == ' ');
            if i >= 5 {
                let j = choose|j: int| i - 5 <= j < i && #[trigger] s[j] == '\n';
                assert(t[j] == '\n');
            }
        } else {
            let k = since_break(s);
            if k < s.len() {
                let j = s.len() - 1 - k;
                assert(t[j] == '\n');
            }
        }
    }
}

proof fn lemma_wrap_near_breaks(text: Seq<char>, max_lines: int, st: WrapState, i: int)
    requires
        spaces_near_breaks(st.out),
        since_break(st.out) <= st.counted,
    ensures
        spaces_near_breaks(wrap_from(text, false, max_lines, st, i).0),
    decreases text.len() - i,
{
    if 0 <= i < text.len() {
        let c = text[i];
        if st.bytes + utf8_width(c) + 3 > TITLE_CAPACITY {
        } else if st.counted > 4 && c == ' ' {
            if st.lines + 1 < max_lines {
                lemma_push_near_breaks(st.out, '\n');
                lemma_wrap_near_breaks(
                    text,
                    max_lines,
                    WrapState { out: st.out.push('\n'), bytes: st.bytes + 1, lines: st.lines + 1, counted: 0 },
                    i + 1,
                );
            }
        } else {
            lemma_push_near_breaks(st.out, c);
            lemma_since_break(st.out);
            assert(since_break(st.out.push(c)) <= st.counted + 1);
            lemma_wrap_near_breaks(
                text,
                max_lines,
                WrapState { out: st.out.push(c), bytes: st.bytes + utf8_width(c), lines: st.lines, counted: st.counted + 1 },
                i + 1,
            );
        }
    }
}

/// In a multi-line title every space that follows more than four characters of its line
/// has become a line break (or ended the title): spaces stand only among the first five
/// characters of a line.
pub proof fn lemma_multiline_title_breaks_at_spaces(text: Seq<char>, available_height: int)
    ensures
        spaces_near_breaks(wrapped_title(text, false, available_height)),
{
    let m = title_line_budget(available_height);
    let st = WrapState { out: Seq::empty(), bytes: 0, lines: 0, counted: 0 };
    lemma_wrap_near_breaks(text, m, st, 0);
    let r = wrap_from(text, false, m, st, 0);
    lemma_dots_keep(r.0);
    lemma_push_near_breaks(r.0, '.');
    lemma_push_near_breaks(r.0.push('.'), '.');
    lemma_push_near_breaks(r.0.push('.').push('.'), '.');
}

/// A text with its line breaks read as spaces.
pub open spec fn unbreak(s: Seq<char>) -> Seq<char> {
    Seq::new(s.len(), |i: int| if s[i] == '\n' { ' ' } else { s[i] })
}

proof fn lemma_unbreak_push(s: Seq<char>, c: char)
    ensures
        unbreak(s.push(c)) == unbreak(s).push(if c == '\n' { ' ' } else { c }),
{
    assert(unbreak(s.push(c)) =~= unbreak(s).push(if c == '\n' { ' ' } else { c }));
}

proof fn lemma_wrap_shows_text(text: Seq<char>, oneline: bool, max_lines: int, st: WrapState, i: int)
    requires
        0 <= i <= text.len(),
        !text.contains('\n'),
        unbreak(st.out) == text.take(i),
    ensures
        ({
            let r = wrap_from(text, oneline, max_lines, st, i);
            exists|k: int| i <= k <= text.len() && unbreak(r.0) == #[trigger] text.take(k) && (!r.1 ==> k == text.len())
        }),
    decreases text.len() - i,
{
    let r = wrap_from(text, oneline, max_lines, st, i);
    if i < text.len() {
        let c = text[i];
        assert(text.take(i + 1) =~= text.take(i).push(c));
        if st.bytes + utf8_width(c) + 3 > TITLE_CAPACITY {
            assert(unbreak(r.0) == text.take(i));
        } else if !oneline && st.counted > 4 && c == ' ' {
            if st.lines + 1 >= max_lines {
                assert(unbreak(r.0) == text.take(i));
            } else {
                lemma_unbreak_push(st.out, '\n');
                lemma_wrap_shows_text(
                    text,
                    oneline,
                    max_lines,
                    WrapState { out: st.out.push('\n'), bytes: st.bytes + 1, lines: st.lines + 1, counted: 0 },
                    i + 1,
                );
            }
        } else {
            assert(c != '\n');
            lemma_unbreak_push(st.out, c);
            lemma_wrap_shows_text(
                text,
                oneline,
                max_lines,
                WrapState { out: st.out.push(c), bytes: st.bytes + utf8_width(c), lines: st.lines, counted: st.counted + 1 },
                i + 1,
            );
        }
    } else {
        assert(text.take(i) =~= text);
        assert(unbreak(r.0) == text.take(i));
    }
}

/// A title shows its text (one without line breaks of its own) whole, or a beginning of
/// it followed by "..."; line breaks stand only where the text has spaces.
pub proof fn lemma_title_shows_text(text: Seq<char>, oneline: bool, available_height: int)
    requires
        !text.contains('\n'),
    ensures
        unbreak(wrapped_title(text, oneline, available_height)) == text || exists|k: int|
            0 <= k <= text.len() && unbreak(wrapped_title(text, oneline, available_height))
                == #[trigger] text.take(k) + "..."@,
{
    let m = title_line_budget(available_height);
    let st = WrapState { out: Seq::empty(), bytes: 0, lines: 0, counted: 0 };
    assert(unbreak(st.out) =~= text.take(0));
    lemma_wrap_shows_text(text, oneline, m, st, 0);
    let r = wrap_from(text, oneline, m, st, 0);
    let k = choose|k: int| 0 <= k <= text.len() && unbreak(r.0) == #[trigger] text.take(k) && (!r.1 ==> k == text.len());
    reveal_strlit("...");
    if r.1 || text.len() > TITLE_CAPACITY - 3 {
        assert(unbreak(r.0 + "..."@) =~= unbreak(r.0) + "..."@);
        assert(unbreak(wrapped_title(text, oneline, available_height)) == text.take(k) + "..."@);
    } else {
        assert(text.take(k) =~= text);
    }
}

} // verus!
