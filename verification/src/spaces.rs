//! Bookkeeping of the screen areas already taken by drawn events, and the search for
//! a free horizontal slot for the next one.
use vstd::prelude::*;

verus! {

/// A closed interval of pixel coordinates, `start` and `last` both included.
#[derive(Clone, Copy, Debug, PartialEq, Eq, Structural)]
pub struct InclusiveRange {
    pub start: u16,
    pub last: u16,
}

/// One drawn event box: the rows and the columns it covers.
#[derive(Clone, Copy, Debug, PartialEq, Eq, Structural)]
pub struct OccupiedSpace {
    pub y_range: InclusiveRange,
    pub x_range: InclusiveRange,
}

/// The event boxes drawn so far, in drawing order.
pub struct OccupiedSpaces {
    spaces: Vec<OccupiedSpace>,
}

impl View for OccupiedSpaces {
    type V = Seq<OccupiedSpace>;

    closed spec fn view(&self) -> Seq<OccupiedSpace> {
        self.spaces@
    }
}

/// Whether a box shares rows with a new event; boxes that only touch at an edge row do not.
pub open spec fn overlaps_rows(space: OccupiedSpace, rows: InclusiveRange) -> bool {
    space.y_range.start < rows.last && space.y_range.last > rows.start
}

/// The column ranges of the boxes that share rows with `rows`, in drawing order.
pub open spec fn overlapping_columns(s: Seq<OccupiedSpace>, rows: InclusiveRange) -> Seq<InclusiveRange>
    decreases s.len(),
{
    if s.len() == 0 {
        Seq::empty()
    } else {
        let rest = overlapping_columns(s.drop_last(), rows);
        if overlaps_rows(s.last(), rows) {
            rest.push(s.last().x_range)
        } else {
            rest
        }
    }
}

/// Inserts `x` after every range that starts no later than it.
pub open spec fn insert_by_start(s: Seq<InclusiveRange>, x: InclusiveRange) -> Seq<InclusiveRange>
    decreases s.len(),
{
    if s.len() == 0 {
        seq![x]
    } else if s.last().start <= x.start {
        s.push(x)
    } else {
        insert_by_start(s.drop_last(), x).push(s.last())
    }
}

/// The ranges ordered by their start, ranges with equal starts kept in their given
/// order (a stable sort).
pub open spec fn sort_by_start(s: Seq<InclusiveRange>) -> Seq<InclusiveRange>
    decreases s.len(),
{
    if s.len() == 0 {
        Seq::empty()
    } else {
        insert_by_start(sort_by_start(s.drop_last()), s.last())
    }
}

pub open spec fn sorted_by_start(s: Seq<InclusiveRange>) -> bool {
    forall|i: int, j: int| 0 <= i <= j < s.len() ==> s[i].start <= s[j].start
}

/// Walks the ranges left to right from column `cur`: stops at the first range that
/// leaves a gap wider than `width` before it, and otherwise moves past it.
pub open spec fn scan_slot(s: Seq<InclusiveRange>, width: int, cur: int) -> int
    decreases s.len(),
{
    if s.len() == 0 {
        cur
    } else if s[0].start > cur + width {
        cur
    } else {
        scan_slot(s.drop_first(), width, if cur >= s[0].last { cur } else { s[0].last as int })
    }
}

/// Whether the walk of `scan_slot` keeps `cur + width` inside `u16` at every range it
/// looks at.
pub open spec fn scan_fits(s: Seq<InclusiveRange>, width: int, cur: int) -> bool
    decreases s.len(),
{
    if s.len() == 0 {
        true
    } else {
        &&& cur + width <= u16::MAX
        &&& (s[0].start > cur + width || scan_fits(
            s.drop_first(),
            width,
            if cur >= s[0].last { cur } else { s[0].last as int },
        ))
    }
}

/// The leftmost column offset where an event covering `rows` and `width` columns wide
/// is placed, given the boxes `s` drawn before it.
pub open spec fn free_slot(s: Seq<OccupiedSpace>, rows: InclusiveRange, width: int) -> int {
    scan_slot(sort_by_start(overlapping_columns(s, rows)), width, 0)
}

/// Whether searching a slot for `rows` and `width` stays inside `u16` arithmetic.
pub open spec fn free_slot_fits(s: Seq<OccupiedSpace>, rows: InclusiveRange, width: int) -> bool {
    scan_fits(sort_by_start(overlapping_columns(s, rows)), width, 0)
}

proof fn lemma_insert_by_start_at(s: Seq<InclusiveRange>, x: InclusiveRange, i: int)
    requires
        0 <= i <= s.len(),
        i == 0 || s[i - 1].start <= x.start,
        forall|j: int| i <= j < s.len() ==> s[j].start > x.start,
    ensures
        insert_by_start(s, x) == s.insert(i, x),
    decreases s.len(),
{
    if s.len() == 0 {
        assert(s.insert(i, x) =~= seq![x]);
    } else if s.last().start <= x.start {
        assert(i == s.len());
        assert(s.insert(i, x) =~= s.push(x));
    } else {
        lemma_insert_by_start_at(s.drop_last(), x, i);
        assert(s.drop_last().insert(i, x).push(s.last()) =~= s.insert(i, x));
    }
}

proof fn lemma_insert_by_start_props(s: Seq<InclusiveRange>, x: InclusiveRange)
    requires
        sorted_by_start(s),
    ensures
        sorted_by_start(insert_by_start(s, x)),
        insert_by_start(s, x).len() == s.len() + 1,
        insert_by_start(s, x).contains(x),
        forall|e: InclusiveRange| s.contains(e) ==> #[trigger] insert_by_start(s, x).contains(e),
    decreases s.len(),
{
    let r = insert_by_start(s, x);
    if s.len() == 0 {
        assert(r[0] == x);
    } else if s.last().start <= x.start {
        assert(r[r.len() - 1] == x);
        assert forall|e: InclusiveRange| s.contains(e) implies #[trigger] r.contains(e) by {
            let k = choose|k: int| 0 <= k < s.len() && s[k] == e;
            assert(r[k] == e);
        }
    } else {
        let d = s.drop_last();
        assert(sorted_by_start(d));
        lemma_insert_by_start_props(d, x);
        let rd = insert_by_start(d, x);
        assert(r == rd.push(s.last()));
        // every element of `rd` is in `d` or is `x`, and all of them start no later than
        // the last element of `s`
        assert forall|k: int| 0 <= k < rd.len() implies rd[k].start <= s.last().start by {
            lemma_insert_by_start_members(d, x, rd[k]);
            if rd[k] != x {
                let m = choose|m: int| 0 <= m < d.len() && d[m] == rd[k];
                assert(s[m] == d[m]);
            }
        }
        let kx = choose|k: int| 0 <= k < rd.len() && rd[k] == x;
        assert(r[kx] == x);
        assert forall|e: InclusiveRange| s.contains(e) implies #[trigger] r.contains(e) by {
            let k = choose|k: int| 0 <= k < s.len() && s[k] == e;
            if k == s.len() - 1 {
                assert(r[r.len() - 1] == e);
            } else {
                assert(d[k] == e);
                assert(d.contains(e));
                assert(rd.contains(e));
                let m = choose|m: int| 0 <= m < rd.len() && rd[m] == e;
                assert(r[m] == e);
            }
        }
    }
}

proof fn lemma_insert_by_start_members(s: Seq<InclusiveRange>, x: InclusiveRange, e: InclusiveRange)
    ensures
        insert_by_start(s, x).contains(e) ==> e == x || s.contains(e),
    decreases s.len(),
{
    let r = insert_by_start(s, x);
    if s.len() == 0 {
    } else if s.last().start <= x.start {
        if r.contains(e) && e != x {
            let k = choose|k: int| 0 <= k < r.len() && r[k] == e;
            assert(s[k] == e);
        }
    } else {
        let d = s.drop_last();
        lemma_insert_by_start_members(d, x, e);
        if r.contains(e) && e != x {
            let k = choose|k: int| 0 <= k < r.len() && r[k] == e;
            if k == r.len() - 1 {
                assert(s[s.len() - 1] == e);
            } else {
                let rd = insert_by_start(d, x);
                assert(rd[k] == e);
                assert(rd.contains(e));
                let m = choose|m: int| 0 <= m < d.len() && d[m] == e;
                assert(s[m] == e);
            }
        }
    }
}

proof fn lemma_sort_by_start_props(s: Seq<InclusiveRange>)
    ensures
        sorted_by_start(sort_by_start(s)),
        sort_by_start(s).len() == s.len(),
        forall|e: InclusiveRange| s.contains(e) ==> #[trigger] sort_by_start(s).contains(e),
    decreases s.len(),
{
    if s.len() > 0 {
        let d = s.drop_last();
        lemma_sort_by_start_props(d);
        lemma_insert_by_start_props(sort_by_start(d), s.last());
        assert forall|e: InclusiveRange| s.contains(e) implies #[trigger] sort_by_start(s).contains(e) by {
            let k = choose|k: int| 0 <= k < s.len() && s[k] == e;
            if k < s.len() - 1 {
                assert(d[k] == e);
                assert(d.contains(e));
            }
        }
    }
}

proof fn lemma_overlapping_columns_members(s: Seq<OccupiedSpace>, rows: InclusiveRange)
    ensures
        forall|i: int| 0 <= i < s.len() && overlaps_rows(s[i], rows)
            ==> #[trigger] overlapping_columns(s, rows).contains(s[i].x_range),
    decreases s.len(),
{
    if s.len() > 0 {
        let d = s.drop_last();
        lemma_overlapping_columns_members(d, rows);
        let r = overlapping_columns(s, rows);
        assert forall|i: int| 0 <= i < s.len() && overlaps_rows(s[i], rows)
            implies #[trigger] r.contains(s[i].x_range) by {
            if i == s.len() - 1 {
                assert(r[r.len() - 1] == s[i].x_range);
            } else {
                assert(d[i] == s[i]);
                let rd = overlapping_columns(d, rows);
                assert(rd.contains(d[i].x_range));
                let m = choose|m: int| 0 <= m < rd.len() && rd[m] == d[i].x_range;
                assert(r[m] == rd[m]);
            }
        }
    }
}

proof fn lemma_scan_slot_clear(s: Seq<InclusiveRange>, width: int, cur: int)
    requires
        sorted_by_start(s),
        width >= 0,
    ensures
        scan_slot(s, width, cur) >= cur,
        forall|k: int| 0 <= k < s.len() ==> #[trigger] s[k].last <= scan_slot(s, width, cur)
            || s[k].start > scan_slot(s, width, cur) + width,
    decreases s.len(),
{
    if s.len() > 0 && s[0].start <= cur + width {
        let next = if cur >= s[0].last { cur } else { s[0].last as int };
        let t = s.drop_first();
        assert(sorted_by_start(t));
        lemma_scan_slot_clear(t, width, next);
        assert forall|k: int| 0 <= k < s.len() implies #[trigger] s[k].last <= scan_slot(s, width, cur)
            || s[k].start > scan_slot(s, width, cur) + width by {
            if k > 0 {
                assert(s[k] == t[k - 1]);
            }
        }
    }
}

impl OccupiedSpaces {
    /// No box is taken yet.
    pub fn new() -> (r: Self)
        ensures
            r@ == Seq::<OccupiedSpace>::empty(),
    {
        OccupiedSpaces { spaces: Vec::new() }
    }

    /// Records a drawn box.
    pub fn add_space(&mut self, y_range: InclusiveRange, x_range: InclusiveRange)
        ensures
            final(self)@ == old(self)@.push(OccupiedSpace { y_range, x_range }),
    {
        self.spaces.push(OccupiedSpace { y_range, x_range });
    }

    /// The column ranges of the recorded boxes that share rows with `rows`, ordered by
    /// their first column (stable).
    fn sorted_overlapping_columns(&self, rows: InclusiveRange) -> (r: Vec<InclusiveRange>)
        ensures
            r@ == sort_by_start(overlapping_columns(self@, rows)),
    {
        let mut picked: Vec<InclusiveRange> = Vec::new();
        let mut i: usize = 0;
        while i < self.spaces.len()
            invariant
                i <= self.spaces.len(),
                picked@ == overlapping_columns(self.spaces@.take(i as int), rows),
            decreases self.spaces.len() - i,
        {
            let space = self.spaces[i];
            proof {
                assert(self.spaces@.take(i as int + 1).drop_last() =~= self.spaces@.take(i as int));
            }
            if space.y_range.start < rows.last && space.y_range.last > rows.start {
                picked.push(space.x_range);
            }
            i = i + 1;
        }
        proof {
            assert(self.spaces@.take(i as int) =~= self.spaces@);
        }
        let mut sorted: Vec<InclusiveRange> = Vec::new();
        let mut j: usize = 0;
        while j < picked.len()
            invariant
                j <= picked.len(),
                sorted@ == sort_by_start(picked@.take(j as int)),
            decreases picked.len() - j,
        {
            let x = picked[j];
            proof {
                assert(picked@.take(j as int + 1).drop_last() =~= picked@.take(j as int));
                lemma_sort_by_start_props(picked@.take(j as int));
            }
            let mut pos: usize = sorted.len();
            while pos > 0 && sorted[pos - 1].start > x.start
                invariant
                    pos <= sorted.len(),
                    forall|m: int| pos <= m < sorted.len() ==> sorted@[m].start > x.start,
                decreases pos,
            {
                pos = pos - 1;
            }
            proof {
                lemma_insert_by_start_at(sorted@, x, pos as int);
            }
            sorted.insert(pos, x);
            j = j + 1;
        }
        proof {
            assert(picked@.take(j as int) =~= picked@);
        }
        sorted
    }

    /// Like `get_next_free_slot`, but returns `None` where the search would leave `u16`
    /// arithmetic.
    pub fn next_free_slot_checked(&self, new_event_range: InclusiveRange, width: u16) -> (r: Option<u16>)
        ensures
            r is Some <==> free_slot_fits(self@, new_event_range, width as int),
            r matches Some(x) ==> x == free_slot(self@, new_event_range, width as int),
    {
        let overlapping = self.sorted_overlapping_columns(new_event_range);
        let ghost all = overlapping@;
        let mut current_x: u16 = 0;
        let mut i: usize = 0;
        proof {
            assert(all.skip(0) =~= all);
        }
        while i < overlapping.len()
            invariant
                i <= overlapping.len(),
                all == overlapping@,
                all == sort_by_start(overlapping_columns(self@, new_event_range)),
                scan_slot(all, width as int, 0) == scan_slot(all.skip(i as int), width as int, current_x as int),
                scan_fits(all, width as int, 0) == scan_fits(all.skip(i as int), width as int, current_x as int),
            decreases overlapping.len() - i,
        {
            let space = overlapping[i];
            proof {
                assert(all.skip(i as int)[0] == space);
                assert(all.skip(i as int).drop_first() =~= all.skip(i as int + 1));
            }
            if current_x as u32 + width as u32 > u16::MAX as u32 {
                return None;
            }
            if space.start > current_x + width {
                return Some(current_x);
            }
            if space.last > current_x {
                current_x = space.last;
            }
            i = i + 1;
        }
        proof {
            assert(all.skip(i as int).len() == 0);
        }
        Some(current_x)
    }

    /// The leftmost column offset at which an event covering the rows `new_event_range`
    /// and `width` columns fits beside the boxes already drawn on those rows.
    pub fn get_next_free_slot(&self, new_event_range: InclusiveRange, width: u16) -> (r: u16)
        requires
            free_slot_fits(self@, new_event_range, width as int),
        ensures
            r == free_slot(self@, new_event_range, width as int),
    {
        match self.next_free_slot_checked(new_event_range, width) {
            Some(x) => x,
            None => 0,
        }
    }
}

/// A slot found for an event never collides with a box that shares its rows: every such
/// box ends at or left of the slot's first column, or starts right of the event's last.
pub proof fn lemma_free_slot_is_clear(s: Seq<OccupiedSpace>, rows: InclusiveRange, width: int)
    requires
        width >= 0,
    ensures
        forall|i: int| 0 <= i < s.len() && overlaps_rows(s[i], rows) ==>
            (#[trigger] s[i]).x_range.last <= free_slot(s, rows, width)
            || s[i].x_range.start > free_slot(s, rows, width) + width,
{
    let cols = overlapping_columns(s, rows);
    let sorted = sort_by_start(cols);
    lemma_overlapping_columns_members(s, rows);
    lemma_sort_by_start_props(cols);
    lemma_scan_slot_clear(sorted, width, 0);
    assert forall|i: int| 0 <= i < s.len() && overlaps_rows(s[i], rows) implies
        (#[trigger] s[i]).x_range.last <= free_slot(s, rows, width)
        || s[i].x_range.start > free_slot(s, rows, width) + width by {
        assert(cols.contains(s[i].x_range));
        assert(sorted.contains(s[i].x_range));
        let k = choose|k: int| 0 <= k < sorted.len() && sorted[k] == s[i].x_range;
        assert(sorted[k].last <= free_slot(s, rows, width)
            || sorted[k].start > free_slot(s, rows, width) + width);
    }
}

/// Whether an event `width` columns wide starting at column offset `c` would run into a
/// drawn box that shares the rows `rows`.
pub open spec fn blocked(s: Seq<OccupiedSpace>, rows: InclusiveRange, width: int, c: int) -> bool {
    exists|i: int|
        0 <= i < s.len() && overlaps_rows(#[trigger] s[i], rows) && s[i].x_range.last > c
            && s[i].x_range.start <= c + width
}

proof fn lemma_scan_slot_leftmost(s: Seq<InclusiveRange>, width: int, cur: int, c: int)
    requires
        cur <= c < scan_slot(s, width, cur),
    ensures
        exists|k: int| 0 <= k < s.len() && (#[trigger] s[k]).last > c && s[k].start <= c + width,
    decreases s.len(),
{
    let next = if cur >= s[0].last { cur } else { s[0].last as int };
    if c < next {
        assert(s[0].last > c && s[0].start <= c + width);
    } else {
        let t = s.drop_first();
        lemma_scan_slot_leftmost(t, width, next, c);
        let k = choose|k: int| 0 <= k < t.len() && (#[trigger] t[k]).last > c && t[k].start <= c + width;
        assert(s[k + 1] == t[k]);
    }
}

proof fn lemma_sort_by_start_members(s: Seq<InclusiveRange>, e: InclusiveRange)
    ensures
        sort_by_start(s).contains(e) ==> s.contains(e),
    decreases s.len(),
{
    if s.len() > 0 {
        let d = s.drop_last();
        lemma_sort_by_start_members(d, e);
        lemma_insert_by_start_members(sort_by_start(d), s.last(), e);
        if sort_by_start(s).contains(e) {
            if e == s.last() {
                assert(s[s.len() - 1] == e);
            } else {
                let k = choose|k: int| 0 <= k < d.len() && d[k] == e;
                assert(s[k] == e);
            }
        }
    }
}

proof fn lemma_overlapping_columns_sources(s: Seq<OccupiedSpace>, rows: InclusiveRange, e: InclusiveRange)
    ensures
        overlapping_columns(s, rows).contains(e) ==> exists|i: int|
            0 <= i < s.len() && overlaps_rows(#[trigger] s[i], rows) && s[i].x_range == e,
    decreases s.len(),
{
    if s.len() > 0 {
        let d = s.drop_last();
        lemma_overlapping_columns_sources(d, rows, e);
        let r = overlapping_columns(s, rows);
        if r.contains(e) {
            if overlaps_rows(s.last(), rows) && e == s.last().x_range {
                assert(overlaps_rows(s[s.len() - 1], rows) && s[s.len() - 1].x_range == e);
            } else {
                let rd = overlapping_columns(d, rows);
                let k = choose|k: int| 0 <= k < r.len() && r[k] == e;
                if overlaps_rows(s.last(), rows) {
                    assert(k < rd.len());
                    assert(rd[k] == e);
                }
                assert(rd.contains(e));
                let i = choose|i: int| 0 <= i < d.len() && overlaps_rows(#[trigger] d[i], rows) && d[i].x_range == e;
                assert(s[i] == d[i]);
            }
        }
    }
}

/// The slot is the leftmost one: an event starting at any column left of it would run
/// into a drawn box that shares its rows.
pub proof fn lemma_free_slot_is_leftmost(s: Seq<OccupiedSpace>, rows: InclusiveRange, width: int)
    ensures
        forall|c: int| 0 <= c < free_slot(s, rows, width) ==> #[trigger] blocked(s, rows, width, c),
{
    let cols = overlapping_columns(s, rows);
    let sorted = sort_by_start(cols);
    assert forall|c: int| 0 <= c < free_slot(s, rows, width) implies #[trigger] blocked(s, rows, width, c) by {
        lemma_scan_slot_leftmost(sorted, width, 0, c);
        let k = choose|k: int| 0 <= k < sorted.len() && (#[trigger] sorted[k]).last > c && sorted[k].start <= c + width;
        let e = sorted[k];
        assert(sorted.contains(e));
        lemma_sort_by_start_members(cols, e);
        lemma_overlapping_columns_sources(s, rows, e);
        let i = choose|i: int| 0 <= i < s.len() && overlaps_rows(#[trigger] s[i], rows) && s[i].x_range == e;
        assert(s[i].x_range.last > c && s[i].x_range.start <= c + width);
    }
}

/// When no drawn box shares the event's rows, the event goes to the leftmost column.
pub proof fn lemma_free_slot_without_overlap(s: Seq<OccupiedSpace>, rows: InclusiveRange, width: int)
    requires
        forall|i: int| 0 <= i < s.len() ==> !overlaps_rows(#[trigger] s[i], rows),
    ensures
        free_slot(s, rows, width) == 0,
    decreases s.len(),
{
    if s.len() > 0 {
        let d = s.drop_last();
        assert forall|i: int| 0 <= i < d.len() implies !overlaps_rows(#[trigger] d[i], rows) by {
            assert(d[i] == s[i]);
        }
        lemma_free_slot_without_overlap(d, rows, width);
        assert(!overlaps_rows(s[s.len() - 1], rows));
        assert(overlapping_columns(s, rows) == overlapping_columns(d, rows));
    } else {
        assert(overlapping_columns(s, rows) =~= Seq::<InclusiveRange>::empty());
    }
}

proof fn lemma_scan_at_most(s: Seq<InclusiveRange>, width: int, cur: int)
    requires
        cur <= u16::MAX,
    ensures
        scan_slot(s, width, cur) <= u16::MAX,
    decreases s.len(),
{
    if s.len() > 0 && s[0].start <= cur + width {
        let next = if cur >= s[0].last { cur } else { s[0].last as int };
        lemma_scan_at_most(s.drop_first(), width, next);
    }
}

/// The slot is a column offset that a `u16` holds.
pub proof fn lemma_free_slot_bound(s: Seq<OccupiedSpace>, rows: InclusiveRange, width: int)
    ensures
        free_slot(s, rows, width) <= u16::MAX,
{
    lemma_scan_at_most(sort_by_start(overlapping_columns(s, rows)), width, 0);
}

/// The slot is never left of the first column.
pub proof fn lemma_free_slot_origin(s: Seq<OccupiedSpace>, rows: InclusiveRange, width: int)
    ensures
        free_slot(s, rows, width) >= 0,
{
    lemma_scan_at_least(sort_by_start(overlapping_columns(s, rows)), width, 0);
}

proof fn lemma_scan_at_least(s: Seq<InclusiveRange>, width: int, cur: int)
    ensures
        scan_slot(s, width, cur) >= cur,
    decreases s.len(),
{
    if s.len() > 0 && s[0].start <= cur + width {
        let next = if cur >= s[0].last { cur } else { s[0].last as int };
        lemma_scan_at_least(s.drop_first(), width, next);
    }
}

} // verus!
