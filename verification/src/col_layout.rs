//! Choosing which columns fit on screen.
//!
//! Columns are laid out left to right with one blank between neighbours.
//! The leftmost column on screen shows its full name, so it reserves room
//! for that name.  Starting from an anchor column (the first column on
//! screen when the layout is anchored at the left edge, the last one when
//! it is anchored at the right edge), columns are added greedily away from
//! the anchored edge, then on the other side, while they fit in the width
//! available.
//!
//! This module states that layout ([`visible_range`]), proves what it
//! guarantees, chooses the columns when every width is known, and assembles
//! the chosen columns for drawing.  The layout run of [`crate::col_fit`]
//! makes the same choice while measuring one column at a time.
use std::ops::Range;
use vstd::prelude::*;
use crate::col_fit::{reserved_seq, ColumnFit, FitStep};
use crate::format::{CellText, TableCol};
use crate::schema::RSchema;

verus! {

/// Width of the columns `s..e` as the layout accumulates it: the first
/// column's width, then one blank and the next column's width for each
/// further column (a running total of zero takes the next width without a blank).
pub open spec fn fold_width(w: Seq<usize>, s: int, e: int) -> int
    decreases e - s,
{
    if e <= s {
        0
    } else {
        let a = fold_width(w, s, e - 1);
        if a == 0 {
            w[e - 1] as int
        } else {
            a + 1 + w[e - 1]
        }
    }
}

/// Sum over the columns `s..e` of their width plus one blank.
pub open spec fn seg(w: Seq<usize>, s: int, e: int) -> int
    decreases e - s,
{
    if e <= s {
        0
    } else {
        seg(w, s, e - 1) + w[e - 1] + 1
    }
}

/// End of the run of columns added to the right, starting with column
/// `idx`, when `used` columns of room are taken and `extra` more are
/// reserved: columns are added while the room taken, the reservation, the
/// next column and its blank fit in `limit`.
pub open spec fn grow_right(w: Seq<usize>, extra: int, limit: int, idx: int, used: int) -> int
    decreases w.len() - idx,
{
    if idx < 0 || idx >= w.len() {
        idx
    } else if used + extra + w[idx] + 1 > limit {
        idx
    } else {
        grow_right(w, extra, limit, idx + 1, used + w[idx] + 1)
    }
}

/// Start of the run of columns added to the left of column `idx`, when
/// `used` columns of room are taken: a column is added while the room
/// taken, its reserved width `r` and one blank fit in `limit`.
pub open spec fn grow_left(w: Seq<usize>, r: Seq<usize>, limit: int, idx: int, used: int) -> int
    decreases idx,
{
    if idx <= 0 {
        0
    } else if used + r[idx - 1] + 1 > limit {
        idx
    } else {
        grow_left(w, r, limit, idx - 1, used + w[idx - 1] + 1)
    }
}

/// The room a column reserves when it is the leftmost one on screen: its
/// width, or the length of its full name if that is longer.
pub open spec fn reserved_width(width: usize, name_len: usize) -> usize {
    if width >= name_len {
        width
    } else {
        name_len
    }
}

/// The columns `s..e` shown in `limit` columns of room, given each column's
/// width `w` and reserved width `r`, the current range of columns on screen
/// `start..end`, and which side the layout is anchored at.
pub open spec fn visible_range(
    w: Seq<usize>,
    r: Seq<usize>,
    start: usize,
    end: usize,
    from_start: bool,
    limit: usize,
) -> (int, int) {
    let n = w.len() as int;
    if n == 0 {
        (0, 0)
    } else if from_start {
        let a = min_int(start as int, n - 1);
        let e = grow_right(w, r[a] as int, limit as int, a + 1, 0);
        let s = grow_left(w, r, limit as int, a, fold_width(w, a, e));
        (s, e)
    } else {
        let a = min_int(end as int, n - 1);
        let s = grow_left(w, r, limit as int, a, w[a] + 1);
        let e = grow_right(w, 0, limit as int, a + 1, fold_width(w, s, a + 1));
        (s, e)
    }
}

/// `min` on integers.
pub open spec fn min_int(a: int, b: int) -> int {
    if a <= b {
        a
    } else {
        b
    }
}

/// A bound on the room counts met while laying out columns.
pub open spec fn room_bound() -> int {
    0x1_0000_0000_0000_0000_0000
}

proof fn lemma_fold_prefix(w: Seq<usize>, s: int, k: int, e: int)
    requires
        s <= k <= e,
    ensures
        fold_width(w, s, k) <= fold_width(w, s, e),
    decreases e - k,
{
    if k < e {
        lemma_fold_prefix(w, s, k, e - 1);
    }
}

pub(crate) proof fn lemma_fold_le_seg(w: Seq<usize>, s: int, e: int)
    requires
        s < e,
    ensures
        0 <= fold_width(w, s, e) <= seg(w, s, e) - 1,
    decreases e - s,
{
    if e - 1 > s {
        lemma_fold_le_seg(w, s, e - 1);
    } else {
        assert(fold_width(w, s, s) == 0);
        assert(seg(w, s, s) == 0);
    }
}

proof fn lemma_fold_eq_seg(w: Seq<usize>, s: int, e: int)
    requires
        0 <= s < e <= w.len(),
        forall|i: int| s <= i < e ==> w[i] > 0,
    ensures
        fold_width(w, s, e) == seg(w, s, e) - 1,
        fold_width(w, s, e) > 0,
    decreases e - s,
{
    if e - 1 > s {
        lemma_fold_eq_seg(w, s, e - 1);
    } else {
        assert(fold_width(w, s, s) == 0);
        assert(seg(w, s, s) == 0);
    }
}

proof fn lemma_seg_split(w: Seq<usize>, s: int, k: int, e: int)
    requires
        s <= k <= e,
    ensures
        seg(w, s, e) == seg(w, s, k) + seg(w, k, e),
    decreases e - k,
{
    if k < e {
        lemma_seg_split(w, s, k, e - 1);
    } else {
        assert(seg(w, k, e) == 0);
    }
}

pub(crate) proof fn lemma_seg_first(w: Seq<usize>, s: int, e: int)
    requires
        s < e,
    ensures
        seg(w, s, e) == w[s] + 1 + seg(w, s + 1, e),
{
    lemma_seg_split(w, s, s + 1, e);
    assert(seg(w, s, s) == 0);
    assert(seg(w, s, s + 1) == w[s] + 1);
}

pub(crate) proof fn lemma_grow_right(w: Seq<usize>, extra: int, limit: int, idx: int, used: int)
    requires
        0 <= idx,
        extra >= 0,
    ensures
        idx <= grow_right(w, extra, limit, idx, used),
        idx <= w.len() ==> grow_right(w, extra, limit, idx, used) <= w.len(),
        grow_right(w, extra, limit, idx, used) == idx
            || used + seg(w, idx, grow_right(w, extra, limit, idx, used)) + extra <= limit,
    decreases w.len() - idx,
{
    if idx < w.len() && used + extra + w[idx] + 1 <= limit {
        let e = grow_right(w, extra, limit, idx + 1, used + w[idx] + 1);
        lemma_grow_right(w, extra, limit, idx + 1, used + w[idx] + 1);
        lemma_seg_first(w, idx, e);
        if e == idx + 1 {
            assert(seg(w, idx + 1, e) == 0);
        }
    }
}

pub(crate) proof fn lemma_grow_left(w: Seq<usize>, r: Seq<usize>, limit: int, idx: int, used: int)
    requires
        0 <= idx <= w.len(),
        w.len() == r.len(),
        forall|i: int| 0 <= i < w.len() ==> w[i] <= r[i],
    ensures
        0 <= grow_left(w, r, limit, idx, used) <= idx,
        grow_left(w, r, limit, idx, used) == idx
            || used + seg(w, grow_left(w, r, limit, idx, used), idx) <= limit,
    decreases idx,
{
    if idx > 0 && used + r[idx - 1] + 1 <= limit {
        let s = grow_left(w, r, limit, idx - 1, used + w[idx - 1] + 1);
        lemma_grow_left(w, r, limit, idx - 1, used + w[idx - 1] + 1);
        lemma_seg_split(w, s, idx - 1, idx);
    }
}

/// Every layout keeps its anchor column on screen, and what it shows fits
/// in the room available, unless only the anchor column is shown: when
/// every column has a positive width, the columns `s..e` chosen contain the
/// anchor, and either `s + 1 == e` or their width with blanks is at most `limit`.
pub proof fn lemma_visible_range_fits(
    w: Seq<usize>,
    r: Seq<usize>,
    start: usize,
    end: usize,
    from_start: bool,
    limit: usize,
)
    requires
        w.len() == r.len(),
        w.len() > 0,
        forall|i: int| 0 <= i < w.len() ==> w[i] <= r[i],
        forall|i: int| 0 <= i < w.len() ==> w[i] > 0,
    ensures
        ({
            let (s, e) = visible_range(w, r, start, end, from_start, limit);
            let a = if from_start { min_int(start as int, w.len() - 1) } else { min_int(end as int, w.len() - 1) };
            &&& 0 <= s <= a < e <= w.len()
            &&& (e == s + 1 || fold_width(w, s, e) <= limit)
        }),
{
    let n = w.len() as int;
    if from_start {
        let a = min_int(start as int, n - 1);
        let e = grow_right(w, r[a] as int, limit as int, a + 1, 0);
        lemma_grow_right(w, r[a] as int, limit as int, a + 1, 0);
        lemma_fold_eq_seg(w, a, e);
        lemma_seg_first(w, a, e);
        let s = grow_left(w, r, limit as int, a, fold_width(w, a, e));
        lemma_grow_left(w, r, limit as int, a, fold_width(w, a, e));
        if s < a {
            lemma_fold_eq_seg(w, s, e);
            lemma_seg_split(w, s, a, e);
        }
    } else {
        let a = min_int(end as int, n - 1);
        let s = grow_left(w, r, limit as int, a, w[a] + 1);
        lemma_grow_left(w, r, limit as int, a, w[a] + 1);
        lemma_fold_eq_seg(w, s, a + 1);
        lemma_seg_split(w, s, a, a + 1);
        let e = grow_right(w, 0, limit as int, a + 1, fold_width(w, s, a + 1));
        lemma_grow_right(w, 0, limit as int, a + 1, fold_width(w, s, a + 1));
        if e > a + 1 {
            lemma_fold_eq_seg(w, s, e);
            lemma_seg_split(w, s, a + 1, e);
        }
    }
}

/// When growing leftwards adds columns, the last one added (the new leftmost)
/// fitted at its reserved room next to everything right of it.
proof fn lemma_grow_left_last(w: Seq<usize>, r: Seq<usize>, limit: int, idx: int, used: int)
    requires
        0 <= idx <= w.len(),
        w.len() == r.len(),
    ensures
        ({
            let s = grow_left(w, r, limit, idx, used);
            s < idx ==> used + seg(w, s + 1, idx) + r[s] + 1 <= limit
        }),
    decreases idx,
{
    if idx > 0 && used + r[idx - 1] + 1 <= limit {
        let s = grow_left(w, r, limit, idx - 1, used + w[idx - 1] + 1);
        lemma_grow_left_last(w, r, limit, idx - 1, used + w[idx - 1] + 1);
        if s < idx - 1 {
            assert(seg(w, s + 1, idx) == seg(w, s + 1, idx - 1) + w[idx - 1] + 1);
        } else {
            assert(seg(w, s + 1, idx) == 0);
        }
    }
}

/// The leftmost column on screen is drawn at its reserved room (its full
/// name may be wider than the column), so the layout keeps room for it:
/// when the layout is anchored at the left edge, the leftmost column at its
/// reserved room and every other column with its blank fit in `limit`,
/// unless only one column is shown.  When it is anchored at the right edge,
/// the leftmost column at its reserved room and the columns up to the
/// anchor fit, and the columns added right of the anchor fit with the
/// leftmost one at its own width.
pub proof fn lemma_layout_reserves_leftmost(
    w: Seq<usize>,
    r: Seq<usize>,
    start: usize,
    end: usize,
    from_start: bool,
    limit: usize,
)
    requires
        w.len() == r.len(),
        w.len() > 0,
        forall|i: int| 0 <= i < w.len() ==> w[i] <= r[i],
        forall|i: int| 0 <= i < w.len() ==> w[i] > 0,
    ensures
        ({
            let (s, e) = visible_range(w, r, start, end, from_start, limit);
            let a = if from_start { min_int(start as int, w.len() - 1) } else { min_int(end as int, w.len() - 1) };
            &&& from_start ==> (e == s + 1 || r[s] + seg(w, s + 1, e) <= limit)
            &&& !from_start ==> (s == a || r[s] + seg(w, s + 1, a + 1) <= limit)
            &&& !from_start ==> (e == s + 1 || w[s] + seg(w, s + 1, e) <= limit)
        }),
{
    lemma_visible_range_fits(w, r, start, end, from_start, limit);
    let n = w.len() as int;
    if from_start {
        let a = min_int(start as int, n - 1);
        let e = grow_right(w, r[a] as int, limit as int, a + 1, 0);
        lemma_grow_right(w, r[a] as int, limit as int, a + 1, 0);
        let s = grow_left(w, r, limit as int, a, fold_width(w, a, e));
        lemma_grow_left(w, r, limit as int, a, fold_width(w, a, e));
        lemma_grow_left_last(w, r, limit as int, a, fold_width(w, a, e));
        lemma_fold_eq_seg(w, a, e);
        if s < a {
            lemma_seg_split(w, s + 1, a, e);
        } else if e > a + 1 {
            assert(seg(w, a + 1, e) + r[a] <= limit);
        }
    } else {
        let a = min_int(end as int, n - 1);
        let s = grow_left(w, r, limit as int, a, w[a] + 1);
        lemma_grow_left(w, r, limit as int, a, w[a] + 1);
        lemma_grow_left_last(w, r, limit as int, a, w[a] + 1);
        if s < a {
            lemma_seg_split(w, s + 1, a, a + 1);
        }
        assert(seg(w, a, a + 1) == w[a] + 1) by {
            assert(seg(w, a, a) == 0);
        }
        lemma_fold_eq_seg(w, s, a + 1);
        let e = grow_right(w, 0, limit as int, a + 1, fold_width(w, s, a + 1));
        lemma_grow_right(w, 0, limit as int, a + 1, fold_width(w, s, a + 1));
        lemma_seg_first(w, s, a + 1);
        if e > a + 1 {
            lemma_fold_eq_seg(w, s, e);
            lemma_seg_first(w, s, e);
        }
    }
}

/// Width of the columns `entries` as the layout accumulates it.
pub fn total_width(widths: &Vec<usize>, entries: &Range<usize>) -> (r: u128)
    requires
        entries.start <= entries.end <= widths@.len(),
        fold_width(widths@, entries.start as int, entries.end as int) < room_bound(),
    ensures
        r == fold_width(widths@, entries.start as int, entries.end as int),
{
    let mut acc: u128 = 0;
    let mut i = entries.start;
    while i < entries.end
        invariant
            entries.start <= i <= entries.end <= widths@.len(),
            fold_width(widths@, entries.start as int, entries.end as int) < room_bound(),
            acc == fold_width(widths@, entries.start as int, i as int),
        decreases entries.end - i,
    {
        proof {
            lemma_fold_prefix(widths@, entries.start as int, i as int + 1, entries.end as int);
        }
        if acc == 0 {
            acc = widths[i] as u128;
        } else {
            acc = acc + 1 + widths[i] as u128;
        }
        i = i + 1;
    }
    acc
}

/// The columns shown in `viewable_width` columns of room, given the width
/// of every column and the columns `col_range` on screen before: the
/// layout run of [`ColumnFit`], with every width it asks for taken from `widths`.
pub fn select_visible_columns(
    schema: &RSchema,
    widths: &Vec<usize>,
    col_range: Range<usize>,
    col_start_from_start: bool,
    viewable_width: usize,
) -> (r: Range<usize>)
    requires
        widths@.len() == schema.ncols(),
    ensures
        ({
            let reserved = Seq::new(widths@.len(), |i: int| reserved_width(widths@[i], schema.name_len(i)));
            (r.start as int, r.end as int) == visible_range(
                widths@,
                reserved,
                col_range.start,
                col_range.end,
                col_start_from_start,
                viewable_width,
            )
        }),
{
    let names = schema.name_lens();
    let ghost name_view = names@;
    let (mut fit, mut step) = ColumnFit::new(names, col_range.start..col_range.end, col_start_from_start, viewable_width);
    loop
        invariant
            fit.wf(),
            fit.name_lens@ == name_view,
            fit.shown.start == col_range.start,
            fit.shown.end == col_range.end,
            fit.from_start == col_start_from_start,
            fit.limit == viewable_width,
            widths@.len() == name_view.len(),
            forall|i: int| 0 <= i < name_view.len() ==> #[trigger] name_view[i] == schema.name_len(i),
            fit.inv(widths@),
            fit.announces(step),
        decreases fit.work_left(),
    {
        match step {
            FitStep::Measure(i) => {
                step = fit.give_width(widths[i]);
            },
            FitStep::Done(r) => {
                proof {
                    assert(reserved_seq(widths@, name_view) =~= Seq::new(
                        widths@.len(),
                        |i: int| reserved_width(widths@[i], schema.name_len(i)),
                    ));
                }
                return r;
            },
        }
    }
}

/// The columns chosen for the screen, ready to draw: for each, its header
/// (title, if any, above the type line), its values and its width.
pub struct ColumnLayout {
    pub headers: Vec<(Option<CellText>, CellText)>,
    pub values: Vec<Vec<CellText>>,
    pub widths: Vec<usize>,
    pub col_range: Range<usize>,
}

/// Width of the leftmost column: its width under its full name, or the
/// length of that name if it is longer.
pub open spec fn leftmost_width(col_width: usize, name_len: usize) -> usize {
    reserved_width(col_width, name_len)
}

/// The formatted column drawn `k` columns right of the leftmost one shown,
/// given the formatted columns `cols` shown and the leftmost one's
/// formatting under its full name, if any.
pub open spec fn chosen_col(cols: Seq<TableCol>, leftmost: Option<TableCol>, k: int) -> TableCol {
    if k == 0 && leftmost is Some {
        leftmost->0
    } else {
        cols[k]
    }
}

/// The width at which the column `k` columns right of the leftmost one is drawn.
pub open spec fn chosen_width(cols: Seq<TableCol>, leftmost: Option<TableCol>, name_len: usize, k: int) -> usize {
    if k == 0 && leftmost is Some {
        leftmost_width(leftmost->0.width, name_len)
    } else {
        cols[k].width
    }
}

/// Lays out the columns `col_range`, given their formatted columns `cols`,
/// in order, and, for the leftmost one, its formatting under its full name.
/// The leftmost column is drawn from that formatting and is at least as
/// wide as its full name.
pub fn build_column_layout(
    schema: &RSchema,
    cols: Vec<TableCol>,
    col_range: Range<usize>,
    leftmost: Option<TableCol>,
) -> (r: ColumnLayout)
    requires
        col_range.start <= col_range.end <= schema.ncols(),
        cols@.len() == col_range.end - col_range.start,
    ensures
        r.col_range == col_range,
        r.headers@.len() == cols@.len(),
        r.values@.len() == cols@.len(),
        r.widths@.len() == cols@.len(),
        forall|k: int| 0 <= k < r.headers@.len() ==> #[trigger] r.headers@[k] == (
            chosen_col(cols@, leftmost, k).title_text,
            chosen_col(cols@, leftmost, k).type_text,
        ),
        forall|k: int| 0 <= k < r.values@.len() ==> #[trigger] r.values@[k] == chosen_col(cols@, leftmost, k).values_text,
        forall|k: int| 0 <= k < r.widths@.len() ==> #[trigger] r.widths@[k] == chosen_width(
            cols@,
            leftmost,
            schema.name_len(col_range.start as int),
            k,
        ),
{
    let ghost all = cols@;
    let start = col_range.start;
    let mut leftmost = leftmost;
    let ghost left0 = leftmost;
    let ghost nl = schema.name_len(start as int);
    let mut headers: Vec<(Option<CellText>, CellText)> = Vec::new();
    let mut values: Vec<Vec<CellText>> = Vec::new();
    let mut widths: Vec<usize> = Vec::new();
    let mut k: usize = 0;
    for col in it: cols.into_iter()
        invariant
            all == it.seq(),
            k == it.index(),
            all.len() == col_range.end - col_range.start,
            start == col_range.start,
            col_range.end <= schema.ncols(),
            nl == schema.name_len(start as int),
            k == 0 ==> leftmost == left0,
            headers@.len() == k,
            values@.len() == k,
            widths@.len() == k,
            forall|j: int| 0 <= j < k ==> #[trigger] headers@[j] == (
                chosen_col(all, left0, j).title_text,
                chosen_col(all, left0, j).type_text,
            ),
            forall|j: int| 0 <= j < k ==> #[trigger] values@[j] == chosen_col(all, left0, j).values_text,
            forall|j: int| 0 <= j < k ==> #[trigger] widths@[j] == chosen_width(all, left0, nl, j),
    {
        assert(col == all[k as int]);
        let ghost h0 = headers@;
        let ghost v0 = values@;
        let ghost w0 = widths@;
        let chosen = if k == 0 && leftmost.is_some() {
            let full = leftmost.take().unwrap();
            let name_len = schema.full_name_len(start);
            let width = if full.width >= name_len { full.width } else { name_len };
            TableCol { width, ..full }
        } else {
            col
        };
        assert(chosen.title_text == chosen_col(all, left0, k as int).title_text);
        assert(chosen.type_text == chosen_col(all, left0, k as int).type_text);
        assert(chosen.values_text == chosen_col(all, left0, k as int).values_text);
        assert(chosen.width == chosen_width(all, left0, nl, k as int));
        headers.push((chosen.title_text, chosen.type_text));
        values.push(chosen.values_text);
        widths.push(chosen.width);
        proof {
            assert(headers@.drop_last() =~= h0);
            assert(values@.drop_last() =~= v0);
            assert(widths@.drop_last() =~= w0);
        }
        k = k + 1;
    }
    ColumnLayout { headers, values, widths, col_range }
}

} // verus!
