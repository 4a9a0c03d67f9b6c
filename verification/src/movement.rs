//! Cursor movement and scrolling of a table view.
use vstd::prelude::*;
use std::ops::Range;
use crate::col_layout::{grow_left, grow_right, lemma_grow_left, lemma_grow_right, visible_range};
use crate::viewer::{sat_mul, saturating_mul, TableCursor, Viewer};

verus! {

impl<D> Viewer<D> {
    /// The view after selecting the first column of the selected row.
    pub open spec fn after_first_col(self) -> Self {
        if self.ncols() == 0 {
            self
        } else {
            Viewer { col_start_idx: 0, col_start_from_start: true, ..self.selecting(self.sel().0, 0) }
        }
    }

    /// The view after selecting the column just past the last one: drawing
    /// the view then settles on the last column, anchored at the right edge.
    pub open spec fn after_last_col(self) -> Self {
        if self.ncols() == 0 {
            self
        } else {
            Viewer {
                col_end_idx: self.ncols() as usize,
                col_start_from_start: false,
                ..self.selecting(self.sel().0, self.ncols() as usize)
            }
        }
    }

    /// The view after moving the cursor `n` columns right, stopping at the last column.
    pub open spec fn after_right(self, n: usize) -> Self {
        if self.ncols() == 0 {
            self
        } else {
            let sum = self.sel().1.saturating_add(n);
            let new_col = if sum >= self.ncols() { (self.ncols() - 1) as usize } else { sum };
            let moved = self.selecting(self.sel().0, new_col);
            if new_col > self.col_end_idx {
                Viewer { col_end_idx: new_col, col_start_from_start: false, ..moved }
            } else {
                moved
            }
        }
    }

    /// The view after moving the cursor `n` columns left, stopping at the first column.
    pub open spec fn after_left(self, n: usize) -> Self {
        if self.ncols() == 0 {
            self
        } else {
            let new_col = self.sel().1.saturating_sub(n);
            let moved = self.selecting(self.sel().0, new_col);
            if new_col < self.col_start_idx {
                Viewer { col_start_idx: new_col, col_start_from_start: true, ..moved }
            } else {
                moved
            }
        }
    }

    /// The view after selecting the first row of the selected column.
    pub open spec fn after_first_row(self) -> Self {
        if self.ncols() == 0 {
            self
        } else {
            self.selecting(0, self.sel().1)
        }
    }

    /// The view after selecting the last row of the selected column.
    pub open spec fn after_last_row(self) -> Self {
        if self.ncols() == 0 {
            self
        } else {
            self.selecting(self.schema.nrow.saturating_sub(1), self.sel().1)
        }
    }

    /// The view after selecting row `row` (zero-based) of the selected
    /// column, or the last row when the table is shorter.
    pub open spec fn after_row(self, row: usize) -> Self {
        if self.ncols() == 0 {
            self
        } else if row >= self.schema.nrow {
            self.selecting(self.schema.nrow.saturating_sub(1), self.sel().1)
        } else {
            self.selecting(row, self.sel().1)
        }
    }

    /// The view after moving the cursor `n` rows up, stopping at the first row.
    pub open spec fn after_up(self, n: usize) -> Self {
        if self.ncols() == 0 {
            self
        } else {
            self.selecting(self.sel().0.saturating_sub(n), self.sel().1)
        }
    }

    /// The view after moving the cursor `n` rows down, stopping at the last row.
    pub open spec fn after_down(self, n: usize) -> Self {
        if self.ncols() == 0 {
            self
        } else {
            let sum = self.sel().0.saturating_add(n);
            let new_row = if sum >= self.schema.nrow { (self.schema.nrow - 1) as usize } else { sum };
            self.selecting(new_row, self.sel().1)
        }
    }

    /// The view after scrolling `n` rows up; a cursor that would fall off the
    /// bottom of the screen moves to the last row on screen.
    pub open spec fn after_scroll_up(self, n: usize) -> Self {
        let new_offset = self.state.offset.saturating_sub(n);
        let new_end = min_usize(
            (new_offset + self.visible_n_row.saturating_sub(1)) as int,
            self.schema.nrow as int,
        );
        let scrolled = Viewer { state: TableCursor { offset: new_offset, ..self.state }, ..self };
        if self.sel().0 > new_end {
            scrolled.selecting(new_end, self.sel().1)
        } else {
            scrolled
        }
    }

    /// The view after scrolling `n` rows down, no further than the last
    /// screenful; a cursor that would fall off the top moves to the first row on screen.
    pub open spec fn after_scroll_down(self, n: usize) -> Self {
        let new_offset = min_usize(
            self.state.offset.saturating_add(n) as int,
            self.schema.nrow.saturating_sub(self.visible_n_row) as int,
        );
        let scrolled = Viewer { state: TableCursor { offset: new_offset, ..self.state }, ..self };
        if self.sel().0 < new_offset {
            scrolled.selecting(new_offset, self.sel().1)
        } else {
            scrolled
        }
    }

    /// The view after scrolling `n` columns left.
    pub open spec fn after_scroll_left(self, n: usize) -> Self {
        Viewer { col_start_idx: self.col_start_idx.saturating_sub(n), col_start_from_start: true, ..self }
    }

    /// The view after scrolling `n` columns right, no further than the last column.
    pub open spec fn after_scroll_right(self, n: usize) -> Self {
        let sum = self.col_end_idx.saturating_add(n);
        let new_col = if sum >= self.ncols() { (self.ncols() - 1) as usize } else { sum };
        Viewer { col_end_idx: new_col, col_start_from_start: false, ..self }
    }

    /// The view after scrolling `n` screenfuls up, keeping the cursor at the
    /// same place on screen.
    pub open spec fn after_window_up(self, n: usize) -> Self {
        let move_rows = sat_mul(self.visible_n_row, n);
        let from_top = self.sel().0 - self.state.offset;
        let new_offset = self.state.offset.saturating_sub(move_rows);
        let scrolled = Viewer { state: TableCursor { offset: new_offset, ..self.state }, ..self };
        scrolled.selecting((new_offset + from_top) as usize, self.sel().1)
    }

    /// The view after scrolling `n` screenfuls down, no further than the last
    /// screenful, keeping the cursor at the same place on screen.
    pub open spec fn after_window_down(self, n: usize) -> Self {
        let move_rows = sat_mul(self.visible_n_row, n);
        let from_top = self.sel().0 - self.state.offset;
        let new_offset = min_usize(
            self.state.offset.saturating_add(move_rows) as int,
            self.schema.nrow.saturating_sub(self.visible_n_row) as int,
        );
        let scrolled = Viewer { state: TableCursor { offset: new_offset, ..self.state }, ..self };
        scrolled.selecting((new_offset + from_top) as usize, self.sel().1)
    }

    /// The view after scrolling `n` screenfuls left, keeping the cursor at
    /// the same place on screen.
    pub open spec fn after_window_left(self, n: usize) -> Self {
        let move_cols = sat_mul(self.visible_n_col, n);
        let from_start = self.sel().1 - self.col_start_idx;
        let new_col = self.col_start_idx.saturating_sub(move_cols);
        let scrolled = Viewer { col_start_idx: new_col, col_start_from_start: true, ..self };
        scrolled.selecting(self.sel().0, (new_col + from_start) as usize)
    }

    /// The view after scrolling `n` screenfuls right, no further than the
    /// last column, keeping the cursor at the same place on screen.
    pub open spec fn after_window_right(self, n: usize) -> Self {
        let move_cols = sat_mul(self.visible_n_col, n);
        let from_end = self.col_end_idx - self.sel().1;
        let sum = self.col_end_idx.saturating_add(move_cols);
        let new_col = if sum >= self.ncols() { (self.ncols() - 1) as usize } else { sum };
        let scrolled = Viewer { col_end_idx: new_col, col_start_from_start: false, ..self };
        scrolled.selecting(self.sel().0, (new_col - from_end) as usize)
    }

    /// Whether scrolling `n` screenfuls right can keep the cursor at the same
    /// place on screen: there is a column, the cursor is not right of the
    /// last column shown, and the new last column is at least as far from
    /// the first column as the cursor is from the last column shown.
    pub open spec fn window_right_ok(self, n: usize) -> bool {
        let move_cols = sat_mul(self.visible_n_col, n);
        let sum = self.col_end_idx.saturating_add(move_cols);
        let new_col: int = if sum >= self.ncols() { self.ncols() - 1 } else { sum as int };
        &&& self.ncols() > 0
        &&& self.sel().1 <= self.col_end_idx
        &&& self.col_end_idx - self.sel().1 <= new_col
    }

    /// Selects the first column of the selected row and anchors the layout at the left edge.
    pub fn move_cursor_to_first_col(&mut self)
        ensures
            *final(self) == old(self).after_first_col(),
    {
        if self.schema.is_empty() {
            return;
        }
        let (row, _) = self.selected_cell();
        let new_col: usize = 0;
        self.state.select_cell(Some((row, new_col)));
        self.col_start_idx = new_col;
        self.col_start_from_start = true;
    }

    /// Selects past the last column of the selected row and anchors the layout at the right edge.
    pub fn move_cursor_to_last_col(&mut self)
        ensures
            *final(self) == old(self).after_last_col(),
    {
        if self.schema.is_empty() {
            return;
        }
        let (row, _) = self.selected_cell();
        let new_col = self.schema.len();
        self.state.select_cell(Some((row, new_col)));
        self.col_end_idx = new_col;
        self.col_start_from_start = false;
    }

    /// Moves the cursor `n` columns right, stopping at the last column.
    pub fn move_cursor_right(&mut self, n: usize)
        ensures
            *final(self) == old(self).after_right(n),
    {
        if self.schema.is_empty() {
            return;
        }
        let (row, col) = self.selected_cell();
        let mut new_col = col.saturating_add(n);
        if new_col >= self.schema.len() {
            new_col = self.schema.len() - 1;
        }
        self.state.select_cell(Some((row, new_col)));
        if new_col > self.col_end_idx {
            self.col_end_idx = new_col;
            self.col_start_from_start = false;
        }
    }

    /// Moves the cursor `n` columns left, stopping at the first column.
    pub fn move_cursor_left(&mut self, n: usize)
        ensures
            *final(self) == old(self).after_left(n),
    {
        if self.schema.is_empty() {
            return;
        }
        let (row, col) = self.selected_cell();
        let new_col = col.saturating_sub(n);
        self.state.select_cell(Some((row, new_col)));
        if new_col < self.col_start_idx {
            self.col_start_idx = new_col;
            self.col_start_from_start = true;
        }
    }

    /// Selects the first row of the selected column.
    pub fn move_cursor_to_first_row(&mut self)
        ensures
            *final(self) == old(self).after_first_row(),
    {
        if self.schema.is_empty() {
            return;
        }
        let (_, col) = self.selected_cell();
        let new_row: usize = 0;
        self.state.select_cell(Some((new_row, col)));
    }

    /// Selects the last row of the selected column.
    pub fn move_cursor_to_last_row(&mut self)
        ensures
            *final(self) == old(self).after_last_row(),
    {
        if self.schema.is_empty() {
            return;
        }
        let (_, col) = self.selected_cell();
        let new_row = self.schema.nrow.saturating_sub(1);
        self.state.select_cell(Some((new_row, col)));
    }

    /// Selects row `row` (zero-based), or the last row when the table is shorter.
    pub fn move_cursor_to_row(&mut self, row: usize)
        ensures
            *final(self) == old(self).after_row(row),
    {
        if self.schema.is_empty() {
            return;
        }
        let (_, col) = self.selected_cell();
        let new_row = if row >= self.schema.nrow {
            self.schema.nrow.saturating_sub(1)
        } else {
            row
        };
        self.state.select_cell(Some((new_row, col)));
    }

    /// Moves the cursor `n` rows up, stopping at the first row.
    pub fn move_cursor_up(&mut self, n: usize)
        ensures
            *final(self) == old(self).after_up(n),
    {
        if self.schema.is_empty() {
            return;
        }
        let (row, col) = self.selected_cell();
        let new_row = row.saturating_sub(n);
        self.state.select_cell(Some((new_row, col)));
    }

    /// Moves the cursor `n` rows down, stopping at the last row.
    pub fn move_cursor_down(&mut self, n: usize)
        requires
            old(self).ncols() > 0 ==> old(self).schema.nrow > 0,
        ensures
            *final(self) == old(self).after_down(n),
    {
        if self.schema.is_empty() {
            return;
        }
        let (row, col) = self.selected_cell();
        let mut new_row = row.saturating_add(n);
        if new_row >= self.schema.nrow {
            new_row = self.schema.nrow - 1;
        }
        self.state.select_cell(Some((new_row, col)));
    }

    /// Scrolls `n` rows up, keeping the cursor on screen.
    pub fn scroll_up(&mut self, n: usize)
        ensures
            *final(self) == old(self).after_scroll_up(n),
    {
        let (row, col) = self.selected_cell();
        let nrow = self.schema.nrow;
        let new_offset = self.state.offset.saturating_sub(n);
        let below = self.visible_n_row.saturating_sub(1);
        let new_end = if new_offset >= nrow || below >= nrow - new_offset {
            nrow
        } else {
            new_offset + below
        };
        self.state.offset = new_offset;
        if row > new_end {
            self.state.select_cell(Some((new_end, col)));
        }
    }

    /// Scrolls `n` rows down, keeping the cursor on screen.
    pub fn scroll_down(&mut self, n: usize)
        ensures
            *final(self) == old(self).after_scroll_down(n),
    {
        let (row, col) = self.selected_cell();
        let sum = self.state.offset.saturating_add(n);
        let last = self.schema.nrow.saturating_sub(self.visible_n_row);
        let new_offset = if sum < last {
            sum
        } else {
            last
        };
        self.state.offset = new_offset;
        if row < new_offset {
            self.state.select_cell(Some((new_offset, col)));
        }
    }

    /// Scrolls `n` columns left.
    pub fn scroll_left(&mut self, n: usize)
        ensures
            *final(self) == old(self).after_scroll_left(n),
    {
        let new_col = self.col_start_idx.saturating_sub(n);
        self.col_start_idx = new_col;
        self.col_start_from_start = true;
    }

    /// Scrolls `n` columns right, no further than the last column.
    pub fn scroll_right(&mut self, n: usize)
        requires
            old(self).ncols() > 0,
        ensures
            *final(self) == old(self).after_scroll_right(n),
    {
        let mut new_col = self.col_end_idx.saturating_add(n);
        if new_col >= self.schema.len() {
            new_col = self.schema.len() - 1;
        }
        self.col_end_idx = new_col;
        self.col_start_from_start = false;
    }

    /// Scrolls `n` screenfuls up, keeping the cursor at the same place on screen.
    pub fn scroll_window_up(&mut self, n: usize)
        requires
            old(self).sel().0 >= old(self).state.offset,
        ensures
            *final(self) == old(self).after_window_up(n),
    {
        let move_rows = saturating_mul(self.visible_n_row, n);
        let (row, col) = self.selected_cell();
        let offset_from_offset = row - self.state.offset;
        let new_offset = self.state.offset.saturating_sub(move_rows);
        self.state.offset = new_offset;
        self.state.select_cell(Some((new_offset + offset_from_offset, col)));
    }

    /// Scrolls `n` screenfuls down, keeping the cursor at the same place on screen.
    pub fn scroll_window_down(&mut self, n: usize)
        requires
            old(self).sel().0 >= old(self).state.offset,
            old(self).sel().0 - old(self).state.offset + old(self).schema.nrow <= usize::MAX,
        ensures
            *final(self) == old(self).after_window_down(n),
    {
        let move_rows = saturating_mul(self.visible_n_row, n);
        let (row, col) = self.selected_cell();
        let offset_from_offset = row - self.state.offset;
        let sum = self.state.offset.saturating_add(move_rows);
        let last = self.schema.nrow.saturating_sub(self.visible_n_row);
        let new_offset = if sum < last {
            sum
        } else {
            last
        };
        self.state.offset = new_offset;
        self.state.select_cell(Some((new_offset + offset_from_offset, col)));
    }

    /// Scrolls `n` screenfuls left, keeping the cursor at the same place on screen.
    pub fn scroll_window_left(&mut self, n: usize)
        requires
            old(self).sel().1 >= old(self).col_start_idx,
        ensures
            *final(self) == old(self).after_window_left(n),
    {
        let move_cols = saturating_mul(self.visible_n_col, n);
        let (row, col) = self.selected_cell();
        let offset_from_start = col - self.col_start_idx;
        let new_col = self.col_start_idx.saturating_sub(move_cols);
        self.col_start_idx = new_col;
        self.col_start_from_start = true;
        self.state.select_cell(Some((row, new_col + offset_from_start)));
    }

    /// Scrolls `n` screenfuls right, keeping the cursor at the same place on screen.
    pub fn scroll_window_right(&mut self, n: usize)
        requires
            old(self).window_right_ok(n),
        ensures
            *final(self) == old(self).after_window_right(n),
    {
        let move_cols = saturating_mul(self.visible_n_col, n);
        let (row, col) = self.selected_cell();
        let offset_from_end = self.col_end_idx - col;
        let mut new_col = self.col_end_idx.saturating_add(move_cols);
        if new_col >= self.schema.len() {
            new_col = self.schema.len() - 1;
        }
        self.col_end_idx = new_col;
        self.col_start_from_start = false;
        self.state.select_cell(Some((row, new_col - offset_from_end)));
    }
}

/// `min` of two integers, as a `usize` (both must fit).
pub open spec fn min_usize(a: int, b: int) -> usize {
    if a <= b {
        a as usize
    } else {
        b as usize
    }
}

/// `^` brings the first column on screen: after it, the next frame (for
/// any column widths `w`, reserved rooms `r` and room `limit`) shows a run
/// of columns starting at the first one, and the first column is selected.
pub proof fn lemma_first_col_is_shown<D>(v: Viewer<D>, w: Seq<usize>, r: Seq<usize>, limit: usize, table_height: usize)
    requires
        v.ncols() > 0,
        w.len() == v.ncols(),
        r.len() == w.len(),
    ensures
        ({
            let u = v.after_first_col();
            let (s, e) = visible_range(w, r, u.col_start_idx, u.col_end_idx, u.col_start_from_start, limit);
            let drawn = u.after_frame(Range { start: s as usize, end: e as usize }, table_height);
            &&& s == 0
            &&& 1 <= e <= w.len()
            &&& drawn.col_start_idx == 0
            &&& drawn.state.cell() is Some
            &&& drawn.sel() == (v.sel().0, 0usize)
        }),
{
    let u = v.after_first_col();
    let e = grow_right(w, r[0] as int, limit as int, 1, 0);
    lemma_grow_right(w, r[0] as int, limit as int, 1, 0);
}

/// `$` brings the last column on screen: after it, the next frame (for any
/// column widths `w`, reserved rooms `r` and room `limit`) shows a run of
/// columns ending at the last one, and the last column is selected.
pub proof fn lemma_last_col_is_shown<D>(v: Viewer<D>, w: Seq<usize>, r: Seq<usize>, limit: usize, table_height: usize)
    requires
        v.ncols() > 0,
        w.len() == v.ncols(),
        r.len() == w.len(),
        forall|i: int| 0 <= i < w.len() ==> w[i] <= r[i],
    ensures
        ({
            let u = v.after_last_col();
            let (s, e) = visible_range(w, r, u.col_start_idx, u.col_end_idx, u.col_start_from_start, limit);
            let drawn = u.after_frame(Range { start: s as usize, end: e as usize }, table_height);
            &&& 0 <= s < e
            &&& e == w.len()
            &&& drawn.col_end_idx == w.len() - 1
            &&& drawn.state.cell() is Some
            &&& drawn.sel() == (v.sel().0, (w.len() - 1) as usize)
        }),
{
    broadcast use vstd::std_specs::vec::axiom_spec_len;
    assert(v.schema.pillars.len() == v.ncols());
    let n = w.len() as int;
    let a = n - 1;
    lemma_grow_left(w, r, limit as int, a, w[a] + 1);
}

/// Where each move puts the cursor, from a cell of the table: `n` rows down
/// or right stops at the last row or column, `n` rows up or left stops at
/// the first, and the other coordinate is kept.
pub proof fn lemma_move_targets<D>(v: Viewer<D>, n: usize)
    requires
        in_table(v),
    ensures
        ({
            let (row, col) = v.sel();
            let nrow = v.schema.nrow as int;
            let ncols = v.ncols() as int;
            &&& v.after_down(n).sel() == ((if row + n >= nrow { nrow - 1 } else { row + n }) as usize, col)
            &&& v.after_up(n).sel() == ((if row >= n { row - n } else { 0 }) as usize, col)
            &&& v.after_right(n).sel() == (row, (if col + n >= ncols { ncols - 1 } else { col + n }) as usize)
            &&& v.after_left(n).sel() == (row, (if col >= n { col - n } else { 0 }) as usize)
        }),
{
    broadcast use vstd::std_specs::vec::axiom_spec_len;
    assert(v.schema.pillars.len() == v.ncols());
}

/// A count prefix performs a cursor move that many times: moving down
/// `a` rows and then `b` rows is moving down `a + b` rows at once.
pub proof fn lemma_down_count<D>(v: Viewer<D>, a: usize, b: usize)
    requires
        v.ncols() > 0 ==> v.schema.nrow > 0,
    ensures
        v.after_down(a).after_down(b) == v.after_down(a.saturating_add(b)),
{
}

/// Moving up `a` rows and then `b` rows is moving up `a + b` rows at once.
pub proof fn lemma_up_count<D>(v: Viewer<D>, a: usize, b: usize)
    ensures
        v.after_up(a).after_up(b) == v.after_up(a.saturating_add(b)),
{
}

/// Moving right `a` columns and then `b` columns is moving right `a + b`
/// columns at once.
pub proof fn lemma_right_count<D>(v: Viewer<D>, a: usize, b: usize)
    ensures
        v.after_right(a).after_right(b) == v.after_right(a.saturating_add(b)),
{
}

/// Moving left `a` columns and then `b` columns is moving left `a + b`
/// columns at once.
pub proof fn lemma_left_count<D>(v: Viewer<D>, a: usize, b: usize)
    ensures
        v.after_left(a).after_left(b) == v.after_left(a.saturating_add(b)),
{
}

/// Whether the selected cell is a cell of the table.
pub open spec fn in_table<D>(v: Viewer<D>) -> bool {
    &&& v.state.cell() is Some
    &&& v.sel().0 < v.schema.nrow
    &&& v.sel().1 < v.ncols()
}

/// The cursor never leaves the table: from a cell of the table, moving by
/// any count in any direction, or to the first or last row or the first
/// column, selects a cell of the table.
pub proof fn lemma_moves_stay_in_table<D>(v: Viewer<D>, n: usize)
    requires
        in_table(v),
    ensures
        in_table(v.after_down(n)),
        in_table(v.after_up(n)),
        in_table(v.after_right(n)),
        in_table(v.after_left(n)),
        in_table(v.after_first_row()),
        in_table(v.after_last_row()),
        in_table(v.after_row(n)),
        in_table(v.after_first_col()),
{
}

/// Scrolling by rows keeps a selected cursor on screen: after scrolling
/// down it is at or below the first row shown, and after scrolling up it is
/// at or above the last row shown (or the last row of the table).
pub proof fn lemma_scroll_keeps_cursor<D>(v: Viewer<D>, n: usize)
    requires
        v.state.cell() is Some,
    ensures
        ({
            let w = v.after_scroll_down(n);
            &&& w.state.cell() is Some
            &&& w.sel().0 >= w.state.offset
            &&& w.sel().1 == v.sel().1
        }),
        ({
            let w = v.after_scroll_up(n);
            &&& w.state.cell() is Some
            &&& w.sel().0 <= w.state.offset + w.visible_n_row.saturating_sub(1)
            &&& w.sel().0 <= w.schema.nrow || w.sel().0 == v.sel().0
            &&& w.sel().1 == v.sel().1
        }),
{
}

/// Paging keeps the cursor at the same place on screen: after scrolling
/// screenfuls up or down, the selected row is as far below the first row
/// shown as before; after scrolling screenfuls left, the selected column
/// is as far right of the first column shown as before, and after scrolling
/// right, as far left of the last column shown (provided the row positions
/// involved fit in a `usize`).
pub proof fn lemma_paging_keeps_screen_position<D>(v: Viewer<D>, n: usize)
    requires
        v.sel().0 >= v.state.offset,
        v.sel().0 - v.state.offset + v.schema.nrow <= usize::MAX,
        v.sel().1 >= v.col_start_idx,
        v.window_right_ok(n),
    ensures
        v.after_window_down(n).sel().0 - v.after_window_down(n).state.offset == v.sel().0 - v.state.offset,
        v.after_window_up(n).sel().0 - v.after_window_up(n).state.offset == v.sel().0 - v.state.offset,
        v.after_window_left(n).sel().1 - v.after_window_left(n).col_start_idx == v.sel().1 - v.col_start_idx,
        v.after_window_right(n).col_end_idx - v.after_window_right(n).sel().1 == v.col_end_idx - v.sel().1,
{
}

/// Scrolling by `vis` rows `a` times and then `b` times, each product
/// counted up to `usize::MAX`, adds up to scrolling `a + b` times at once
/// (the count itself also counted up to `usize::MAX`).
proof fn lemma_sat_mul_sum(vis: usize, a: usize, b: usize)
    ensures
        sat_mul(vis, a) == if vis * a > usize::MAX { usize::MAX as int } else { vis * a },
        sat_mul(vis, b) == if vis * b > usize::MAX { usize::MAX as int } else { vis * b },
        sat_mul(vis, a.saturating_add(b)) == if vis * a + vis * b > usize::MAX {
            usize::MAX as int
        } else {
            vis * a + vis * b
        },
        vis * a >= 0,
        vis * b >= 0,
{
    assert(vis * (a + b) == vis * a + vis * b) by (nonlinear_arith);
    assert(vis * a >= 0 && vis * b >= 0) by (nonlinear_arith);
    if a + b > usize::MAX {
        if vis == 0 {
            assert(vis * a == 0 && vis * b == 0 && vis * usize::MAX == 0) by (nonlinear_arith)
                requires vis == 0;
        } else {
            assert(vis * (a + b) >= a + b) by (nonlinear_arith)
                requires vis >= 1, a + b >= 0;
            assert(vis * usize::MAX >= usize::MAX) by (nonlinear_arith)
                requires vis >= 1;
        }
    }
}

/// A count prefix scrolls that many screenfuls: scrolling `a` screenfuls
/// down and then `b` is scrolling `a + b` at once.
pub proof fn lemma_window_down_count<D>(v: Viewer<D>, a: usize, b: usize)
    requires
        v.sel().0 >= v.state.offset,
        v.sel().0 - v.state.offset + v.schema.nrow <= usize::MAX,
    ensures
        v.after_window_down(a).after_window_down(b) == v.after_window_down(a.saturating_add(b)),
{
    lemma_sat_mul_sum(v.visible_n_row, a, b);
    let v1 = v.after_window_down(a);
    assert(v1.sel().0 == v1.state.offset + (v.sel().0 - v.state.offset));
    assert(v1.visible_n_row == v.visible_n_row);
    assert(v1.schema == v.schema);
}

/// Scrolling `a` screenfuls up and then `b` is scrolling `a + b` at once.
pub proof fn lemma_window_up_count<D>(v: Viewer<D>, a: usize, b: usize)
    requires
        v.sel().0 >= v.state.offset,
    ensures
        v.after_window_up(a).after_window_up(b) == v.after_window_up(a.saturating_add(b)),
{
    lemma_sat_mul_sum(v.visible_n_row, a, b);
    let v1 = v.after_window_up(a);
    assert(v1.sel().0 == v1.state.offset + (v.sel().0 - v.state.offset));
    assert(v1.visible_n_row == v.visible_n_row);
}

/// Scrolling `a` screenfuls right and then `b` is scrolling `a + b` at once.
pub proof fn lemma_window_right_count<D>(v: Viewer<D>, a: usize, b: usize)
    requires
        v.window_right_ok(a),
    ensures
        v.after_window_right(a).after_window_right(b) == v.after_window_right(a.saturating_add(b)),
{
    lemma_sat_mul_sum(v.visible_n_col, a, b);
    let v1 = v.after_window_right(a);
    assert(v1.col_end_idx - v1.sel().1 == v.col_end_idx - v.sel().1);
    assert(v1.visible_n_col == v.visible_n_col);
    assert(v1.schema == v.schema);
}

/// Scrolling `a` screenfuls left and then `b` is scrolling `a + b` at once.
pub proof fn lemma_window_left_count<D>(v: Viewer<D>, a: usize, b: usize)
    requires
        v.sel().1 >= v.col_start_idx,
    ensures
        v.after_window_left(a).after_window_left(b) == v.after_window_left(a.saturating_add(b)),
{
    lemma_sat_mul_sum(v.visible_n_col, a, b);
    let v1 = v.after_window_left(a);
    assert(v1.sel().1 - v1.col_start_idx == v.sel().1 - v.col_start_idx);
    assert(v1.visible_n_col == v.visible_n_col);
}

} // verus!
