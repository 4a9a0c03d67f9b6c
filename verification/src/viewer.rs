//! The state of one table view: which cell is selected, which rows and
//! columns are on screen, and how cells are truncated.
use std::ops::Range;
use vstd::prelude::*;
use crate::col_fit::{ColumnFit, FitStep};
use crate::col_layout::min_int;
use crate::schema::RSchema;

verus! {

/// Rows taken by the column headers (title and type lines).
pub const HEADER_HEIGHT: usize = 2;

/// Default number of characters a cell is truncated to.
pub const DEFAULT_TRUNCATION: usize = 40;

/// Selection and scroll offset of a table: the selected row and column,
/// if any, and the first row on screen.
pub struct TableCursor {
    pub offset: usize,
    pub selected: Option<usize>,
    pub selected_column: Option<usize>,
}

impl TableCursor {
    /// The selected cell, when both a row and a column are selected.
    pub open spec fn cell(&self) -> Option<(usize, usize)> {
        match (self.selected, self.selected_column) {
            (Some(r), Some(c)) => Some((r, c)),
            _ => None,
        }
    }

    /// The cursor after selecting `cell`: selecting nothing also scrolls back
    /// to the first row.
    pub open spec fn selecting(self, cell: Option<(usize, usize)>) -> TableCursor {
        match cell {
            Some((r, c)) => TableCursor { offset: self.offset, selected: Some(r), selected_column: Some(c) },
            None => TableCursor { offset: 0, selected: None, selected_column: None },
        }
    }

    /// No selection, first row on top.
    pub fn new() -> (r: TableCursor)
        ensures
            r == (TableCursor { offset: 0, selected: None, selected_column: None }),
    {
        TableCursor { offset: 0, selected: None, selected_column: None }
    }

    /// This cursor with `cell` selected.
    pub fn with_selected_cell(self, cell: Option<(usize, usize)>) -> (r: TableCursor)
        ensures
            r == (match cell {
                Some((row, col)) => TableCursor { offset: self.offset, selected: Some(row), selected_column: Some(col) },
                None => TableCursor { offset: self.offset, selected: None, selected_column: None },
            }),
    {
        let mut s = self;
        match cell {
            Some((row, col)) => {
                s.selected = Some(row);
                s.selected_column = Some(col);
            },
            None => {
                s.selected = None;
                s.selected_column = None;
            },
        }
        s
    }

    /// Selects `cell`.
    pub fn select_cell(&mut self, cell: Option<(usize, usize)>)
        ensures
            *final(self) == old(self).selecting(cell),
    {
        match cell {
            Some((row, col)) => {
                self.selected = Some(row);
                self.selected_column = Some(col);
            },
            None => {
                self.offset = 0;
                self.selected = None;
                self.selected_column = None;
            },
        }
    }

    /// The selected cell, when both a row and a column are selected.
    pub fn selected_cell(&self) -> (r: Option<(usize, usize)>)
        ensures
            r == self.cell(),
    {
        match (self.selected, self.selected_column) {
            (Some(row), Some(col)) => Some((row, col)),
            _ => None,
        }
    }

    /// The first row on screen.
    pub fn offset(&self) -> (r: usize)
        ensures
            r == self.offset,
    {
        self.offset
    }
}

/// Multiplication that stops at `usize::MAX`.
pub open spec fn sat_mul(a: usize, b: usize) -> usize {
    if a * b > usize::MAX {
        usize::MAX
    } else {
        (a * b) as usize
    }
}

/// Multiplication that stops at `usize::MAX`.
pub fn saturating_mul(a: usize, b: usize) -> (r: usize)
    ensures
        r == sat_mul(a, b),
{
    match a.checked_mul(b) {
        Some(v) => v,
        None => usize::MAX,
    }
}

/// One table view of an object `data`.
pub struct Viewer<D> {
    pub data: D,
    pub schema: RSchema,
    pub col_start_idx: usize,
    pub col_end_idx: usize,
    pub col_start_from_start: bool,
    pub truncate: bool,
    pub truncate_size: usize,
    pub state: TableCursor,
    pub visible_n_row: usize,
    pub visible_n_col: usize,
}

/// The rows of a body `available_height` rows high: as many rows as fit
/// below the headers, starting at the current offset unless the selected
/// row is above it (then it starts there) or below the last row that fits
/// (then the window ends at it).
pub open spec fn row_window(available_height: usize, nrow: usize, row: usize, offset: usize) -> (int, int) {
    let height = min_int(available_height - HEADER_HEIGHT, nrow as int);
    let height = if height < 0 { 0 } else { height };
    let start = if row < offset {
        row as int
    } else if height > 0 && row > offset + height - 1 {
        row + 1 - height
    } else {
        offset as int
    };
    (start, min_int(start + height, nrow as int))
}

impl<D> Viewer<D> {
    /// Number of displayed columns.
    pub open spec fn ncols(&self) -> nat {
        self.schema.ncols()
    }

    /// The selected cell, or the top-left cell when nothing is selected.
    pub open spec fn sel(&self) -> (usize, usize) {
        match self.state.cell() {
            Some(c) => c,
            None => (0, 0),
        }
    }

    /// This view with `cell` selected.
    pub open spec fn selecting(self, row: usize, col: usize) -> Self {
        Viewer { state: self.state.selecting(Some((row, col))), ..self }
    }

    /// A fresh view of `data`, whose displayed columns are `schema`: the top-left
    /// cell is selected when there is one, every cell is truncated to the
    /// default width, and nothing is known yet of the screen.
    pub fn new(data: D, schema: RSchema) -> (r: Self)
        ensures
            r.data == data,
            r.schema == schema,
            r.col_start_idx == 0,
            r.col_end_idx == 0,
            r.col_start_from_start,
            r.truncate,
            r.truncate_size == DEFAULT_TRUNCATION,
            r.state == (TableCursor {
                offset: 0,
                selected: if schema.nrow > 0 && schema.ncols() > 0 { Some(0usize) } else { None },
                selected_column: if schema.nrow > 0 && schema.ncols() > 0 { Some(0usize) } else { None },
            }),
            r.visible_n_row == 0,
            r.visible_n_col == 0,
    {
        let initial_cell = if schema.nrow > 0 && !schema.is_empty() {
            Some((0usize, 0usize))
        } else {
            None
        };
        Viewer {
            data,
            schema,
            col_start_idx: 0,
            col_end_idx: 0,
            col_start_from_start: true,
            truncate: true,
            truncate_size: DEFAULT_TRUNCATION,
            state: TableCursor::new().with_selected_cell(initial_cell),
            visible_n_row: 0,
            visible_n_col: 0,
        }
    }

    /// The selected cell, or the top-left cell when nothing is selected.
    pub fn selected_cell(&self) -> (r: (usize, usize))
        ensures
            r == self.sel(),
    {
        match self.state.selected_cell() {
            Some(c) => c,
            None => (0, 0),
        }
    }

    /// The cell whose value the view would open or copy: the selected cell,
    /// unless the table has no rows or no columns.
    pub fn selected_position(&self) -> (r: Option<(usize, usize)>)
        ensures
            r == (if self.ncols() == 0 || self.schema.nrow == 0 {
                None
            } else {
                Some(self.sel())
            }),
    {
        if self.schema.is_empty() || self.schema.nrow == 0 {
            return None;
        }
        Some(self.selected_cell())
    }

    /// Switches truncation of cells on or off.
    pub fn toggle_truncate(&mut self)
        ensures
            *final(self) == (Viewer { truncate: !old(self).truncate, ..*old(self) }),
    {
        self.truncate = !self.truncate;
    }

    /// The truncation width passed to the cell formatter, if truncation is on.
    pub fn truncation(&self) -> (r: Option<usize>)
        ensures
            r == (if self.truncate { Some(self.truncate_size) } else { None }),
    {
        if self.truncate {
            Some(self.truncate_size)
        } else {
            None
        }
    }

    /// The rows shown in a body `available_height` rows high.
    pub fn compute_row_window(&self, available_height: usize) -> (r: Range<usize>)
        ensures
            (r.start as int, r.end as int) == row_window(available_height, self.schema.nrow, self.sel().0, self.state.offset),
    {
        let nrow = self.schema.nrow;
        let h = available_height.saturating_sub(HEADER_HEIGHT);
        let height = if h < nrow { h } else { nrow };
        let (absolute_row, _) = self.selected_cell();
        let current_offset = self.state.offset();
        let offset = if absolute_row < current_offset {
            absolute_row
        } else if height > 0 && absolute_row - current_offset > height - 1 {
            absolute_row - (height - 1)
        } else {
            current_offset
        };
        let end = if offset >= nrow {
            nrow
        } else if height >= nrow - offset {
            nrow
        } else {
            offset + height
        };
        offset..end
    }

    /// The selection relative to the top-left cell on screen, for drawing.
    pub fn relative_state(&self, row_window: &Range<usize>) -> (r: TableCursor)
        ensures
            r == (TableCursor {
                offset: 0,
                selected: Some(self.sel().0.saturating_sub(row_window.start)),
                selected_column: Some(self.sel().1.saturating_sub(self.col_start_idx)),
            }),
    {
        let (absolute_row, absolute_col) = self.selected_cell();
        let relative_row = absolute_row.saturating_sub(row_window.start);
        let relative_col = absolute_col.saturating_sub(self.col_start_idx);
        TableCursor::new().with_selected_cell(Some((relative_row, relative_col)))
    }

    /// Starts drawing a frame whose body is `body_height` rows high: scrolls
    /// so that the selected row is on screen and returns the rows shown.
    pub fn begin_frame(&mut self, body_height: usize) -> (r: Range<usize>)
        ensures
            (r.start as int, r.end as int) == row_window(body_height, old(self).schema.nrow, old(self).sel().0, old(self).state.offset),
            *final(self) == (Viewer { state: TableCursor { offset: r.start, ..old(self).state }, ..*old(self) }),
    {
        let row_window = self.compute_row_window(body_height);
        self.state.offset = row_window.start;
        row_window
    }

    /// Starts choosing the columns shown in `viewable_width` columns of room,
    /// from the columns on screen now and the side the view is anchored at.
    /// The run asks for the width of one column at a time; answered with the
    /// widths `w` of the columns, it ends with the columns
    /// `visible_range(w, ..)` of [`crate::col_layout`].
    pub fn start_layout(&self, viewable_width: usize) -> (r: (ColumnFit, FitStep))
        ensures
            r.0.wf(),
            r.0.ncols() == self.ncols(),
            forall|i: int| 0 <= i < self.ncols() ==> #[trigger] r.0.name_lens@[i] == self.schema.name_len(i),
            r.0.shown.start == self.col_start_idx,
            r.0.shown.end == self.col_end_idx,
            r.0.from_start == self.col_start_from_start,
            r.0.limit == viewable_width,
            r.0.announces(r.1),
            forall|w: Seq<usize>| w.len() == self.ncols() ==> #[trigger] r.0.inv(w),
    {
        ColumnFit::new(self.schema.name_lens(), self.col_start_idx..self.col_end_idx, self.col_start_from_start, viewable_width)
    }

    /// The view once the columns `col_range` are drawn in a table
    /// `table_height` rows high: those columns are the ones on screen and a
    /// selected column off screen moves to the nearest one on screen.
    pub open spec fn after_frame(self, col_range: Range<usize>, table_height: usize) -> Self {
        let start = col_range.start;
        let end = col_range.end.saturating_sub(1);
        let state = match self.state.cell() {
            Some((row, col)) => {
                let col = if col < start { start } else if col > end { end } else { col };
                self.state.selecting(Some((row, col)))
            },
            None => self.state,
        };
        Viewer {
            col_start_idx: start,
            col_end_idx: end,
            state,
            visible_n_row: table_height.saturating_sub(HEADER_HEIGHT),
            visible_n_col: (col_range.end - col_range.start) as usize,
            ..self
        }
    }

    /// Finishes a frame in which the columns `col_range` were drawn in a
    /// table `table_height` rows high.
    pub fn finish_frame(&mut self, col_range: Range<usize>, table_height: usize)
        requires
            col_range.start <= col_range.end,
        ensures
            *final(self) == old(self).after_frame(col_range, table_height),
    {
        self.col_start_idx = col_range.start;
        self.col_end_idx = col_range.end.saturating_sub(1);
        if let Some((row_position, col_position)) = self.state.selected_cell() {
            let new_col_position = if col_position < self.col_start_idx {
                self.col_start_idx
            } else if col_position > self.col_end_idx {
                self.col_end_idx
            } else {
                col_position
            };
            self.state.select_cell(Some((row_position, new_col_position)));
        }
        self.visible_n_row = table_height.saturating_sub(HEADER_HEIGHT);
        self.visible_n_col = col_range.end - col_range.start;
    }
}

/// The rows shown always keep the cursor on screen: the window starts at
/// or above the selected row, ends at or before the last row, holds no more
/// rows than fit below the headers, and, when a row fits and the selected
/// row is a row of the table, the selected row is inside it.
pub proof fn lemma_row_window_shows_cursor(available_height: usize, nrow: usize, row: usize, offset: usize)
    ensures
        ({
            let (start, end) = row_window(available_height, nrow, row, offset);
            &&& start <= row
            &&& end <= nrow
            &&& end - start <= available_height.saturating_sub(HEADER_HEIGHT)
            &&& (available_height > HEADER_HEIGHT && row < nrow) ==> start <= row < end
        }),
{
}

/// After a frame is drawn, a selected column is one of the columns on
/// screen, provided the columns drawn are a non-empty range or none at all.
pub proof fn lemma_frame_shows_cursor<D>(v: Viewer<D>, col_range: Range<usize>, table_height: usize)
    requires
        col_range.start < col_range.end || (col_range.start == 0 && col_range.end == 0),
        v.state.cell() is Some,
    ensures
        ({
            let w = v.after_frame(col_range, table_height);
            &&& w.state.cell() is Some
            &&& w.col_start_idx <= w.sel().1 <= w.col_end_idx
            &&& w.sel().0 == v.sel().0
        }),
{
}

} // verus!
