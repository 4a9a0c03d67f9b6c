//! What keys and mouse wheel events do.
//!
//! A key either changes the application state directly, or asks the caller
//! to copy the selected cell or open it in a view of its own, which need the
//! R session and the clipboard.
use vstd::prelude::*;
use crate::app::App;
use crate::movement::{
    lemma_down_count, lemma_left_count, lemma_right_count, lemma_up_count, lemma_window_down_count, lemma_window_left_count,
    lemma_window_right_count, lemma_window_up_count,
};
use crate::viewer::{saturating_mul, sat_mul, Viewer};

verus! {

/// A key, as far as the viewer tells keys apart.
#[derive(PartialEq, Eq, Structural, Clone, Copy)]
pub enum KeyCode {
    Char(char),
    Up,
    Down,
    Left,
    Right,
    Enter,
    Esc,
    Backspace,
    Other,
}

/// A key press and whether Shift was held.
#[derive(PartialEq, Eq, Structural, Clone, Copy)]
pub struct KeyEvent {
    pub code: KeyCode,
    pub shift: bool,
}

/// What the caller still has to do after a key.
#[derive(PartialEq, Eq, Structural, Clone, Copy)]
pub enum Action {
    /// Nothing more.
    Nothing,
    /// Copy the selected cell to the clipboard.
    Yank,
    /// Open the selected cell in a view of its own.
    OpenCell,
}

/// A mouse wheel event, as far as the viewer tells them apart.
#[derive(PartialEq, Eq, Structural, Clone, Copy)]
pub enum MouseKind {
    ScrollDown,
    ScrollUp,
    Other,
}

/// A mouse event and whether Shift was held.
#[derive(PartialEq, Eq, Structural, Clone, Copy)]
pub struct MouseEvent {
    pub kind: MouseKind,
    pub shift: bool,
}

/// The value of a decimal digit.
pub open spec fn digit_value(c: char) -> Option<usize> {
    if '0' <= c && c <= '9' {
        Some((c as u32 - 48) as usize)
    } else {
        None
    }
}

/// The count after typing digit `d`: ten times the count so far plus `d`,
/// stopping at `usize::MAX`.
pub open spec fn typed_next(typed: Option<usize>, d: usize) -> usize {
    match typed {
        Some(n) => sat_mul(n, 10).saturating_add(d),
        None => d,
    }
}

/// The truncation width `<n>t` may set: at least 30 characters.
pub const MIN_TRUNCATION: usize = 30;

impl<D> App<D> {
    /// The count a command applies with: the number typed, or one.
    pub open spec fn count(self) -> usize {
        match self.typed_num {
            Some(n) => n,
            None => 1,
        }
    }

    /// The view after a command key (not a digit) with the help screen hidden.
    pub open spec fn command_view(self, key: KeyEvent) -> Viewer<D> {
        let v = self.view;
        let n = self.count();
        match key.code {
            KeyCode::Char('j') => v.after_down(n),
            KeyCode::Down if !key.shift => v.after_down(n),
            KeyCode::Char('k') => v.after_up(n),
            KeyCode::Up if !key.shift => v.after_up(n),
            KeyCode::Char('l') => v.after_right(n),
            KeyCode::Right if !key.shift => v.after_right(n),
            KeyCode::Char('h') => v.after_left(n),
            KeyCode::Left if !key.shift => v.after_left(n),
            KeyCode::Char('J') | KeyCode::Down => v.after_window_down(n),
            KeyCode::Char('K') | KeyCode::Up => v.after_window_up(n),
            KeyCode::Char('L') | KeyCode::Right => v.after_window_right(n),
            KeyCode::Char('H') | KeyCode::Left => v.after_window_left(n),
            KeyCode::Char('^') => v.after_first_col(),
            KeyCode::Char('$') => v.after_last_col(),
            KeyCode::Char('g') => v.after_first_row(),
            KeyCode::Char('G') => match self.typed_num {
                Some(row) => v.after_row(row.saturating_sub(1)),
                None => v.after_last_row(),
            },
            KeyCode::Char('t') => match self.typed_num {
                Some(width) if width >= MIN_TRUNCATION => Viewer { truncate_size: width, truncate: true, ..v },
                _ => Viewer { truncate: !v.truncate, ..v },
            },
            KeyCode::Esc | KeyCode::Backspace => if self.stack@.len() > 0 {
                self.stack@.last()
            } else {
                v
            },
            _ => v,
        }
    }

    /// Whether a key goes back to the previous view.
    pub open spec fn goes_back(self, key: KeyEvent) -> bool {
        !self.show_help && (key.code == KeyCode::Esc || key.code == KeyCode::Backspace) && self.stack@.len() > 0
    }

    /// Whether a key is a digit typed with the help screen hidden.
    pub open spec fn types_digit(self, key: KeyEvent) -> bool {
        !self.show_help && (key.code matches KeyCode::Char(c) && digit_value(c) is Some)
    }

    /// The view after a key.
    pub open spec fn view_after(self, key: KeyEvent) -> Viewer<D> {
        if self.show_help || self.types_digit(key) || key.code == KeyCode::Char('q') || key.code == KeyCode::Char('?') {
            self.view
        } else {
            self.command_view(key)
        }
    }

    /// The views kept to come back to, after a key.
    pub open spec fn stack_after(self, key: KeyEvent) -> Seq<Viewer<D>> {
        if self.goes_back(key) {
            self.stack@.drop_last()
        } else {
            self.stack@
        }
    }

    /// The count typed, after a key: a digit extends it, the help screen
    /// keeps it, any other key uses it up.
    pub open spec fn typed_after(self, key: KeyEvent) -> Option<usize> {
        if self.show_help {
            self.typed_num
        } else {
            match key.code {
                KeyCode::Char(c) => match digit_value(c) {
                    Some(d) => Some(typed_next(self.typed_num, d)),
                    None => None,
                },
                _ => None,
            }
        }
    }

    /// Whether the help screen is shown after a key: Esc closes it, `?` opens it.
    pub open spec fn help_after(self, key: KeyEvent) -> bool {
        if self.show_help {
            key.code != KeyCode::Esc
        } else {
            key.code == KeyCode::Char('?')
        }
    }

    /// Whether the application stops after a key.
    pub open spec fn quit_after(self, key: KeyEvent) -> bool {
        self.should_quit || (!self.show_help && key.code == KeyCode::Char('q'))
    }

    /// What the caller must do after a key: `y` copies the selected cell,
    /// Enter opens it; both only with the help screen hidden.
    pub open spec fn action_after(self, key: KeyEvent) -> Action {
        if self.show_help {
            Action::Nothing
        } else if key.code == KeyCode::Char('y') {
            Action::Yank
        } else if key.code == KeyCode::Enter {
            Action::OpenCell
        } else {
            Action::Nothing
        }
    }

    /// Whether handling `key` stays within what the view's arithmetic allows:
    /// moving down needs a row when there is a column, and paging needs the
    /// cursor's place on screen to stay countable (see
    /// [`Viewer::window_right_ok`] for paging right).
    pub open spec fn key_safe(self, key: KeyEvent) -> bool {
        let v = self.view;
        let down_ok = v.ncols() > 0 ==> v.schema.nrow > 0;
        let page_down_ok = v.sel().0 >= v.state.offset && v.sel().0 - v.state.offset + v.schema.nrow <= usize::MAX;
        let page_up_ok = v.sel().0 >= v.state.offset;
        let page_right_ok = v.window_right_ok(self.count());
        let page_left_ok = v.sel().1 >= v.col_start_idx;
        if self.show_help {
            true
        } else {
            match key.code {
                KeyCode::Char('j') => down_ok,
                KeyCode::Down => if key.shift { page_down_ok } else { down_ok },
                KeyCode::Char('J') => page_down_ok,
                KeyCode::Char('K') => page_up_ok,
                KeyCode::Up => key.shift ==> page_up_ok,
                KeyCode::Char('L') => page_right_ok,
                KeyCode::Right => key.shift ==> page_right_ok,
                KeyCode::Char('H') => page_left_ok,
                KeyCode::Left => key.shift ==> page_left_ok,
                _ => true,
            }
        }
    }

    /// Whether handling `key` stays within what the view's arithmetic allows.
    pub fn key_is_safe(&self, key: KeyEvent) -> (r: bool)
        ensures
            r == self.key_safe(key),
    {
        let v = &self.view;
        if self.show_help {
            return true;
        }
        let (row, col) = v.selected_cell();
        let down_ok = v.schema.is_empty() || v.schema.nrow > 0;
        let page_down_ok = row >= v.state.offset && row - v.state.offset <= usize::MAX - v.schema.nrow;
        let page_up_ok = row >= v.state.offset;
        let n = match self.typed_num {
            Some(n) => n,
            None => 1,
        };
        let page_right_ok = if v.schema.is_empty() || col > v.col_end_idx {
            false
        } else {
            let sum = v.col_end_idx.saturating_add(saturating_mul(v.visible_n_col, n));
            let new_col = if sum >= v.schema.len() { v.schema.len() - 1 } else { sum };
            v.col_end_idx - col <= new_col
        };
        let page_left_ok = col >= v.col_start_idx;
        match key.code {
            KeyCode::Char('j') => down_ok,
            KeyCode::Down => if key.shift { page_down_ok } else { down_ok },
            KeyCode::Char('J') => page_down_ok,
            KeyCode::Char('K') => page_up_ok,
            KeyCode::Up => !key.shift || page_up_ok,
            KeyCode::Char('L') => page_right_ok,
            KeyCode::Right => !key.shift || page_right_ok,
            KeyCode::Char('H') => page_left_ok,
            KeyCode::Left => !key.shift || page_left_ok,
            _ => true,
        }
    }

    /// Whether handling a mouse event stays within what the view's arithmetic allows.
    pub open spec fn mouse_safe(self, event: MouseEvent) -> bool {
        (!self.show_help && event.kind == MouseKind::ScrollDown && event.shift) ==> self.view.ncols() > 0
    }

    /// The view after a mouse event: the wheel scrolls rows, or columns with Shift.
    pub open spec fn view_after_mouse(self, event: MouseEvent) -> Viewer<D> {
        if self.show_help {
            self.view
        } else {
            match event.kind {
                MouseKind::ScrollDown => if event.shift {
                    self.view.after_scroll_right(1)
                } else {
                    self.view.after_scroll_down(1)
                },
                MouseKind::ScrollUp => if event.shift {
                    self.view.after_scroll_left(1)
                } else {
                    self.view.after_scroll_up(1)
                },
                MouseKind::Other => self.view,
            }
        }
    }
}

/// The value of a decimal digit.
pub fn to_digit(c: char) -> (r: Option<usize>)
    ensures
        r == digit_value(c),
{
    if '0' <= c && c <= '9' {
        Some((c as u32 - 48) as usize)
    } else {
        None
    }
}

/// Handles a key press.  With the help screen shown only Esc does anything
/// (it closes the help).  Otherwise digits build up a count, and the other
/// keys move the cursor, scroll, toggle truncation, go back, quit or show
/// help, using the count where it applies; copying and opening the
/// selected cell are left to the caller, as the action returned.
pub fn update<D>(app: &mut App<D>, key_event: KeyEvent) -> (r: Action)
    requires
        old(app).key_safe(key_event),
    ensures
        final(app).view == old(app).view_after(key_event),
        final(app).stack@ == old(app).stack_after(key_event),
        final(app).typed_num == old(app).typed_after(key_event),
        final(app).show_help == old(app).help_after(key_event),
        final(app).should_quit == old(app).quit_after(key_event),
        r == old(app).action_after(key_event),
{
    if app.show_help {
        if key_event.code == KeyCode::Esc {
            app.toggle_help();
        }
        return Action::Nothing;
    }
    let mut action = Action::Nothing;
    match key_event.code {
        KeyCode::Char('q') => app.quit(),
        KeyCode::Char('?') => app.toggle_help(),
        KeyCode::Char(c) if to_digit(c).is_some() => {
            let d = match to_digit(c) {
                Some(d) => d,
                None => 0,
            };
            app.typed_num = Some(
                match app.typed_num {
                    Some(n) => saturating_mul(n, 10).saturating_add(d),
                    None => d,
                },
            );
            return Action::Nothing;
        },
        KeyCode::Char('j') => {
            let n = match app.get_current_num() {
                Some(n) => n,
                None => 1,
            };
            app.view.move_cursor_down(n);
        },
        KeyCode::Down if !key_event.shift => {
            let n = match app.get_current_num() {
                Some(n) => n,
                None => 1,
            };
            app.view.move_cursor_down(n);
        },
        KeyCode::Char('k') => {
            let n = match app.get_current_num() {
                Some(n) => n,
                None => 1,
            };
            app.view.move_cursor_up(n);
        },
        KeyCode::Up if !key_event.shift => {
            let n = match app.get_current_num() {
                Some(n) => n,
                None => 1,
            };
            app.view.move_cursor_up(n);
        },
        KeyCode::Char('l') => {
            let n = match app.get_current_num() {
                Some(n) => n,
                None => 1,
            };
            app.view.move_cursor_right(n);
        },
        KeyCode::Right if !key_event.shift => {
            let n = match app.get_current_num() {
                Some(n) => n,
                None => 1,
            };
            app.view.move_cursor_right(n);
        },
        KeyCode::Char('h') => {
            let n = match app.get_current_num() {
                Some(n) => n,
                None => 1,
            };
            app.view.move_cursor_left(n);
        },
        KeyCode::Left if !key_event.shift => {
            let n = match app.get_current_num() {
                Some(n) => n,
                None => 1,
            };
            app.view.move_cursor_left(n);
        },
        KeyCode::Char('J') | KeyCode::Down => {
            let n = match app.get_current_num() {
                Some(n) => n,
                None => 1,
            };
            app.view.scroll_window_down(n);
        },
        KeyCode::Char('K') | KeyCode::Up => {
            let n = match app.get_current_num() {
                Some(n) => n,
                None => 1,
            };
            app.view.scroll_window_up(n);
        },
        KeyCode::Char('L') | KeyCode::Right => {
            let n = match app.get_current_num() {
                Some(n) => n,
                None => 1,
            };
            app.view.scroll_window_right(n);
        },
        KeyCode::Char('H') | KeyCode::Left => {
            let n = match app.get_current_num() {
                Some(n) => n,
                None => 1,
            };
            app.view.scroll_window_left(n);
        },
        KeyCode::Char('^') => app.view.move_cursor_to_first_col(),
        KeyCode::Char('$') => app.view.move_cursor_to_last_col(),
        KeyCode::Char('g') => app.view.move_cursor_to_first_row(),
        KeyCode::Char('G') => match app.get_current_num() {
            Some(row) => app.view.move_cursor_to_row(row.saturating_sub(1)),
            None => app.view.move_cursor_to_last_row(),
        },
        KeyCode::Char('t') => {
            match app.get_current_num() {
                Some(n) if n >= MIN_TRUNCATION => {
                    app.view.truncate_size = n;
                    app.view.truncate = true;
                },
                _ => app.view.toggle_truncate(),
            }
        },
        KeyCode::Char('y') => {
            action = Action::Yank;
        },
        KeyCode::Enter => {
            action = Action::OpenCell;
        },
        KeyCode::Esc | KeyCode::Backspace => app.pop_viewer(),
        _ => {},
    }
    app.typed_num = None;
    action
}

/// Handles a mouse event: the wheel scrolls rows, or columns with Shift;
/// nothing happens while the help screen is shown.
pub fn update_mouse<D>(app: &mut App<D>, event: MouseEvent)
    requires
        old(app).mouse_safe(event),
    ensures
        final(app).view == old(app).view_after_mouse(event),
        final(app).stack == old(app).stack,
        final(app).typed_num == old(app).typed_num,
        final(app).show_help == old(app).show_help,
        final(app).should_quit == old(app).should_quit,
{
    if app.show_help {
        return;
    }
    match event.kind {
        MouseKind::ScrollDown if event.shift => app.view.scroll_right(1),
        MouseKind::ScrollUp if event.shift => app.view.scroll_left(1),
        MouseKind::ScrollUp => app.view.scroll_up(1),
        MouseKind::ScrollDown => app.view.scroll_down(1),
        _ => {},
    }
}

/// While the help screen is shown, every key but Esc leaves the
/// application as it is, and Esc only closes the help screen.
pub proof fn lemma_help_screen_captures_keys<D>(app: App<D>, key: KeyEvent)
    requires
        app.show_help,
    ensures
        app.view_after(key) == app.view,
        app.stack_after(key) == app.stack@,
        app.typed_after(key) == app.typed_num,
        app.quit_after(key) == app.should_quit,
        app.action_after(key) == Action::Nothing,
        app.help_after(key) == (key.code != KeyCode::Esc),
{
}

/// The value of the digits `ds` read as a decimal number, most significant first.
pub open spec fn digits_value(ds: Seq<usize>) -> int
    decreases ds.len(),
{
    if ds.len() == 0 {
        0
    } else {
        digits_value(ds.drop_last()) * 10 + ds.last()
    }
}

/// The count after typing the digits `ds` one by one.
pub open spec fn typed_digits(ds: Seq<usize>) -> Option<usize>
    decreases ds.len(),
{
    if ds.len() == 0 {
        None
    } else {
        Some(typed_next(typed_digits(ds.drop_last()), ds.last()))
    }
}

proof fn lemma_digits_value_monotone(ds: Seq<usize>)
    requires
        ds.len() > 0,
        forall|i: int| 0 <= i < ds.len() ==> ds[i] < 10,
    ensures
        digits_value(ds.drop_last()) <= digits_value(ds),
        digits_value(ds) >= 0,
    decreases ds.len(),
{
    if ds.len() > 1 {
        lemma_digits_value_monotone(ds.drop_last());
    }
}

/// Typing digits builds the count they spell: after typing the decimal
/// digits `ds` (no more than fit a `usize`), the count is their value.
pub proof fn lemma_typed_digits(ds: Seq<usize>)
    requires
        ds.len() > 0,
        forall|i: int| 0 <= i < ds.len() ==> ds[i] < 10,
        digits_value(ds) <= usize::MAX,
    ensures
        typed_digits(ds) == Some(digits_value(ds) as usize),
    decreases ds.len(),
{
    lemma_digits_value_monotone(ds);
    if ds.len() > 1 {
        let front = ds.drop_last();
        assert forall|i: int| 0 <= i < front.len() implies front[i] < 10 by {
            assert(front[i] == ds[i]);
        }
        lemma_typed_digits(front);
        let n = digits_value(front);
        assert(n * 10 + ds.last() <= usize::MAX);
        assert(sat_mul(n as usize, 10) == n * 10);
    }
}

/// Switching the help screen twice leaves it as it was.
pub proof fn lemma_toggle_help_twice<D>(app: App<D>)
    ensures
        (App { show_help: !(App { show_help: !app.show_help, ..app }).show_help, ..app }) == app,
{
}

/// Switching truncation twice leaves it as it was.
pub proof fn lemma_toggle_truncate_twice<D>(v: Viewer<D>)
    ensures
        (Viewer { truncate: !(Viewer { truncate: !v.truncate, ..v }).truncate, ..v }) == v,
{
}

/// Whether `key` moves the cursor by one row or column per count: `hjkl`,
/// or an arrow key without Shift.
pub open spec fn is_step_key(key: KeyEvent) -> bool {
    ||| key.code == KeyCode::Char('h') || key.code == KeyCode::Char('j')
    ||| key.code == KeyCode::Char('k') || key.code == KeyCode::Char('l')
    ||| (!key.shift && (key.code == KeyCode::Left || key.code == KeyCode::Down || key.code == KeyCode::Up
        || key.code == KeyCode::Right))
}

impl<D> App<D> {
    /// The view after pressing `key` `n` times in a row, with no count typed.
    pub open spec fn pressed_times(self, key: KeyEvent, n: nat) -> Viewer<D>
        decreases n,
    {
        if n == 0 {
            self.view
        } else {
            (App { view: self.pressed_times(key, (n - 1) as nat), typed_num: None, ..self }).view_after(key)
        }
    }
}

/// A count typed before a movement key repeats it: pressing `hjkl` (or an
/// arrow key) after typing `n` (at least one) moves the cursor as pressing
/// that key `n` times with no count does.
pub proof fn lemma_count_repeats_moves<D>(app: App<D>, key: KeyEvent, n: usize)
    requires
        !app.show_help,
        is_step_key(key),
        n >= 1,
        app.view.ncols() > 0 ==> app.view.schema.nrow > 0,
    ensures
        (App { typed_num: Some(n), ..app }).view_after(key) == (App { typed_num: None, ..app }).pressed_times(key, n as nat),
    decreases n,
{
    let plain = App { typed_num: None, ..app };
    let v = app.view;
    if n > 1 {
        lemma_count_repeats_moves(app, key, (n - 1) as usize);
        let m = (n - 1) as usize;
        assert(m + 1 == n);
        if key.code == KeyCode::Char('h') || key.code == KeyCode::Left {
            lemma_left_count(v, m, 1);
        } else if key.code == KeyCode::Char('j') || key.code == KeyCode::Down {
            lemma_down_count(v, m, 1);
        } else if key.code == KeyCode::Char('k') || key.code == KeyCode::Up {
            lemma_up_count(v, m, 1);
        } else {
            lemma_right_count(v, m, 1);
        }
        assert(plain.pressed_times(key, n as nat) == (App { view: plain.pressed_times(key, m as nat), typed_num: None, ..plain }).view_after(key));
    } else {
        assert(plain.pressed_times(key, 0) == v);
    }
}

/// Whether `key` scrolls one screenful per count: `HJKL`, or an arrow key
/// with Shift.
pub open spec fn is_page_key(key: KeyEvent) -> bool {
    ||| key.code == KeyCode::Char('H') || key.code == KeyCode::Char('J')
    ||| key.code == KeyCode::Char('K') || key.code == KeyCode::Char('L')
    ||| (key.shift && (key.code == KeyCode::Left || key.code == KeyCode::Down || key.code == KeyCode::Up
        || key.code == KeyCode::Right))
}

/// Paging right by a larger count is possible whenever paging right once is.
proof fn lemma_window_right_ok_grows<D>(v: Viewer<D>, m: usize)
    requires
        v.window_right_ok(1),
        m >= 1,
    ensures
        v.window_right_ok(m),
{
    let vis = v.visible_n_col;
    assert(vis * m >= vis * 1) by (nonlinear_arith)
        requires m >= 1;
}

/// A count typed before a paging key repeats it: pressing `HJKL` (or a
/// Shift+arrow key) after typing `n` (at least one) scrolls as pressing that
/// key `n` times with no count does, on any view where one page in that
/// direction keeps the cursor's place on screen countable.
pub proof fn lemma_count_repeats_pages<D>(app: App<D>, key: KeyEvent, n: usize)
    requires
        !app.show_help,
        is_page_key(key),
        n >= 1,
        (key.code == KeyCode::Char('J') || key.code == KeyCode::Down) ==> (app.view.sel().0 >= app.view.state.offset
            && app.view.sel().0 - app.view.state.offset + app.view.schema.nrow <= usize::MAX),
        (key.code == KeyCode::Char('K') || key.code == KeyCode::Up) ==> app.view.sel().0 >= app.view.state.offset,
        (key.code == KeyCode::Char('H') || key.code == KeyCode::Left) ==> app.view.sel().1 >= app.view.col_start_idx,
        (key.code == KeyCode::Char('L') || key.code == KeyCode::Right) ==> app.view.window_right_ok(1),
    ensures
        (App { typed_num: Some(n), ..app }).view_after(key) == (App { typed_num: None, ..app }).pressed_times(key, n as nat),
    decreases n,
{
    let plain = App { typed_num: None, ..app };
    let v = app.view;
    if n > 1 {
        lemma_count_repeats_pages(app, key, (n - 1) as usize);
        let m = (n - 1) as usize;
        assert(m + 1 == n);
        if key.code == KeyCode::Char('H') || key.code == KeyCode::Left {
            lemma_window_left_count(v, m, 1);
        } else if key.code == KeyCode::Char('J') || key.code == KeyCode::Down {
            lemma_window_down_count(v, m, 1);
        } else if key.code == KeyCode::Char('K') || key.code == KeyCode::Up {
            lemma_window_up_count(v, m, 1);
        } else {
            lemma_window_right_ok_grows(v, m);
            lemma_window_right_count(v, m, 1);
        }
        assert(plain.pressed_times(key, n as nat) == (App { view: plain.pressed_times(key, m as nat), typed_num: None, ..plain }).view_after(key));
    } else {
        assert(plain.pressed_times(key, 0) == v);
    }
}

/// `g` selects the first row, `<n>G` the `n`-th row (the last row when the
/// table is shorter; `0G` the first), and `G` alone the last row; each keeps
/// the selected column and changes no other part of the view but the
/// selection.
pub proof fn lemma_row_jumps<D>(app: App<D>, shift: bool)
    requires
        !app.show_help,
        app.view.ncols() > 0,
        app.view.schema.nrow > 0,
    ensures
        ({
            let v = app.view;
            let first = app.view_after(KeyEvent { code: KeyCode::Char('g'), shift });
            let jump = app.view_after(KeyEvent { code: KeyCode::Char('G'), shift });
            let row: int = match app.typed_num {
                Some(n) => if n == 0 { 0 } else if n <= v.schema.nrow { n - 1 } else { v.schema.nrow - 1 },
                None => v.schema.nrow - 1,
            };
            &&& first.state.cell() == Some((0usize, v.sel().1))
            &&& jump.state.cell() == Some((row as usize, v.sel().1))
            &&& first.state.offset == v.state.offset && jump.state.offset == v.state.offset
            &&& first.col_start_idx == v.col_start_idx && jump.col_start_idx == v.col_start_idx
            &&& first.col_end_idx == v.col_end_idx && jump.col_end_idx == v.col_end_idx
        }),
{
}

/// `<n>t` with `n` of at least 30 truncates cells to `n` characters and
/// turns truncation on; `t` alone, or with a smaller count, switches
/// truncation on or off and keeps the width.
pub proof fn lemma_truncation_key<D>(app: App<D>, shift: bool)
    requires
        !app.show_help,
    ensures
        ({
            let v = app.view;
            let w = app.view_after(KeyEvent { code: KeyCode::Char('t'), shift });
            &&& app.typed_num matches Some(n) ==> (n >= 30 ==> (w.truncate && w.truncate_size == n))
            &&& app.typed_num matches Some(n) ==> (n < 30 ==> (w.truncate == !v.truncate && w.truncate_size == v.truncate_size))
            &&& app.typed_num is None ==> (w.truncate == !v.truncate && w.truncate_size == v.truncate_size)
            &&& w.state == v.state && w.col_start_idx == v.col_start_idx && w.col_end_idx == v.col_end_idx
        }),
{
}

} // verus!
