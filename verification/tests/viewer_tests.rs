use legs::app::App;
use legs::schema::{RSchema, RShape};
use legs::viewer::{saturating_mul, TableCursor, Viewer, DEFAULT_TRUNCATION, HEADER_HEIGHT};

fn frame(ncols: usize) -> RShape {
    RShape::Frame { columns: (0..ncols).map(|i| (format!("c{i}"), RShape::Other)).collect() }
}

fn viewer(ncols: usize, nrow: usize) -> Viewer<()> {
    Viewer::new((), RSchema::build(&frame(ncols), nrow))
}

#[test]
fn new_viewer_selects_top_left() {
    let v = viewer(3, 10);
    assert_eq!(v.selected_cell(), (0, 0));
    assert_eq!(v.state.selected_cell(), Some((0, 0)));
    assert!(v.truncate);
    assert_eq!(v.truncate_size, DEFAULT_TRUNCATION);
    assert_eq!(v.truncation(), Some(40));
    assert_eq!(v.selected_position(), Some((0, 0)));
}

#[test]
fn empty_viewer_selects_nothing() {
    let v = viewer(3, 0);
    assert_eq!(v.state.selected_cell(), None);
    assert_eq!(v.selected_cell(), (0, 0));
    assert_eq!(v.selected_position(), None);
}

#[test]
fn cursor_moves_stop_at_edges() {
    let mut v = viewer(4, 10);
    v.move_cursor_down(3);
    assert_eq!(v.selected_cell(), (3, 0));
    v.move_cursor_down(100);
    assert_eq!(v.selected_cell(), (9, 0));
    v.move_cursor_up(4);
    assert_eq!(v.selected_cell(), (5, 0));
    v.move_cursor_up(100);
    assert_eq!(v.selected_cell(), (0, 0));
    v.move_cursor_right(2);
    assert_eq!(v.selected_cell(), (0, 2));
    assert_eq!(v.col_end_idx, 2);
    assert!(!v.col_start_from_start);
    v.move_cursor_right(usize::MAX);
    assert_eq!(v.selected_cell(), (0, 3));
    v.move_cursor_left(1);
    assert_eq!(v.selected_cell(), (0, 2));
    v.col_start_idx = 2;
    v.move_cursor_left(5);
    assert_eq!(v.selected_cell(), (0, 0));
    assert_eq!(v.col_start_idx, 0);
    assert!(v.col_start_from_start);
}

#[test]
fn count_prefix_equals_repeated_moves() {
    let mut a = viewer(4, 50);
    let mut b = viewer(4, 50);
    a.move_cursor_down(7);
    for _ in 0..7 {
        b.move_cursor_down(1);
    }
    assert_eq!(a.selected_cell(), b.selected_cell());
    a.move_cursor_right(3);
    for _ in 0..3 {
        b.move_cursor_right(1);
    }
    assert_eq!(a.selected_cell(), b.selected_cell());
    assert_eq!(a.col_end_idx, b.col_end_idx);
}

#[test]
fn jumps_to_rows_and_columns() {
    let mut v = viewer(4, 10);
    v.move_cursor_to_last_row();
    assert_eq!(v.selected_cell(), (9, 0));
    v.move_cursor_to_first_row();
    assert_eq!(v.selected_cell(), (0, 0));
    v.move_cursor_to_row(4);
    assert_eq!(v.selected_cell(), (4, 0));
    v.move_cursor_to_row(40);
    assert_eq!(v.selected_cell(), (9, 0));
    v.move_cursor_to_last_col();
    assert_eq!(v.selected_cell(), (9, 4));
    assert_eq!(v.col_end_idx, 4);
    v.move_cursor_to_first_col();
    assert_eq!(v.selected_cell(), (9, 0));
    assert_eq!(v.col_start_idx, 0);
}

#[test]
fn moves_on_an_empty_schema_change_nothing() {
    let mut v = viewer(0, 0);
    v.move_cursor_down(3);
    v.move_cursor_right(3);
    v.move_cursor_to_last_col();
    assert_eq!(v.state.selected_cell(), None);
}

#[test]
fn scrolling_rows_keeps_cursor_on_screen() {
    let mut v = viewer(2, 100);
    v.visible_n_row = 10;
    v.scroll_down(5);
    assert_eq!(v.state.offset(), 5);
    assert_eq!(v.selected_cell(), (5, 0));
    v.scroll_down(1000);
    assert_eq!(v.state.offset(), 90);
    assert_eq!(v.selected_cell(), (90, 0));
    v.move_cursor_down(5);
    v.scroll_up(10);
    assert_eq!(v.state.offset(), 80);
    assert_eq!(v.selected_cell(), (89, 0));
}

#[test]
fn scrolling_windows() {
    let mut v = viewer(20, 100);
    v.visible_n_row = 10;
    v.visible_n_col = 3;
    v.move_cursor_down(2);
    v.scroll_window_down(2);
    assert_eq!(v.state.offset(), 20);
    assert_eq!(v.selected_cell(), (22, 0));
    v.scroll_window_up(1);
    assert_eq!(v.state.offset(), 10);
    assert_eq!(v.selected_cell(), (12, 0));
    v.col_end_idx = 2;
    v.move_cursor_right(1);
    v.scroll_window_right(2);
    assert_eq!(v.col_end_idx, 8);
    assert_eq!(v.selected_cell(), (12, 7));
    v.col_start_idx = 6;
    v.scroll_window_left(1);
    assert_eq!(v.col_start_idx, 3);
    assert_eq!(v.selected_cell(), (12, 4));
    v.scroll_right(100);
    assert_eq!(v.col_end_idx, 19);
    v.scroll_left(100);
    assert_eq!(v.col_start_idx, 0);
}

#[test]
fn row_window_follows_cursor() {
    let mut v = viewer(2, 100);
    assert_eq!(v.compute_row_window(12), 0..10);
    v.move_cursor_down(25);
    assert_eq!(v.compute_row_window(12), 16..26);
    let w = v.begin_frame(12);
    assert_eq!(w, 16..26);
    assert_eq!(v.state.offset(), 16);
    v.move_cursor_up(20);
    assert_eq!(v.compute_row_window(12), 5..15);
    assert_eq!(v.compute_row_window(HEADER_HEIGHT), 5..5);
    let short = viewer(2, 3);
    assert_eq!(short.compute_row_window(40), 0..3);
}

#[test]
fn frame_clamps_selected_column() {
    let mut v = viewer(10, 5);
    v.move_cursor_to_last_col();
    v.finish_frame(4..10, 12);
    assert_eq!(v.col_start_idx, 4);
    assert_eq!(v.col_end_idx, 9);
    assert_eq!(v.selected_cell(), (0, 9));
    assert_eq!(v.visible_n_row, 10);
    assert_eq!(v.visible_n_col, 6);
    v.move_cursor_to_first_col();
    v.finish_frame(2..5, 1);
    assert_eq!(v.selected_cell(), (0, 2));
    assert_eq!(v.visible_n_row, 0);
}

#[test]
fn relative_selection() {
    let mut v = viewer(10, 50);
    v.move_cursor_down(20);
    v.move_cursor_right(5);
    v.col_start_idx = 3;
    let r = v.relative_state(&(15..25));
    assert_eq!(r.selected_cell(), Some((5, 2)));
    assert_eq!(r.offset(), 0);
}

#[test]
fn table_cursor_selection() {
    let mut c = TableCursor::new().with_selected_cell(Some((2, 3)));
    c.offset = 7;
    assert_eq!(c.selected_cell(), Some((2, 3)));
    c.select_cell(None);
    assert_eq!(c.selected_cell(), None);
    assert_eq!(c.offset(), 0);
}

#[test]
fn toggles_twice_restore() {
    let mut v = viewer(1, 1);
    v.toggle_truncate();
    assert!(!v.truncate);
    assert_eq!(v.truncation(), None);
    v.toggle_truncate();
    assert!(v.truncate);
    let mut app = App::new(viewer(1, 1));
    app.toggle_help();
    assert!(app.show_help);
    app.toggle_help();
    assert!(!app.show_help);
}

#[test]
fn saturating_multiplication() {
    assert_eq!(saturating_mul(3, 4), 12);
    assert_eq!(saturating_mul(usize::MAX, 2), usize::MAX);
}

#[test]
fn huge_page_counts_add_up() {
    let mut once = viewer(20, 100);
    once.visible_n_row = 10;
    once.visible_n_col = 3;
    once.move_cursor_down(2);
    let mut twice = viewer(20, 100);
    twice.visible_n_row = 10;
    twice.visible_n_col = 3;
    twice.move_cursor_down(2);
    once.scroll_window_down(usize::MAX);
    twice.scroll_window_down(usize::MAX - 1);
    twice.scroll_window_down(5);
    assert_eq!(once.state.offset(), 90);
    assert_eq!(once.selected_cell(), (92, 0));
    assert_eq!(twice.state.offset(), once.state.offset());
    assert_eq!(twice.selected_cell(), once.selected_cell());
    once.scroll_window_up(usize::MAX);
    twice.scroll_window_up(7);
    twice.scroll_window_up(usize::MAX);
    assert_eq!(once.state.offset(), 0);
    assert_eq!(twice.selected_cell(), once.selected_cell());
}
