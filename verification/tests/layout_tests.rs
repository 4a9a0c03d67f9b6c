use legs::col_fit::{ColumnFit, FitStep};
use legs::col_layout::{build_column_layout, select_visible_columns, total_width};
use std::ops::Range;
use legs::format::{empty_cell_text, TableCol};
use legs::schema::{RSchema, RShape};
use legs::viewer::Viewer;

fn schema(names: &[&str]) -> RSchema {
    RSchema::build(&RShape::Frame { columns: names.iter().map(|n| (n.to_string(), RShape::Other)).collect() }, 3)
}

fn col(width: usize) -> TableCol {
    TableCol { title_text: None, type_text: empty_cell_text(), values_text: vec![], width }
}

#[test]
fn total_width_counts_blanks_between_columns() {
    let w = vec![3, 4, 5];
    assert_eq!(total_width(&w, &(0..3)), 14);
    assert_eq!(total_width(&w, &(1..2)), 4);
    assert_eq!(total_width(&w, &(1..1)), 0);
    assert_eq!(total_width(&vec![0, 2], &(0..2)), 2);
}

fn drive(mut fit: ColumnFit, mut step: FitStep, widths: &[usize]) -> (Range<usize>, Vec<usize>) {
    let mut asked = Vec::new();
    loop {
        match step {
            FitStep::Measure(i) => {
                asked.push(i);
                step = fit.give_width(widths[i]);
            }
            FitStep::Done(r) => return (r, asked),
        }
    }
}

fn fit(name_lens: Vec<usize>, shown: Range<usize>, from_start: bool, limit: usize, widths: &[usize]) -> (Range<usize>, Vec<usize>) {
    let (f, step) = ColumnFit::new(name_lens, shown, from_start, limit);
    drive(f, step, widths)
}

#[test]
fn fill_right_reserves_room_for_the_leftmost_name() {
    let w = [5, 5, 5, 5];
    assert_eq!(fit(vec![9, 1, 1, 1], 0..0, true, 21, &w), (0..3, vec![0, 1, 2, 3]));
    assert_eq!(fit(vec![9, 1, 1, 1], 0..0, true, 20, &w), (0..2, vec![0, 1, 2]));
    assert_eq!(fit(vec![9, 1, 1, 1], 3..0, true, 20, &w), (1..4, vec![3, 2, 1, 0]));
}

#[test]
fn fill_left_from_the_anchor() {
    let w = [5, 5, 5, 5];
    assert_eq!(fit(vec![1; 4], 0..3, false, 19, &w), (1..4, vec![3, 2, 1, 0]));
    assert_eq!(fit(vec![1; 4], 0..3, false, 17, &w), (2..4, vec![3, 2, 1]));
    assert_eq!(fit(vec![1; 4], 0..0, false, 3, &w), (0..1, vec![0, 1]));
}

#[test]
fn extending_both_ways() {
    let w = [5, 5, 5, 5];
    assert_eq!(fit(vec![1; 4], 2..0, true, 17, &w), (1..4, vec![2, 3, 1, 0]));
    assert_eq!(fit(vec![1; 4], 0..1, false, 17, &w), (0..3, vec![1, 0, 2, 3]));
}

#[test]
fn only_the_columns_examined_are_measured() {
    let w = vec![10; 1000];
    let (range, asked) = fit(vec![1; 1000], 500..0, true, 40, &w);
    assert_eq!(range, 500..503);
    assert_eq!(asked, vec![500, 501, 502, 503, 499]);
}

#[test]
fn measuring_one_by_one_agrees_with_knowing_every_width() {
    let names = ["a", "long_name", "bb", "c", "dddddddddddd", "e"];
    let s = schema(&names);
    let widths = [vec![4, 4, 4, 4, 4, 4], vec![1, 7, 0, 3, 12, 2], vec![0, 0, 0, 0, 0, 0], vec![30, 2, 2, 2, 2, 30]];
    for w in widths.iter() {
        for limit in [0, 1, 5, 9, 14, 20, 40, 100] {
            for shown in [0..0, 2..4, 5..5, 9..9, 3..1] {
                for from_start in [true, false] {
                    let lazy = fit(s.name_lens(), shown.clone(), from_start, limit, w).0;
                    assert_eq!(lazy, select_visible_columns(&s, w, shown.clone(), from_start, limit));
                }
            }
        }
    }
}

#[test]
fn name_lengths_of_columns() {
    let s = schema(&["long_name", "b"]);
    assert_eq!(s.name_lens(), vec![9, 1]);
}

#[test]
fn visible_columns_from_the_left() {
    let s = schema(&["a", "b", "c", "d", "e"]);
    let w = vec![4, 4, 4, 4, 4];
    assert_eq!(select_visible_columns(&s, &w, 0..0, true, 14), 0..3);
    assert_eq!(select_visible_columns(&s, &w, 2..0, true, 14), 2..5);
    assert_eq!(select_visible_columns(&s, &w, 3..0, true, 14), 2..5);
    assert_eq!(select_visible_columns(&s, &w, 0..0, true, 2), 0..1);
}

#[test]
fn visible_columns_from_the_right() {
    let s = schema(&["a", "b", "c", "d", "e"]);
    let w = vec![4, 4, 4, 4, 4];
    assert_eq!(select_visible_columns(&s, &w, 0..4, false, 14), 3..5);
    assert_eq!(select_visible_columns(&s, &w, 0..9, false, 15), 2..5);
    assert_eq!(select_visible_columns(&s, &w, 0..1, false, 14), 0..3);
}

#[test]
fn no_columns_no_layout() {
    let s = schema(&[]);
    assert_eq!(select_visible_columns(&s, &vec![], 0..0, true, 80), 0..0);
}

#[test]
fn layout_uses_the_full_name_for_the_leftmost_column() {
    let s = schema(&["a", "bbbbbbbb", "c"]);
    let layout = build_column_layout(&s, vec![col(4), col(5)], 1..3, Some(col(2)));
    assert_eq!(layout.col_range, 1..3);
    assert_eq!(layout.widths, vec![8, 5]);
    assert_eq!(layout.headers.len(), 2);
    assert_eq!(layout.values.len(), 2);
    let layout = build_column_layout(&s, vec![col(3), col(4)], 0..2, None);
    assert_eq!(layout.widths, vec![3, 4]);
}

#[test]
fn viewer_lays_out_its_columns() {
    let mut v = Viewer::new((), schema(&["a", "b", "c", "d", "e"]));
    let w = [4, 4, 4, 4, 4];
    let (f, step) = v.start_layout(14);
    let (range, _) = drive(f, step, &w);
    assert_eq!(range, 0..3);
    v.finish_frame(range, 10);
    v.move_cursor_to_last_col();
    let (f, step) = v.start_layout(14);
    let (range, _) = drive(f, step, &w);
    assert_eq!(range, 3..5);
    v.finish_frame(range, 10);
    assert_eq!(v.selected_cell(), (0, 4));
}
