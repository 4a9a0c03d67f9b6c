use legs::format::{column_width, empty_cell_text, format_col, parse_cell, pillar_width, transpose_cols, FormatError};
use legs::index_col::index_column_width;
use legs::yank::{trim, yank_text};

#[test]
fn ansi_text_is_read_without_escapes() {
    let c = parse_cell("\x1b[31mred\x1b[0m plain\nnext".to_string()).ok().unwrap();
    let joined: Vec<String> = c.lines.iter().map(|l| l.concat()).collect();
    assert_eq!(joined, vec!["red plain", "next"]);
}

#[test]
fn display_widths() {
    assert_eq!(parse_cell("abc".to_string()).ok().unwrap().width, 3);
    assert_eq!(parse_cell("日本".to_string()).ok().unwrap().width, 4);
    assert_eq!(index_column_width(&vec!["[1]".to_string()]), 4);
    assert_eq!(index_column_width(&vec![String::new()]), 1);
}

#[test]
fn parsed_cells_are_measured() {
    let c = parse_cell("\x1b[1mab\x1b[0m\nabcd".to_string()).ok().unwrap();
    assert_eq!(c.width, 4);
    assert_eq!(c.lines.len(), 2);
    assert_eq!(c.raw, "\x1b[1mab\x1b[0m\nabcd");
    let e = empty_cell_text();
    assert_eq!(e.width, 0);
    assert_eq!(e.lines.len(), 1);
}

#[test]
fn format_col_splits_title_type_and_values() {
    let col = format_col(true, vec!["name".to_string(), "<int>".to_string(), "1".to_string(), "12345678".to_string()])
        .ok()
        .unwrap();
    assert_eq!(col.title_text.as_ref().map(|t| t.raw.clone()), Some("name".to_string()));
    assert_eq!(col.type_text.raw, "<int>");
    assert_eq!(col.values_text.len(), 2);
    assert_eq!(col.width, 8);
    let col = format_col(false, vec!["<chr>".to_string(), "a".to_string()]).ok().unwrap();
    assert!(col.title_text.is_none());
    assert_eq!(col.type_text.raw, "<chr>");
    assert_eq!(col.width, 5);
    let col = format_col(true, vec![]).ok().unwrap();
    assert!(col.title_text.is_none());
    assert_eq!(col.type_text.width, 0);
    assert_eq!(col.width, 0);
}

#[test]
fn column_width_is_the_widest_piece() {
    let t = parse_cell("title!".to_string()).ok().unwrap();
    let ty = parse_cell("<dbl>".to_string()).ok().unwrap();
    let v = vec![parse_cell("1.5".to_string()).ok().unwrap()];
    assert_eq!(column_width(&Some(t), &ty, &v), 6);
    assert_eq!(column_width(&None, &ty, &v), 5);
}

#[test]
fn pillar_width_argument() {
    assert_eq!(pillar_width(Some(40)), 40);
    assert_eq!(pillar_width(None), 100_000);
}

#[test]
fn transpose_turns_columns_into_rows() {
    let rows = transpose_cols(vec![vec![1, 2, 3], vec![4, 5, 6, 7]]).ok().unwrap();
    assert_eq!(rows, vec![vec![1, 4], vec![2, 5], vec![3, 6]]);
    assert!(matches!(transpose_cols(vec![vec![1, 2], vec![3]]), Err(FormatError::MismatchedColumns)));
    assert!(transpose_cols::<u8>(vec![]).ok().unwrap().is_empty());
    assert!(transpose_cols::<u8>(vec![vec![], vec![1]]).ok().unwrap().is_empty());
}

#[test]
fn trimming_white_space() {
    let chars: Vec<char> = "  a b \u{3000}\n".chars().collect();
    assert_eq!(trim(&chars), "a b");
    assert_eq!(trim(&vec![' ', '\t']), "");
}

#[test]
fn yanked_text_is_the_first_value() {
    let col = format_col(true, vec!["x".to_string(), "<chr>".to_string(), "\x1b[3m  hello\x1b[0m\nworld ".to_string()])
        .ok()
        .unwrap();
    assert_eq!(yank_text(&col).ok().unwrap(), "hello\nworld");
    let none = format_col(true, vec!["x".to_string(), "<chr>".to_string()]).ok().unwrap();
    assert!(yank_text(&none).is_err());
}
