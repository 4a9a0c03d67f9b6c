use legs::help::{bindings_lines, keybindings, split_bindings, HelpLine};
use legs::index_col::{get_index_labels, index_column_width, index_kind, index_label_of, IndexKind};
use legs::print::{
    ansi_bg, ansi_fg, blank, buffer_to_ansi_string, is_whitespace, style_to_sgr, CellGrid, CellStyle, GridCell,
    Modifiers, TermColor,
};
use legs::r_types::{classify, is_scalar_vector, is_viewable, RTraits, RobjContainer, UnsupportedTypeError};
use legs::text::{concat_strings, push_decimal};

fn names(v: &[&str]) -> Option<Vec<String>> {
    Some(v.iter().map(|s| s.to_string()).collect())
}

#[test]
fn frame_labels_count_rows() {
    assert_eq!(get_index_labels(&IndexKind::Frame, 8..11), vec!["9", "10", "11"]);
    assert!(get_index_labels(&IndexKind::Frame, 3..3).is_empty());
}

#[test]
fn list_labels() {
    let kind = IndexKind::List { names: names(&["a", ""]) };
    assert_eq!(get_index_labels(&kind, 0..3), vec!["[[\"a\"]]", "[[2]]", "[[3]]"]);
}

#[test]
fn matrix_and_vector_labels() {
    let m = IndexKind::Matrix { row_names: None };
    assert_eq!(index_label_of(&m, 0), "[1, ]");
    let m = IndexKind::Matrix { row_names: names(&["r1"]) };
    assert_eq!(index_label_of(&m, 0), "[\"r1\", ]");
    let v = IndexKind::Vector { names: names(&["x"]) };
    assert_eq!(get_index_labels(&v, 0..2), vec!["[\"x\"]", "[2]"]);
}

#[test]
fn array_labels_have_a_comma_per_dimension() {
    let a = IndexKind::Array { ndim: 3, row_names: None };
    assert_eq!(index_label_of(&a, 4), "[5, , ]");
    let a = IndexKind::Array { ndim: 2, row_names: names(&["n"]) };
    assert_eq!(index_label_of(&a, 0), "[\"n\", ]");
}

#[test]
fn index_column_is_one_wider_than_its_labels() {
    let labels = vec!["9".to_string(), "10".to_string()];
    assert_eq!(index_column_width(&labels), 3);
    assert_eq!(index_column_width(&vec![]), 1);
}

fn plain() -> CellStyle {
    let none = Modifiers {
        bold: false,
        dim: false,
        italic: false,
        underlined: false,
        slow_blink: false,
        rapid_blink: false,
        reversed: false,
        hidden: false,
        crossed_out: false,
    };
    CellStyle { fg: None, bg: None, underline_color: None, add_modifier: none, sub_modifier: none }
}

fn cell(s: &str, style: CellStyle) -> GridCell {
    GridCell { symbol: s.to_string(), style }
}

#[test]
fn colour_codes() {
    assert_eq!(ansi_fg(TermColor::Red), Some("31".to_string()));
    assert_eq!(ansi_fg(TermColor::White), Some("97".to_string()));
    assert_eq!(ansi_fg(TermColor::Reset), None);
    assert_eq!(ansi_fg(TermColor::Rgb(1, 22, 255)), Some("38;2;1;22;255".to_string()));
    assert_eq!(ansi_bg(TermColor::Indexed(246)), Some("48;5;246".to_string()));
    assert_eq!(ansi_bg(TermColor::DarkGray), Some("100".to_string()));
}

#[test]
fn style_escape_sequences() {
    let mut s = plain();
    assert_eq!(style_to_sgr(s), "\x1b[0m");
    s.fg = Some(TermColor::Black);
    s.bg = Some(TermColor::Yellow);
    s.add_modifier.bold = true;
    s.add_modifier.crossed_out = true;
    s.add_modifier.hidden = true;
    assert_eq!(style_to_sgr(s), "\x1b[0;30;43;1;9m");
}

#[test]
fn frame_text_drops_trailing_blank_rows() {
    let mut yellow = plain();
    yellow.bg = Some(TermColor::Yellow);
    let grid = CellGrid {
        rows: vec![
            vec![cell("a", plain()), cell("b", plain()), cell("c", yellow)],
            vec![cell(" ", plain()), cell("x", plain())],
            vec![cell(" ", plain()), cell(" ", yellow)],
        ],
    };
    assert_eq!(
        buffer_to_ansi_string(&grid),
        "\x1b[0mab\x1b[0;43mc\x1b[0m\n\x1b[0m x\x1b[0m"
    );
    let blank_grid = CellGrid { rows: vec![vec![cell(" ", plain())]] };
    assert_eq!(buffer_to_ansi_string(&blank_grid), "");
}

#[test]
fn white_space() {
    assert!(is_whitespace(' '));
    assert!(is_whitespace('\u{3000}'));
    assert!(!is_whitespace('a'));
    assert!(blank(" \t"));
    assert!(blank(""));
    assert!(!blank(" x "));
}

fn traits() -> RTraits {
    RTraits {
        is_frame: false,
        is_list: false,
        is_vector: false,
        is_vector_atomic: false,
        is_matrix: false,
        is_array: false,
        has_dim: false,
        len: 0,
    }
}

#[test]
fn classification() {
    let frame = RTraits { is_frame: true, is_list: true, is_vector: true, ..traits() };
    assert!(matches!(classify(7, &frame, "data.frame".to_string()), Ok(RobjContainer::DataFrame { robj: 7 })));
    let array = RTraits { has_dim: true, is_array: true, is_vector: true, ..traits() };
    match classify(7, &array, "array".to_string()) {
        Err(e) => assert_eq!(e.message(), "Cannot view object of type `array`; expected a data.frame, matrix, list, or vector"),
        Ok(_) => panic!("arrays are not classified"),
    }
    let list = RTraits { is_list: true, is_vector: true, ..traits() };
    match classify(3, &list, "list".to_string()) {
        Ok(c) => assert_eq!(*c.robj(), 3),
        Err(_) => panic!("lists are classified"),
    }
    let func = traits();
    assert!(classify(0, &func, "function".to_string()).is_err());
    assert!(is_viewable(&array));
    assert!(!is_viewable(&func));
    assert!(is_scalar_vector(&RTraits { is_vector: true, is_vector_atomic: true, len: 1, ..traits() }));
    assert!(!is_scalar_vector(&RTraits { is_list: true, is_vector: true, len: 1, ..traits() }));
    assert!(!is_scalar_vector(&RTraits { is_frame: true, is_list: true, is_vector: true, len: 1, ..traits() }));
    let e = UnsupportedTypeError { rtype: "environment".to_string() };
    assert!(e.message().contains("environment"));
}

#[test]
fn help_columns() {
    let all = keybindings();
    assert_eq!(all.len(), 12);
    let (left, right) = split_bindings(all);
    assert_eq!(left.len(), 6);
    assert_eq!(right.len(), 6);
    assert_eq!(left[0].1, "Move cursor");
    assert_eq!(right[5].0, "q");
    let lines = bindings_lines(&right);
    assert_eq!(lines.len(), 18);
    assert!(matches!(&lines[16], HelpLine::Description(d) if d == "  Quit"));
    assert!(matches!(&lines[17], HelpLine::Blank));
    let (l, r) = split_bindings(vec![("a", "1"), ("b", "2"), ("c", "3")]);
    assert_eq!((l.len(), r.len()), (2, 1));
}

#[test]
fn decimal_and_concatenation() {
    let mut s = String::new();
    push_decimal(&mut s, 1203);
    assert_eq!(s, "1203");
    let mut z = String::from("n=");
    push_decimal(&mut z, 0);
    assert_eq!(z, "n=0");
    assert_eq!(concat_strings(&vec!["ab".to_string(), "".to_string(), "c".to_string()]), "abc");
}

#[test]
fn label_kind_follows_the_object() {
    let frame = RTraits { is_frame: true, is_list: true, ..traits() };
    assert!(matches!(index_kind(&frame, names(&["a"]), None, None), IndexKind::Frame));
    let list = RTraits { is_list: true, is_vector: true, ..traits() };
    assert!(matches!(index_kind(&list, names(&["a"]), None, None), IndexKind::List { names: Some(_) }));
    let matrix = RTraits { is_matrix: true, is_array: true, ..traits() };
    assert!(matches!(index_kind(&matrix, None, names(&["r"]), Some(2)), IndexKind::Matrix { row_names: Some(_) }));
    let array = RTraits { is_array: true, ..traits() };
    assert!(matches!(index_kind(&array, None, None, Some(3)), IndexKind::Array { ndim: 3, row_names: None }));
    assert!(matches!(index_kind(&array, None, None, None), IndexKind::Array { ndim: 2, row_names: None }));
    let vector = RTraits { is_vector: true, is_vector_atomic: true, ..traits() };
    assert!(matches!(index_kind(&vector, None, None, None), IndexKind::Vector { names: None }));
    assert_eq!(index_label_of(&index_kind(&array, None, None, Some(3)), 1), "[2, , ]");
}
