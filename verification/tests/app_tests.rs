use legs::app::App;
use legs::r_types::RTraits;
use legs::schema::{RSchema, RShape};
use legs::update::{update, update_mouse, Action, KeyCode, KeyEvent, MouseEvent, MouseKind};
use legs::viewer::Viewer;

fn viewer(tag: u32, ncols: usize, nrow: usize) -> Viewer<u32> {
    let shape = RShape::Frame { columns: (0..ncols).map(|i| (format!("c{i}"), RShape::Other)).collect() };
    Viewer::new(tag, RSchema::build(&shape, nrow))
}

fn key(c: char) -> KeyEvent {
    KeyEvent { code: KeyCode::Char(c), shift: c.is_ascii_uppercase() }
}

fn press(app: &mut App<u32>, k: KeyEvent) -> Action {
    assert!(app.key_is_safe(k));
    update(app, k)
}

fn traits(is_vector: bool, len: usize) -> RTraits {
    RTraits {
        is_frame: false,
        is_list: false,
        is_vector,
        is_vector_atomic: is_vector,
        is_matrix: false,
        is_array: false,
        has_dim: false,
        len,
    }
}

#[test]
fn quit_and_help() {
    let mut app = App::new(viewer(1, 3, 10));
    assert_eq!(app.get_current_num(), None);
    assert!(press(&mut app, key('?')) == Action::Nothing);
    assert!(app.show_help);
    press(&mut app, key('j'));
    assert_eq!(app.view.selected_cell(), (0, 0));
    press(&mut app, key('q'));
    assert!(!app.should_quit);
    press(&mut app, KeyEvent { code: KeyCode::Esc, shift: false });
    assert!(!app.show_help);
    press(&mut app, key('q'));
    assert!(app.should_quit);
}

#[test]
fn digits_build_a_count() {
    let mut app = App::new(viewer(1, 3, 100));
    press(&mut app, key('2'));
    press(&mut app, key('5'));
    assert_eq!(app.typed_num, Some(25));
    press(&mut app, key('j'));
    assert_eq!(app.view.selected_cell(), (25, 0));
    assert_eq!(app.typed_num, None);
    press(&mut app, KeyEvent { code: KeyCode::Up, shift: false });
    assert_eq!(app.view.selected_cell(), (24, 0));
}

#[test]
fn count_then_g_selects_that_row() {
    let mut app = App::new(viewer(1, 3, 100));
    press(&mut app, key('4'));
    press(&mut app, key('2'));
    press(&mut app, key('G'));
    assert_eq!(app.view.selected_cell(), (41, 0));
    press(&mut app, key('G'));
    assert_eq!(app.view.selected_cell(), (99, 0));
    press(&mut app, key('g'));
    assert_eq!(app.view.selected_cell(), (0, 0));
}

#[test]
fn truncation_keys() {
    let mut app = App::new(viewer(1, 3, 10));
    press(&mut app, key('t'));
    assert!(!app.view.truncate);
    press(&mut app, key('6'));
    press(&mut app, key('0'));
    press(&mut app, key('t'));
    assert!(app.view.truncate);
    assert_eq!(app.view.truncate_size, 60);
    press(&mut app, key('5'));
    press(&mut app, key('t'));
    assert!(!app.view.truncate);
    assert_eq!(app.view.truncate_size, 60);
}

#[test]
fn copy_and_open_are_left_to_the_caller() {
    let mut app = App::new(viewer(1, 3, 10));
    assert!(press(&mut app, key('y')) == Action::Yank);
    assert!(press(&mut app, KeyEvent { code: KeyCode::Enter, shift: false }) == Action::OpenCell);
}

#[test]
fn going_back_undoes_opening() {
    let mut app = App::new(viewer(1, 3, 10));
    press(&mut app, key('j'));
    app.push_viewer(viewer(2, 1, 4));
    assert_eq!(app.view.data, 2);
    assert_eq!(app.stack.len(), 1);
    press(&mut app, KeyEvent { code: KeyCode::Esc, shift: false });
    assert_eq!(app.view.data, 1);
    assert_eq!(app.view.selected_cell(), (1, 0));
    assert!(app.stack.is_empty());
    press(&mut app, KeyEvent { code: KeyCode::Backspace, shift: false });
    assert_eq!(app.view.data, 1);
}

#[test]
fn opening_needs_a_viewable_cell() {
    let app = App::new(viewer(1, 3, 10));
    assert!(app.can_open(&traits(true, 3), &traits(false, 3)));
    assert!(!app.can_open(&traits(false, 3), &traits(false, 3)));
    assert!(!app.can_open(&traits(true, 3), &traits(true, 1)));
    let one_column_frame = RTraits { is_frame: true, is_list: true, is_vector: true, is_vector_atomic: false, ..traits(false, 1) };
    assert!(app.can_open(&traits(true, 3), &one_column_frame));
    let one_element_list = RTraits { is_list: true, is_vector: true, is_vector_atomic: false, ..traits(false, 1) };
    assert!(app.can_open(&traits(true, 3), &one_element_list));
    let empty = App::new(viewer(1, 3, 0));
    assert!(!empty.can_open(&traits(true, 3), &traits(false, 3)));
}

#[test]
fn shifted_keys_page() {
    let mut app = App::new(viewer(1, 30, 100));
    app.view.visible_n_row = 10;
    app.view.visible_n_col = 4;
    app.view.col_end_idx = 3;
    press(&mut app, key('J'));
    assert_eq!(app.view.state.offset(), 10);
    assert_eq!(app.view.selected_cell(), (10, 0));
    press(&mut app, key('K'));
    assert_eq!(app.view.selected_cell(), (0, 0));
    press(&mut app, key('L'));
    assert_eq!(app.view.col_end_idx, 7);
    assert_eq!(app.view.selected_cell(), (0, 4));
    app.view.col_start_idx = 4;
    press(&mut app, key('H'));
    assert_eq!(app.view.col_start_idx, 0);
    press(&mut app, key('$'));
    assert_eq!(app.view.selected_cell(), (0, 30));
    assert_eq!(app.view.col_end_idx, 30);
    press(&mut app, key('L'));
    assert_eq!(app.view.col_end_idx, 29);
    assert_eq!(app.view.selected_cell(), (0, 29));
    press(&mut app, key('$'));
    press(&mut app, KeyEvent { code: KeyCode::Right, shift: true });
    assert_eq!(app.view.selected_cell(), (0, 29));
    press(&mut app, key('^'));
    assert_eq!(app.view.selected_cell(), (0, 0));
    press(&mut app, KeyEvent { code: KeyCode::Char('J'), shift: false });
    assert_eq!(app.view.state.offset(), 10);
}

#[test]
fn shifted_arrows_page_and_plain_arrows_step() {
    let mut app = App::new(viewer(1, 30, 100));
    app.view.visible_n_row = 10;
    app.view.visible_n_col = 4;
    app.view.col_end_idx = 3;
    press(&mut app, KeyEvent { code: KeyCode::Down, shift: true });
    assert_eq!(app.view.state.offset(), 10);
    assert_eq!(app.view.selected_cell(), (10, 0));
    press(&mut app, KeyEvent { code: KeyCode::Down, shift: false });
    assert_eq!(app.view.selected_cell(), (11, 0));
    press(&mut app, KeyEvent { code: KeyCode::Up, shift: true });
    assert_eq!(app.view.state.offset(), 0);
    assert_eq!(app.view.selected_cell(), (1, 0));
    press(&mut app, KeyEvent { code: KeyCode::Right, shift: true });
    assert_eq!(app.view.col_end_idx, 7);
    assert_eq!(app.view.selected_cell(), (1, 4));
    press(&mut app, KeyEvent { code: KeyCode::Right, shift: false });
    assert_eq!(app.view.selected_cell(), (1, 5));
    app.view.col_start_idx = 4;
    press(&mut app, KeyEvent { code: KeyCode::Left, shift: true });
    assert_eq!(app.view.col_start_idx, 0);
    assert_eq!(app.view.selected_cell(), (1, 1));
}

#[test]
fn down_key_needs_rows() {
    let app = App::new(viewer(1, 3, 0));
    assert!(!app.key_is_safe(key('j')));
    assert!(app.key_is_safe(key('k')));
}

#[test]
fn mouse_wheel_scrolls() {
    let mut app = App::new(viewer(1, 10, 100));
    app.view.visible_n_row = 10;
    update_mouse(&mut app, MouseEvent { kind: MouseKind::ScrollDown, shift: false });
    assert_eq!(app.view.state.offset(), 1);
    update_mouse(&mut app, MouseEvent { kind: MouseKind::ScrollUp, shift: false });
    assert_eq!(app.view.state.offset(), 0);
    update_mouse(&mut app, MouseEvent { kind: MouseKind::ScrollDown, shift: true });
    assert_eq!(app.view.col_end_idx, 1);
    app.view.col_start_idx = 2;
    update_mouse(&mut app, MouseEvent { kind: MouseKind::ScrollUp, shift: true });
    assert_eq!(app.view.col_start_idx, 1);
    app.show_help = true;
    update_mouse(&mut app, MouseEvent { kind: MouseKind::ScrollDown, shift: false });
    assert_eq!(app.view.state.offset(), 0);
}

#[test]
fn quit_sets_flag() {
    let mut app = App::new(viewer(1, 1, 1));
    app.quit();
    assert!(app.should_quit);
    app.pop_viewer();
    assert_eq!(app.view.data, 1);
}
