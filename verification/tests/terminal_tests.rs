use blazeterm::grid::Color;
use blazeterm::terminal::{CursorShape, Terminal, MODE_AUTO_WRAP};

#[test]
fn test_terminal_creation() {
    let terminal = Terminal::new(80, 24);
    assert_eq!(terminal.active_grid().cols, 80);
    assert_eq!(terminal.active_grid().rows, 24);
}

#[test]
fn test_input_char() {
    let mut term = Terminal::new(80, 24);
    term.input_char('H');
    term.input_char('i');

    assert_eq!(term.grid.get(0, 0).unwrap().character, 'H');
    assert_eq!(term.grid.get(1, 0).unwrap().character, 'i');
    assert_eq!(term.cursor.col, 2);
}

#[test]
fn test_newline() {
    let mut term = Terminal::new(80, 24);
    term.input_char('A');
    term.linefeed();
    term.carriage_return();
    term.input_char('B');

    assert_eq!(term.grid.get(0, 0).unwrap().character, 'A');
    assert_eq!(term.grid.get(0, 1).unwrap().character, 'B');
}

#[test]
fn terminal_test_scroll() {
    let mut term = Terminal::new(80, 3);
    term.scroll_bottom = 2;

    term.input_char('1');
    term.linefeed();
    term.carriage_return();
    term.input_char('2');
    term.linefeed();
    term.carriage_return();
    term.input_char('3');
    term.linefeed();
    term.carriage_return();
    term.input_char('4');

    assert_eq!(term.grid.get(0, 0).unwrap().character, '2');
}

#[test]
fn wide_character_advances_two_columns() {
    let mut term = Terminal::new(10, 2);
    term.input_char('\u{4e16}');
    assert_eq!(term.cursor.col, 2);
    assert_eq!(term.grid.get(0, 0).unwrap().character, '\u{4e16}');
    // the spacer cell carries the style as a blank
    assert_eq!(term.grid.get(1, 0).unwrap().character, ' ');
}

#[test]
fn full_line_then_one_more_wraps_with_autowrap() {
    let mut term = Terminal::new(4, 3);
    for _ in 0..4 {
        term.input_char('a');
    }
    assert_eq!(term.cursor.col, 4);
    term.input_char('b');
    assert_eq!(term.cursor.col, 1);
    assert_eq!(term.cursor.row, 1);
    assert_eq!(term.grid.get(0, 1).unwrap().character, 'b');
    assert_eq!(term.grid.get(3, 0).unwrap().character, 'a');
}

#[test]
fn full_line_overwrites_last_column_without_autowrap() {
    let mut term = Terminal::new(4, 3);
    term.mode.remove(MODE_AUTO_WRAP);
    for _ in 0..4 {
        term.input_char('a');
    }
    term.input_char('b');
    assert_eq!(term.cursor.row, 0);
    assert_eq!(term.grid.get(3, 0).unwrap().character, 'b');
}

#[test]
fn tab_advances_to_next_stop() {
    let mut term = Terminal::new(80, 24);
    term.tab();
    assert_eq!(term.cursor.col, 8);
    term.input_char('x');
    term.tab();
    assert_eq!(term.cursor.col, 16);
}

#[test]
fn backspace_stops_at_column_zero() {
    let mut term = Terminal::new(80, 24);
    term.backspace();
    assert_eq!(term.cursor.col, 0);
    term.input_char('x');
    term.backspace();
    assert_eq!(term.cursor.col, 0);
}

#[test]
fn save_restore_round_trip() {
    let mut term = Terminal::new(80, 24);
    term.move_cursor_to(7, 3);
    term.cursor.shape = CursorShape::Beam;
    term.save_cursor();
    term.move_cursor_to(40, 20);
    term.tab();
    term.carriage_return();
    term.restore_cursor();
    assert_eq!(term.cursor.col, 7);
    assert_eq!(term.cursor.row, 3);
    assert_eq!(term.cursor.shape, CursorShape::Beam);
}

#[test]
fn move_cursor_clamps_to_grid() {
    let mut term = Terminal::new(10, 5);
    term.move_cursor_to(100, 100);
    assert_eq!(term.cursor.col, 9);
    assert_eq!(term.cursor.row, 4);
    term.move_cursor(-100, -100);
    assert_eq!(term.cursor.col, 0);
    assert_eq!(term.cursor.row, 0);
}

#[test]
fn erase_line_variants() {
    let mut term = Terminal::new(5, 2);
    for c in ['a', 'b', 'c', 'd', 'e'] {
        term.input_char(c);
    }
    term.move_cursor_to(2, 0);
    term.erase_line_to_end();
    assert_eq!(term.grid.get(1, 0).unwrap().character, 'b');
    assert_eq!(term.grid.get(2, 0).unwrap().character, ' ');
    assert_eq!(term.grid.get(4, 0).unwrap().character, ' ');

    let mut term2 = Terminal::new(5, 2);
    for c in ['a', 'b', 'c', 'd', 'e'] {
        term2.input_char(c);
    }
    term2.move_cursor_to(2, 0);
    term2.erase_line_to_start();
    assert_eq!(term2.grid.get(0, 0).unwrap().character, ' ');
    assert_eq!(term2.grid.get(2, 0).unwrap().character, ' ');
    assert_eq!(term2.grid.get(3, 0).unwrap().character, 'd');

    term2.erase_line();
    assert_eq!(term2.grid.get(3, 0).unwrap().character, ' ');
}

#[test]
fn resize_truncates_and_clamps_cursor() {
    let mut term = Terminal::new(10, 5);
    term.move_cursor_to(9, 4);
    term.resize(4, 2);
    assert_eq!(term.cursor.col, 3);
    assert_eq!(term.cursor.row, 1);
    assert_eq!(term.scroll_top, 0);
    assert_eq!(term.scroll_bottom, 1);
    assert_eq!(term.grid.cols, 4);
    assert_eq!(term.alt_grid.rows, 2);
}

#[test]
fn device_status_report_bytes() {
    let mut term = Terminal::new(80, 24);
    term.move_cursor_to(4, 9);
    term.report_cursor_position();
    let bytes = term.take_response().unwrap();
    assert_eq!(bytes, b"\x1b[10;5R".to_vec());
    assert!(term.take_response().is_none());
}

#[test]
fn scroll_down_moves_rows() {
    let mut term = Terminal::new(4, 3);
    term.input_char('x');
    term.scroll_down(1);
    assert_eq!(term.grid.get(0, 0).unwrap().character, ' ');
    assert_eq!(term.grid.get(0, 1).unwrap().character, 'x');
}

#[test]
fn selection_contains_and_text() {
    let mut term = Terminal::new(10, 3);
    for c in ['h', 'e', 'y'] {
        term.input_char(c);
    }
    term.selection.start_at(0, 0);
    term.selection.extend_to(2, 0);
    term.selection.finish();
    assert!(term.selection.contains(1, 0));
    assert!(!term.selection.contains(3, 0));
    let text = term.get_selected_text().unwrap();
    assert_eq!(text, "hey".to_string());
}

#[test]
fn selection_empty_yields_none() {
    let term = Terminal::new(10, 3);
    assert!(term.get_selected_text().is_none());
    let mut term2 = Terminal::new(10, 3);
    term2.selection.start_at(0, 0);
    term2.selection.extend_to(4, 0);
    // only blanks selected: trimmed to nothing
    assert!(term2.get_selected_text().is_none());
}

#[test]
fn default_style_is_emerald_on_black() {
    let term = Terminal::new(80, 24);
    assert_eq!(term.current_style.fg, Color::rgb(80, 220, 200));
    assert_eq!(term.current_style.bg, Color::rgb(0, 0, 0));
    assert_eq!(term.current_style.flags.bits, 0);
}
