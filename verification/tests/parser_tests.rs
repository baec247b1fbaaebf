use blazeterm::grid::{Color, FLAG_BOLD};
use blazeterm::parser::AnsiParser;
use blazeterm::terminal::{CursorShape, Terminal, MODE_BRACKETED_PASTE};

#[test]
fn test_cursor_movement() {
    let mut terminal = Terminal::new(80, 24);
    let mut parser = AnsiParser::new();

    parser.process(&mut terminal, b"\x1b[11;6H");

    assert_eq!(terminal.cursor.col, 5);
    assert_eq!(terminal.cursor.row, 10);
}

#[test]
fn test_sgr_colors() {
    let mut terminal = Terminal::new(80, 24);
    let mut parser = AnsiParser::new();

    parser.process(&mut terminal, b"\x1b[31m");

    assert_eq!(terminal.current_style.fg, Color::rgb(255, 0, 0));
}

#[test]
fn test_clear_screen() {
    let mut terminal = Terminal::new(80, 24);
    let mut parser = AnsiParser::new();

    parser.process(&mut terminal, b"Hello");
    parser.process(&mut terminal, b"\x1b[2J");

    assert_eq!(terminal.grid.get(0, 0).unwrap().character, ' ');
}

#[test]
fn test_parser_integration() {
    let mut terminal = Terminal::new(80, 24);
    let mut parser = AnsiParser::new();

    parser.process(&mut terminal, b"\x1b[31mRed\x1b[0m Normal");

    assert_eq!(terminal.active_grid().get(0, 0).unwrap().character, 'R');
}

#[test]
fn hello_scenario() {
    let mut terminal = Terminal::new(80, 24);
    let mut parser = AnsiParser::new();
    parser.process(&mut terminal, b"Hi");
    assert_eq!(terminal.grid.get(0, 0).unwrap().character, 'H');
    assert_eq!(terminal.grid.get(1, 0).unwrap().character, 'i');
    assert_eq!(terminal.cursor.col, 2);
    assert_eq!(terminal.cursor.row, 0);
}

#[test]
fn color_scenario() {
    let mut terminal = Terminal::new(80, 24);
    let mut parser = AnsiParser::new();
    parser.process(&mut terminal, b"\x1b[31mR\x1b[0m N");
    let r = *terminal.grid.get(0, 0).unwrap();
    assert_eq!(r.character, 'R');
    assert_eq!(r.fg, Color::rgb(255, 0, 0));
    assert_eq!(r.flags.bits, 0);
    let n = *terminal.grid.get(2, 0).unwrap();
    assert_eq!(n.character, 'N');
    assert_eq!(n.fg, Color::rgb(80, 220, 200));
}

#[test]
fn scroll_scenario() {
    let mut terminal = Terminal::new(80, 3);
    let mut parser = AnsiParser::new();
    parser.process(&mut terminal, b"1\r\n2\r\n3\r\n4");
    assert_eq!(terminal.grid.get(0, 0).unwrap().character, '2');
    assert_eq!(terminal.grid.get(0, 1).unwrap().character, '3');
    assert_eq!(terminal.grid.get(0, 2).unwrap().character, '4');
}

#[test]
fn alt_screen_round_trip_scenario() {
    let mut terminal = Terminal::new(80, 24);
    let mut parser = AnsiParser::new();
    parser.process(&mut terminal, b"A");
    let saved_col = terminal.cursor.col;
    parser.process(&mut terminal, b"\x1b[?1049h");
    parser.process(&mut terminal, b"B");
    // the cursor carried over into the alternate screen
    assert_eq!(terminal.active_grid().get(1, 0).unwrap().character, 'B');
    parser.process(&mut terminal, b"\x1b[?1049l");
    assert_eq!(terminal.grid.get(0, 0).unwrap().character, 'A');
    assert_eq!(terminal.cursor.col, saved_col);
    assert_eq!(terminal.cursor.row, 0);
}

#[test]
fn chunked_and_whole_feeding_agree() {
    let bytes: &[u8] = b"\x1b[31mhe\x1b[1mllo\r\n\x1b[44mworld\x1b[11;6H!";
    let mut t1 = Terminal::new(20, 5);
    let mut p1 = AnsiParser::new();
    p1.process(&mut t1, bytes);

    let mut t2 = Terminal::new(20, 5);
    let mut p2 = AnsiParser::new();
    for b in bytes {
        p2.process(&mut t2, &[*b]);
    }
    for row in 0..5 {
        for col in 0..20 {
            assert_eq!(t1.grid.get(col, row).unwrap(), t2.grid.get(col, row).unwrap());
        }
    }
    assert_eq!(t1.cursor.col, t2.cursor.col);
    assert_eq!(t1.cursor.row, t2.cursor.row);
    assert_eq!(t1.current_style.fg, t2.current_style.fg);
}

#[test]
fn sgr_bold_and_reset() {
    let mut terminal = Terminal::new(80, 24);
    let mut parser = AnsiParser::new();
    parser.process(&mut terminal, b"\x1b[1m");
    assert!(terminal.current_style.flags.contains(FLAG_BOLD));
    parser.process(&mut terminal, b"\x1b[22m");
    assert!(!terminal.current_style.flags.contains(FLAG_BOLD));
}

#[test]
fn sgr_extended_colors() {
    let mut terminal = Terminal::new(80, 24);
    let mut parser = AnsiParser::new();
    parser.process(&mut terminal, b"\x1b[38;5;196m");
    assert_eq!(terminal.current_style.fg, Color::rgb(255, 0, 0));
    parser.process(&mut terminal, b"\x1b[48;2;1;2;3m");
    assert_eq!(terminal.current_style.bg, Color::rgb(1, 2, 3));
}

#[test]
fn private_modes_toggle() {
    let mut terminal = Terminal::new(80, 24);
    let mut parser = AnsiParser::new();
    parser.process(&mut terminal, b"\x1b[?25l");
    assert!(!terminal.cursor.visible);
    parser.process(&mut terminal, b"\x1b[?25h");
    assert!(terminal.cursor.visible);
    parser.process(&mut terminal, b"\x1b[?2004h");
    assert!(terminal.mode.contains(MODE_BRACKETED_PASTE));
    parser.process(&mut terminal, b"\x1b[?2004l");
    assert!(!terminal.mode.contains(MODE_BRACKETED_PASTE));
}

#[test]
fn cursor_shape_sequence() {
    let mut terminal = Terminal::new(80, 24);
    let mut parser = AnsiParser::new();
    parser.process(&mut terminal, b"\x1b[4 q");
    assert_eq!(terminal.cursor.shape, CursorShape::Underline);
    parser.process(&mut terminal, b"\x1b[6 q");
    assert_eq!(terminal.cursor.shape, CursorShape::Beam);
}

#[test]
fn scroll_region_and_decstbm() {
    let mut terminal = Terminal::new(80, 24);
    let mut parser = AnsiParser::new();
    parser.process(&mut terminal, b"\x1b[5;10r");
    assert_eq!(terminal.scroll_top, 4);
    assert_eq!(terminal.scroll_bottom, 9);
    assert_eq!(terminal.cursor.col, 0);
    assert_eq!(terminal.cursor.row, 0);
    // an inverted region is refused, the terminal invariant holds
    parser.process(&mut terminal, b"\x1b[10;2r");
    assert_eq!(terminal.scroll_top, 4);
    assert_eq!(terminal.scroll_bottom, 9);
}

#[test]
fn osc_sets_title() {
    let mut terminal = Terminal::new(80, 24);
    let mut parser = AnsiParser::new();
    parser.process(&mut terminal, b"\x1b]0;my title\x07");
    assert_eq!(terminal.title, "my title".to_string());
}

#[test]
fn osc7_sets_working_directory() {
    let mut terminal = Terminal::new(80, 24);
    let mut parser = AnsiParser::new();
    parser.process(&mut terminal, b"\x1b]7;file://host/tmp/a%20b\x07");
    assert_eq!(terminal.cwd, "/tmp/a b".to_string());
    // a non-file scheme leaves the directory alone
    parser.process(&mut terminal, b"\x1b]7;https://nowhere/else\x07");
    assert_eq!(terminal.cwd, "/tmp/a b".to_string());
}

#[test]
fn device_status_report_via_parser() {
    let mut terminal = Terminal::new(80, 24);
    let mut parser = AnsiParser::new();
    parser.process(&mut terminal, b"\x1b[11;6H\x1b[6n");
    let reply = terminal.take_response().unwrap();
    assert_eq!(reply, b"\x1b[11;6R".to_vec());
    parser.process(&mut terminal, b"\x1b[5n");
    assert_eq!(terminal.take_response().unwrap(), b"\x1b[0n".to_vec());
}

#[test]
fn utf8_print_through_parser() {
    let mut terminal = Terminal::new(20, 3);
    let mut parser = AnsiParser::new();
    parser.process(&mut terminal, "é\u{4e16}".as_bytes());
    assert_eq!(terminal.grid.get(0, 0).unwrap().character, 'é');
    assert_eq!(terminal.grid.get(1, 0).unwrap().character, '\u{4e16}');
    assert_eq!(terminal.cursor.col, 3);
}

#[test]
fn dagger_characters_are_filtered() {
    let mut terminal = Terminal::new(20, 3);
    let mut parser = AnsiParser::new();
    parser.process(&mut terminal, "\u{2020}x\u{2021}".as_bytes());
    assert_eq!(terminal.grid.get(0, 0).unwrap().character, 'x');
    assert_eq!(terminal.cursor.col, 1);
}

#[test]
fn esc_full_reset_keeps_size() {
    let mut terminal = Terminal::new(40, 12);
    let mut parser = AnsiParser::new();
    parser.process(&mut terminal, b"hello\x1b[5;10r\x1b[31m");
    parser.process(&mut terminal, b"\x1bc");
    assert_eq!(terminal.grid.cols, 40);
    assert_eq!(terminal.grid.rows, 12);
    assert_eq!(terminal.grid.get(0, 0).unwrap().character, ' ');
    assert_eq!(terminal.scroll_top, 0);
    assert_eq!(terminal.scroll_bottom, 11);
    assert_eq!(terminal.current_style.fg, Color::rgb(80, 220, 200));
}

#[test]
fn reverse_index_scrolls_down() {
    let mut terminal = Terminal::new(10, 3);
    let mut parser = AnsiParser::new();
    parser.process(&mut terminal, b"top");
    parser.process(&mut terminal, b"\x1bM");
    assert_eq!(terminal.grid.get(0, 0).unwrap().character, ' ');
    assert_eq!(terminal.grid.get(0, 1).unwrap().character, 't');
}
