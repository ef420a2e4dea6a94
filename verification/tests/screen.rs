use claude_vim::screen::{Cell, Color, VirtualScreen};

/// Drives a screen with the vte parser, as the PTY reader does.
struct Term {
    s: VirtualScreen,
    parser: vte::Parser,
}

struct Feeder<'a> {
    screen: &'a mut VirtualScreen,
}

impl vte::Perform for Feeder<'_> {
    fn print(&mut self, c: char) {
        self.screen.print(c);
    }

    fn execute(&mut self, byte: u8) {
        assert!(self.screen.execute_is_defined(byte));
        self.screen.execute(byte);
    }

    fn csi_dispatch(&mut self, params: &vte::Params, intermediates: &[u8], _ignore: bool, action: char) {
        let ps: Vec<Vec<u16>> = params.iter().map(|p| p.to_vec()).collect();
        assert!(self.screen.csi_is_defined(&ps, intermediates, action));
        self.screen.csi_dispatch(&ps, intermediates, action);
    }

    fn esc_dispatch(&mut self, _intermediates: &[u8], _ignore: bool, byte: u8) {
        self.screen.esc_dispatch(byte);
    }
}

impl Term {
    fn feed(&mut self, bytes: &[u8]) {
        let mut handler = Feeder { screen: &mut self.s };
        for &b in bytes {
            self.parser.advance(&mut handler, b);
        }
    }
}

fn make_screen(cols: usize, rows: usize) -> Term {
    Term { s: VirtualScreen::new(cols, rows), parser: vte::Parser::new() }
}

#[test]
fn test_print_writes_char_to_grid() {
    let mut s = make_screen(10, 5);
    s.feed(b"A");
    assert_eq!(s.s.active_grid()[0][0].ch, 'A');
}

#[test]
fn test_lf_advances_cursor_row() {
    let mut s = make_screen(10, 5);
    s.feed(b"A\nB");
    assert_eq!(s.s.active_grid()[1][1].ch, 'B');
}

#[test]
fn test_lf_at_bottom_scrolls_out() {
    let mut s = make_screen(10, 5);
    s.feed(b"line1\r\nline2\r\nline3\r\nline4\r\nline5\r\n");
    assert!(!s.s.scrollback.is_empty(), "scrollback should have entries");
    assert_eq!(s.s.scrollback.front().map(|s| s.as_str()), Some("line1"));
}

#[test]
fn test_cr_resets_cursor_col() {
    let mut s = make_screen(10, 5);
    s.feed(b"ABC\rX");
    assert_eq!(s.s.active_grid()[0][0].ch, 'X');
}

#[test]
fn test_csi_h_moves_cursor() {
    let mut s = make_screen(10, 5);
    s.feed(b"\x1b[3;5H");
    assert_eq!(s.s.cursor(), (4, 2));
}

#[test]
fn test_csi_h_no_params_goes_home() {
    let mut s = make_screen(10, 5);
    s.feed(b"ABC");
    s.feed(b"\x1b[H");
    assert_eq!(s.s.cursor(), (0, 0));
}

#[test]
fn test_csi_j2_clears_screen() {
    let mut s = make_screen(10, 5);
    s.feed(b"HELLO");
    s.feed(b"\x1b[2J");
    for row in 0..5 {
        for col in 0..10 {
            assert_eq!(s.s.active_grid()[row][col].ch, ' ', "cell [{row}][{col}] should be blank");
        }
    }
}

#[test]
fn test_csi_k0_clears_to_eol() {
    let mut s = make_screen(10, 5);
    s.feed(b"HELLO");
    s.feed(b"\x1b[1;3H\x1b[K");
    assert_eq!(s.s.active_grid()[0][0].ch, 'H');
    assert_eq!(s.s.active_grid()[0][1].ch, 'E');
    for col in 2..10 {
        assert_eq!(s.s.active_grid()[0][col].ch, ' ', "col {col} should be blank");
    }
}

#[test]
fn test_sgr_sets_bold() {
    let mut s = make_screen(10, 5);
    s.feed(b"\x1b[1mA");
    assert!(s.s.active_grid()[0][0].bold, "A should be bold");
}

#[test]
fn test_sgr_reset() {
    let mut s = make_screen(10, 5);
    s.feed(b"\x1b[1m");
    assert!(s.s.current_bold());
    s.feed(b"\x1b[0m");
    assert!(!s.s.current_bold());
    assert!(s.s.current_fg().is_none());
    assert!(s.s.current_bg().is_none());
}

#[test]
fn test_sgr_fg_color() {
    let mut s = make_screen(10, 5);
    s.feed(b"\x1b[31m");
    assert_eq!(s.s.current_fg(), Some(Color::Ansi(1)));
}

#[test]
fn test_sgr_reset_no_params() {
    let mut s = make_screen(10, 5);
    s.feed(b"\x1b[1m\x1b[31m");
    s.feed(b"\x1b[m");
    assert!(!s.s.current_bold());
    assert!(s.s.current_fg().is_none());
}

#[test]
fn test_scroll_region_r() {
    let mut s = make_screen(10, 10);
    s.feed(b"\x1b[2;8r");
    assert_eq!(s.s.scroll_region(), (1, 7));
}

#[test]
fn test_scroll_with_region_does_not_scrollback() {
    let mut s = make_screen(10, 10);
    s.feed(b"\x1b[3;10r");
    s.feed(b"\x1b[3;1H");
    for _ in 0..20 {
        s.feed(b"X\r\n");
    }
    assert!(
        s.s.scrollback.is_empty(),
        "scrollback should be empty when scroll region does not include row 0"
    );
}

#[test]
fn test_screen_line_returns_row_text() {
    let mut s = make_screen(10, 5);
    s.feed(b"hello");
    assert_eq!(s.s.screen_line(0), "hello");
}

#[test]
fn test_screen_line_trims_trailing_spaces() {
    let mut s = make_screen(10, 5);
    s.feed(b"hi");
    let line = s.s.screen_line(0);
    assert_eq!(line, "hi");
    assert!(!line.ends_with(' '), "should trim trailing spaces");
}

#[test]
fn test_all_lines_combines_scrollback_and_screen() {
    let mut s = make_screen(10, 3);
    s.feed(b"line1\r\nline2\r\nline3\r\nline4");
    let all = s.s.all_lines();
    assert!(all.len() >= 4, "all_lines should have at least 4 lines: {:?}", all);
    assert_eq!(all[0], "line1", "first scrollback line should be 'line1'");
}

#[test]
fn test_resize_expands_grid() {
    let mut s = make_screen(10, 5);
    s.s.resize(20, 10);
    assert_eq!(s.s.cols(), 20);
    assert_eq!(s.s.rows(), 10);
    assert_eq!(s.s.grid().len(), 10);
    assert_eq!(s.s.grid()[0].len(), 20);
}

#[test]
fn test_smcup_switches_to_alt_grid() {
    let mut s = make_screen(10, 5);
    s.feed(b"A");
    assert_eq!(s.s.grid()[0][0].ch, 'A');
    s.feed(b"\x1b[?1049h");
    assert!(s.s.in_alt_screen());
    s.feed(b"B");
    assert_eq!(s.s.alt_grid()[0][0].ch, 'B');
    assert_eq!(s.s.grid()[0][0].ch, 'A');
}

#[test]
fn test_rmcup_restores_main_grid() {
    let mut s = make_screen(10, 5);
    s.feed(b"A");
    s.feed(b"\x1b[?1049h");
    s.feed(b"B");
    s.feed(b"\x1b[?1049l");
    assert!(!s.s.in_alt_screen());
    assert_eq!(s.s.grid()[0][0].ch, 'A');
}

#[test]
fn test_esc_save_restore_cursor() {
    let mut s = make_screen(10, 5);
    s.feed(b"\x1b[3;5H");
    s.feed(b"\x1b7");
    s.feed(b"\x1b[H");
    assert_eq!(s.s.cursor(), (0, 0));
    s.feed(b"\x1b8");
    assert_eq!(s.s.cursor(), (4, 2));
}

#[test]
fn test_cursor_movement_a_b_c_d() {
    let mut s = make_screen(20, 10);
    s.feed(b"\x1b[5;5H");
    s.feed(b"\x1b[2A");
    assert_eq!(s.s.cursor().1, 2);
    s.feed(b"\x1b[3B");
    assert_eq!(s.s.cursor().1, 5);
    s.feed(b"\x1b[4C");
    assert_eq!(s.s.cursor().0, 8);
    s.feed(b"\x1b[2D");
    assert_eq!(s.s.cursor().0, 6);
}

// --- further cases ---

#[test]
fn print_at_last_column_stays_there() {
    let mut s = make_screen(3, 2);
    s.feed(b"ABCDE");
    assert_eq!(s.s.screen_line(0), "ABE");
    assert_eq!(s.s.cursor(), (2, 0));
}

#[test]
fn backspace_and_bell() {
    let mut s = make_screen(10, 2);
    s.feed(b"AB\x08C\x07");
    assert_eq!(s.s.screen_line(0), "AC");
    s.feed(b"\r\x08");
    assert_eq!(s.s.cursor(), (0, 0));
}

#[test]
fn sgr_extended_colours_and_attributes() {
    let mut s = make_screen(10, 2);
    s.feed(b"\x1b[38;5;200;48;2;1;2;3;1mX");
    let c: Cell = s.s.active_grid()[0][0];
    assert_eq!(c.fg, Some(Color::Ansi(200)));
    assert_eq!(c.bg, Some(Color::Rgb(1, 2, 3)));
    assert!(c.bold);
    s.feed(b"\x1b[22;39;44m");
    assert!(!s.s.current_bold());
    assert_eq!(s.s.current_fg(), None);
    assert_eq!(s.s.current_bg(), Some(Color::Ansi(4)));
    s.feed(b"\x1b[49m");
    assert_eq!(s.s.current_bg(), None);
}

#[test]
fn erase_modes() {
    let mut s = make_screen(5, 3);
    s.feed(b"AAAAA\r\nBBBBB\r\nCCCCC");
    s.feed(b"\x1b[2;3H\x1b[1J");
    assert_eq!(s.s.screen_line(0), "");
    assert_eq!(s.s.screen_line(1), "   BB");
    assert_eq!(s.s.screen_line(2), "CCCCC");
    s.feed(b"\x1b[0J");
    assert_eq!(s.s.screen_line(1), "");
    assert_eq!(s.s.screen_line(2), "");
    s.feed(b"\x1b[1;1HXYZ\x1b[1;2H\x1b[1K");
    assert_eq!(s.s.screen_line(0), "  Z");
    s.feed(b"\x1b[2K");
    assert_eq!(s.s.screen_line(0), "");
}

#[test]
fn scroll_up_down_and_line_ops() {
    let mut s = make_screen(4, 3);
    s.feed(b"a\r\nb\r\nc");
    s.feed(b"\x1b[T");
    assert_eq!(s.s.all_lines(), vec!["".to_string(), "a".to_string(), "b".to_string()]);
    s.feed(b"\x1b[2S");
    assert_eq!(s.s.scrollback.len(), 2);
    assert_eq!(s.s.scrollback[0], "");
    assert_eq!(s.s.scrollback[1], "a");
    assert_eq!(s.s.screen_line(0), "b");
    s.feed(b"\x1b[1;1H\x1b[L");
    assert_eq!(s.s.screen_line(1), "b");
    s.feed(b"\x1b[M");
    assert_eq!(s.s.screen_line(0), "b");
}

#[test]
fn alt_screen_output_keeps_main_and_scrollback() {
    // Law: output on the alternate screen never reaches the main screen or the scrollback.
    let mut s = make_screen(4, 2);
    s.feed(b"main");
    s.feed(b"\x1b[?47h");
    s.feed(b"x\r\ny\r\nz\r\n");
    assert!(s.s.scrollback.is_empty());
    assert_eq!(s.s.grid()[0][0].ch, 'm');
    s.feed(b"\x1b[?47l");
    assert_eq!(s.s.screen_line(0), "main");
}

#[test]
fn resize_shrinks_and_clamps() {
    let mut s = make_screen(10, 5);
    s.feed(b"hello\r\nworld\x1b[5;9H");
    s.s.resize(3, 2);
    assert_eq!(s.s.cursor(), (2, 1));
    assert_eq!(s.s.scroll_region(), (0, 1));
    assert_eq!(s.s.screen_line(0), "hel");
    assert_eq!(s.s.screen_line(1), "wor");
    assert_eq!(s.s.screen_line(7), "");
}

#[test]
fn trailing_unicode_whitespace_is_trimmed() {
    let mut s = make_screen(6, 1);
    s.feed("ab\u{a0}\u{3000}".as_bytes());
    assert_eq!(s.s.screen_line(0), "ab");
}

#[test]
fn undefined_scroll_is_reported() {
    // An inverted scroll region makes SU undefined: the rows to shift would run backwards.
    let mut s = make_screen(5, 5);
    s.feed(b"\x1b[4;2r");
    assert_eq!(s.s.scroll_region(), (3, 1));
    assert!(!s.s.csi_is_defined(&vec![vec![1]], b"", 'S'));
    assert!(s.s.csi_is_defined(&vec![vec![1]], b"", 'A'));
    assert!(s.s.execute_is_defined(b'\n'));
    s.feed(b"\x1b[3;1H");
    assert!(!s.s.execute_is_defined(b'\n'));
    assert!(s.s.execute_is_defined(b'\r'));
}

#[test]
fn blank_cell_is_plain_space() {
    let b = Cell::blank();
    assert_eq!(b.ch, ' ');
    assert!(!b.bold);
    assert_eq!(b.fg, None);
    assert_eq!(b.bg, None);
}
