use claude_vim::input::ScrollAmount;
use claude_vim::modal::{scroll_allowed, CursorState, Effect, EscapeFollowup, ModalState};
use claude_vim::screen::VirtualScreen;
use claude_vim::statusline::Mode;

fn screen_with(cols: usize, rows: usize, text: &str) -> VirtualScreen {
    let mut s = VirtualScreen::new(cols, rows);
    for c in text.chars() {
        if c == '\n' {
            s.execute(b'\r');
            s.execute(b'\n');
        } else {
            s.print(c);
        }
    }
    s
}

fn input(m: &mut ModalState, bytes: &[u8], screen: &VirtualScreen) -> (Vec<Effect>, bool) {
    assert!(m.input_is_defined(bytes, screen));
    m.handle_input(bytes, screen)
}

#[test]
fn insert_mode_kitty_escape_goes_normal() {
    let screen = screen_with(10, 4, "");
    let mut m = ModalState::new(10, 5);
    assert_eq!(m.mode(), Mode::Insert);
    let (e, scrolled) = input(&mut m, b"\x1b[27u", &screen);
    assert_eq!(e, vec![Effect::RenderStatusline]);
    assert!(!scrolled);
    assert_eq!(m.mode(), Mode::Normal);
}

#[test]
fn insert_mode_lone_escape_waits() {
    let screen = screen_with(10, 4, "");
    let mut m = ModalState::new(10, 5);
    let (e, _) = input(&mut m, b"\x1b", &screen);
    assert_eq!(e, vec![Effect::AwaitEscape]);
    assert_eq!(m.mode(), Mode::Insert);
    let e = m.escape_followup(EscapeFollowup::Bytes(b"x".to_vec()));
    assert_eq!(e, vec![Effect::WritePty(b"\x1bx".to_vec())]);
    assert_eq!(m.mode(), Mode::Insert);
    let e = m.escape_followup(EscapeFollowup::Disconnected);
    assert!(e.is_empty());
    let e = m.escape_followup(EscapeFollowup::Bytes(b"[27u".to_vec()));
    assert_eq!(e, vec![Effect::RenderStatusline]);
    assert_eq!(m.mode(), Mode::Normal);
}

#[test]
fn insert_mode_timeout_escape_goes_normal() {
    let mut m = ModalState::new(10, 5);
    let e = m.escape_followup(EscapeFollowup::Timeout);
    assert_eq!(e, vec![Effect::RenderStatusline]);
    assert_eq!(m.mode(), Mode::Normal);
}

#[test]
fn insert_mode_enter_is_shift_enter() {
    let screen = screen_with(10, 4, "");
    let mut m = ModalState::new(10, 5);
    let (e, _) = input(&mut m, b"\r", &screen);
    assert_eq!(e, vec![Effect::WritePty(b"\x1b[13;2u".to_vec())]);
    let (e, _) = input(&mut m, b"\x1b[13u", &screen);
    assert_eq!(e, vec![Effect::WritePty(b"\x1b[13;2u".to_vec())]);
    let (e, _) = input(&mut m, b"hi", &screen);
    assert_eq!(e, vec![Effect::WritePty(b"hi".to_vec())]);
}

#[test]
fn normal_mode_scroll_and_switches() {
    let screen = screen_with(10, 4, "");
    let mut m = ModalState::new(10, 5);
    m.escape_followup(EscapeFollowup::Timeout);
    let (e, scrolled) = input(&mut m, b"j", &screen);
    assert_eq!(e, vec![Effect::Scroll(ScrollAmount::LineDown(1))]);
    assert!(scrolled);
    let (e, _) = input(&mut m, b"\x03", &screen);
    assert_eq!(e, vec![Effect::WritePty(b"\x03".to_vec())]);
    let (e, _) = input(&mut m, b"i", &screen);
    assert_eq!(e, vec![Effect::RenderStatusline]);
    assert_eq!(m.mode(), Mode::Insert);
}

#[test]
fn cursor_mode_starts_mid_screen() {
    let screen = screen_with(4, 4, "ab\ncd\nef");
    let mut m = ModalState::new(4, 5);
    m.escape_followup(EscapeFollowup::Timeout);
    let (e, _) = input(&mut m, b"c", &screen);
    assert_eq!(m.mode(), Mode::Cursor);
    let st = m.cursor_state().unwrap();
    assert_eq!((st.cursor_row, st.cursor_col), (2, 0));
    assert_eq!(
        e,
        vec![
            Effect::RenderStatusline,
            Effect::Paint(vec![(2, "ef  ".to_string()), (2, "\x1b[7me\x1b[27mf  ".to_string())]),
        ]
    );
}

#[test]
fn cursor_moves_are_clamped() {
    let screen = screen_with(3, 2, "");
    let mut m = ModalState::new(3, 3);
    m.escape_followup(EscapeFollowup::Timeout);
    input(&mut m, b"c", &screen);
    for _ in 0..5 {
        input(&mut m, b"j", &screen);
        input(&mut m, b"l", &screen);
    }
    let st = m.cursor_state().unwrap();
    assert_eq!((st.cursor_row, st.cursor_col), (1, 2));
    for _ in 0..5 {
        input(&mut m, b"k", &screen);
        input(&mut m, b"h", &screen);
    }
    let st = m.cursor_state().unwrap();
    assert_eq!((st.cursor_row, st.cursor_col), (0, 0));
}

#[test]
fn visual_yank_copies_selection() {
    let screen = screen_with(8, 2, "hello\nworld");
    let mut m = ModalState::new(8, 3);
    m.escape_followup(EscapeFollowup::Timeout);
    input(&mut m, b"c", &screen);
    input(&mut m, b"k", &screen);
    input(&mut m, b"l", &screen);
    input(&mut m, b"v", &screen);
    assert_eq!(m.mode(), Mode::Visual);
    input(&mut m, b"j", &screen);
    input(&mut m, b"l", &screen);
    input(&mut m, b"l", &screen);
    let before = m.cursor_state();
    let (e, _) = input(&mut m, b"y", &screen);
    assert_eq!(e, vec![Effect::Yank("ello\nworl".to_string())]);
    // Until the copy is done, the selection stays.
    assert_eq!(m.mode(), Mode::Visual);
    assert_eq!(m.cursor_state(), before);
    let e = m.finish_yank(&screen);
    assert_eq!(
        e,
        vec![
            Effect::Paint(vec![(0, "hello   ".to_string()), (1, "world   ".to_string())]),
            Effect::RenderStatusline,
        ]
    );
    assert_eq!(m.mode(), Mode::Normal);
    assert_eq!(m.cursor_state(), None);
}

#[test]
fn visual_selection_highlight_paint() {
    let screen = screen_with(6, 2, "abcdef\nghij");
    let mut m = ModalState::new(6, 3);
    m.escape_followup(EscapeFollowup::Timeout);
    input(&mut m, b"c", &screen);
    input(&mut m, b"l", &screen);
    let (e, _) = input(&mut m, b"v", &screen);
    assert_eq!(
        e,
        vec![
            Effect::RenderStatusline,
            Effect::Paint(vec![
                (1, "ghij  ".to_string()),
                (1, "g\x1b[7mh\x1b[27mij  ".to_string()),
            ]),
        ]
    );
    let (e, _) = input(&mut m, b"k", &screen);
    assert_eq!(
        e,
        vec![Effect::Paint(vec![
            (1, "ghij  ".to_string()),
            (0, "a\x1b[7mbcdef\x1b[27m".to_string()),
            (1, "\x1b[7mgh\x1b[27mij  ".to_string()),
        ])]
    );
}

#[test]
fn escape_from_cursor_restores_and_goes_normal() {
    let screen = screen_with(4, 2, "xy");
    let mut m = ModalState::new(4, 3);
    m.escape_followup(EscapeFollowup::Timeout);
    input(&mut m, b"c", &screen);
    let (e, _) = input(&mut m, b"\x1b", &screen);
    assert_eq!(e, vec![Effect::Paint(vec![(1, "    ".to_string())]), Effect::RenderStatusline]);
    assert_eq!(m.mode(), Mode::Normal);
    assert_eq!(m.cursor_state(), None);
}

#[test]
fn throttle_threshold() {
    assert!(!scroll_allowed(0));
    assert!(!scroll_allowed(49));
    assert!(scroll_allowed(50));
    assert!(scroll_allowed(1000));
}

#[test]
fn set_size_changes_grid() {
    let mut m = ModalState::new(80, 24);
    m.set_size(100, 30);
    assert_eq!(m.cols(), 100);
    assert_eq!(m.rows(), 30);
    let _unused: Option<CursorState> = m.cursor_state();
}
