use claude_vim::input::{
    CursorInputAction, CursorInputMatcher, InputAction, InputMatcher, ScrollAmount, VisualInputAction,
    VisualInputMatcher,
};

#[test]
fn test_j_scrolls_line_down() {
    let m = InputMatcher::new();
    let (action, _) = m.process(b"j");
    assert_eq!(action, InputAction::Scroll(ScrollAmount::LineDown(1)));
}

#[test]
fn test_k_scrolls_line_up() {
    let m = InputMatcher::new();
    let (action, _) = m.process(b"k");
    assert_eq!(action, InputAction::Scroll(ScrollAmount::LineUp(1)));
}

#[test]
fn test_ctrl_d_scrolls_half_page_down() {
    let m = InputMatcher::new();
    let (action, _) = m.process(b"\x04");
    assert_eq!(action, InputAction::Scroll(ScrollAmount::HalfPageDown(1)));
}

#[test]
fn test_ctrl_u_scrolls_half_page_up() {
    let m = InputMatcher::new();
    let (action, _) = m.process(b"\x15");
    assert_eq!(action, InputAction::Scroll(ScrollAmount::HalfPageUp(1)));
}

#[test]
fn test_ctrl_f_scrolls_full_page_down() {
    let m = InputMatcher::new();
    let (action, _) = m.process(b"\x06");
    assert_eq!(action, InputAction::Scroll(ScrollAmount::FullPageDown(1)));
}

#[test]
fn test_kitty_ctrl_d_scrolls_half_page_down() {
    let m = InputMatcher::new();
    let (action, _) = m.process(b"\x1b[100;5u");
    assert_eq!(action, InputAction::Scroll(ScrollAmount::HalfPageDown(1)));
}

#[test]
fn test_kitty_ctrl_u_scrolls_half_page_up() {
    let m = InputMatcher::new();
    let (action, _) = m.process(b"\x1b[117;5u");
    assert_eq!(action, InputAction::Scroll(ScrollAmount::HalfPageUp(1)));
}

#[test]
fn test_kitty_ctrl_f_scrolls_full_page_down() {
    let m = InputMatcher::new();
    let (action, _) = m.process(b"\x1b[102;5u");
    assert_eq!(action, InputAction::Scroll(ScrollAmount::FullPageDown(1)));
}

#[test]
fn test_kitty_ctrl_b_scrolls_full_page_up() {
    let m = InputMatcher::new();
    let (action, _) = m.process(b"\x1b[98;5u");
    assert_eq!(action, InputAction::Scroll(ScrollAmount::FullPageUp(1)));
}

#[test]
fn test_ctrl_b_scrolls_full_page_up() {
    let m = InputMatcher::new();
    let (action, _) = m.process(b"\x02");
    assert_eq!(action, InputAction::Scroll(ScrollAmount::FullPageUp(1)));
}

#[test]
fn test_g_first_returns_pending_g() {
    let m = InputMatcher::new();
    let (action, new_m) = m.process(b"g");
    assert_eq!(action, InputAction::PendingG);
    assert!(new_m.pending_g());
}

#[test]
fn test_gg_scrolls_to_top() {
    let m = InputMatcher::new();
    let (_, m2) = m.process(b"g");
    let (action, m3) = m2.process(b"g");
    assert_eq!(action, InputAction::Scroll(ScrollAmount::Top));
    assert!(!m3.pending_g());
}

#[test]
fn test_capital_g_scrolls_to_bottom() {
    let m = InputMatcher::new();
    let (action, _) = m.process(b"G");
    assert_eq!(action, InputAction::Scroll(ScrollAmount::Bottom));
}

#[test]
fn test_i_switches_to_insert() {
    let m = InputMatcher::new();
    let (action, _) = m.process(b"i");
    assert_eq!(action, InputAction::SwitchToInsert);
}

#[test]
fn test_printable_key_noop() {
    let m = InputMatcher::new();
    let (action, _) = m.process(b"z");
    assert_eq!(action, InputAction::Noop);
}

#[test]
fn test_ctrl_c_passthrough() {
    let m = InputMatcher::new();
    let (action, _) = m.process(b"\x03");
    assert_eq!(action, InputAction::Passthrough(b"\x03".to_vec()));
}

#[test]
fn test_enter_passthrough() {
    let m = InputMatcher::new();
    let (action, _) = m.process(b"\r");
    assert_eq!(action, InputAction::Passthrough(b"\r".to_vec()));
}

#[test]
fn test_escape_sequence_passthrough() {
    let m = InputMatcher::new();
    let (action, _) = m.process(b"\x1b[A");
    assert_eq!(action, InputAction::Passthrough(b"\x1b[A".to_vec()));
}

#[test]
fn test_pending_g_then_j_scrolls() {
    let m = InputMatcher::new();
    let (_, m2) = m.process(b"g");
    let (action, m3) = m2.process(b"j");
    assert_eq!(action, InputAction::Scroll(ScrollAmount::LineDown(1)));
    assert!(!m3.pending_g());
}

#[test]
fn test_pending_g_then_i_switches_to_insert() {
    let m = InputMatcher::new();
    let (_, m2) = m.process(b"g");
    let (action, _) = m2.process(b"i");
    assert_eq!(action, InputAction::SwitchToInsert);
}

#[test]
fn test_pending_g_then_printable_noop() {
    let m = InputMatcher::new();
    let (_, m2) = m.process(b"g");
    let (action, _) = m2.process(b"z");
    assert_eq!(action, InputAction::Noop);
}

#[test]
fn test_immutable_original_unchanged() {
    let m = InputMatcher::new();
    let (_, _m2) = m.process(b"g");
    assert!(!m.pending_g());
}

#[test]
fn test_new_state_from_process_is_independent() {
    let m = InputMatcher::new();
    let (_, m2) = m.process(b"j");
    assert!(!m2.pending_g());
}

#[test]
fn test_count_prefix_5j_scrolls_5_lines_down() {
    let m = InputMatcher::new();
    let (a1, m2) = m.process(b"5");
    assert_eq!(a1, InputAction::Noop);
    let (action, _) = m2.process(b"j");
    assert_eq!(action, InputAction::Scroll(ScrollAmount::LineDown(5)));
}

#[test]
fn test_count_prefix_10k_scrolls_10_lines_up() {
    let m = InputMatcher::new();
    let (_, m2) = m.process(b"1");
    let (_, m3) = m2.process(b"0");
    let (action, _) = m3.process(b"k");
    assert_eq!(action, InputAction::Scroll(ScrollAmount::LineUp(10)));
}

#[test]
fn test_count_prefix_with_gg_ignored() {
    let m = InputMatcher::new();
    let (_, m2) = m.process(b"5");
    let (_, m3) = m2.process(b"g");
    let (action, _) = m3.process(b"g");
    assert_eq!(action, InputAction::Scroll(ScrollAmount::Top));
}

#[test]
fn test_count_prefix_with_g_ignored() {
    let m = InputMatcher::new();
    let (_, m2) = m.process(b"5");
    let (action, _) = m2.process(b"G");
    assert_eq!(action, InputAction::Scroll(ScrollAmount::Bottom));
}

#[test]
fn test_count_reset_after_command() {
    let m = InputMatcher::new();
    let (_, m2) = m.process(b"5");
    let (_, m3) = m2.process(b"j");
    let (action, _) = m3.process(b"j");
    assert_eq!(action, InputAction::Scroll(ScrollAmount::LineDown(1)));
}

#[test]
fn test_leading_zero_not_counted() {
    let m = InputMatcher::new();
    let (action, m2) = m.process(b"0");
    assert_eq!(action, InputAction::Noop);
    assert_eq!(m2.count(), 0);
}

#[test]
fn test_count_prefix_with_ctrl_d() {
    let m = InputMatcher::new();
    let (_, m2) = m.process(b"3");
    let (action, _) = m2.process(b"\x04");
    assert_eq!(action, InputAction::Scroll(ScrollAmount::HalfPageDown(3)));
}

#[test]
fn test_c_enters_cursor_mode() {
    let m = InputMatcher::new();
    let (action, _) = m.process(b"c");
    assert_eq!(action, InputAction::EnterCursor);
}

#[test]
fn test_cursor_hjkl() {
    let m = CursorInputMatcher::new();
    assert_eq!(m.process(b"h"), CursorInputAction::MoveLeft);
    assert_eq!(m.process(b"j"), CursorInputAction::MoveDown);
    assert_eq!(m.process(b"k"), CursorInputAction::MoveUp);
    assert_eq!(m.process(b"l"), CursorInputAction::MoveRight);
}

#[test]
fn test_cursor_v_enters_visual() {
    let m = CursorInputMatcher::new();
    assert_eq!(m.process(b"v"), CursorInputAction::EnterVisual);
}

#[test]
fn test_cursor_esc_cancels() {
    let m = CursorInputMatcher::new();
    assert_eq!(m.process(b"\x1b"), CursorInputAction::Cancel);
}

#[test]
fn test_visual_hjkl() {
    let m = VisualInputMatcher::new();
    assert_eq!(m.process(b"h"), VisualInputAction::MoveLeft);
    assert_eq!(m.process(b"j"), VisualInputAction::MoveDown);
    assert_eq!(m.process(b"k"), VisualInputAction::MoveUp);
    assert_eq!(m.process(b"l"), VisualInputAction::MoveRight);
}

#[test]
fn test_visual_y_yanks() {
    let m = VisualInputMatcher::new();
    assert_eq!(m.process(b"y"), VisualInputAction::Yank);
}

#[test]
fn test_visual_esc_cancels() {
    let m = VisualInputMatcher::new();
    assert_eq!(m.process(b"\x1b"), VisualInputAction::Cancel);
}

#[test]
fn test_visual_kitty_esc_cancels() {
    let m = VisualInputMatcher::new();
    assert_eq!(m.process(b"\x1b[27u"), VisualInputAction::Cancel);
}

#[test]
fn test_visual_other_key_noop() {
    let m = VisualInputMatcher::new();
    assert_eq!(m.process(b"x"), VisualInputAction::Noop);
}

// --- further cases ---

#[test]
fn count_prefix_multi_digit_value() {
    // Law: typing a number digit by digit sets the count to its value.
    let mut m = InputMatcher::new();
    for d in [b"4", b"2", b"7"] {
        let (a, next) = m.process(d);
        assert_eq!(a, InputAction::Noop);
        m = next;
    }
    assert_eq!(m.count(), 427);
    let (action, after) = m.process(b"k");
    assert_eq!(action, InputAction::Scroll(ScrollAmount::LineUp(427)));
    assert_eq!(after.count(), 0);
}

#[test]
fn count_prefix_saturates() {
    let mut m = InputMatcher::new();
    for _ in 0..12 {
        let (_, next) = m.process(b"9");
        m = next;
    }
    assert_eq!(m.count(), u32::MAX);
    let (action, _) = m.process(b"j");
    assert_eq!(action, InputAction::Scroll(ScrollAmount::LineDown(u32::MAX)));
}

#[test]
fn count_kept_through_pending_g_then_used() {
    // 3 g j: the pending g is dropped, the count stays for j.
    let m = InputMatcher::new();
    let (_, m2) = m.process(b"3");
    let (a, m3) = m2.process(b"g");
    assert_eq!(a, InputAction::PendingG);
    assert_eq!(m3.count(), 3);
    let (action, _) = m3.process(b"j");
    assert_eq!(action, InputAction::Scroll(ScrollAmount::LineDown(3)));
}

#[test]
fn del_and_empty_input_in_normal_mode() {
    let m = InputMatcher::new();
    let (a, _) = m.process(b"\x7f");
    assert_eq!(a, InputAction::Passthrough(b"\x7f".to_vec()));
    let (a2, _) = m.process(b"");
    assert_eq!(a2, InputAction::Passthrough(Vec::new()));
    let (a3, _) = m.process(b"ab");
    assert_eq!(a3, InputAction::Noop);
}

#[test]
fn cursor_kitty_esc_and_noop() {
    let m = CursorInputMatcher::new();
    assert_eq!(m.process(b"\x1b[27u"), CursorInputAction::Cancel);
    assert_eq!(m.process(b"y"), CursorInputAction::Noop);
}
