use claude_vim::input::ScrollAmount;
use claude_vim::scroll::{sgr_scroll_event, Scroller};

#[test]
fn test_sgr_scroll_event_format() {
    let event = sgr_scroll_event(64, 40, 12);
    assert_eq!(event, b"\x1b[<64;40;12M");
}

#[test]
fn test_line_up() {
    let s = Scroller::new(80, 24);
    let bytes = s.scroll_bytes(ScrollAmount::LineUp(1));
    assert_eq!(bytes, b"\x1b[<64;40;12M");
}

#[test]
fn test_line_down() {
    let s = Scroller::new(80, 24);
    let bytes = s.scroll_bytes(ScrollAmount::LineDown(1));
    assert_eq!(bytes, b"\x1b[<65;40;12M");
}

#[test]
fn test_line_down_count_3() {
    let s = Scroller::new(80, 24);
    let bytes = s.scroll_bytes(ScrollAmount::LineDown(3));
    let single = b"\x1b[<65;40;12M";
    assert_eq!(bytes.len(), single.len() * 3);
}

#[test]
fn test_half_page_count() {
    let s = Scroller::new(80, 24);
    let bytes = s.scroll_bytes(ScrollAmount::HalfPageUp(1));
    let single = b"\x1b[<64;40;12M";
    assert_eq!(bytes.len(), single.len() * 4);
}

#[test]
fn test_half_page_count_3() {
    let s = Scroller::new(80, 24);
    let bytes = s.scroll_bytes(ScrollAmount::HalfPageDown(3));
    let single = b"\x1b[<65;40;12M";
    assert_eq!(bytes.len(), single.len() * 12);
}

#[test]
fn test_full_page_count() {
    let s = Scroller::new(80, 24);
    let bytes = s.scroll_bytes(ScrollAmount::FullPageUp(1));
    let single = b"\x1b[<64;40;12M";
    assert_eq!(bytes.len(), single.len() * 8);
}

#[test]
fn test_half_page_scales_with_rows() {
    let s = Scroller::new(80, 48);
    let bytes = s.scroll_bytes(ScrollAmount::HalfPageDown(1));
    let single_len = b"\x1b[<65;40;24M".len();
    assert_eq!(bytes.len(), single_len * 8);
}

#[test]
fn test_small_window_min_1_event() {
    let s = Scroller::new(80, 4);
    let bytes = s.scroll_bytes(ScrollAmount::HalfPageUp(1));
    let single_len = b"\x1b[<64;40;2M".len();
    assert_eq!(bytes.len(), single_len * 1);
}

#[test]
fn test_top_sends_ctrl_home() {
    let s = Scroller::new(80, 24);
    let bytes = s.scroll_bytes(ScrollAmount::Top);
    assert_eq!(bytes, b"\x1b[1;5H");
}

#[test]
fn test_bottom_sends_ctrl_end() {
    let s = Scroller::new(80, 24);
    let bytes = s.scroll_bytes(ScrollAmount::Bottom);
    assert_eq!(bytes, b"\x1b[1;5F");
}

#[test]
fn test_set_size() {
    let mut s = Scroller::new(80, 24);
    s.set_size(120, 40);
    let bytes = s.scroll_bytes(ScrollAmount::LineUp(1));
    assert_eq!(bytes, b"\x1b[<64;60;20M");
}

// --- further cases ---

#[test]
fn repeated_events_are_identical_copies() {
    let s = Scroller::new(80, 24);
    let bytes = s.scroll_bytes(ScrollAmount::LineDown(3));
    assert_eq!(bytes, b"\x1b[<65;40;12M\x1b[<65;40;12M\x1b[<65;40;12M".to_vec());
}

#[test]
fn tiny_window_positions_are_at_least_one() {
    let s = Scroller::new(1, 1);
    assert_eq!(s.scroll_bytes(ScrollAmount::LineUp(1)), b"\x1b[<64;1;1M");
    assert_eq!(s.scroll_bytes(ScrollAmount::FullPageDown(2)), b"\x1b[<65;1;1M\x1b[<65;1;1M");
}

#[test]
fn zero_count_sends_nothing() {
    let s = Scroller::new(80, 24);
    assert!(s.scroll_bytes(ScrollAmount::LineDown(0)).is_empty());
}

#[test]
fn huge_count_is_capped() {
    let s = Scroller::new(2, 2);
    let single_len = b"\x1b[<65;1;1M".len();
    let bytes = s.scroll_bytes(ScrollAmount::LineDown(1_000_000));
    assert_eq!(bytes.len(), single_len * 65535);
    let bytes = s.scroll_bytes(ScrollAmount::FullPageDown(u32::MAX));
    assert_eq!(bytes.len(), single_len * 65535);
}

#[test]
fn large_coordinates_and_button_digits() {
    assert_eq!(sgr_scroll_event(65, 65535, 1000), b"\x1b[<65;65535;1000M");
    assert_eq!(sgr_scroll_event(0, 0, 9), b"\x1b[<0;0;9M");
}
