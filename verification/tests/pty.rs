use claude_vim::pty::filter_smcup;

#[test]
fn test_filter_smcup_removes_1049h() {
    let input = b"\x1b[?1049hSOME TEXT";
    let result = filter_smcup(input);
    assert_eq!(result, b"SOME TEXT");
}

#[test]
fn test_filter_smcup_removes_1049l() {
    let input = b"\x1b[?1049lSOME TEXT";
    let result = filter_smcup(input);
    assert_eq!(result, b"SOME TEXT");
}

#[test]
fn test_filter_smcup_removes_1047h() {
    let input = b"\x1b[?1047h";
    let result = filter_smcup(input);
    assert_eq!(result, b"");
}

#[test]
fn test_filter_smcup_removes_1047l() {
    let input = b"\x1b[?1047l";
    let result = filter_smcup(input);
    assert_eq!(result, b"");
}

#[test]
fn test_filter_smcup_removes_47h() {
    let input = b"\x1b[?47h";
    let result = filter_smcup(input);
    assert_eq!(result, b"");
}

#[test]
fn test_filter_smcup_removes_47l() {
    let input = b"\x1b[?47l";
    let result = filter_smcup(input);
    assert_eq!(result, b"");
}

#[test]
fn test_filter_smcup_removes_3j() {
    let input = b"\x1b[3J";
    let result = filter_smcup(input);
    assert_eq!(result, b"");
}

#[test]
fn test_filter_smcup_passes_through_2j() {
    let input = b"\x1b[2J";
    let result = filter_smcup(input);
    assert_eq!(result, b"\x1b[2J");
}

#[test]
fn test_filter_smcup_passes_through_normal_text() {
    let input = b"hello world";
    let result = filter_smcup(input);
    assert_eq!(result, b"hello world");
}

#[test]
fn test_filter_smcup_empty_input() {
    let result = filter_smcup(b"");
    assert_eq!(result, b"");
}

#[test]
fn test_filter_smcup_multiple_sequences() {
    let input = b"\x1b[?1049hHELLO\x1b[3JWORLD\x1b[?1049l";
    let result = filter_smcup(input);
    assert_eq!(result, b"HELLOWORLD");
}

#[test]
fn test_filter_smcup_preserves_other_escape_sequences() {
    let input = b"\x1b[2J\x1b[H";
    let result = filter_smcup(input);
    assert_eq!(result, b"\x1b[2J\x1b[H");
}

#[test]
fn test_filter_smcup_1047h_not_confused_with_47h() {
    let input = b"\x1b[?1047hTEXT";
    let result = filter_smcup(input);
    assert_eq!(result, b"TEXT");
}

// --- further cases ---

#[test]
fn filter_keeps_incomplete_sequence() {
    // A cut-off sequence is not one of the removed ones.
    assert_eq!(filter_smcup(b"\x1b[?1049"), b"\x1b[?1049");
    assert_eq!(filter_smcup(b"A\x1b[3"), b"A\x1b[3");
}

#[test]
fn filter_is_single_pass() {
    // Removing an inner sequence can join bytes into a new one; that one stays.
    let input = b"\x1b[?10\x1b[3J49h";
    assert_eq!(filter_smcup(input), b"\x1b[?1049h");
}

#[test]
fn filter_back_to_back_and_text_between() {
    let input = b"\x1b[?47h\x1b[?47lA\x1b[?1047lB";
    assert_eq!(filter_smcup(input), b"AB");
}

#[test]
fn filter_never_grows_output() {
    let input = b"x\x1b[?1049h\x1by\x1b[3J\x1b[?25l";
    let out = filter_smcup(input);
    assert!(out.len() <= input.len());
    assert_eq!(out, b"x\x1by\x1b[?25l");
}
