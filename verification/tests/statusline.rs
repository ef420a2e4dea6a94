use claude_vim::statusline::{build_statusline, mode_colors, Mode, StatuslineConfig};

fn make_config(cols: u16, branch: &str, use_powerline: bool) -> StatuslineConfig {
    StatuslineConfig::new(cols, branch.to_string(), use_powerline)
}

#[test]
fn test_normal_mode_contains_normal() {
    let config = make_config(80, "main", false);
    let s = build_statusline(Mode::Normal, &config);
    assert!(s.contains("NORMAL"), "Expected 'NORMAL' in: {}", s);
}

#[test]
fn test_insert_mode_contains_insert() {
    let config = make_config(80, "main", false);
    let s = build_statusline(Mode::Insert, &config);
    assert!(s.contains("INSERT"), "Expected 'INSERT' in: {}", s);
}

#[test]
fn test_branch_name_included() {
    let config = make_config(80, "feat/v0.1", false);
    let s = build_statusline(Mode::Normal, &config);
    assert!(s.contains("feat/v0.1"), "Expected branch in: {}", s);
}

#[test]
fn test_version_included() {
    let config = make_config(80, "main", false);
    let s = build_statusline(Mode::Normal, &config);
    assert!(s.contains("cv v0.2"), "Expected version in: {}", s);
}

#[test]
fn test_no_powerline_uses_ascii_separator() {
    let config = make_config(80, "main", false);
    let s = build_statusline(Mode::Normal, &config);
    assert!(s.contains('|'), "Expected '|' separator in: {}", s);
}

#[test]
fn test_powerline_uses_nerd_font_separator() {
    let config = make_config(80, "main", true);
    let s = build_statusline(Mode::Normal, &config);
    assert!(s.contains('\u{e0b0}'), "Expected Nerd Font separator in: {}", s);
}

#[test]
fn test_empty_branch_no_separator() {
    let config = make_config(80, "", false);
    let s = build_statusline(Mode::Normal, &config);
    assert!(!s.contains('|'), "Expected no separator when branch empty: {}", s);
}

#[test]
fn test_statusline_length_matches_cols() {
    let config = make_config(80, "feat/v0.1", false);
    let s = build_statusline(Mode::Normal, &config);
    assert!(s.chars().count() <= 80, "Statusline too long: {} chars", s.chars().count());
}

#[test]
fn test_visual_mode_contains_visual() {
    let config = make_config(80, "main", false);
    let s = build_statusline(Mode::Visual, &config);
    assert!(s.contains("VISUAL"), "Expected 'VISUAL' in: {}", s);
}

// --- further cases ---

#[test]
fn exact_layout() {
    let config = make_config(30, "main", false);
    let s = build_statusline(Mode::Cursor, &config);
    assert_eq!(s, " CURSOR  | main       cv v0.2 ");
    assert_eq!(s.chars().count(), 30);
}

#[test]
fn width_is_exactly_cols_when_cut() {
    // Law: the line is always exactly `cols` characters.
    let config = make_config(10, "a-long-branch-name", true);
    let s = build_statusline(Mode::Insert, &config);
    assert_eq!(s, " INSERT  \u{e0b0}");
    assert_eq!(s.chars().count(), 10);
    let zero = make_config(0, "main", false);
    assert_eq!(build_statusline(Mode::Normal, &zero), "");
}

#[test]
fn no_branch_layout() {
    let config = make_config(20, "", true);
    let s = build_statusline(Mode::Normal, &config);
    assert_eq!(s, " NORMAL     cv v0.2 ");
    assert_eq!(s.chars().count(), 20);
}

#[test]
fn colours_per_mode() {
    assert_eq!(mode_colors(Mode::Normal), ((100, 149, 237), (0, 0, 0)));
    assert_eq!(mode_colors(Mode::Insert), ((80, 200, 120), (0, 0, 0)));
    assert_eq!(mode_colors(Mode::Cursor), ((220, 180, 50), (0, 0, 0)));
    assert_eq!(mode_colors(Mode::Visual), ((190, 80, 190), (0, 0, 0)));
}

#[test]
fn config_new_sets_version() {
    let config = make_config(40, "dev", false);
    assert_eq!(config.version, "cv v0.2");
    assert_eq!(config.cols, 40);
    assert_eq!(config.branch, "dev");
    assert!(!config.use_powerline);
}
