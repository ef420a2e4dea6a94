use vstd::prelude::*;

use crate::text::{chars_of, string_from_prefix};

verus! {

/// The wrapper's editing mode.
#[derive(Debug, Clone, Copy, PartialEq, Eq, Structural)]
pub enum Mode {
    Insert,
    Normal,
    Cursor,
    Visual,
}

/// The version shown at the right end of the statusline: `cv v0.2`.
pub open spec fn version_text() -> Seq<char> {
    seq!['c', 'v', ' ', 'v', '0', '.', '2']
}

/// How the statusline is drawn.
pub struct StatuslineConfig {
    pub cols: u16,
    pub branch: String,
    pub version: &'static str,
    pub use_powerline: bool,
}

impl StatuslineConfig {
    pub fn new(cols: u16, branch: String, use_powerline: bool) -> (c: Self)
        ensures
            c.cols == cols,
            c.branch@ == branch@,
            c.version@ == version_text(),
            c.use_powerline == use_powerline,
    {
        let version = "cv v0.2";
        proof {
            reveal_strlit("cv v0.2");
            assert(version@ =~= version_text());
        }
        StatuslineConfig { cols, branch, version, use_powerline }
    }
}

/// The mode's label, padded with a space on each side.
pub open spec fn mode_label(mode: Mode) -> Seq<char> {
    match mode {
        Mode::Normal => seq![' ', 'N', 'O', 'R', 'M', 'A', 'L', ' '],
        Mode::Insert => seq![' ', 'I', 'N', 'S', 'E', 'R', 'T', ' '],
        Mode::Cursor => seq![' ', 'C', 'U', 'R', 'S', 'O', 'R', ' '],
        Mode::Visual => seq![' ', 'V', 'I', 'S', 'U', 'A', 'L', ' '],
    }
}

/// The separator before the branch: the Powerline glyph U+E0B0 or `|`.
pub open spec fn separator(use_powerline: bool) -> char {
    if use_powerline {
        '\u{e0b0}'
    } else {
        '|'
    }
}

/// ` <sep> <branch> `, or nothing when there is no branch.
pub open spec fn branch_part(branch: Seq<char>, use_powerline: bool) -> Seq<char> {
    if branch.len() == 0 {
        Seq::empty()
    } else {
        seq![' ', separator(use_powerline), ' '] + branch + seq![' ']
    }
}

pub open spec fn left_part(mode: Mode, branch: Seq<char>, use_powerline: bool) -> Seq<char> {
    mode_label(mode) + branch_part(branch, use_powerline)
}

pub open spec fn right_part(version: Seq<char>) -> Seq<char> {
    seq![' '] + version + seq![' ']
}

/// The statusline text: the left part, spaces up to `cols`, the version at the right,
/// all cut to `cols` characters.
pub open spec fn statusline_text(
    mode: Mode,
    cols: nat,
    branch: Seq<char>,
    version: Seq<char>,
    use_powerline: bool,
) -> Seq<char> {
    let left = left_part(mode, branch, use_powerline);
    let right = right_part(version);
    let padding: nat = if cols > left.len() + right.len() {
        (cols - left.len() - right.len()) as nat
    } else {
        0
    };
    let full = left + Seq::new(padding, |_i: int| ' ') + right;
    full.take(if cols < full.len() { cols as int } else { full.len() as int })
}

fn push_chars(v: &mut Vec<char>, s: &[char])
    ensures
        final(v)@ == old(v)@ + s@,
{
    let mut i: usize = 0;
    while i < s.len()
        invariant
            i <= s@.len(),
            v@ == old(v)@ + s@.take(i as int),
        decreases s@.len() - i,
    {
        v.push(s[i]);
        i = i + 1;
        assert(v@ =~= old(v)@ + s@.take(i as int));
    }
    assert(s@.take(i as int) =~= s@);
}

fn push_label(v: &mut Vec<char>, mode: Mode)
    ensures
        final(v)@ == old(v)@ + mode_label(mode),
{
    let label: [char; 8] = match mode {
        Mode::Normal => [' ', 'N', 'O', 'R', 'M', 'A', 'L', ' '],
        Mode::Insert => [' ', 'I', 'N', 'S', 'E', 'R', 'T', ' '],
        Mode::Cursor => [' ', 'C', 'U', 'R', 'S', 'O', 'R', ' '],
        Mode::Visual => [' ', 'V', 'I', 'S', 'U', 'A', 'L', ' '],
    };
    assert(label@ =~= mode_label(mode));
    push_chars(v, label.as_slice());
}

/// The statusline text for a mode (no drawing).
pub fn build_statusline(mode: Mode, config: &StatuslineConfig) -> (s: String)
    ensures
        s@ == statusline_text(
            mode,
            config.cols as nat,
            config.branch@,
            config.version@,
            config.use_powerline,
        ),
{
    let sep: char = if config.use_powerline { '\u{e0b0}' } else { '|' };
    let mut left: Vec<char> = Vec::new();
    push_label(&mut left, mode);
    let branch = chars_of(config.branch.as_str());
    if branch.len() > 0 {
        left.push(' ');
        left.push(sep);
        left.push(' ');
        push_chars(&mut left, branch.as_slice());
        left.push(' ');
    }
    proof {
        assert(left@ =~= left_part(mode, config.branch@, config.use_powerline));
    }
    let version = chars_of(config.version);
    let mut right: Vec<char> = Vec::new();
    right.push(' ');
    push_chars(&mut right, version.as_slice());
    right.push(' ');
    assert(right@ =~= right_part(config.version@));
    let total_cols = config.cols as usize;
    let left_len = left.len();
    let right_len = right.len();
    let padding: usize = if total_cols > left_len && total_cols - left_len > right_len {
        total_cols - left_len - right_len
    } else {
        0
    };
    let mut full = left;
    let mut i: usize = 0;
    while i < padding
        invariant
            i <= padding,
            full@ == left_part(mode, config.branch@, config.use_powerline) + Seq::new(
                i as nat,
                |_i: int| ' ',
            ),
        decreases padding - i,
    {
        full.push(' ');
        i = i + 1;
        assert(full@ =~= left_part(mode, config.branch@, config.use_powerline) + Seq::new(
            i as nat,
            |_i: int| ' ',
        ));
    }
    push_chars(&mut full, right.as_slice());
    let n = if total_cols < full.len() { total_cols } else { full.len() };
    string_from_prefix(&full, n)
}

/// Statusline colours for a mode: (background, foreground) as RGB.
pub open spec fn mode_color_spec(mode: Mode) -> ((u8, u8, u8), (u8, u8, u8)) {
    match mode {
        Mode::Normal => ((100, 149, 237), (0, 0, 0)),
        Mode::Insert => ((80, 200, 120), (0, 0, 0)),
        Mode::Cursor => ((220, 180, 50), (0, 0, 0)),
        Mode::Visual => ((190, 80, 190), (0, 0, 0)),
    }
}

/// The statusline colours of a mode: (background, foreground) as RGB.
pub fn mode_colors(mode: Mode) -> (c: ((u8, u8, u8), (u8, u8, u8)))
    ensures
        c == mode_color_spec(mode),
{
    match mode {
        Mode::Normal => ((100, 149, 237), (0, 0, 0)),
        Mode::Insert => ((80, 200, 120), (0, 0, 0)),
        Mode::Cursor => ((220, 180, 50), (0, 0, 0)),
        Mode::Visual => ((190, 80, 190), (0, 0, 0)),
    }
}

// ---------------------------------------------------------------------------
// Laws
// ---------------------------------------------------------------------------

/// The statusline is exactly `cols` characters wide: padded when the parts are
/// shorter, cut when they are longer.
pub proof fn lemma_statusline_width(
    mode: Mode,
    cols: nat,
    branch: Seq<char>,
    version: Seq<char>,
    use_powerline: bool,
)
    ensures
        statusline_text(mode, cols, branch, version, use_powerline).len() == cols,
{
}

/// The statusline starts with the mode's label (as much of it as fits).
pub proof fn lemma_statusline_starts_with_mode(
    mode: Mode,
    cols: nat,
    branch: Seq<char>,
    version: Seq<char>,
    use_powerline: bool,
)
    ensures
        ({
            let n: int = if cols < 8 { cols as int } else { 8 };
            statusline_text(mode, cols, branch, version, use_powerline).take(n) == mode_label(mode).take(n)
        }),
{
    let n: int = if cols < 8 { cols as int } else { 8 };
    let t = statusline_text(mode, cols, branch, version, use_powerline);
    assert(t.take(n) =~= mode_label(mode).take(n));
}

/// When the parts fit, the version ends the line and the branch part follows the
/// mode's label.
pub proof fn lemma_statusline_layout_when_fits(
    mode: Mode,
    cols: nat,
    branch: Seq<char>,
    version: Seq<char>,
    use_powerline: bool,
)
    requires
        cols >= left_part(mode, branch, use_powerline).len() + right_part(version).len(),
    ensures
        ({
            let t = statusline_text(mode, cols, branch, version, use_powerline);
            let left = left_part(mode, branch, use_powerline);
            let right = right_part(version);
            &&& t.take(left.len() as int) == left
            &&& t.skip(cols - right.len()) == right
        }),
{
    let t = statusline_text(mode, cols, branch, version, use_powerline);
    let left = left_part(mode, branch, use_powerline);
    let right = right_part(version);
    assert(t.take(left.len() as int) =~= left);
    assert(t.skip(cols - right.len()) =~= right);
}

/// With no branch there is no separator: the line is the label, spaces and the version.
pub proof fn lemma_statusline_no_branch(mode: Mode, cols: nat, version: Seq<char>, use_powerline: bool)
    ensures
        left_part(mode, Seq::empty(), use_powerline) == mode_label(mode),
{
    assert(left_part(mode, Seq::empty(), use_powerline) =~= mode_label(mode));
}

} // verus!
