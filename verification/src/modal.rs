use vstd::prelude::*;

use crate::input::{
    bytes_eq, cursor_key_action, is_key, key, kitty_esc, normal_step, CursorInputAction, CursorInputMatcher,
    InputAction, InputActionView, InputMatcher, ScrollAmount, VisualInputAction, VisualInputMatcher,
    visual_key_action,
};
use crate::screen::{umin, usub, ScreenView, VirtualScreen};
use crate::statusline::Mode;
use crate::screen::row_chars;
use crate::text::{char_is_whitespace, lemma_trim_end_len, push_char, trim_end};

verus! {

/// Cursor and Visual mode state: where the cursor is, where the selection started,
/// and which rows are currently drawn highlighted (to be restored).
#[derive(Debug, Clone, Copy, PartialEq, Eq)]
pub struct CursorState {
    pub cursor_row: usize,
    pub cursor_col: usize,
    /// Where the Visual selection started (`None` in Cursor mode).
    pub anchor_row: Option<usize>,
    pub anchor_col: usize,
    pub highlighted_lo: usize,
    pub highlighted_hi: usize,
}

/// A side effect that the caller performs, in order.
#[derive(Debug, Clone, PartialEq, Eq)]
pub enum Effect {
    /// Write the bytes to the PTY.
    WritePty(Vec<u8>),
    /// Draw the statusline for the current mode on the last terminal row, then flush.
    RenderStatusline,
    /// Save the terminal cursor, print each text at column 0 of its row, restore the
    /// cursor, flush.
    Paint(Vec<(usize, String)>),
    /// Scroll by this amount (subject to the caller's throttle).
    Scroll(ScrollAmount),
    /// Copy the text to the clipboard.
    Yank(String),
    /// Wait briefly for the bytes that follow a lone ESC, then call
    /// [`ModalState::escape_followup`].
    AwaitEscape,
}

pub enum EffectView {
    WritePty(Seq<u8>),
    RenderStatusline,
    Paint(Seq<(usize, Seq<char>)>),
    Scroll(ScrollAmount),
    Yank(Seq<char>),
    AwaitEscape,
}

pub open spec fn paint_view(v: Seq<(usize, String)>) -> Seq<(usize, Seq<char>)> {
    v.map_values(|p: (usize, String)| (p.0, p.1@))
}

impl View for Effect {
    type V = EffectView;

    open spec fn view(&self) -> EffectView {
        match self {
            Effect::WritePty(b) => EffectView::WritePty(b@),
            Effect::RenderStatusline => EffectView::RenderStatusline,
            Effect::Paint(p) => EffectView::Paint(paint_view(p@)),
            Effect::Scroll(a) => EffectView::Scroll(*a),
            Effect::Yank(s) => EffectView::Yank(s@),
            Effect::AwaitEscape => EffectView::AwaitEscape,
        }
    }
}

pub open spec fn effects_view(v: Seq<Effect>) -> Seq<EffectView> {
    v.map_values(|e: Effect| e@)
}

/// What came after a lone ESC in Insert mode.
pub enum EscapeFollowup {
    /// More input arrived within the wait.
    Bytes(Vec<u8>),
    /// Nothing arrived within the wait.
    Timeout,
    /// The input channel closed.
    Disconnected,
}

/// The decision-making state of the wrapper, as mathematical values.
pub struct ModalView {
    pub mode: Mode,
    /// Normal-mode matcher state (pending `g`, count).
    pub matcher: (bool, u32),
    pub cursor: Option<CursorState>,
    /// Terminal rows, statusline included.
    pub rows: u16,
    pub cols: u16,
}

// ---------------------------------------------------------------------------
// Drawing the cursor and the selection
// ---------------------------------------------------------------------------

pub open spec fn spaces(n: nat) -> Seq<char> {
    Seq::new(n, |_i: int| ' ')
}

/// `s` padded with spaces to at least `w` characters.
pub open spec fn pad_right(s: Seq<char>, w: nat) -> Seq<char> {
    if s.len() >= w {
        s
    } else {
        s + spaces((w - s.len()) as nat)
    }
}

/// `ESC [ 7 m`: reverse video on.
pub open spec fn reverse_on() -> Seq<char> {
    seq!['\x1b', '[', '7', 'm']
}

/// `ESC [ 27 m`: reverse video off.
pub open spec fn reverse_off() -> Seq<char> {
    seq!['\x1b', '[', '2', '7', 'm']
}

/// The rows `lo..=min(hi, last)` redrawn with their screen text padded to `cols`.
pub open spec fn restore_paint(v: ScreenView, lo: usize, hi: usize, grid_rows: usize, cols: usize) -> Seq<(usize, Seq<char>)> {
    let top = umin(hi, usub(grid_rows, 1));
    let n: nat = if top >= lo { (top - lo + 1) as nat } else { 0 };
    Seq::new(n, |k: int| ((lo + k) as usize, pad_right(v.line_text(lo + k), cols as nat)))
}

/// The selection as (start_row, start_col, end_row, end_col), start before end.
pub open spec fn ordered_selection(st: CursorState) -> (usize, usize, usize, usize) {
    let a = st.anchor_row.unwrap();
    if a < st.cursor_row || (a == st.cursor_row && st.anchor_col <= st.cursor_col) {
        (a, st.anchor_col, st.cursor_row, st.cursor_col)
    } else {
        (st.cursor_row, st.cursor_col, a, st.anchor_col)
    }
}

/// A row with the character at `col` in reverse video, padded to `cols`.
pub open spec fn cursor_line(text: Seq<char>, col: usize, cols: usize) -> Seq<char> {
    let len = text.len();
    let before = text.take(umin(col, len as usize) as int);
    let ch: char = if col < len { text[col as int] } else { ' ' };
    let after = if col + 1 < len { text.skip(col + 1) } else { Seq::empty() };
    let used = before.len() + 1 + after.len();
    let remaining: nat = if cols >= used { (cols - used) as nat } else { 0 };
    before + reverse_on() + seq![ch] + reverse_off() + after + spaces(remaining)
}

/// A padded row with the characters in `[hs, he)` in reverse video.
pub open spec fn selection_line(padded: Seq<char>, hs: usize, he: usize) -> Seq<char> {
    let len = padded.len() as usize;
    let a = umin(hs, len);
    let b = umin(he, len);
    padded.take(a as int) + reverse_on() + padded.subrange(a as int, b as int) + reverse_off() + padded.skip(
        b as int,
    )
}

/// The selected rows, each with its selected characters in reverse video.
pub open spec fn selection_paint(v: ScreenView, st: CursorState, grid_rows: usize, cols: usize) -> Seq<(usize, Seq<char>)> {
    let (sr, sc, er, ec) = ordered_selection(st);
    let top = umin(er, usub(grid_rows, 1));
    let n: nat = if top >= sr { (top - sr + 1) as nat } else { 0 };
    Seq::new(
        n,
        |k: int|
            {
                let r = sr + k;
                let hs: usize = if r == sr { sc } else { 0 };
                let he: usize = if r == er { umin((ec + 1) as usize, cols) } else { cols };
                (r as usize, selection_line(pad_right(v.line_text(r), cols as nat), hs, he))
            },
    )
}

/// The rows drawn when the highlight is redrawn, and the state afterwards: first the
/// previously highlighted rows restored, then the cursor cell (Cursor mode) or the
/// selected characters (Visual mode) in reverse video.
pub open spec fn highlight(v: ScreenView, st: CursorState, grid_rows: usize, cols: usize) -> (Seq<(usize, Seq<char>)>, CursorState) {
    let last = usub(grid_rows, 1);
    let restore = restore_paint(v, st.highlighted_lo, st.highlighted_hi, grid_rows, cols);
    match st.anchor_row {
        None => {
            let new_hi = umin(st.cursor_row, last);
            let all_lo = umin(st.highlighted_lo, st.cursor_row);
            let old_hi = umin(st.highlighted_hi, last);
            let all_hi = if old_hi >= new_hi { old_hi } else { new_hi };
            let row = umin(st.cursor_row, last);
            let text = if all_lo <= row <= all_hi { v.line_text(row as int) } else { Seq::empty() };
            let col = umin(st.cursor_col, usub(cols, 1));
            (
                restore.push((row, cursor_line(text, col, cols))),
                CursorState { highlighted_lo: row, highlighted_hi: row, ..st },
            )
        },
        Some(_) => {
            let (sr, sc, er, ec) = ordered_selection(st);
            let sel = selection_paint(v, st, grid_rows, cols);
            (restore + sel, CursorState { highlighted_lo: sr, highlighted_hi: er, ..st })
        },
    }
}

/// When drawing the selection is defined: the first selected row does not start past
/// the padded text.
pub open spec fn highlight_defined(v: ScreenView, st: CursorState, grid_rows: usize, cols: usize) -> bool {
    st.anchor_row is Some ==> {
        let (sr, sc, er, ec) = ordered_selection(st);
        sr <= umin(er, usub(grid_rows, 1)) ==> !(sc > cols && v.line_text(sr as int).len() > cols)
    }
}

/// `pieces` joined with newlines.
pub open spec fn join_lines(pieces: Seq<Seq<char>>) -> Seq<char>
    decreases pieces.len(),
{
    if pieces.len() == 0 {
        Seq::empty()
    } else if pieces.len() == 1 {
        pieces[0]
    } else {
        join_lines(pieces.drop_last()) + seq!['\n'] + pieces.last()
    }
}

/// The part of row `r` that the selection covers, without trailing whitespace.
pub open spec fn yank_piece(v: ScreenView, st: CursorState, r: int, cols: usize) -> Seq<char> {
    let (sr, sc, er, ec) = ordered_selection(st);
    let t = v.line_text(r);
    let len = t.len() as usize;
    let from: usize = if r == sr { sc } else { 0 };
    let to: usize = if r == er { umin((ec + 1) as usize, len) } else { umin(cols, len) };
    trim_end(t.subrange(umin(from, len) as int, umin(to, len) as int))
}

/// The selected text: the covered part of each selected row, one row per line.
pub open spec fn yank_text(v: ScreenView, st: CursorState, grid_rows: usize, cols: usize) -> Seq<char> {
    let (sr, sc, er, ec) = ordered_selection(st);
    let top = umin(er, usub(grid_rows, 1));
    let n: nat = if top >= sr { (top - sr + 1) as nat } else { 0 };
    join_lines(Seq::new(n, |k: int| yank_piece(v, st, sr + k, cols)))
}

/// When cutting out the selected text is defined.
pub open spec fn yank_defined(v: ScreenView, st: CursorState, grid_rows: usize, cols: usize) -> bool {
    st.anchor_row is Some ==> {
        let (sr, sc, er, ec) = ordered_selection(st);
        sr < er && sr <= umin(er, usub(grid_rows, 1)) ==> !(sc > cols && v.line_text(sr as int).len()
            > cols)
    }
}

// ---------------------------------------------------------------------------
// Mode transitions
// ---------------------------------------------------------------------------

/// Rows available to the child (the last terminal row is the statusline).
pub open spec fn grid_rows(m: ModalView) -> usize {
    usub(m.rows as usize, 1)
}

pub open spec fn to_normal(m: ModalView) -> ModalView {
    ModalView { mode: Mode::Normal, matcher: (false, 0), cursor: None, ..m }
}

pub open spec fn to_insert(m: ModalView) -> ModalView {
    ModalView { mode: Mode::Insert, matcher: (false, 0), ..m }
}

/// The highlight redrawn for the current cursor state (nothing without one).
pub open spec fn redraw(m: ModalView, v: ScreenView) -> (ModalView, Seq<EffectView>) {
    match m.cursor {
        None => (m, Seq::empty()),
        Some(st) => {
            let (p, st2) = highlight(v, st, grid_rows(m), m.cols as usize);
            (ModalView { cursor: Some(st2), ..m }, seq![EffectView::Paint(p)])
        },
    }
}

/// The highlighted rows drawn again as the screen has them (nothing without a state).
pub open spec fn restore(m: ModalView, v: ScreenView) -> Seq<EffectView> {
    match m.cursor {
        None => Seq::empty(),
        Some(st) => seq![
            EffectView::Paint(
                restore_paint(v, st.highlighted_lo, st.highlighted_hi, grid_rows(m), m.cols as usize),
            ),
        ],
    }
}

/// Entering Cursor mode: the cursor starts at column 0 of the middle row.
pub open spec fn to_cursor(m: ModalView, v: ScreenView) -> (ModalView, Seq<EffectView>) {
    let start = grid_rows(m) / 2;
    let st = CursorState {
        cursor_row: start,
        cursor_col: 0,
        anchor_row: None,
        anchor_col: 0,
        highlighted_lo: start,
        highlighted_hi: start,
    };
    let m1 = ModalView { mode: Mode::Cursor, cursor: Some(st), ..m };
    let (m2, e) = redraw(m1, v);
    (m2, seq![EffectView::RenderStatusline] + e)
}

/// `ESC [ 13 u`: Enter in the Kitty keyboard protocol.
pub open spec fn kitty_enter() -> Seq<u8> {
    seq![0x1bu8, 0x5b, 0x31, 0x33, 0x75]
}

/// `ESC [ 13 ; 2 u`: Shift+Enter, which the child takes as a newline.
pub open spec fn shift_enter() -> Seq<u8> {
    seq![0x1bu8, 0x5b, 0x31, 0x33, 0x3b, 0x32, 0x75]
}

/// Insert mode: Escape (Kitty form) goes to Normal mode, a lone ESC waits for what
/// follows, Enter becomes Shift+Enter (a newline), anything else is forwarded.
pub open spec fn insert_step(m: ModalView, bytes: Seq<u8>) -> (ModalView, Seq<EffectView>) {
    if bytes == kitty_esc() {
        (to_normal(m), seq![EffectView::RenderStatusline])
    } else if bytes == key(0x1b) {
        (m, seq![EffectView::AwaitEscape])
    } else if bytes == key(0x0d) || bytes == kitty_enter() {
        (m, seq![EffectView::WritePty(shift_enter())])
    } else {
        (m, seq![EffectView::WritePty(bytes)])
    }
}

/// `[ 27 u`: the rest of a Kitty Escape that arrived split after its ESC.
pub open spec fn kitty_esc_tail() -> Seq<u8> {
    seq![0x5bu8, 0x32, 0x37, 0x75]
}

/// After a lone ESC: nothing within the wait (or the rest of a split Kitty Escape)
/// means Escape, so Normal mode; other bytes are forwarded together with the ESC.
pub open spec fn escape_step(m: ModalView, f: Option<Seq<u8>>, disconnected: bool) -> (ModalView, Seq<EffectView>) {
    if disconnected {
        (m, Seq::empty())
    } else {
        match f {
            Some(b) => if b == kitty_esc_tail() {
                (to_normal(m), seq![EffectView::RenderStatusline])
            } else {
                (m, seq![EffectView::WritePty(seq![0x1bu8] + b)])
            },
            None => (to_normal(m), seq![EffectView::RenderStatusline]),
        }
    }
}

/// Normal mode: the key matcher decides; a scroll is handed to the caller.
pub open spec fn normal_mode_step(m: ModalView, v: ScreenView, bytes: Seq<u8>) -> (ModalView, Seq<EffectView>, bool) {
    let (a, st) = normal_step(m.matcher, bytes);
    let m1 = ModalView { matcher: st, ..m };
    match a {
        InputActionView::Scroll(x) => (m1, seq![EffectView::Scroll(x)], true),
        InputActionView::SwitchToInsert => (to_insert(m1), seq![EffectView::RenderStatusline], false),
        InputActionView::EnterCursor => {
            let (m2, e) = to_cursor(m1, v);
            (m2, e, false)
        },
        InputActionView::Passthrough(d) => (m1, seq![EffectView::WritePty(d)], false),
        _ => (m1, Seq::empty(), false),
    }
}

pub open spec fn move_down(st: CursorState, grid_rows: usize) -> CursorState {
    CursorState { cursor_row: umin((st.cursor_row + 1) as usize, usub(grid_rows, 1)), ..st }
}

pub open spec fn move_up(st: CursorState) -> CursorState {
    CursorState { cursor_row: usub(st.cursor_row, 1), ..st }
}

pub open spec fn move_right(st: CursorState, grid_cols: usize) -> CursorState {
    CursorState { cursor_col: umin((st.cursor_col + 1) as usize, usub(grid_cols, 1)), ..st }
}

pub open spec fn move_left(st: CursorState) -> CursorState {
    CursorState { cursor_col: usub(st.cursor_col, 1), ..st }
}

pub open spec fn map_cursor(c: Option<CursorState>, f: spec_fn(CursorState) -> CursorState) -> Option<CursorState> {
    match c {
        Some(st) => Some(f(st)),
        None => None,
    }
}

/// The cursor state after a movement key (`None` for other keys).
pub open spec fn moved_by(m: ModalView, down: bool, up: bool, right: bool, left: bool) -> Option<CursorState> {
    let g = grid_rows(m);
    let c = m.cols as usize;
    if down {
        map_cursor(m.cursor, |st: CursorState| move_down(st, g))
    } else if up {
        map_cursor(m.cursor, |st: CursorState| move_up(st))
    } else if right {
        map_cursor(m.cursor, |st: CursorState| move_right(st, c))
    } else {
        map_cursor(m.cursor, |st: CursorState| move_left(st))
    }
}

pub open spec fn start_selection(st: CursorState) -> CursorState {
    CursorState { anchor_row: Some(st.cursor_row), anchor_col: st.cursor_col, ..st }
}

/// Cursor mode: hjkl move the cursor, `v` starts a selection in Visual mode, Escape
/// goes back to Normal mode.
pub open spec fn cursor_mode_step(m: ModalView, v: ScreenView, bytes: Seq<u8>) -> (ModalView, Seq<EffectView>) {
    let a = cursor_key_action(bytes);
    match a {
        CursorInputAction::MoveDown => redraw(ModalView { cursor: moved_by(m, true, false, false, false), ..m }, v),
        CursorInputAction::MoveUp => redraw(ModalView { cursor: moved_by(m, false, true, false, false), ..m }, v),
        CursorInputAction::MoveRight => redraw(ModalView { cursor: moved_by(m, false, false, true, false), ..m }, v),
        CursorInputAction::MoveLeft => redraw(ModalView { cursor: moved_by(m, false, false, false, true), ..m }, v),
        CursorInputAction::EnterVisual => {
            let m1 = ModalView {
                mode: Mode::Visual,
                cursor: map_cursor(m.cursor, |st: CursorState| start_selection(st)),
                ..m
            };
            let (m2, e) = redraw(m1, v);
            (m2, seq![EffectView::RenderStatusline] + e)
        },
        CursorInputAction::Cancel => (to_normal(m), restore(m, v) + seq![EffectView::RenderStatusline]),
        CursorInputAction::Noop => (m, Seq::empty()),
    }
}

/// Leaving Cursor or Visual mode: the highlighted rows are drawn again as the screen
/// has them, then Normal mode's statusline.
pub open spec fn leave_selection(m: ModalView, v: ScreenView) -> (ModalView, Seq<EffectView>) {
    (to_normal(m), restore(m, v) + seq![EffectView::RenderStatusline])
}

/// Visual mode: hjkl extend the selection, `y` asks for the selected text to be
/// copied (the mode stays until the copy is done, see [`ModalState::finish_yank`]),
/// Escape goes back to Normal mode without copying.
pub open spec fn visual_mode_step(m: ModalView, v: ScreenView, bytes: Seq<u8>) -> (ModalView, Seq<EffectView>) {
    let a = visual_key_action(bytes);
    match a {
        VisualInputAction::MoveDown => redraw(ModalView { cursor: moved_by(m, true, false, false, false), ..m }, v),
        VisualInputAction::MoveUp => redraw(ModalView { cursor: moved_by(m, false, true, false, false), ..m }, v),
        VisualInputAction::MoveRight => redraw(ModalView { cursor: moved_by(m, false, false, true, false), ..m }, v),
        VisualInputAction::MoveLeft => redraw(ModalView { cursor: moved_by(m, false, false, false, true), ..m }, v),
        VisualInputAction::Yank => match m.cursor {
            Some(st) => if st.anchor_row is Some {
                (m, seq![EffectView::Yank(yank_text(v, st, grid_rows(m), m.cols as usize))])
            } else {
                leave_selection(m, v)
            },
            None => leave_selection(m, v),
        },
        VisualInputAction::Cancel => (to_normal(m), restore(m, v) + seq![EffectView::RenderStatusline]),
        VisualInputAction::Noop => (m, Seq::empty()),
    }
}

/// One chunk of input in the current mode: the next state, the effects in order, and
/// whether it was a scroll (after which the caller drains PTY output first).
pub open spec fn input_step(m: ModalView, v: ScreenView, bytes: Seq<u8>) -> (ModalView, Seq<EffectView>, bool) {
    match m.mode {
        Mode::Insert => {
            let (m2, e) = insert_step(m, bytes);
            (m2, e, false)
        },
        Mode::Normal => normal_mode_step(m, v, bytes),
        Mode::Cursor => {
            let (m2, e) = cursor_mode_step(m, v, bytes);
            (m2, e, false)
        },
        Mode::Visual => {
            let (m2, e) = visual_mode_step(m, v, bytes);
            (m2, e, false)
        },
    }
}

/// When handling the chunk is defined: any selection drawn or copied stays within
/// its row's text.
pub open spec fn input_defined(m: ModalView, v: ScreenView, bytes: Seq<u8>) -> bool {
    let g = grid_rows(m);
    let c = m.cols as usize;
    let ok = |cs: Option<CursorState>|
        match cs {
            Some(st) => highlight_defined(v, st, g, c),
            None => true,
        };
    match m.mode {
        Mode::Cursor => {
            let a = cursor_key_action(bytes);
            if a == CursorInputAction::MoveDown {
                ok(moved_by(m, true, false, false, false))
            } else if a == CursorInputAction::MoveUp {
                ok(moved_by(m, false, true, false, false))
            } else if a == CursorInputAction::MoveRight {
                ok(moved_by(m, false, false, true, false))
            } else if a == CursorInputAction::MoveLeft {
                ok(moved_by(m, false, false, false, true))
            } else if a == CursorInputAction::EnterVisual {
                ok(map_cursor(m.cursor, |st: CursorState| start_selection(st)))
            } else {
                true
            }
        },
        Mode::Visual => {
            let a = visual_key_action(bytes);
            if a == VisualInputAction::MoveDown {
                ok(moved_by(m, true, false, false, false))
            } else if a == VisualInputAction::MoveUp {
                ok(moved_by(m, false, true, false, false))
            } else if a == VisualInputAction::MoveRight {
                ok(moved_by(m, false, false, true, false))
            } else if a == VisualInputAction::MoveLeft {
                ok(moved_by(m, false, false, false, true))
            } else if a == VisualInputAction::Yank {
                match m.cursor {
                    Some(st) => yank_defined(v, st, g, c),
                    None => true,
                }
            } else {
                true
            }
        },
        _ => true,
    }
}

/// Cursor-state positions stay within the terminal's coordinate range.
pub open spec fn cursor_state_bounded(c: Option<CursorState>) -> bool {
    match c {
        Some(st) => {
            &&& st.cursor_row <= u16::MAX
            &&& st.cursor_col <= u16::MAX
            &&& st.anchor_col <= u16::MAX
            &&& st.highlighted_lo <= u16::MAX
            &&& st.highlighted_hi <= u16::MAX
            &&& (st.anchor_row matches Some(a) ==> a <= u16::MAX)
        },
        None => true,
    }
}

} // verus!

verus! {

// ---------------------------------------------------------------------------
// Building the drawn rows
// ---------------------------------------------------------------------------

/// Appends `src[from..to]`.
fn push_range(out: &mut Vec<char>, src: &Vec<char>, from: usize, to: usize)
    requires
        from <= to <= src@.len(),
    ensures
        final(out)@ == old(out)@ + src@.subrange(from as int, to as int),
{
    let mut i = from;
    while i < to
        invariant
            from <= i <= to,
            to <= src@.len(),
            out@ == old(out)@ + src@.subrange(from as int, i as int),
        decreases to - i,
    {
        out.push(src[i]);
        i = i + 1;
        assert(out@ =~= old(out)@ + src@.subrange(from as int, i as int));
    }
}

fn push_spaces(out: &mut Vec<char>, n: usize)
    ensures
        final(out)@ == old(out)@ + spaces(n as nat),
{
    let mut i: usize = 0;
    while i < n
        invariant
            i <= n,
            out@ == old(out)@ + spaces(i as nat),
        decreases n - i,
    {
        out.push(' ');
        i = i + 1;
        assert(out@ =~= old(out)@ + spaces(i as nat));
    }
}

fn push_reverse_on(out: &mut Vec<char>)
    ensures
        final(out)@ == old(out)@ + reverse_on(),
{
    out.push('\x1b');
    out.push('[');
    out.push('7');
    out.push('m');
    assert(out@ =~= old(out)@ + reverse_on());
}

fn push_reverse_off(out: &mut Vec<char>)
    ensures
        final(out)@ == old(out)@ + reverse_off(),
{
    out.push('\x1b');
    out.push('[');
    out.push('2');
    out.push('7');
    out.push('m');
    assert(out@ =~= old(out)@ + reverse_off());
}

fn to_string(v: &Vec<char>) -> (s: String)
    ensures
        s@ == v@,
{
    let s = crate::text::string_from_prefix(v, v.len());
    assert(v@.take(v@.len() as int) =~= v@);
    s
}

fn pad_right_exec(text: &Vec<char>, w: usize) -> (p: Vec<char>)
    ensures
        p@ == pad_right(text@, w as nat),
{
    let mut p: Vec<char> = Vec::new();
    push_range(&mut p, text, 0, text.len());
    if text.len() < w {
        push_spaces(&mut p, w - text.len());
    }
    assert(text@.subrange(0, text@.len() as int) =~= text@);
    assert(p@ =~= pad_right(text@, w as nat));
    p
}

fn min_u(a: usize, b: usize) -> (r: usize)
    ensures
        r == umin(a, b),
{
    if a <= b {
        a
    } else {
        b
    }
}

fn last_of(n: usize) -> (r: usize)
    ensures
        r == usub(n, 1),
{
    if n > 0 {
        n - 1
    } else {
        0
    }
}

proof fn lemma_paint_push(s: Seq<(usize, String)>, x: (usize, String))
    ensures
        paint_view(s.push(x)) == paint_view(s).push((x.0, x.1@)),
{
    assert(paint_view(s.push(x)) =~= paint_view(s).push((x.0, x.1@)));
}

/// The rows `lo..=min(hi, last)` as the screen has them, padded to `cols`.
fn restore_rows(screen: &VirtualScreen, lo: usize, hi: usize, grid_rows: usize, cols: usize) -> (p: Vec<(usize, String)>)
    ensures
        paint_view(p@) == restore_paint(screen@, lo, hi, grid_rows, cols),
{
    let top = min_u(hi, last_of(grid_rows));
    let ghost target = restore_paint(screen@, lo, hi, grid_rows, cols);
    let mut p: Vec<(usize, String)> = Vec::new();
    if top < lo {
        assert(paint_view(p@) =~= target);
        return p;
    }
    let mut r = lo;
    while r <= top
        invariant
            lo <= r <= top + 1,
            top < usize::MAX,
            target.len() == top - lo + 1,
            target == restore_paint(screen@, lo, hi, grid_rows, cols),
            top == umin(hi, usub(grid_rows, 1)),
            paint_view(p@) == target.take(r - lo),
        decreases top + 1 - r,
    {
        let line = screen.line_chars(r);
        let padded = pad_right_exec(&line, cols);
        let entry = (r, to_string(&padded));
        proof {
            lemma_paint_push(p@, entry);
            assert(target[r - lo] == (r, pad_right(screen@.line_text(r as int), cols as nat)));
            assert(target.take(r - lo + 1) =~= target.take(r - lo).push(target[r - lo]));
        }
        p.push(entry);
        r = r + 1;
    }
    assert(target.take(r - lo) =~= target);
    p
}

fn cursor_line_exec(text: &Vec<char>, col: usize, cols: usize) -> (s: Vec<char>)
    ensures
        s@ == cursor_line(text@, col, cols),
{
    let len = text.len();
    let b = min_u(col, len);
    let ghost before = text@.take(b as int);
    let ghost ch_spec: char = if col < len { text@[col as int] } else { ' ' };
    let ghost after: Seq<char> = if col + 1 < len { text@.skip(col + 1) } else { Seq::empty() };
    let mut out: Vec<char> = Vec::new();
    push_range(&mut out, text, 0, b);
    assert(out@ =~= before);
    push_reverse_on(&mut out);
    let ch: char = if col < len { text[col] } else { ' ' };
    out.push(ch);
    push_reverse_off(&mut out);
    assert(out@ =~= before + reverse_on() + seq![ch_spec] + reverse_off());
    let after_len: usize = if col < len && col + 1 < len { len - col - 1 } else { 0 };
    if col < len && col + 1 < len {
        push_range(&mut out, text, col + 1, len);
        assert(text@.subrange(col + 1, len as int) =~= after);
    } else {
        assert(after =~= Seq::<char>::empty());
    }
    assert(out@ =~= before + reverse_on() + seq![ch_spec] + reverse_off() + after);
    assert(after.len() == after_len);
    assert(before.len() == b);
    let remaining: usize = if cols >= b && cols - b >= 1 && cols - b - 1 >= after_len {
        cols - b - 1 - after_len
    } else {
        0
    };
    push_spaces(&mut out, remaining);
    assert(out@ =~= cursor_line(text@, col, cols));
    out
}

fn selection_line_exec(padded: &Vec<char>, hs: usize, he: usize) -> (s: Vec<char>)
    requires
        umin(hs, padded@.len() as usize) <= umin(he, padded@.len() as usize),
    ensures
        s@ == selection_line(padded@, hs, he),
{
    let len = padded.len();
    let a = min_u(hs, len);
    let b = min_u(he, len);
    let mut out: Vec<char> = Vec::new();
    push_range(&mut out, padded, 0, a);
    push_reverse_on(&mut out);
    push_range(&mut out, padded, a, b);
    push_reverse_off(&mut out);
    push_range(&mut out, padded, b, len);
    assert(padded@.subrange(0, a as int) =~= padded@.take(a as int));
    assert(padded@.subrange(b as int, len as int) =~= padded@.skip(b as int));
    assert(out@ =~= selection_line(padded@, hs, he));
    out
}

fn ordered_selection_exec(st: &CursorState) -> (r: (usize, usize, usize, usize))
    requires
        st.anchor_row is Some,
    ensures
        r == ordered_selection(*st),
{
    let a = match st.anchor_row {
        Some(a) => a,
        None => 0,
    };
    if a < st.cursor_row || (a == st.cursor_row && st.anchor_col <= st.cursor_col) {
        (a, st.anchor_col, st.cursor_row, st.cursor_col)
    } else {
        (st.cursor_row, st.cursor_col, a, st.anchor_col)
    }
}

/// The rows to draw for the highlight, and the state afterwards.
fn highlight_exec(screen: &VirtualScreen, st: &CursorState, grid_rows: usize, cols: usize) -> (r: (Vec<(usize, String)>, CursorState))
    requires
        highlight_defined(screen@, *st, grid_rows, cols),
        cursor_state_bounded(Some(*st)),
    ensures
        (paint_view(r.0@), r.1) == highlight(screen@, *st, grid_rows, cols),
{
    let last = last_of(grid_rows);
    let mut p = restore_rows(screen, st.highlighted_lo, st.highlighted_hi, grid_rows, cols);
    let ghost restore = paint_view(p@);
    match st.anchor_row {
        None => {
            let new_hi = min_u(st.cursor_row, last);
            let all_lo = min_u(st.highlighted_lo, st.cursor_row);
            let old_hi = min_u(st.highlighted_hi, last);
            let all_hi = if old_hi >= new_hi { old_hi } else { new_hi };
            let row = min_u(st.cursor_row, last);
            let text: Vec<char> = if all_lo <= row && row <= all_hi { screen.line_chars(row) } else { Vec::new() };
            proof {
                if !(all_lo <= row && row <= all_hi) {
                    assert(text@ =~= Seq::<char>::empty());
                }
            }
            let col = min_u(st.cursor_col, last_of(cols));
            let line = cursor_line_exec(&text, col, cols);
            let entry = (row, to_string(&line));
            proof {
                lemma_paint_push(p@, entry);
            }
            p.push(entry);
            let st2 = CursorState { highlighted_lo: row, highlighted_hi: row, ..*st };
            (p, st2)
        },
        Some(_) => {
            let (sr, sc, er, ec) = ordered_selection_exec(st);
            let top = min_u(er, last);
            let ghost n: nat = if top >= sr { (top - sr + 1) as nat } else { 0 };
            let ghost sel = selection_paint(screen@, *st, grid_rows, cols);
            let mut r = sr;
            while r <= top
                invariant
                    sr <= r,
                    top >= sr ==> r <= top + 1,
                    top < sr ==> r == sr,
                    top <= u16::MAX,
                    (sr, sc, er, ec) == ordered_selection(*st),
                    cursor_state_bounded(Some(*st)),
                    st.anchor_row is Some,
                    highlight_defined(screen@, *st, grid_rows, cols),
                    top == umin(er, usub(grid_rows, 1)),
                    sel.len() == n,
                    sel == selection_paint(screen@, *st, grid_rows, cols),
                    n == if top >= sr { (top - sr + 1) as nat } else { 0nat },
                    paint_view(p@) == restore + sel.take(r - sr),
                decreases top + 1 - r,
            {
                let line = screen.line_chars(r);
                let padded = pad_right_exec(&line, cols);
                let hs: usize = if r == sr { sc } else { 0 };
                let he: usize = if r == er { min_u(ec + 1, cols) } else { cols };
                proof {
                    if r == sr {
                        assert(!(sc > cols && line@.len() > cols));
                    }
                }
                let shown = selection_line_exec(&padded, hs, he);
                let entry = (r, to_string(&shown));
                proof {
                    lemma_paint_push(p@, entry);
                    assert(sel[r - sr] == (r, selection_line(pad_right(screen@.line_text(r as int), cols as nat), hs, he)));
                    assert(restore + sel.take(r - sr + 1) =~= (restore + sel.take(r - sr)).push(sel[r - sr]));
                }
                p.push(entry);
                r = r + 1;
            }
            proof {
                assert(sel.take(r - sr) =~= sel);
            }
            let st2 = CursorState { highlighted_lo: sr, highlighted_hi: er, ..*st };
            (p, st2)
        },
    }
}

/// Appends `s` without its trailing whitespace.
fn push_trimmed(out: &mut Vec<char>, s: &Vec<char>, from: usize, to: usize)
    requires
        from <= to <= s@.len(),
    ensures
        final(out)@ == old(out)@ + trim_end(s@.subrange(from as int, to as int)),
{
    let mut end = to;
    assert(s@.subrange(from as int, end as int) =~= s@.subrange(from as int, to as int));
    while end > from && char_is_whitespace(s[end - 1])
        invariant
            from <= end <= to,
            to <= s@.len(),
            trim_end(s@.subrange(from as int, end as int)) == trim_end(s@.subrange(from as int, to as int)),
        decreases end,
    {
        assert(s@.subrange(from as int, end as int).drop_last() =~= s@.subrange(from as int, end - 1));
        end = end - 1;
    }
    push_range(out, s, from, end);
}

proof fn lemma_join_push(pieces: Seq<Seq<char>>, x: Seq<char>)
    ensures
        join_lines(pieces.push(x)) == if pieces.len() == 0 { x } else { join_lines(pieces) + seq!['\n'] + x },
{
    assert(pieces.push(x).drop_last() =~= pieces);
    if pieces.len() == 0 {
        assert(pieces.push(x).len() == 1);
    }
}

/// The selected text, one row per line.
fn yank_exec(screen: &VirtualScreen, st: &CursorState, grid_rows: usize, cols: usize) -> (s: String)
    requires
        st.anchor_row is Some,
        yank_defined(screen@, *st, grid_rows, cols),
        cursor_state_bounded(Some(*st)),
    ensures
        s@ == yank_text(screen@, *st, grid_rows, cols),
{
    let (sr, sc, er, ec) = ordered_selection_exec(st);
    let top = min_u(er, last_of(grid_rows));
    let ghost n: nat = if top >= sr { (top - sr + 1) as nat } else { 0 };
    let ghost pieces = Seq::new(n, |k: int| yank_piece(screen@, *st, sr + k, cols));
    let mut out: Vec<char> = Vec::new();
    let mut r = sr;
    proof {
        assert(pieces.take(0) =~= Seq::<Seq<char>>::empty());
    }
    while r <= top
        invariant
            sr <= r,
            top >= sr ==> r <= top + 1,
            top < sr ==> r == sr,
            top <= u16::MAX,
            (sr, sc, er, ec) == ordered_selection(*st),
            cursor_state_bounded(Some(*st)),
            st.anchor_row is Some,
            yank_defined(screen@, *st, grid_rows, cols),
            top == umin(er, usub(grid_rows, 1)),
            pieces.len() == n,
            n == if top >= sr { (top - sr + 1) as nat } else { 0nat },
            forall|k: int| 0 <= k < n ==> #[trigger] pieces[k] == yank_piece(screen@, *st, sr + k, cols),
            out@ == join_lines(pieces.take(r - sr)),
        decreases top + 1 - r,
    {
        let text = screen.line_chars(r);
        let len = text.len();
        let from: usize = if r == sr { sc } else { 0 };
        let to: usize = if r == er { min_u(ec + 1, len) } else { min_u(cols, len) };
        let a = min_u(from, len);
        let b = min_u(to, len);
        proof {
            if r == sr && r != er {
                assert(!(sc > cols && text@.len() > cols));
            }
        }
        if r > sr {
            out.push('\n');
        }
        push_trimmed(&mut out, &text, a, b);
        proof {
            assert(pieces[r - sr] == yank_piece(screen@, *st, r as int, cols));
            assert(pieces.take(r - sr + 1) =~= pieces.take(r - sr).push(pieces[r - sr]));
            lemma_join_push(pieces.take(r - sr), pieces[r - sr]);
        }
        r = r + 1;
    }
    proof {
        assert(pieces.take(r - sr) =~= pieces);
    }
    to_string(&out)
}

} // verus!

verus! {

proof fn lemma_effects_push(s: Seq<Effect>, e: Effect)
    ensures
        effects_view(s.push(e)) == effects_view(s).push(e@),
{
    assert(effects_view(s.push(e)) =~= effects_view(s).push(e@));
}

proof fn lemma_effects_concat(a: Seq<Effect>, b: Seq<Effect>)
    ensures
        effects_view(a + b) == effects_view(a) + effects_view(b),
{
    assert(effects_view(a + b) =~= effects_view(a) + effects_view(b));
}

fn push_effect(out: &mut Vec<Effect>, e: Effect)
    ensures
        effects_view(final(out)@) == effects_view(old(out)@).push(e@),
{
    proof {
        lemma_effects_push(out@, e);
    }
    out.push(e);
}

fn append_effects(out: &mut Vec<Effect>, more: Vec<Effect>)
    ensures
        effects_view(final(out)@) == effects_view(old(out)@) + effects_view(more@),
{
    let mut more = more;
    proof {
        lemma_effects_concat(out@, more@);
    }
    out.append(&mut more);
}

impl EscapeFollowup {
    /// (the bytes that followed, if any; whether the input closed)
    pub open spec fn view_pair(&self) -> (Option<Seq<u8>>, bool) {
        match self {
            EscapeFollowup::Bytes(b) => (Some(b@), false),
            EscapeFollowup::Timeout => (None, false),
            EscapeFollowup::Disconnected => (None, true),
        }
    }
}

impl ModalView {
    pub open spec fn wf(self) -> bool {
        cursor_state_bounded(self.cursor)
    }
}

/// The wrapper's modal state: the mode, the Normal-mode key matcher, the Cursor and
/// Visual mode state, and the terminal size.
pub struct ModalState {
    mode: Mode,
    matcher: InputMatcher,
    cursor_state: Option<CursorState>,
    rows: u16,
    cols: u16,
}

impl View for ModalState {
    type V = ModalView;

    closed spec fn view(&self) -> ModalView {
        ModalView {
            mode: self.mode,
            matcher: self.matcher@,
            cursor: self.cursor_state,
            rows: self.rows,
            cols: self.cols,
        }
    }
}

impl ModalState {
    /// The state at start-up: Insert mode.
    pub fn new(cols: u16, rows: u16) -> (s: Self)
        ensures
            s@ == (ModalView { mode: Mode::Insert, matcher: (false, 0), cursor: None, rows, cols }),
            s@.wf(),
    {
        ModalState { mode: Mode::Insert, matcher: InputMatcher::new(), cursor_state: None, rows, cols }
    }

    pub fn mode(&self) -> (m: Mode)
        ensures
            m == self@.mode,
    {
        self.mode
    }

    pub fn rows(&self) -> (r: u16)
        ensures
            r == self@.rows,
    {
        self.rows
    }

    pub fn cols(&self) -> (c: u16)
        ensures
            c == self@.cols,
    {
        self.cols
    }

    pub fn cursor_state(&self) -> (c: Option<CursorState>)
        ensures
            c == self@.cursor,
    {
        self.cursor_state
    }

    /// The terminal was resized.
    pub fn set_size(&mut self, cols: u16, rows: u16)
        ensures
            final(self)@ == (ModalView { rows, cols, ..old(self)@ }),
    {
        self.rows = rows;
        self.cols = cols;
    }

    fn grid_rows_exec(&self) -> (g: usize)
        ensures
            g == grid_rows(self@),
            g < u16::MAX,
    {
        if self.rows > 0 {
            (self.rows - 1) as usize
        } else {
            0
        }
    }

    fn switch_to_normal(&mut self)
        ensures
            final(self)@ == to_normal(old(self)@),
    {
        self.mode = Mode::Normal;
        self.matcher = InputMatcher::new();
        self.cursor_state = None;
    }

    fn switch_to_insert(&mut self)
        ensures
            final(self)@ == to_insert(old(self)@),
    {
        self.mode = Mode::Insert;
        self.matcher = InputMatcher::new();
    }

    /// Redraws the highlight for the current cursor state.
    fn redraw(&mut self, screen: &VirtualScreen) -> (e: Vec<Effect>)
        requires
            old(self)@.wf(),
            old(self)@.cursor matches Some(st) ==> highlight_defined(
                screen@,
                st,
                grid_rows(old(self)@),
                old(self)@.cols as usize,
            ),
        ensures
            (final(self)@, effects_view(e@)) == redraw(old(self)@, screen@),
            final(self)@.wf(),
    {
        let mut e: Vec<Effect> = Vec::new();
        match self.cursor_state {
            None => {
                assert(effects_view(e@) =~= Seq::<EffectView>::empty());
            },
            Some(st) => {
                let g = self.grid_rows_exec();
                let (p, st2) = highlight_exec(screen, &st, g, self.cols as usize);
                self.cursor_state = Some(st2);
                push_effect(&mut e, Effect::Paint(p));
                assert(effects_view(e@) =~= seq![EffectView::Paint(highlight(screen@, st, g, self.cols as usize).0)]);
            },
        }
        e
    }

    /// Redraws the highlighted rows as the screen has them.
    fn restore_effects(&self, screen: &VirtualScreen) -> (e: Vec<Effect>)
        ensures
            effects_view(e@) == restore(self@, screen@),
    {
        let mut e: Vec<Effect> = Vec::new();
        match self.cursor_state {
            None => {
                assert(effects_view(e@) =~= Seq::<EffectView>::empty());
            },
            Some(st) => {
                let g = self.grid_rows_exec();
                let p = restore_rows(screen, st.highlighted_lo, st.highlighted_hi, g, self.cols as usize);
                push_effect(&mut e, Effect::Paint(p));
                assert(effects_view(e@) =~= restore(self@, screen@));
            },
        }
        e
    }

    fn insert_input(&mut self, bytes: &[u8]) -> (e: Vec<Effect>)
        ensures
            (final(self)@, effects_view(e@)) == insert_step(old(self)@, bytes@),
    {
        let esc: [u8; 5] = [0x1b, 0x5b, 0x32, 0x37, 0x75];
        let enter: [u8; 5] = [0x1b, 0x5b, 0x31, 0x33, 0x75];
        assert(esc@ =~= kitty_esc());
        assert(enter@ =~= kitty_enter());
        let mut e: Vec<Effect> = Vec::new();
        if bytes_eq(bytes, esc.as_slice()) {
            self.switch_to_normal();
            push_effect(&mut e, Effect::RenderStatusline);
        } else if is_key(bytes, 0x1b) {
            push_effect(&mut e, Effect::AwaitEscape);
        } else if is_key(bytes, 0x0d) || bytes_eq(bytes, enter.as_slice()) {
            let v: Vec<u8> = vec![0x1b, 0x5b, 0x31, 0x33, 0x3b, 0x32, 0x75];
            assert(v@ =~= shift_enter());
            push_effect(&mut e, Effect::WritePty(v));
        } else {
            push_effect(&mut e, Effect::WritePty(vstd::slice::slice_to_vec(bytes)));
        }
        assert(effects_view(e@) =~= insert_step(old(self)@, bytes@).1);
        e
    }

    /// What to do with the bytes that followed a lone ESC in Insert mode.
    pub fn escape_followup(&mut self, f: EscapeFollowup) -> (e: Vec<Effect>)
        ensures
            (final(self)@, effects_view(e@)) == escape_step(old(self)@, f.view_pair().0, f.view_pair().1),
    {
        let ghost fv = f.view_pair();
        let mut e: Vec<Effect> = Vec::new();
        match f {
            EscapeFollowup::Bytes(b) => {
                let tail: [u8; 4] = [0x5b, 0x32, 0x37, 0x75];
                assert(tail@ =~= kitty_esc_tail());
                if bytes_eq(b.as_slice(), tail.as_slice()) {
                    self.switch_to_normal();
                    push_effect(&mut e, Effect::RenderStatusline);
                } else {
                    let mut combined: Vec<u8> = Vec::new();
                    combined.push(0x1b);
                    let mut rest = b;
                    let ghost rv = rest@;
                    combined.append(&mut rest);
                    assert(combined@ =~= seq![0x1bu8] + rv);
                    push_effect(&mut e, Effect::WritePty(combined));
                }
            },
            EscapeFollowup::Timeout => {
                self.switch_to_normal();
                push_effect(&mut e, Effect::RenderStatusline);
            },
            EscapeFollowup::Disconnected => {},
        }
        assert(effects_view(e@) =~= escape_step(old(self)@, fv.0, fv.1).1);
        e
    }

    fn enter_cursor(&mut self, screen: &VirtualScreen) -> (e: Vec<Effect>)
        requires
            old(self)@.wf(),
        ensures
            (final(self)@, effects_view(e@)) == to_cursor(old(self)@, screen@),
            final(self)@.wf(),
    {
        let g = self.grid_rows_exec();
        let start = g / 2;
        self.cursor_state = Some(
            CursorState {
                cursor_row: start,
                cursor_col: 0,
                anchor_row: None,
                anchor_col: 0,
                highlighted_lo: start,
                highlighted_hi: start,
            },
        );
        self.mode = Mode::Cursor;
        let mut e: Vec<Effect> = Vec::new();
        push_effect(&mut e, Effect::RenderStatusline);
        let more = self.redraw(screen);
        append_effects(&mut e, more);
        e
    }

    fn normal_input(&mut self, bytes: &[u8], screen: &VirtualScreen) -> (r: (Vec<Effect>, bool))
        requires
            old(self)@.wf(),
        ensures
            (final(self)@, effects_view(r.0@), r.1) == normal_mode_step(old(self)@, screen@, bytes@),
            final(self)@.wf(),
    {
        let (action, next) = self.matcher.process(bytes);
        self.matcher = next;
        let mut e: Vec<Effect> = Vec::new();
        match action {
            InputAction::Scroll(amount) => {
                push_effect(&mut e, Effect::Scroll(amount));
                assert(effects_view(e@) =~= seq![EffectView::Scroll(amount)]);
                (e, true)
            },
            InputAction::SwitchToInsert => {
                self.switch_to_insert();
                push_effect(&mut e, Effect::RenderStatusline);
                assert(effects_view(e@) =~= seq![EffectView::RenderStatusline]);
                (e, false)
            },
            InputAction::EnterCursor => {
                let e2 = self.enter_cursor(screen);
                (e2, false)
            },
            InputAction::Passthrough(data) => {
                let ghost d = data@;
                push_effect(&mut e, Effect::WritePty(data));
                assert(effects_view(e@) =~= seq![EffectView::WritePty(d)]);
                (e, false)
            },
            _ => {
                assert(effects_view(e@) =~= Seq::<EffectView>::empty());
                (e, false)
            },
        }
    }

    /// The cursor state after a movement key.
    fn moved_state(&self, down: bool, up: bool, right: bool, left: bool) -> (c: Option<CursorState>)
        requires
            self@.wf(),
        ensures
            c == moved_by(self@, down, up, right, left),
            cursor_state_bounded(c),
    {
        let g = self.grid_rows_exec();
        let c = self.cols as usize;
        match self.cursor_state {
            Some(st) => {
                let next = if down {
                    CursorState { cursor_row: min_u(st.cursor_row + 1, last_of(g)), ..st }
                } else if up {
                    CursorState { cursor_row: st.cursor_row.saturating_sub(1), ..st }
                } else if right {
                    CursorState { cursor_col: min_u(st.cursor_col + 1, last_of(c)), ..st }
                } else {
                    CursorState { cursor_col: st.cursor_col.saturating_sub(1), ..st }
                };
                Some(next)
            },
            None => None,
        }
    }

    /// Moves the cursor for a movement key.
    fn move_cursor(&mut self, down: bool, up: bool, right: bool, left: bool)
        requires
            old(self)@.wf(),
        ensures
            final(self)@ == (ModalView { cursor: moved_by(old(self)@, down, up, right, left), ..old(self)@ }),
            final(self)@.wf(),
    {
        self.cursor_state = self.moved_state(down, up, right, left);
    }

    /// The selection state that `v` starts from the cursor.
    fn selection_started(&self) -> (c: Option<CursorState>)
        requires
            self@.wf(),
        ensures
            c == map_cursor(self@.cursor, |st: CursorState| start_selection(st)),
            cursor_state_bounded(c),
    {
        match self.cursor_state {
            Some(st) => Some(CursorState { anchor_row: Some(st.cursor_row), anchor_col: st.cursor_col, ..st }),
            None => None,
        }
    }

    fn highlight_ok(&self, c: Option<CursorState>, screen: &VirtualScreen) -> (r: bool)
        requires
            cursor_state_bounded(c),
        ensures
            r == match c {
                Some(st) => highlight_defined(screen@, st, grid_rows(self@), self@.cols as usize),
                None => true,
            },
    {
        match c {
            Some(st) => {
                if st.anchor_row.is_none() {
                    return true;
                }
                let cols = self.cols as usize;
                let (sr, sc, er, _ec) = ordered_selection_exec(&st);
                if sr <= min_u(er, last_of(self.grid_rows_exec())) {
                    !(sc > cols && screen.line_chars(sr).len() > cols)
                } else {
                    true
                }
            },
            None => true,
        }
    }

    /// Whether handling the chunk is defined (see [`input_defined`]).
    pub fn input_is_defined(&self, bytes: &[u8], screen: &VirtualScreen) -> (r: bool)
        requires
            self@.wf(),
        ensures
            r == input_defined(self@, screen@, bytes@),
    {
        match self.mode {
            Mode::Cursor => {
                let a = CursorInputMatcher::new().process(bytes);
                match a {
                    CursorInputAction::MoveDown => self.highlight_ok(self.moved_state(true, false, false, false), screen),
                    CursorInputAction::MoveUp => self.highlight_ok(self.moved_state(false, true, false, false), screen),
                    CursorInputAction::MoveRight => self.highlight_ok(self.moved_state(false, false, true, false), screen),
                    CursorInputAction::MoveLeft => self.highlight_ok(self.moved_state(false, false, false, true), screen),
                    CursorInputAction::EnterVisual => self.highlight_ok(self.selection_started(), screen),
                    _ => true,
                }
            },
            Mode::Visual => {
                let a = VisualInputMatcher::new().process(bytes);
                match a {
                    VisualInputAction::MoveDown => self.highlight_ok(self.moved_state(true, false, false, false), screen),
                    VisualInputAction::MoveUp => self.highlight_ok(self.moved_state(false, true, false, false), screen),
                    VisualInputAction::MoveRight => self.highlight_ok(self.moved_state(false, false, true, false), screen),
                    VisualInputAction::MoveLeft => self.highlight_ok(self.moved_state(false, false, false, true), screen),
                    VisualInputAction::Yank => match self.cursor_state {
                        Some(st) => {
                            if st.anchor_row.is_none() {
                                return true;
                            }
                            let cols = self.cols as usize;
                            let (sr, sc, er, _ec) = ordered_selection_exec(&st);
                            if sr < er && sr <= min_u(er, last_of(self.grid_rows_exec())) {
                                !(sc > cols && screen.line_chars(sr).len() > cols)
                            } else {
                                true
                            }
                        },
                        None => true,
                    },
                    _ => true,
                }
            },
            _ => true,
        }
    }

    fn cursor_input(&mut self, bytes: &[u8], screen: &VirtualScreen) -> (e: Vec<Effect>)
        requires
            old(self)@.wf(),
            old(self)@.mode == Mode::Cursor,
            input_defined(old(self)@, screen@, bytes@),
        ensures
            (final(self)@, effects_view(e@)) == cursor_mode_step(old(self)@, screen@, bytes@),
            final(self)@.wf(),
    {
        let action = CursorInputMatcher::new().process(bytes);
        match action {
            CursorInputAction::MoveDown => {
                self.move_cursor(true, false, false, false);
                self.redraw(screen)
            },
            CursorInputAction::MoveUp => {
                self.move_cursor(false, true, false, false);
                self.redraw(screen)
            },
            CursorInputAction::MoveRight => {
                self.move_cursor(false, false, true, false);
                self.redraw(screen)
            },
            CursorInputAction::MoveLeft => {
                self.move_cursor(false, false, false, true);
                self.redraw(screen)
            },
            CursorInputAction::EnterVisual => {
                self.cursor_state = self.selection_started();
                self.mode = Mode::Visual;
                let mut e: Vec<Effect> = Vec::new();
                push_effect(&mut e, Effect::RenderStatusline);
                let more = self.redraw(screen);
                append_effects(&mut e, more);
                e
            },
            CursorInputAction::Cancel => {
                let mut e = self.restore_effects(screen);
                self.switch_to_normal();
                push_effect(&mut e, Effect::RenderStatusline);
                e
            },
            CursorInputAction::Noop => {
                let e: Vec<Effect> = Vec::new();
                assert(effects_view(e@) =~= Seq::<EffectView>::empty());
                e
            },
        }
    }

    fn visual_input(&mut self, bytes: &[u8], screen: &VirtualScreen) -> (e: Vec<Effect>)
        requires
            old(self)@.wf(),
            old(self)@.mode == Mode::Visual,
            input_defined(old(self)@, screen@, bytes@),
        ensures
            (final(self)@, effects_view(e@)) == visual_mode_step(old(self)@, screen@, bytes@),
            final(self)@.wf(),
    {
        let action = VisualInputMatcher::new().process(bytes);
        match action {
            VisualInputAction::MoveDown => {
                self.move_cursor(true, false, false, false);
                self.redraw(screen)
            },
            VisualInputAction::MoveUp => {
                self.move_cursor(false, true, false, false);
                self.redraw(screen)
            },
            VisualInputAction::MoveRight => {
                self.move_cursor(false, false, true, false);
                self.redraw(screen)
            },
            VisualInputAction::MoveLeft => {
                self.move_cursor(false, false, false, true);
                self.redraw(screen)
            },
            VisualInputAction::Yank => {
                if let Some(st) = self.cursor_state {
                    if st.anchor_row.is_some() {
                        let g = self.grid_rows_exec();
                        let text = yank_exec(screen, &st, g, self.cols as usize);
                        let mut e: Vec<Effect> = Vec::new();
                        push_effect(&mut e, Effect::Yank(text));
                        return e;
                    }
                }
                self.finish_yank(screen)
            },
            VisualInputAction::Cancel => {
                let mut e = self.restore_effects(screen);
                self.switch_to_normal();
                push_effect(&mut e, Effect::RenderStatusline);
                e
            },
            VisualInputAction::Noop => {
                let e: Vec<Effect> = Vec::new();
                assert(effects_view(e@) =~= Seq::<EffectView>::empty());
                e
            },
        }
    }

    /// The selected text was copied: the highlighted rows are drawn again as the screen
    /// has them and the mode goes back to Normal.
    pub fn finish_yank(&mut self, screen: &VirtualScreen) -> (e: Vec<Effect>)
        ensures
            (final(self)@, effects_view(e@)) == leave_selection(old(self)@, screen@),
            final(self)@.wf(),
    {
        let mut e = self.restore_effects(screen);
        self.switch_to_normal();
        push_effect(&mut e, Effect::RenderStatusline);
        e
    }

    /// Handles one chunk of terminal input in the current mode. Returns the effects to
    /// perform, in order, and whether the input was a scroll.
    pub fn handle_input(&mut self, bytes: &[u8], screen: &VirtualScreen) -> (r: (Vec<Effect>, bool))
        requires
            old(self)@.wf(),
            input_defined(old(self)@, screen@, bytes@),
        ensures
            (final(self)@, effects_view(r.0@), r.1) == input_step(old(self)@, screen@, bytes@),
            final(self)@.wf(),
    {
        match self.mode {
            Mode::Insert => {
                let e = self.insert_input(bytes);
                (e, false)
            },
            Mode::Normal => self.normal_input(bytes, screen),
            Mode::Cursor => {
                let e = self.cursor_input(bytes, screen);
                (e, false)
            },
            Mode::Visual => {
                let e = self.visual_input(bytes, screen);
                (e, false)
            },
        }
    }
}

/// The minimum time between two scrolls sent to the child, in milliseconds (faster
/// wheel events would make the child accelerate).
pub const SCROLL_THROTTLE_MS: u64 = 50;

/// Whether a scroll may be sent `elapsed_ms` after the previous one.
pub fn scroll_allowed(elapsed_ms: u64) -> (r: bool)
    ensures
        r == (elapsed_ms >= SCROLL_THROTTLE_MS),
{
    elapsed_ms >= SCROLL_THROTTLE_MS
}

// ---------------------------------------------------------------------------
// Laws
// ---------------------------------------------------------------------------

/// The mode and the cursor state agree: Cursor and Visual mode have a cursor state,
/// other modes none; only Visual mode has a selection anchor.
pub open spec fn modes_consistent(m: ModalView) -> bool {
    match m.mode {
        Mode::Cursor => m.cursor matches Some(st) && st.anchor_row is None,
        Mode::Visual => m.cursor matches Some(st) && st.anchor_row is Some,
        _ => m.cursor is None,
    }
}

/// The cursor lies on the grid (the terminal without its statusline row).
pub open spec fn cursor_on_grid(m: ModalView) -> bool {
    m.cursor matches Some(st) ==> st.cursor_row <= usub(grid_rows(m), 1) && st.cursor_col <= usub(
        m.cols as usize,
        1,
    )
}

proof fn lemma_redraw_keeps(m: ModalView, v: ScreenView)
    ensures
        redraw(m, v).0.mode == m.mode,
        redraw(m, v).0.rows == m.rows,
        redraw(m, v).0.cols == m.cols,
        redraw(m, v).0.matcher == m.matcher,
        m.cursor is None ==> redraw(m, v).0.cursor is None,
        m.cursor matches Some(st) ==> (redraw(m, v).0.cursor matches Some(st2) && st2.cursor_row
            == st.cursor_row && st2.cursor_col == st.cursor_col && st2.anchor_row == st.anchor_row),
{
}

/// Every chunk of input keeps the mode and the cursor state in agreement.
pub proof fn lemma_input_keeps_modes_consistent(m: ModalView, v: ScreenView, bytes: Seq<u8>)
    requires
        modes_consistent(m),
    ensures
        modes_consistent(input_step(m, v, bytes).0),
{
    let m1 = ModalView { matcher: normal_step(m.matcher, bytes).1, ..m };
    lemma_redraw_keeps(ModalView { mode: Mode::Cursor, cursor: Some(CursorState {
        cursor_row: grid_rows(m1) / 2,
        cursor_col: 0,
        anchor_row: None,
        anchor_col: 0,
        highlighted_lo: grid_rows(m1) / 2,
        highlighted_hi: grid_rows(m1) / 2,
    }), ..m1 }, v);
    lemma_redraw_keeps(ModalView { cursor: moved_by(m, true, false, false, false), ..m }, v);
    lemma_redraw_keeps(ModalView { cursor: moved_by(m, false, true, false, false), ..m }, v);
    lemma_redraw_keeps(ModalView { cursor: moved_by(m, false, false, true, false), ..m }, v);
    lemma_redraw_keeps(ModalView { cursor: moved_by(m, false, false, false, true), ..m }, v);
    lemma_redraw_keeps(
        ModalView { mode: Mode::Visual, cursor: map_cursor(m.cursor, |st: CursorState| start_selection(st)), ..m },
        v,
    );
}

/// What follows a lone ESC keeps the mode and the cursor state in agreement.
pub proof fn lemma_escape_keeps_modes_consistent(m: ModalView, f: Option<Seq<u8>>, disconnected: bool)
    requires
        modes_consistent(m),
    ensures
        modes_consistent(escape_step(m, f, disconnected).0),
{
}

proof fn lemma_moved_on_grid(m: ModalView, down: bool, up: bool, right: bool, left: bool)
    requires
        cursor_on_grid(m),
    ensures
        cursor_on_grid(ModalView { cursor: moved_by(m, down, up, right, left), ..m }),
{
}

proof fn lemma_redraw_on_grid(m: ModalView, v: ScreenView)
    requires
        cursor_on_grid(m),
    ensures
        cursor_on_grid(redraw(m, v).0),
{
    lemma_redraw_keeps(m, v);
}

/// Every chunk of input keeps the cursor on the grid.
pub proof fn lemma_input_keeps_cursor_on_grid(m: ModalView, v: ScreenView, bytes: Seq<u8>)
    requires
        cursor_on_grid(m),
    ensures
        cursor_on_grid(input_step(m, v, bytes).0),
{
    if m.mode == Mode::Normal {
        let m1 = ModalView { matcher: normal_step(m.matcher, bytes).1, ..m };
        let start = grid_rows(m1) / 2;
        let mc = ModalView { mode: Mode::Cursor, cursor: Some(CursorState {
            cursor_row: start,
            cursor_col: 0,
            anchor_row: None,
            anchor_col: 0,
            highlighted_lo: start,
            highlighted_hi: start,
        }), ..m1 };
        assert(cursor_on_grid(mc));
        lemma_redraw_on_grid(mc, v);
    } else if m.mode == Mode::Cursor {
        let a = cursor_key_action(bytes);
        if a == CursorInputAction::MoveDown {
            lemma_moved_on_grid(m, true, false, false, false);
            lemma_redraw_on_grid(ModalView { cursor: moved_by(m, true, false, false, false), ..m }, v);
        } else if a == CursorInputAction::MoveUp {
            lemma_moved_on_grid(m, false, true, false, false);
            lemma_redraw_on_grid(ModalView { cursor: moved_by(m, false, true, false, false), ..m }, v);
        } else if a == CursorInputAction::MoveRight {
            lemma_moved_on_grid(m, false, false, true, false);
            lemma_redraw_on_grid(ModalView { cursor: moved_by(m, false, false, true, false), ..m }, v);
        } else if a == CursorInputAction::MoveLeft {
            lemma_moved_on_grid(m, false, false, false, true);
            lemma_redraw_on_grid(ModalView { cursor: moved_by(m, false, false, false, true), ..m }, v);
        } else if a == CursorInputAction::EnterVisual {
            let mv = ModalView {
                mode: Mode::Visual,
                cursor: map_cursor(m.cursor, |st: CursorState| start_selection(st)),
                ..m
            };
            assert(cursor_on_grid(mv));
            lemma_redraw_on_grid(mv, v);
        }
    } else if m.mode == Mode::Visual {
        let a = visual_key_action(bytes);
        if a == VisualInputAction::MoveDown {
            lemma_moved_on_grid(m, true, false, false, false);
            lemma_redraw_on_grid(ModalView { cursor: moved_by(m, true, false, false, false), ..m }, v);
        } else if a == VisualInputAction::MoveUp {
            lemma_moved_on_grid(m, false, true, false, false);
            lemma_redraw_on_grid(ModalView { cursor: moved_by(m, false, true, false, false), ..m }, v);
        } else if a == VisualInputAction::MoveRight {
            lemma_moved_on_grid(m, false, false, true, false);
            lemma_redraw_on_grid(ModalView { cursor: moved_by(m, false, false, true, false), ..m }, v);
        } else if a == VisualInputAction::MoveLeft {
            lemma_moved_on_grid(m, false, false, false, true);
            lemma_redraw_on_grid(ModalView { cursor: moved_by(m, false, false, false, true), ..m }, v);
        }
    }
}

/// Escape (either form) in Cursor or Visual mode returns to Normal mode with no
/// cursor state: the highlighted rows are redrawn as the screen has them, then the
/// statusline.
pub proof fn lemma_escape_leaves_selection(m: ModalView, v: ScreenView, bytes: Seq<u8>)
    requires
        m.mode == Mode::Cursor || m.mode == Mode::Visual,
        bytes == key(0x1b) || bytes == kitty_esc(),
    ensures
        input_step(m, v, bytes).0 == to_normal(m),
        input_step(m, v, bytes).0.mode == Mode::Normal,
        input_step(m, v, bytes).0.cursor is None,
        input_step(m, v, bytes).1 == restore(m, v) + seq![EffectView::RenderStatusline],
{
    assert(key(0x1b) != key(0x68) && key(0x1b) != key(0x6a) && key(0x1b) != key(0x6b) && key(0x1b)
        != key(0x6c) && key(0x1b) != key(0x76) && key(0x1b) != key(0x79)) by {
        assert(key(0x1b)[0] != key(0x68)[0]);
        assert(key(0x1b)[0] != key(0x6a)[0]);
        assert(key(0x1b)[0] != key(0x6b)[0]);
        assert(key(0x1b)[0] != key(0x6c)[0]);
        assert(key(0x1b)[0] != key(0x76)[0]);
        assert(key(0x1b)[0] != key(0x79)[0]);
    }
    assert(kitty_esc().len() != key(0x68).len());
}

/// `y` in Visual mode asks for the selected text to be copied and keeps the mode and
/// the selection; once the copy is done, the highlighted rows are drawn again and the
/// mode goes back to Normal.
pub proof fn lemma_yank_copies_selection(m: ModalView, v: ScreenView, v2: ScreenView)
    requires
        m.mode == Mode::Visual,
        m.cursor matches Some(st) && st.anchor_row is Some,
    ensures
        input_step(m, v, key(0x79)).0 == m,
        input_step(m, v, key(0x79)).1 == seq![
            EffectView::Yank(yank_text(v, m.cursor.unwrap(), grid_rows(m), m.cols as usize)),
        ],
        leave_selection(input_step(m, v, key(0x79)).0, v2).0.mode == Mode::Normal,
        leave_selection(input_step(m, v, key(0x79)).0, v2).0.cursor is None,
        leave_selection(input_step(m, v, key(0x79)).0, v2).1 == restore(m, v2) + seq![
            EffectView::RenderStatusline,
        ],
{
    assert(key(0x79)[0] != key(0x6a)[0]);
    assert(key(0x79)[0] != key(0x6b)[0]);
    assert(key(0x79)[0] != key(0x68)[0]);
    assert(key(0x79)[0] != key(0x6c)[0]);
}


proof fn lemma_line_text_fits(v: ScreenView, r: int)
    requires
        v.wf(),
    ensures
        v.line_text(r).len() <= v.cols,
{
    if 0 <= r < v.active().len() {
        lemma_trim_end_len(row_chars(v.active()[r]));
    }
}

/// A selection within one row copies exactly the characters from the smaller to the
/// larger of its two columns (both included, cut at the row's text), without trailing
/// whitespace.
pub proof fn lemma_yank_single_row(v: ScreenView, st: CursorState, grid_rows: usize, cols: usize)
    requires
        v.wf(),
        st.anchor_row == Some(st.cursor_row),
        st.cursor_row < grid_rows,
        cursor_state_bounded(Some(st)),
    ensures
        ({
            let t = v.line_text(st.cursor_row as int);
            let len = t.len() as int;
            let c1: int = if st.anchor_col <= st.cursor_col { st.anchor_col as int } else { st.cursor_col as int };
            let c2: int = if st.anchor_col <= st.cursor_col { st.cursor_col as int } else { st.anchor_col as int };
            let from: int = if c1 <= len { c1 } else { len };
            let to: int = if c2 + 1 <= len { c2 + 1 } else { len };
            yank_text(v, st, grid_rows, cols) == trim_end(t.subrange(from, to))
        }),
{
    let r = st.cursor_row;
    let (sr, sc, er, ec) = ordered_selection(st);
    assert(sr == r && er == r);
    let top = umin(er, usub(grid_rows, 1));
    assert(top == r);
    let n: nat = if top >= sr { (top - sr + 1) as nat } else { 0 };
    assert(n == 1);
    let pieces = Seq::new(n, |k: int| yank_piece(v, st, sr + k, cols));
    assert(yank_text(v, st, grid_rows, cols) == join_lines(pieces));
    assert(join_lines(pieces) == pieces[0]);
    assert(pieces[0] == yank_piece(v, st, r as int, cols));
    lemma_line_text_fits(v, r as int);
    assert(sc as int == (if st.anchor_col <= st.cursor_col { st.anchor_col as int } else { st.cursor_col as int }));
    assert(ec as int == (if st.anchor_col <= st.cursor_col { st.cursor_col as int } else { st.anchor_col as int }));
    assert(ec + 1 <= u16::MAX + 1);
}

/// `pieces` joined with newlines is its first piece, a newline, then the others
/// joined.
proof fn lemma_join_first(pieces: Seq<Seq<char>>)
    requires
        pieces.len() >= 2,
    ensures
        join_lines(pieces) == pieces[0] + seq!['\n'] + join_lines(pieces.drop_first()),
    decreases pieces.len(),
{
    if pieces.len() == 2 {
        assert(pieces.drop_last().len() == 1);
        assert(pieces.drop_first().len() == 1);
        assert(join_lines(pieces) == pieces[0] + seq!['\n'] + pieces[1]);
        assert(join_lines(pieces.drop_first()) == pieces[1]);
    } else {
        lemma_join_first(pieces.drop_last());
        assert(pieces.drop_last().drop_first() =~= pieces.drop_first().drop_last());
        assert(pieces.drop_first().last() == pieces.last());
        assert(join_lines(pieces) == join_lines(pieces.drop_last()) + seq!['\n'] + pieces.last());
        assert(join_lines(pieces.drop_first()) == join_lines(pieces.drop_first().drop_last()) + seq!['\n']
            + pieces.drop_first().last());
        assert(join_lines(pieces) =~= pieces[0] + seq!['\n'] + join_lines(pieces.drop_first()));
    }
}

/// A selection over several rows copies its first row from the selection's start
/// column to the end of the line (cut at the row's text and at `cols`, without
/// trailing whitespace), then a newline, then what the same selection started at
/// column 0 of the next row copies.
pub proof fn lemma_yank_first_row(v: ScreenView, st: CursorState, grid_rows: usize, cols: usize)
    requires
        v.wf(),
        st.anchor_row is Some,
        st.anchor_row.unwrap() != st.cursor_row,
        st.anchor_row.unwrap() < grid_rows,
        st.cursor_row < grid_rows,
        cursor_state_bounded(Some(st)),
    ensures
        ({
            let a = st.anchor_row.unwrap();
            let anchor_first = a < st.cursor_row;
            let sr: usize = if anchor_first { a } else { st.cursor_row };
            let sc: usize = if anchor_first { st.anchor_col } else { st.cursor_col };
            let er: usize = if anchor_first { st.cursor_row } else { a };
            let ec: usize = if anchor_first { st.cursor_col } else { st.anchor_col };
            let t = v.line_text(sr as int);
            let len = t.len() as int;
            let from: int = if sc <= len { sc as int } else { len };
            let to: int = if cols <= len { cols as int } else { len };
            let rest = CursorState {
                anchor_row: Some((sr + 1) as usize),
                anchor_col: 0,
                cursor_row: er,
                cursor_col: ec,
                ..st
            };
            yank_text(v, st, grid_rows, cols) == trim_end(t.subrange(from, to)) + seq!['\n'] + yank_text(
                v,
                rest,
                grid_rows,
                cols,
            )
        }),
{
    let (sr, sc, er, ec) = ordered_selection(st);
    let rest = CursorState { anchor_row: Some((sr + 1) as usize), anchor_col: 0, cursor_row: er, cursor_col: ec, ..st };
    assert(ordered_selection(rest) == ((sr + 1) as usize, 0usize, er, ec));
    let top = umin(er, usub(grid_rows, 1));
    assert(top == er);
    assert(sr < er);
    let n: nat = if top >= sr { (top - sr + 1) as nat } else { 0 };
    let pieces = Seq::new(n, |k: int| yank_piece(v, st, sr + k, cols));
    assert(yank_text(v, st, grid_rows, cols) == join_lines(pieces));
    let rsr = (sr + 1) as usize;
    let rn: nat = if top >= rsr { (top - rsr + 1) as nat } else { 0 };
    assert(rn == n - 1);
    let rpieces = Seq::new(rn, |k: int| yank_piece(v, rest, rsr + k, cols));
    assert(yank_text(v, rest, grid_rows, cols) == join_lines(rpieces));
    assert(pieces.len() >= 2);
    lemma_join_first(pieces);
    assert forall|k: int| 0 <= k < rpieces.len() implies #[trigger] rpieces[k] == pieces.drop_first()[k] by {
        assert(pieces.drop_first()[k] == pieces[k + 1]);
        assert(pieces[k + 1] == yank_piece(v, st, sr + k + 1, cols));
    }
    assert(rpieces =~= pieces.drop_first());
    assert(pieces[0] == yank_piece(v, st, sr as int, cols));
    lemma_line_text_fits(v, sr as int);
}

} // verus!
