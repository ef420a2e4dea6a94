use std::collections::VecDeque;
use vstd::prelude::*;

use crate::text::{push_char, string_from_prefix, trim_end, trimmed_len};

verus! {

/// The number of lines the scrollback keeps.
pub const MAX_SCROLLBACK: usize = 10000;

/// The 16 ANSI colours (and the 256-colour palette index), or RGB.
#[derive(Debug, Clone, Copy, PartialEq, Eq, Structural)]
pub enum Color {
    Ansi(u8),
    Rgb(u8, u8, u8),
}

/// One cell: its character and style.
#[derive(Debug, Clone, Copy, PartialEq, Eq)]
pub struct Cell {
    pub ch: char,
    pub bold: bool,
    pub fg: Option<Color>,
    pub bg: Option<Color>,
}

pub open spec fn blank_cell() -> Cell {
    Cell { ch: ' ', bold: false, fg: None, bg: None }
}

impl Cell {
    pub fn blank() -> (c: Self)
        ensures
            c == blank_cell(),
    {
        Cell { ch: ' ', bold: false, fg: None, bg: None }
    }
}

pub open spec fn blank_row(cols: nat) -> Seq<Cell> {
    Seq::new(cols, |_i: int| blank_cell())
}

pub open spec fn blank_grid(rows: nat, cols: nat) -> Seq<Seq<Cell>> {
    Seq::new(rows, |_i: int| blank_row(cols))
}

/// The characters of a row of cells.
pub open spec fn row_chars(row: Seq<Cell>) -> Seq<char> {
    row.map_values(|c: Cell| c.ch)
}

pub open spec fn usub(a: usize, b: usize) -> usize {
    if a >= b {
        (a - b) as usize
    } else {
        0
    }
}

pub open spec fn umin(a: usize, b: usize) -> usize {
    if a <= b {
        a
    } else {
        b
    }
}

pub open spec fn grid_view(g: Seq<Vec<Cell>>) -> Seq<Seq<Cell>> {
    g.map_values(|r: Vec<Cell>| r@)
}

/// The state of a virtual terminal screen, as mathematical values.
#[verifier::ext_equal]
pub struct ScreenView {
    /// The main screen, row by row.
    pub grid: Seq<Seq<Cell>>,
    /// The alternate screen, used between smcup and rmcup.
    pub alt_grid: Seq<Seq<Cell>>,
    /// Lines that scrolled out of the top of the main screen, oldest first.
    pub scrollback: Seq<Seq<char>>,
    /// (col, row), 0-indexed.
    pub cursor: (usize, usize),
    pub saved_cursor: (usize, usize),
    /// (top, bottom), 0-indexed and inclusive.
    pub scroll_region: (usize, usize),
    pub in_alt_screen: bool,
    pub rows: usize,
    pub cols: usize,
    pub bold: bool,
    pub fg: Option<Color>,
    pub bg: Option<Color>,
}

pub open spec fn grid_shaped(g: Seq<Seq<Cell>>, rows: usize, cols: usize) -> bool {
    &&& g.len() == rows
    &&& forall|r: int| 0 <= r < g.len() ==> (#[trigger] g[r]).len() == cols
}

impl ScreenView {
    /// The grid that output goes to.
    pub open spec fn active(self) -> Seq<Seq<Cell>> {
        if self.in_alt_screen {
            self.alt_grid
        } else {
            self.grid
        }
    }

    pub open spec fn with_active(self, g: Seq<Seq<Cell>>) -> ScreenView {
        if self.in_alt_screen {
            ScreenView { alt_grid: g, ..self }
        } else {
            ScreenView { grid: g, ..self }
        }
    }

    /// Both grids have `rows` rows of `cols` cells; sizes and positions stay within
    /// what a vector can index.
    pub open spec fn wf(self) -> bool {
        &&& grid_shaped(self.grid, self.rows, self.cols)
        &&& grid_shaped(self.alt_grid, self.rows, self.cols)
        &&& self.rows <= isize::MAX
        &&& self.cols <= isize::MAX
        &&& self.cursor.0 <= isize::MAX
        &&& self.cursor.1 <= isize::MAX
        &&& self.saved_cursor.0 <= isize::MAX
        &&& self.saved_cursor.1 <= isize::MAX
    }

    /// The last row index (0 on an empty screen).
    pub open spec fn last_row(self) -> usize {
        usub(self.rows, 1)
    }

    pub open spec fn last_col(self) -> usize {
        usub(self.cols, 1)
    }

    /// The bottom of the scroll region, clamped to the screen.
    pub open spec fn region_bottom(self) -> usize {
        umin(self.scroll_region.1, self.last_row())
    }

    /// Scrolling within the region is defined: the screen has a row and the region
    /// is not inverted.
    pub open spec fn can_scroll(self) -> bool {
        self.rows >= 1 && self.scroll_region.0 <= self.region_bottom()
    }
}

/// The screen as it is created: blank grids, cursor at the origin, the whole screen
/// as scroll region, no attributes.
pub open spec fn initial_view(cols: usize, rows: usize) -> ScreenView {
    ScreenView {
        grid: blank_grid(rows as nat, cols as nat),
        alt_grid: blank_grid(rows as nat, cols as nat),
        scrollback: Seq::empty(),
        cursor: (0, 0),
        saved_cursor: (0, 0),
        scroll_region: (0, usub(rows, 1)),
        in_alt_screen: false,
        rows,
        cols,
        bold: false,
        fg: None,
        bg: None,
    }
}


// ---------------------------------------------------------------------------
// Transitions of the screen model
// ---------------------------------------------------------------------------

/// The first value of the `i`-th CSI parameter (its first sub-parameter), 0 when absent.
pub open spec fn param(ps: Seq<Seq<u16>>, i: int) -> usize {
    if 0 <= i < ps.len() && ps[i].len() > 0 {
        ps[i][0] as usize
    } else {
        0
    }
}

/// The CSI parameters, each reduced to its first sub-parameter (0 when it has none).
pub open spec fn first_params(ps: Seq<Seq<u16>>) -> Seq<u16> {
    ps.map_values(|p: Seq<u16>| if p.len() > 0 { p[0] } else { 0u16 })
}

pub open spec fn at_least_one(n: usize) -> usize {
    if n == 0 {
        1
    } else {
        n
    }
}

/// Text attributes: (bold, foreground, background).
pub type Attrs = (bool, Option<Color>, Option<Color>);

pub open spec fn plain_attrs() -> Attrs {
    (false, None, None)
}

/// SGR parameters from index `i` on, applied to `a`.
pub open spec fn sgr_from(ps: Seq<u16>, i: int, a: Attrs) -> Attrs
    decreases ps.len() - i,
{
    if i < 0 || i >= ps.len() {
        a
    } else {
        let p = ps[i];
        if p == 0 {
            sgr_from(ps, i + 1, plain_attrs())
        } else if p == 1 {
            sgr_from(ps, i + 1, (true, a.1, a.2))
        } else if p == 22 {
            sgr_from(ps, i + 1, (false, a.1, a.2))
        } else if 30 <= p <= 37 {
            sgr_from(ps, i + 1, (a.0, Some(Color::Ansi((p - 30) as u8)), a.2))
        } else if p == 38 && ps.len() - i > 2 && ps[i + 1] == 5 {
            sgr_from(ps, i + 3, (a.0, Some(Color::Ansi(ps[i + 2] as u8)), a.2))
        } else if p == 38 && ps.len() - i > 4 && ps[i + 1] == 2 {
            sgr_from(
                ps,
                i + 5,
                (a.0, Some(Color::Rgb(ps[i + 2] as u8, ps[i + 3] as u8, ps[i + 4] as u8)), a.2),
            )
        } else if p == 39 {
            sgr_from(ps, i + 1, (a.0, None, a.2))
        } else if 40 <= p <= 47 {
            sgr_from(ps, i + 1, (a.0, a.1, Some(Color::Ansi((p - 40) as u8))))
        } else if p == 48 && ps.len() - i > 2 && ps[i + 1] == 5 {
            sgr_from(ps, i + 3, (a.0, a.1, Some(Color::Ansi(ps[i + 2] as u8))))
        } else if p == 48 && ps.len() - i > 4 && ps[i + 1] == 2 {
            sgr_from(
                ps,
                i + 5,
                (a.0, a.1, Some(Color::Rgb(ps[i + 2] as u8, ps[i + 3] as u8, ps[i + 4] as u8))),
            )
        } else if p == 49 {
            sgr_from(ps, i + 1, (a.0, a.1, None))
        } else {
            sgr_from(ps, i + 1, a)
        }
    }
}

/// The attributes after an SGR sequence: no parameter at all resets them.
pub open spec fn sgr(ps: Seq<u16>, a: Attrs) -> Attrs {
    if ps.len() == 0 {
        plain_attrs()
    } else {
        sgr_from(ps, 0, a)
    }
}

/// `row` cut or padded with blanks to `n` cells.
pub open spec fn resize_row(row: Seq<Cell>, n: nat) -> Seq<Cell> {
    if n <= row.len() {
        row.take(n as int)
    } else {
        row + blank_row((n - row.len()) as nat)
    }
}

/// `g` cut or padded to `rows` rows of `cols` cells, keeping what fits.
pub open spec fn resize_grid(g: Seq<Seq<Cell>>, rows: nat, cols: nat) -> Seq<Seq<Cell>> {
    Seq::new(rows, |r: int| if r < g.len() { resize_row(g[r], cols) } else { blank_row(cols) })
}

/// The private modes that switch to and from the alternate screen: 1049, 1047 and 47.
pub open spec fn is_alt_screen_mode(n: usize) -> bool {
    n == 1049 || n == 1047 || n == 47
}

/// ED on a grid with the cursor at (col, row): mode 0 erases from the cursor to the
/// end of the screen, 1 from the start of the screen through the cursor, 2 and 3 all
/// of it; other modes change nothing.
pub open spec fn erase_display(a: Seq<Seq<Cell>>, mode: usize, col: int, row: int, rows: int) -> Seq<Seq<Cell>> {
    if mode == 0 {
        blank_rows(a.update(row, blank_span(a[row], col, a[row].len() as int)), row + 1, rows)
    } else if mode == 1 {
        blank_rows(a, 0, row).update(row, blank_span(a[row], 0, col + 1))
    } else if mode == 2 || mode == 3 {
        blank_rows(a, 0, rows)
    } else {
        a
    }
}

/// EL on a grid with the cursor at (col, row): mode 0 erases from the cursor to the end
/// of the line, 1 from its start through the cursor, 2 all of it; other modes change
/// nothing.
pub open spec fn erase_line(a: Seq<Seq<Cell>>, mode: usize, col: int, row: int) -> Seq<Seq<Cell>> {
    if mode == 0 {
        a.update(row, blank_span(a[row], col, a[row].len() as int))
    } else if mode == 1 {
        a.update(row, blank_span(a[row], 0, col + 1))
    } else if mode == 2 {
        a.update(row, blank_span(a[row], 0, a[row].len() as int))
    } else {
        a
    }
}

pub open spec fn params_view(ps: Seq<Vec<u16>>) -> Seq<Seq<u16>> {
    ps.map_values(|p: Vec<u16>| p@)
}

impl ScreenView {
    pub open spec fn attrs(self) -> Attrs {
        (self.bold, self.fg, self.bg)
    }

    pub open spec fn with_attrs(self, a: Attrs) -> ScreenView {
        ScreenView { bold: a.0, fg: a.1, bg: a.2, ..self }
    }

    pub open spec fn with_cursor(self, col: usize, row: usize) -> ScreenView {
        ScreenView { cursor: (col, row), ..self }
    }

    /// A printed character: written at the cursor when the cursor is on the screen,
    /// then the cursor moves right, stopping at the last column.
    pub open spec fn printed(self, c: char) -> ScreenView {
        let col = self.cursor.0;
        let row = self.cursor.1;
        let g = if row < self.rows && col < self.cols {
            self.active().update(
                row as int,
                self.active()[row as int].update(
                    col as int,
                    Cell { ch: c, bold: self.bold, fg: self.fg, bg: self.bg },
                ),
            )
        } else {
            self.active()
        };
        let s = self.with_active(g);
        if col + 1 >= self.cols {
            s.with_cursor(self.last_col(), row)
        } else {
            s.with_cursor((col + 1) as usize, row)
        }
    }

    /// One line scrolled up within the scroll region. When the region starts at the
    /// top of the main screen, the line leaving it goes to the scrollback (without
    /// trailing whitespace), which keeps at most `MAX_SCROLLBACK` lines.
    pub open spec fn scrolled_up_once(self) -> ScreenView {
        let top = self.scroll_region.0;
        let bot = self.region_bottom();
        let sb = if top == 0 && !self.in_alt_screen {
            let pushed = self.scrollback.push(trim_end(row_chars(self.grid[0])));
            if pushed.len() > MAX_SCROLLBACK {
                pushed.drop_first()
            } else {
                pushed
            }
        } else {
            self.scrollback
        };
        let s = self.with_active(shift_up(self.active(), top as int, bot as int, self.cols as nat));
        ScreenView { scrollback: sb, ..s }
    }

    pub open spec fn scrolled_up(self, n: nat) -> ScreenView
        decreases n,
    {
        if n == 0 {
            self
        } else {
            self.scrolled_up((n - 1) as nat).scrolled_up_once()
        }
    }

    /// One line scrolled down within the scroll region (a blank line enters at its top).
    pub open spec fn scrolled_down_once(self) -> ScreenView {
        self.with_active(
            shift_down(
                self.active(),
                self.scroll_region.0 as int,
                self.region_bottom() as int,
                self.cols as nat,
            ),
        )
    }

    pub open spec fn scrolled_down(self, n: nat) -> ScreenView
        decreases n,
    {
        if n == 0 {
            self
        } else {
            self.scrolled_down((n - 1) as nat).scrolled_down_once()
        }
    }

    /// A C0 control: LF moves down (scrolling at the bottom of the region), CR goes to
    /// column 0, BS moves left; everything else is ignored.
    pub open spec fn executed(self, byte: u8) -> ScreenView {
        let col = self.cursor.0;
        let row = self.cursor.1;
        if byte == 0x0a {
            let bot = self.region_bottom();
            if row >= bot {
                self.scrolled_up(1).with_cursor(col, bot)
            } else {
                self.with_cursor(col, umin((row + 1) as usize, self.last_row()))
            }
        } else if byte == 0x0d {
            self.with_cursor(0, row)
        } else if byte == 0x08 {
            self.with_cursor(usub(col, 1), row)
        } else {
            self
        }
    }

    /// When handling a C0 control is defined: a line feed at or below the bottom of
    /// the scroll region scrolls, and that needs a non-empty screen and a non-inverted
    /// region.
    pub open spec fn execute_defined(self, byte: u8) -> bool {
        byte == 0x0a && self.cursor.1 >= self.region_bottom() ==> self.can_scroll()
    }

    /// ED: erase in display.
    pub open spec fn erased_display(self, mode: usize) -> ScreenView {
        self.with_active(erase_display(self.active(), mode, self.cursor.0 as int, self.cursor.1 as int, self.rows as int))
    }

    /// EL: erase in line.
    pub open spec fn erased_line(self, mode: usize) -> ScreenView {
        self.with_active(erase_line(self.active(), mode, self.cursor.0 as int, self.cursor.1 as int))
    }

    /// A CSI sequence with the given parameters, intermediates and final character.
    pub open spec fn csi(self, ps: Seq<Seq<u16>>, inter: Seq<u8>, action: char) -> ScreenView {
        let p0 = param(ps, 0);
        let p1 = param(ps, 1);
        let col = self.cursor.0;
        let row = self.cursor.1;
        if inter == seq![0x3fu8] {
            if is_alt_screen_mode(p0) && action == 'h' {
                ScreenView {
                    in_alt_screen: true,
                    alt_grid: blank_grid(self.rows as nat, self.cols as nat),
                    cursor: (0, 0),
                    ..self
                }
            } else if is_alt_screen_mode(p0) && action == 'l' {
                ScreenView { in_alt_screen: false, ..self }
            } else {
                self
            }
        } else if action == 'A' {
            self.with_cursor(col, usub(row, at_least_one(p0)))
        } else if action == 'B' {
            self.with_cursor(col, umin((row + at_least_one(p0)) as usize, self.last_row()))
        } else if action == 'C' {
            self.with_cursor(umin((col + at_least_one(p0)) as usize, self.last_col()), row)
        } else if action == 'D' {
            self.with_cursor(usub(col, at_least_one(p0)), row)
        } else if action == 'H' || action == 'f' {
            self.with_cursor(umin(usub(p1, 1), self.last_col()), umin(usub(p0, 1), self.last_row()))
        } else if action == 'J' {
            self.erased_display(p0)
        } else if action == 'K' {
            self.erased_line(p0)
        } else if action == 'r' {
            let top: usize = if p0 == 0 { 1 } else { p0 };
            let bot: usize = if p1 == 0 { self.rows } else { p1 };
            ScreenView {
                scroll_region: (umin((top - 1) as usize, self.last_row()), umin((bot - 1) as usize, self.last_row())),
                ..self
            }
        } else if action == 'S' || action == 'M' {
            self.scrolled_up(at_least_one(p0) as nat)
        } else if action == 'T' || action == 'L' {
            self.scrolled_down(at_least_one(p0) as nat)
        } else if action == 'm' {
            self.with_attrs(sgr(first_params(ps), self.attrs()))
        } else {
            self
        }
    }

    /// When handling a CSI sequence is defined: an erase stays within the grid (the
    /// cursor's row on the screen, its column at most the width), a scroll region with
    /// a default bottom needs at least one row, and scrolls and line inserts or deletes
    /// need a non-empty screen and a non-inverted region.
    pub open spec fn csi_defined(self, ps: Seq<Seq<u16>>, inter: Seq<u8>, action: char) -> bool {
        let p0 = param(ps, 0);
        let p1 = param(ps, 1);
        let col = self.cursor.0;
        let row = self.cursor.1;
        if inter == seq![0x3fu8] {
            true
        } else if action == 'J' {
            (p0 == 0 ==> row < self.rows && col <= self.cols) && (p0 == 1 ==> row < self.rows
                && col < self.cols)
        } else if action == 'K' {
            (p0 == 0 ==> row < self.rows && col <= self.cols) && (p0 == 1 ==> row < self.rows
                && col < self.cols) && (p0 == 2 ==> row < self.rows)
        } else if action == 'r' {
            p1 != 0 || self.rows != 0
        } else if action == 'S' || action == 'M' || action == 'T' || action == 'L' {
            self.can_scroll()
        } else {
            true
        }
    }

    /// ESC 7 saves the cursor, ESC 8 restores it; other escapes are ignored.
    pub open spec fn escaped(self, byte: u8) -> ScreenView {
        if byte == 0x37 {
            ScreenView { saved_cursor: self.cursor, ..self }
        } else if byte == 0x38 {
            ScreenView { cursor: self.saved_cursor, ..self }
        } else {
            self
        }
    }

    /// The screen at a new size: both grids cut or padded, the scroll region reset to
    /// the whole screen, the cursor clamped into it.
    pub open spec fn resized(self, cols: usize, rows: usize) -> ScreenView {
        ScreenView {
            grid: resize_grid(self.grid, rows as nat, cols as nat),
            alt_grid: resize_grid(self.alt_grid, rows as nat, cols as nat),
            rows,
            cols,
            scroll_region: (0, usub(rows, 1)),
            cursor: (umin(self.cursor.0, usub(cols, 1)), umin(self.cursor.1, usub(rows, 1))),
            ..self
        }
    }

    /// The text of a row of the active grid without trailing whitespace; empty past the
    /// last row.
    pub open spec fn line_text(self, row: int) -> Seq<char> {
        if 0 <= row < self.active().len() {
            trim_end(row_chars(self.active()[row]))
        } else {
            Seq::empty()
        }
    }
}

/// A virtual terminal screen fed with the PTY's output.
pub struct VirtualScreen {
    grid: Vec<Vec<Cell>>,
    alt_grid: Vec<Vec<Cell>>,
    /// Text of the lines that scrolled out of the top, oldest first.
    pub scrollback: VecDeque<String>,
    cursor: (usize, usize),
    saved_cursor: (usize, usize),
    scroll_region: (usize, usize),
    in_alt_screen: bool,
    rows: usize,
    cols: usize,
    current_bold: bool,
    current_fg: Option<Color>,
    current_bg: Option<Color>,
}

impl View for VirtualScreen {
    type V = ScreenView;

    closed spec fn view(&self) -> ScreenView {
        ScreenView {
            grid: grid_view(self.grid@),
            alt_grid: grid_view(self.alt_grid@),
            scrollback: self.scrollback@.map_values(|s: String| s@),
            cursor: self.cursor,
            saved_cursor: self.saved_cursor,
            scroll_region: self.scroll_region,
            in_alt_screen: self.in_alt_screen,
            rows: self.rows,
            cols: self.cols,
            bold: self.current_bold,
            fg: self.current_fg,
            bg: self.current_bg,
        }
    }
}

// ---------------------------------------------------------------------------
// Grid helpers
// ---------------------------------------------------------------------------

proof fn lemma_grid_view_push(g: Seq<Vec<Cell>>, r: Vec<Cell>)
    ensures
        grid_view(g.push(r)) == grid_view(g).push(r@),
{
    assert(grid_view(g.push(r)) =~= grid_view(g).push(r@));
}

proof fn lemma_string_views_push(s: Seq<String>, x: String)
    ensures
        s.push(x).map_values(|t: String| t@) == s.map_values(|t: String| t@).push(x@),
{
    assert(s.push(x).map_values(|t: String| t@) =~= s.map_values(|t: String| t@).push(x@));
}

fn make_blank_row(cols: usize) -> (r: Vec<Cell>)
    ensures
        r@ == blank_row(cols as nat),
{
    let mut r: Vec<Cell> = Vec::new();
    let mut i: usize = 0;
    while i < cols
        invariant
            i <= cols,
            r@ == blank_row(i as nat),
        decreases cols - i,
    {
        r.push(Cell::blank());
        i = i + 1;
        assert(r@ =~= blank_row(i as nat));
    }
    r
}

fn make_blank_grid(rows: usize, cols: usize) -> (g: Vec<Vec<Cell>>)
    ensures
        grid_view(g@) == blank_grid(rows as nat, cols as nat),
{
    let mut g: Vec<Vec<Cell>> = Vec::new();
    let mut i: usize = 0;
    while i < rows
        invariant
            i <= rows,
            grid_view(g@) == blank_grid(i as nat, cols as nat),
        decreases rows - i,
    {
        let r = make_blank_row(cols);
        proof {
            lemma_grid_view_push(g@, r);
        }
        g.push(r);
        i = i + 1;
        assert(blank_grid(i as nat, cols as nat) =~= blank_grid((i - 1) as nat, cols as nat).push(
            blank_row(cols as nat),
        ));
    }
    g
}


/// `row` with the cells in `[from, to)` blanked.
pub open spec fn blank_span(row: Seq<Cell>, from: int, to: int) -> Seq<Cell> {
    Seq::new(row.len(), |k: int| if from <= k < to { blank_cell() } else { row[k] })
}

/// `g` with the rows in `[from, to)` blanked (each keeps its length).
pub open spec fn blank_rows(g: Seq<Seq<Cell>>, from: int, to: int) -> Seq<Seq<Cell>> {
    Seq::new(g.len(), |k: int| if from <= k < to { blank_row(g[k].len()) } else { g[k] })
}

/// The rows `top..=bot` shifted up by one: row `top` leaves, a blank row of `cols`
/// cells enters at `bot`.
pub open spec fn shift_up(g: Seq<Seq<Cell>>, top: int, bot: int, cols: nat) -> Seq<Seq<Cell>> {
    g.take(top) + g.subrange(top + 1, bot + 1) + seq![blank_row(cols)] + g.skip(bot + 1)
}

/// The rows `top..=bot` shifted down by one: row `bot` leaves, a blank row of `cols`
/// cells enters at `top`.
pub open spec fn shift_down(g: Seq<Seq<Cell>>, top: int, bot: int, cols: nat) -> Seq<Seq<Cell>> {
    g.take(top) + seq![blank_row(cols)] + g.subrange(top, bot) + g.skip(bot + 1)
}

fn set_cell(g: &mut Vec<Vec<Cell>>, row: usize, col: usize, cell: Cell)
    requires
        row < old(g)@.len(),
        col < old(g)@[row as int]@.len(),
    ensures
        grid_view(final(g)@) == grid_view(old(g)@).update(
            row as int,
            old(g)@[row as int]@.update(col as int, cell),
        ),
{
    let ghost g0 = g@;
    g[row].set(col, cell);
    proof {
        assert(grid_view(g@) =~= grid_view(g0).update(row as int, g0[row as int]@.update(col as int, cell)));
    }
}

/// Blanks the cells `[from, to)` of one row.
fn blank_cells(g: &mut Vec<Vec<Cell>>, row: usize, from: usize, to: usize)
    requires
        row < old(g)@.len(),
        from <= to <= old(g)@[row as int]@.len(),
    ensures
        grid_view(final(g)@) == grid_view(old(g)@).update(
            row as int,
            blank_span(old(g)@[row as int]@, from as int, to as int),
        ),
{
    let ghost g0 = grid_view(g@);
    let mut k = from;
    assert(blank_span(g0[row as int], from as int, from as int) =~= g0[row as int]);
    assert(g0.update(row as int, g0[row as int]) =~= g0);
    while k < to
        invariant
            row < g@.len(),
            from <= k <= to,
            to <= g0[row as int].len(),
            g0.len() == g@.len(),
            grid_view(g@) == g0.update(row as int, blank_span(g0[row as int], from as int, k as int)),
        decreases to - k,
    {
        proof {
            assert(g@[row as int]@ == grid_view(g@)[row as int]);
        }
        set_cell(g, row, k, Cell::blank());
        k = k + 1;
        proof {
            assert(blank_span(g0[row as int], from as int, (k - 1) as int).update((k - 1) as int, blank_cell())
                =~= blank_span(g0[row as int], from as int, k as int));
            assert(g0.update(row as int, blank_span(g0[row as int], from as int, (k - 1) as int)).update(
                row as int,
                blank_span(g0[row as int], from as int, k as int),
            ) =~= g0.update(row as int, blank_span(g0[row as int], from as int, k as int)));
        }
    }
}

/// Blanks every cell of the rows `[from, to)`.
fn blank_whole_rows(g: &mut Vec<Vec<Cell>>, from: usize, to: usize)
    requires
        from <= to <= old(g)@.len(),
    ensures
        grid_view(final(g)@) == blank_rows(grid_view(old(g)@), from as int, to as int),
{
    let ghost g0 = grid_view(g@);
    let mut r = from;
    assert(grid_view(g@) =~= blank_rows(g0, from as int, from as int));
    while r < to
        invariant
            from <= r <= to,
            to <= g@.len(),
            g0.len() == g@.len(),
            grid_view(g@) == blank_rows(g0, from as int, r as int),
        decreases to - r,
    {
        let n = g[r].len();
        proof {
            assert(grid_view(g@)[r as int] == g0[r as int]);
        }
        blank_cells(g, r, 0, n);
        proof {
            assert(blank_span(g0[r as int], 0, n as int) =~= blank_row(g0[r as int].len()));
            assert(grid_view(g@) =~= blank_rows(g0, from as int, r + 1));
        }
        r = r + 1;
    }
}

/// Shifts the rows `top..=bot` up by one, a blank row of `cols` cells entering at `bot`.
fn shift_rows_up(g: &mut Vec<Vec<Cell>>, top: usize, bot: usize, cols: usize)
    requires
        top <= bot < old(g)@.len(),
    ensures
        grid_view(final(g)@) == shift_up(grid_view(old(g)@), top as int, bot as int, cols as nat),
{
    let ghost g0 = g@;
    let _gone = g.remove(top);
    let blank = make_blank_row(cols);
    g.insert(bot, blank);
    proof {
        assert(grid_view(g@) =~= shift_up(grid_view(g0), top as int, bot as int, cols as nat));
    }
}

/// Shifts the rows `top..=bot` down by one, a blank row of `cols` cells entering at `top`.
fn shift_rows_down(g: &mut Vec<Vec<Cell>>, top: usize, bot: usize, cols: usize)
    requires
        top <= bot < old(g)@.len(),
    ensures
        grid_view(final(g)@) == shift_down(grid_view(old(g)@), top as int, bot as int, cols as nat),
{
    let ghost g0 = g@;
    let _gone = g.remove(bot);
    let blank = make_blank_row(cols);
    g.insert(top, blank);
    proof {
        assert(grid_view(g@) =~= shift_down(grid_view(g0), top as int, bot as int, cols as nat));
    }
}


// ---------------------------------------------------------------------------
// Well-formedness is kept by every transition
// ---------------------------------------------------------------------------

proof fn lemma_shaped_update(g: Seq<Seq<Cell>>, rows: usize, cols: usize, r: int, row: Seq<Cell>)
    requires
        grid_shaped(g, rows, cols),
        0 <= r < g.len(),
        row.len() == cols,
    ensures
        grid_shaped(g.update(r, row), rows, cols),
{
    assert forall|k: int| 0 <= k < g.update(r, row).len() implies (#[trigger] g.update(r, row)[k]).len()
        == cols by {
        if k != r {
            assert(g.update(r, row)[k] == g[k]);
        }
    }
}

proof fn lemma_shaped_blank_rows(g: Seq<Seq<Cell>>, rows: usize, cols: usize, from: int, to: int)
    requires
        grid_shaped(g, rows, cols),
    ensures
        grid_shaped(blank_rows(g, from, to), rows, cols),
{
    assert forall|k: int| 0 <= k < blank_rows(g, from, to).len() implies (#[trigger] blank_rows(
        g,
        from,
        to,
    )[k]).len() == cols by {
        assert(g[k].len() == cols);
    }
}

proof fn lemma_shaped_shift(g: Seq<Seq<Cell>>, rows: usize, cols: usize, top: int, bot: int)
    requires
        grid_shaped(g, rows, cols),
        0 <= top <= bot < g.len(),
    ensures
        grid_shaped(shift_up(g, top, bot, cols as nat), rows, cols),
        grid_shaped(shift_down(g, top, bot, cols as nat), rows, cols),
{
    let u = shift_up(g, top, bot, cols as nat);
    assert forall|k: int| 0 <= k < u.len() implies (#[trigger] u[k]).len() == cols by {
        if k < top {
            assert(u[k] == g[k]);
        } else if k < bot {
            assert(u[k] == g[k + 1]);
        } else if k > bot {
            assert(u[k] == g[k]);
        }
    }
    let d = shift_down(g, top, bot, cols as nat);
    assert forall|k: int| 0 <= k < d.len() implies (#[trigger] d[k]).len() == cols by {
        if k < top {
            assert(d[k] == g[k]);
        } else if top < k <= bot {
            assert(d[k] == g[k - 1]);
        } else if k > bot {
            assert(d[k] == g[k]);
        }
    }
}

proof fn lemma_shaped_blank_grid(rows: usize, cols: usize)
    ensures
        grid_shaped(blank_grid(rows as nat, cols as nat), rows, cols),
{
}

proof fn lemma_shaped_resize(g: Seq<Seq<Cell>>, rows: usize, cols: usize)
    ensures
        grid_shaped(resize_grid(g, rows as nat, cols as nat), rows, cols),
{
}

proof fn lemma_scrolled_up_keeps(v: ScreenView, n: nat)
    requires
        v.wf(),
        n > 0 ==> v.can_scroll(),
    ensures
        v.scrolled_up(n).wf(),
        v.scrolled_up(n).rows == v.rows,
        v.scrolled_up(n).cols == v.cols,
        v.scrolled_up(n).scroll_region == v.scroll_region,
        v.scrolled_up(n).cursor == v.cursor,
        v.scrolled_up(n).saved_cursor == v.saved_cursor,
        v.scrolled_up(n).in_alt_screen == v.in_alt_screen,
        v.scrolled_up(n).attrs() == v.attrs(),
    decreases n,
{
    if n > 0 {
        lemma_scrolled_up_keeps(v, (n - 1) as nat);
        let w = v.scrolled_up((n - 1) as nat);
        lemma_shaped_shift(w.active(), w.rows, w.cols, w.scroll_region.0 as int, w.region_bottom() as int);
    }
}

proof fn lemma_scrolled_down_keeps(v: ScreenView, n: nat)
    requires
        v.wf(),
        n > 0 ==> v.can_scroll(),
    ensures
        v.scrolled_down(n).wf(),
        v.scrolled_down(n).rows == v.rows,
        v.scrolled_down(n).cols == v.cols,
        v.scrolled_down(n).scroll_region == v.scroll_region,
        v.scrolled_down(n).cursor == v.cursor,
        v.scrolled_down(n).saved_cursor == v.saved_cursor,
        v.scrolled_down(n).in_alt_screen == v.in_alt_screen,
        v.scrolled_down(n).attrs() == v.attrs(),
        v.scrolled_down(n).scrollback == v.scrollback,
    decreases n,
{
    if n > 0 {
        lemma_scrolled_down_keeps(v, (n - 1) as nat);
        let w = v.scrolled_down((n - 1) as nat);
        lemma_shaped_shift(w.active(), w.rows, w.cols, w.scroll_region.0 as int, w.region_bottom() as int);
    }
}

fn last_index(n: usize) -> (r: usize)
    ensures
        r == usub(n, 1),
{
    if n > 0 {
        n - 1
    } else {
        0
    }
}

fn min_usize(a: usize, b: usize) -> (r: usize)
    ensures
        r == umin(a, b),
{
    if a <= b {
        a
    } else {
        b
    }
}

/// The characters of a row of cells.
fn row_char_vec(row: &Vec<Cell>) -> (v: Vec<char>)
    ensures
        v@ == row_chars(row@),
{
    let mut v: Vec<char> = Vec::new();
    let mut i: usize = 0;
    while i < row.len()
        invariant
            i <= row@.len(),
            v@ == row_chars(row@).take(i as int),
        decreases row@.len() - i,
    {
        v.push(row[i].ch);
        i = i + 1;
        assert(v@ =~= row_chars(row@).take(i as int));
    }
    assert(row_chars(row@).take(i as int) =~= row_chars(row@));
    v
}

/// The text of a row of cells without trailing whitespace.
fn row_text(row: &Vec<Cell>) -> (s: String)
    ensures
        s@ == trim_end(row_chars(row@)),
{
    let chars = row_char_vec(row);
    let n = trimmed_len(&chars);
    string_from_prefix(&chars, n)
}

impl VirtualScreen {
    /// A blank screen of `rows` rows of `cols` cells.
    pub fn new(cols: usize, rows: usize) -> (s: Self)
        requires
            cols <= isize::MAX,
            rows <= isize::MAX,
        ensures
            s@ == initial_view(cols, rows),
            s@.wf(),
    {
        let grid = make_blank_grid(rows, cols);
        let alt_grid = make_blank_grid(rows, cols);
        let s = VirtualScreen {
            grid,
            alt_grid,
            scrollback: VecDeque::new(),
            cursor: (0, 0),
            saved_cursor: (0, 0),
            scroll_region: (0, last_index(rows)),
            in_alt_screen: false,
            rows,
            cols,
            current_bold: false,
            current_fg: None,
            current_bg: None,
        };
        proof {
            lemma_shaped_blank_grid(rows, cols);
            assert(s@.scrollback =~= Seq::<Seq<char>>::empty());
            assert(s@ =~= initial_view(cols, rows));
        }
        s
    }

    /// A printable character at the cursor.
    pub fn print(&mut self, c: char)
        requires
            old(self)@.wf(),
        ensures
            final(self)@ == old(self)@.printed(c),
            final(self)@.wf(),
    {
        let ghost v0 = self@;
        let col = self.cursor.0;
        let row = self.cursor.1;
        if row < self.rows && col < self.cols {
            let cell = Cell { ch: c, bold: self.current_bold, fg: self.current_fg, bg: self.current_bg };
            proof {
                assert(v0.active()[row as int].len() == v0.cols);
            }
            if self.in_alt_screen {
                proof {
                    assert(self.alt_grid@[row as int]@ == v0.alt_grid[row as int]);
                }
                set_cell(&mut self.alt_grid, row, col, cell);
            } else {
                proof {
                    assert(self.grid@[row as int]@ == v0.grid[row as int]);
                }
                set_cell(&mut self.grid, row, col, cell);
            }
            proof {
                lemma_shaped_update(
                    v0.active(),
                    v0.rows,
                    v0.cols,
                    row as int,
                    v0.active()[row as int].update(col as int, cell),
                );
            }
        }
        if col + 1 >= self.cols {
            self.cursor = (last_index(self.cols), row);
        } else {
            self.cursor = (col + 1, row);
        }
        proof {
            assert(self@ =~= v0.printed(c));
        }
    }

    /// One line up within the scroll region.
    fn scroll_up_once(&mut self)
        requires
            old(self)@.wf(),
            old(self)@.can_scroll(),
        ensures
            final(self)@ == old(self)@.scrolled_up_once(),
    {
        let ghost v0 = self@;
        let top = self.scroll_region.0;
        let bot = min_usize(self.scroll_region.1, last_index(self.rows));
        if top == 0 && !self.in_alt_screen {
            let line = row_text(&self.grid[0]);
            let ghost sb0 = self.scrollback@;
            self.scrollback.push_back(line);
            proof {
                assert(self.scrollback@.map_values(|s: String| s@) =~= v0.scrollback.push(
                    trim_end(row_chars(v0.grid[0])),
                ));
            }
            if self.scrollback.len() > MAX_SCROLLBACK {
                let ghost sb1 = self.scrollback@;
                let _oldest = self.scrollback.pop_front();
                proof {
                    assert(self.scrollback@.map_values(|s: String| s@) =~= sb1.map_values(
                        |s: String| s@,
                    ).drop_first());
                }
            }
        }
        let cols = self.cols;
        if self.in_alt_screen {
            shift_rows_up(&mut self.alt_grid, top, bot, cols);
        } else {
            shift_rows_up(&mut self.grid, top, bot, cols);
        }
        proof {
            assert(self@ =~= v0.scrolled_up_once());
        }
    }

    /// `n` lines up within the scroll region.
    fn scroll_up(&mut self, n: usize)
        requires
            old(self)@.wf(),
            n > 0 ==> old(self)@.can_scroll(),
        ensures
            final(self)@ == old(self)@.scrolled_up(n as nat),
            final(self)@.wf(),
    {
        let ghost v0 = self@;
        let mut i: usize = 0;
        while i < n
            invariant
                i <= n,
                n > 0 ==> v0.can_scroll(),
                v0.wf(),
                self@ == v0.scrolled_up(i as nat),
            decreases n - i,
        {
            proof {
                lemma_scrolled_up_keeps(v0, i as nat);
            }
            self.scroll_up_once();
            i = i + 1;
        }
        proof {
            lemma_scrolled_up_keeps(v0, n as nat);
        }
    }

    /// One line down within the scroll region.
    fn scroll_down_once(&mut self)
        requires
            old(self)@.wf(),
            old(self)@.can_scroll(),
        ensures
            final(self)@ == old(self)@.scrolled_down_once(),
    {
        let ghost v0 = self@;
        let top = self.scroll_region.0;
        let bot = min_usize(self.scroll_region.1, last_index(self.rows));
        let cols = self.cols;
        if self.in_alt_screen {
            shift_rows_down(&mut self.alt_grid, top, bot, cols);
        } else {
            shift_rows_down(&mut self.grid, top, bot, cols);
        }
        proof {
            assert(self@ =~= v0.scrolled_down_once());
        }
    }

    /// `n` lines down within the scroll region.
    fn scroll_down(&mut self, n: usize)
        requires
            old(self)@.wf(),
            n > 0 ==> old(self)@.can_scroll(),
        ensures
            final(self)@ == old(self)@.scrolled_down(n as nat),
            final(self)@.wf(),
    {
        let ghost v0 = self@;
        let mut i: usize = 0;
        while i < n
            invariant
                i <= n,
                n > 0 ==> v0.can_scroll(),
                v0.wf(),
                self@ == v0.scrolled_down(i as nat),
            decreases n - i,
        {
            proof {
                lemma_scrolled_down_keeps(v0, i as nat);
            }
            self.scroll_down_once();
            i = i + 1;
        }
        proof {
            lemma_scrolled_down_keeps(v0, n as nat);
        }
    }

    /// Whether handling the C0 control `byte` is defined in the current state.
    pub fn execute_is_defined(&self, byte: u8) -> (r: bool)
        ensures
            r == self@.execute_defined(byte),
    {
        let bot = min_usize(self.scroll_region.1, last_index(self.rows));
        !(byte == 0x0a && self.cursor.1 >= bot) || (self.rows >= 1 && self.scroll_region.0 <= bot)
    }

    /// A C0 control character.
    pub fn execute(&mut self, byte: u8)
        requires
            old(self)@.wf(),
            old(self)@.execute_defined(byte),
        ensures
            final(self)@ == old(self)@.executed(byte),
            final(self)@.wf(),
    {
        let ghost v0 = self@;
        let col = self.cursor.0;
        let row = self.cursor.1;
        if byte == 0x0a {
            let bot = min_usize(self.scroll_region.1, last_index(self.rows));
            if row >= bot {
                self.scroll_up(1);
                proof {
                    lemma_scrolled_up_keeps(v0, 1);
                }
                self.cursor = (col, bot);
            } else {
                self.cursor = (col, min_usize(row + 1, last_index(self.rows)));
            }
        } else if byte == 0x0d {
            self.cursor = (0, row);
        } else if byte == 0x08 {
            self.cursor = (col.saturating_sub(1), row);
        }
        proof {
            assert(self@ =~= v0.executed(byte));
        }
    }
}


fn erase_display_grid(g: &mut Vec<Vec<Cell>>, mode: usize, col: usize, row: usize, rows: usize, cols: usize)
    requires
        grid_shaped(grid_view(old(g)@), rows, cols),
        mode == 0 ==> row < rows && col <= cols,
        mode == 1 ==> row < rows && col < cols,
    ensures
        grid_view(final(g)@) == erase_display(grid_view(old(g)@), mode, col as int, row as int, rows as int),
        grid_shaped(grid_view(final(g)@), rows, cols),
{
    let ghost a = grid_view(g@);
    if mode == 0 {
        proof {
            assert(a[row as int] == g@[row as int]@);
        }
        blank_cells(g, row, col, cols);
        proof {
            lemma_shaped_update(a, rows, cols, row as int, blank_span(a[row as int], col as int, cols as int));
        }
        blank_whole_rows(g, row + 1, rows);
        proof {
            lemma_shaped_blank_rows(a.update(row as int, blank_span(a[row as int], col as int, cols as int)), rows, cols, row + 1, rows as int);
        }
    } else if mode == 1 {
        blank_whole_rows(g, 0, row);
        proof {
            lemma_shaped_blank_rows(a, rows, cols, 0, row as int);
            assert(grid_view(g@)[row as int] == a[row as int]);
            assert(g@[row as int]@ == a[row as int]);
        }
        blank_cells(g, row, 0, col + 1);
        proof {
            lemma_shaped_update(blank_rows(a, 0, row as int), rows, cols, row as int, blank_span(a[row as int], 0, col + 1));
        }
    } else if mode == 2 || mode == 3 {
        blank_whole_rows(g, 0, rows);
        proof {
            lemma_shaped_blank_rows(a, rows, cols, 0, rows as int);
        }
    }
}

fn erase_line_grid(g: &mut Vec<Vec<Cell>>, mode: usize, col: usize, row: usize, rows: usize, cols: usize)
    requires
        grid_shaped(grid_view(old(g)@), rows, cols),
        mode == 0 ==> row < rows && col <= cols,
        mode == 1 ==> row < rows && col < cols,
        mode == 2 ==> row < rows,
    ensures
        grid_view(final(g)@) == erase_line(grid_view(old(g)@), mode, col as int, row as int),
        grid_shaped(grid_view(final(g)@), rows, cols),
{
    let ghost a = grid_view(g@);
    if mode == 0 || mode == 1 || mode == 2 {
        proof {
            assert(a[row as int] == g@[row as int]@);
        }
        let from: usize = if mode == 0 { col } else { 0 };
        let to: usize = if mode == 1 { col + 1 } else { cols };
        blank_cells(g, row, from, to);
        proof {
            lemma_shaped_update(a, rows, cols, row as int, blank_span(a[row as int], from as int, to as int));
        }
    }
}

/// Cuts or pads a grid to `rows` rows of `cols` cells.
fn resize_grid_exec(g: &mut Vec<Vec<Cell>>, rows: usize, cols: usize)
    ensures
        grid_view(final(g)@) == resize_grid(grid_view(old(g)@), rows as nat, cols as nat),
{
    let ghost a = grid_view(g@);
    if g.len() > rows {
        g.truncate(rows);
    }
    let kept = g.len();
    assert(grid_view(g@) =~= a.take(kept as int));
    while g.len() < rows
        invariant
            kept <= g@.len() <= rows,
            kept == if a.len() > rows { rows as int } else { a.len() as int },
            forall|r: int| 0 <= r < kept ==> (#[trigger] grid_view(g@)[r]) == a[r],
            forall|r: int| kept <= r < g@.len() ==> (#[trigger] grid_view(g@)[r]) == blank_row(cols as nat),
        decreases rows - g@.len(),
    {
        let row = make_blank_row(cols);
        proof {
            lemma_grid_view_push(g@, row);
        }
        g.push(row);
    }
    let mut r: usize = 0;
    while r < rows
        invariant
            r <= rows,
            g@.len() == rows,
            kept == if a.len() > rows { rows as int } else { a.len() as int },
            forall|k: int| 0 <= k < r ==> (#[trigger] grid_view(g@)[k]) == resize_grid(a, rows as nat, cols as nat)[k],
            forall|k: int| r <= k < kept ==> (#[trigger] grid_view(g@)[k]) == a[k],
            forall|k: int| kept <= k < rows ==> (#[trigger] grid_view(g@)[k]) == blank_row(cols as nat),
        decreases rows - r,
    {
        let ghost before = grid_view(g@);
        let ghost row0 = g@[r as int]@;
        proof {
            assert(before[r as int] == row0);
        }
        if g[r].len() > cols {
            g[r].truncate(cols);
        }
        proof {
            assert forall|k: int| 0 <= k < rows && k != r implies (#[trigger] grid_view(g@)[k]) == before[k] by {
                assert(grid_view(g@)[k] == g@[k]@);
                            }
            if row0.len() <= cols {
                assert(row0.take(row0.len() as int) =~= row0);
            }
            assert(g@[r as int]@ == resize_row(row0, g@[r as int]@.len() as nat));
        }
        while g[r].len() < cols
            invariant
                r < rows,
                g@.len() == rows,
                forall|k: int| 0 <= k < rows && k != r ==> (#[trigger] grid_view(g@)[k]) == before[k],
                g@[r as int]@ == resize_row(row0, g@[r as int]@.len() as nat),
                g@[r as int]@.len() <= cols,
                row0.len() <= cols ==> g@[r as int]@.len() >= row0.len(),
                row0.len() > cols ==> g@[r as int]@.len() == cols,
                before.len() == rows,
            decreases cols - g@[r as int]@.len(),
        {
            let ghost cur = g@[r as int]@;
            let ghost g_prev = g@;
            g[r].push(Cell::blank());
            proof {
                let m = cur.len();
                assert(m >= row0.len());
                assert(resize_row(row0, m as nat) =~= row0 + blank_row((m - row0.len()) as nat));
                assert(blank_row((m + 1 - row0.len()) as nat) =~= blank_row((m - row0.len()) as nat).push(blank_cell()));
                assert(resize_row(row0, (m + 1) as nat) =~= row0 + blank_row((m + 1 - row0.len()) as nat));
                assert(g@[r as int]@ =~= resize_row(row0, (m + 1) as nat));
                assert forall|k: int| 0 <= k < rows && k != r implies (#[trigger] grid_view(g@)[k]) == before[k] by {
                    assert(grid_view(g@)[k] == g@[k]@);
                    assert(g@[k] == g_prev[k]);
                    assert(grid_view(g_prev)[k] == g_prev[k]@);
                }
            }
        }
        proof {
            assert(grid_view(g@)[r as int] == g@[r as int]@);
            if r < kept {
                assert(row0 == a[r as int]);
            } else {
                assert(row0 == blank_row(cols as nat));
                assert(resize_row(row0, cols as nat) =~= row0);
            }
            assert(grid_view(g@)[r as int] == resize_grid(a, rows as nat, cols as nat)[r as int]);
        }
        r = r + 1;
    }
    assert(grid_view(g@) =~= resize_grid(a, rows as nat, cols as nat));
}

impl VirtualScreen {
    /// The parameter values of a CSI sequence, each reduced to its first sub-parameter.
    fn first_param_values(params: &Vec<Vec<u16>>) -> (ps: Vec<u16>)
        ensures
            ps@ == first_params(params_view(params@)),
    {
        let mut ps: Vec<u16> = Vec::new();
        let mut i: usize = 0;
        while i < params.len()
            invariant
                i <= params@.len(),
                ps@ == first_params(params_view(params@)).take(i as int),
            decreases params@.len() - i,
        {
            let v: u16 = if params[i].len() > 0 { params[i][0] } else { 0 };
            ps.push(v);
            i = i + 1;
            assert(ps@ =~= first_params(params_view(params@)).take(i as int));
        }
        assert(first_params(params_view(params@)).take(i as int) =~= first_params(params_view(params@)));
        ps
    }

    /// Whether handling the CSI sequence is defined in the current state.
    pub fn csi_is_defined(&self, params: &Vec<Vec<u16>>, intermediates: &[u8], action: char) -> (r: bool)
        ensures
            r == self@.csi_defined(params_view(params@), intermediates@, action),
    {
        let ps = Self::first_param_values(params);
        let p0: usize = if ps.len() > 0 { ps[0] as usize } else { 0 };
        let p1: usize = if ps.len() > 1 { ps[1] as usize } else { 0 };
        let col = self.cursor.0;
        let row = self.cursor.1;
        let private = intermediates.len() == 1 && intermediates[0] == 0x3f;
        proof {
            assert(private == (intermediates@ == seq![0x3fu8])) by {
                if intermediates@.len() == 1 && intermediates@[0] == 0x3f {
                    assert(intermediates@ =~= seq![0x3fu8]);
                }
            }
        }
        if private {
            true
        } else if action == 'J' {
            (p0 != 0 || (row < self.rows && col <= self.cols)) && (p0 != 1 || (row < self.rows && col < self.cols))
        } else if action == 'K' {
            (p0 != 0 || (row < self.rows && col <= self.cols)) && (p0 != 1 || (row < self.rows
                && col < self.cols)) && (p0 != 2 || row < self.rows)
        } else if action == 'r' {
            p1 != 0 || self.rows != 0
        } else if action == 'S' || action == 'M' || action == 'T' || action == 'L' {
            let bot = min_usize(self.scroll_region.1, last_index(self.rows));
            self.rows >= 1 && self.scroll_region.0 <= bot
        } else {
            true
        }
    }

    /// A CSI sequence: cursor movement, erasing, the scroll region, scrolling, SGR,
    /// and the private modes that enter and leave the alternate screen.
    pub fn csi_dispatch(&mut self, params: &Vec<Vec<u16>>, intermediates: &[u8], action: char)
        requires
            old(self)@.wf(),
            old(self)@.csi_defined(params_view(params@), intermediates@, action),
        ensures
            final(self)@ == old(self)@.csi(params_view(params@), intermediates@, action),
            final(self)@.wf(),
    {
        let ghost v0 = self@;
        let ghost pv = params_view(params@);
        let ps = Self::first_param_values(params);
        let p0: usize = if ps.len() > 0 { ps[0] as usize } else { 0 };
        let p1: usize = if ps.len() > 1 { ps[1] as usize } else { 0 };
        proof {
            assert(p0 == param(pv, 0));
            assert(p1 == param(pv, 1));
        }
        let col = self.cursor.0;
        let row = self.cursor.1;
        let private = intermediates.len() == 1 && intermediates[0] == 0x3f;
        proof {
            assert(private == (intermediates@ == seq![0x3fu8])) by {
                if intermediates@.len() == 1 && intermediates@[0] == 0x3f {
                    assert(intermediates@ =~= seq![0x3fu8]);
                }
            }
        }
        if private {
            let alt_mode = p0 == 1049 || p0 == 1047 || p0 == 47;
            if alt_mode && action == 'h' {
                self.in_alt_screen = true;
                self.alt_grid = make_blank_grid(self.rows, self.cols);
                self.cursor = (0, 0);
                proof {
                    lemma_shaped_blank_grid(v0.rows, v0.cols);
                }
            } else if alt_mode && action == 'l' {
                self.in_alt_screen = false;
            }
            proof {
                assert(self@ =~= v0.csi(pv, intermediates@, action));
            }
            return;
        }
        let n = if p0 == 0 { 1 } else { p0 };
        if action == 'A' {
            self.cursor = (col, row.saturating_sub(n));
        } else if action == 'B' {
            self.cursor = (col, min_usize(row + n, last_index(self.rows)));
        } else if action == 'C' {
            self.cursor = (min_usize(col + n, last_index(self.cols)), row);
        } else if action == 'D' {
            self.cursor = (col.saturating_sub(n), row);
        } else if action == 'H' || action == 'f' {
            self.cursor = (
                min_usize(p1.saturating_sub(1), last_index(self.cols)),
                min_usize(p0.saturating_sub(1), last_index(self.rows)),
            );
        } else if action == 'J' {
            let rows = self.rows;
            let cols = self.cols;
            if self.in_alt_screen {
                erase_display_grid(&mut self.alt_grid, p0, col, row, rows, cols);
            } else {
                erase_display_grid(&mut self.grid, p0, col, row, rows, cols);
            }
        } else if action == 'K' {
            let rows = self.rows;
            let cols = self.cols;
            if self.in_alt_screen {
                erase_line_grid(&mut self.alt_grid, p0, col, row, rows, cols);
            } else {
                erase_line_grid(&mut self.grid, p0, col, row, rows, cols);
            }
        } else if action == 'r' {
            let top: usize = if p0 == 0 { 1 } else { p0 };
            let bot: usize = if p1 == 0 { self.rows } else { p1 };
            let last = last_index(self.rows);
            self.scroll_region = (min_usize(top - 1, last), min_usize(bot - 1, last));
        } else if action == 'S' || action == 'M' {
            self.scroll_up(n);
        } else if action == 'T' || action == 'L' {
            self.scroll_down(n);
        } else if action == 'm' {
            self.handle_sgr(&ps);
        }
        proof {
            if action == 'S' || action == 'M' {
                lemma_scrolled_up_keeps(v0, n as nat);
            }
            if action == 'T' || action == 'L' {
                lemma_scrolled_down_keeps(v0, n as nat);
            }
            assert(self@ =~= v0.csi(pv, intermediates@, action));
        }
    }

    /// SGR: applies the parameters to the current attributes.
    fn handle_sgr(&mut self, ps: &Vec<u16>)
        requires
            old(self)@.wf(),
        ensures
            final(self)@ == old(self)@.with_attrs(sgr(ps@, old(self)@.attrs())),
            final(self)@.wf(),
    {
        let ghost v0 = self@;
        if ps.len() == 0 {
            self.reset_attrs();
            proof {
                assert(self@ =~= v0.with_attrs(sgr(ps@, v0.attrs())));
            }
            return;
        }
        let mut i: usize = 0;
        while i < ps.len()
            invariant
                i <= ps@.len() + 4,
                ps@.len() > 0,
                v0.wf(),
                self@ == v0.with_attrs(self@.attrs()),
                sgr_from(ps@, i as int, self@.attrs()) == sgr(ps@, v0.attrs()),
            decreases ps@.len() + 4 - i,
        {
            let ghost a = self@.attrs();
            let p = ps[i];
            let mut skip: usize = 0;
            if p == 0 {
                self.reset_attrs();
            } else if p == 1 {
                self.current_bold = true;
            } else if p == 22 {
                self.current_bold = false;
            } else if 30 <= p && p <= 37 {
                self.current_fg = Some(Color::Ansi((p - 30) as u8));
            } else if p == 38 && ps.len() - i > 2 && ps[i + 1] == 5 {
                self.current_fg = Some(Color::Ansi(ps[i + 2] as u8));
                skip = 2;
            } else if p == 38 && ps.len() - i > 4 && ps[i + 1] == 2 {
                self.current_fg = Some(Color::Rgb(ps[i + 2] as u8, ps[i + 3] as u8, ps[i + 4] as u8));
                skip = 4;
            } else if p == 39 {
                self.current_fg = None;
            } else if 40 <= p && p <= 47 {
                self.current_bg = Some(Color::Ansi((p - 40) as u8));
            } else if p == 48 && ps.len() - i > 2 && ps[i + 1] == 5 {
                self.current_bg = Some(Color::Ansi(ps[i + 2] as u8));
                skip = 2;
            } else if p == 48 && ps.len() - i > 4 && ps[i + 1] == 2 {
                self.current_bg = Some(Color::Rgb(ps[i + 2] as u8, ps[i + 3] as u8, ps[i + 4] as u8));
                skip = 4;
            } else if p == 39 {
                self.current_fg = None;
            } else if p == 49 {
                self.current_bg = None;
            }
            i = i + skip + 1;
            proof {
                assert(self@ =~= v0.with_attrs(self@.attrs()));
                assert(sgr_from(ps@, (i - skip - 1) as int, a) == sgr_from(ps@, i as int, self@.attrs()));
            }
        }
    }

    fn reset_attrs(&mut self)
        ensures
            final(self)@ == old(self)@.with_attrs(plain_attrs()),
    {
        self.current_bold = false;
        self.current_fg = None;
        self.current_bg = None;
        proof {
            assert(self@ =~= old(self)@.with_attrs(plain_attrs()));
        }
    }

    /// ESC dispatch: ESC 7 saves the cursor, ESC 8 restores it.
    pub fn esc_dispatch(&mut self, byte: u8)
        requires
            old(self)@.wf(),
        ensures
            final(self)@ == old(self)@.escaped(byte),
            final(self)@.wf(),
    {
        if byte == 0x37 {
            self.saved_cursor = self.cursor;
        } else if byte == 0x38 {
            self.cursor = self.saved_cursor;
        }
        proof {
            assert(self@ =~= old(self)@.escaped(byte));
        }
    }

    /// Changes the size (when the PTY is resized).
    pub fn resize(&mut self, cols: usize, rows: usize)
        requires
            old(self)@.wf(),
            cols <= isize::MAX,
            rows <= isize::MAX,
        ensures
            final(self)@ == old(self)@.resized(cols, rows),
            final(self)@.wf(),
    {
        let ghost v0 = self@;
        self.cols = cols;
        self.rows = rows;
        resize_grid_exec(&mut self.grid, rows, cols);
        resize_grid_exec(&mut self.alt_grid, rows, cols);
        self.scroll_region = (0, last_index(rows));
        self.cursor = (min_usize(self.cursor.0, last_index(cols)), min_usize(self.cursor.1, last_index(rows)));
        proof {
            lemma_shaped_resize(v0.grid, rows, cols);
            lemma_shaped_resize(v0.alt_grid, rows, cols);
            assert(self@ =~= v0.resized(cols, rows));
        }
    }

    /// The text of a row of the active grid without trailing whitespace (empty past the
    /// last row).
    pub fn screen_line(&self, row: usize) -> (s: String)
        ensures
            s@ == self@.line_text(row as int),
    {
        if self.in_alt_screen {
            if row >= self.alt_grid.len() {
                return String::new();
            }
            row_text(&self.alt_grid[row])
        } else {
            if row >= self.grid.len() {
                return String::new();
            }
            row_text(&self.grid[row])
        }
    }

    /// The characters of a row of the active grid without trailing whitespace (none
    /// past the last row).
    pub fn line_chars(&self, row: usize) -> (v: Vec<char>)
        ensures
            v@ == self@.line_text(row as int),
    {
        let g = if self.in_alt_screen { &self.alt_grid } else { &self.grid };
        if row >= g.len() {
            return Vec::new();
        }
        let chars = row_char_vec(&g[row]);
        let n = trimmed_len(&chars);
        let mut v: Vec<char> = Vec::new();
        let mut i: usize = 0;
        while i < n
            invariant
                i <= n,
                n <= chars@.len(),
                v@ == chars@.take(i as int),
            decreases n - i,
        {
            v.push(chars[i]);
            i = i + 1;
            assert(v@ =~= chars@.take(i as int));
        }
        v
    }

    /// The scrollback followed by the text of every screen row.
    pub fn all_lines(&self) -> (lines: Vec<String>)
        requires
            self@.wf(),
        ensures
            lines@.map_values(|s: String| s@) == self@.scrollback + Seq::new(
                self@.rows as nat,
                |r: int| self@.line_text(r),
            ),
    {
        let ghost target = self@.scrollback + Seq::new(self@.rows as nat, |r: int| self@.line_text(r));
        let mut lines: Vec<String> = Vec::new();
        let mut i: usize = 0;
        while i < self.scrollback.len()
            invariant
                i <= self.scrollback@.len(),
                lines@.map_values(|s: String| s@) == target.take(i as int),
                target.len() == self.scrollback@.len() + self@.rows,
                forall|k: int| 0 <= k < self.scrollback@.len() ==> target[k] == (#[trigger] self.scrollback@[k])@,
            decreases self.scrollback@.len() - i,
        {
            let line = self.scrollback[i].clone();
            proof {
                lemma_string_views_push(lines@, line);
                assert(target.take(i + 1) =~= target.take(i as int).push(target[i as int]));
            }
            lines.push(line);
            i = i + 1;
            assert(lines@.map_values(|s: String| s@) =~= target.take(i as int));
        }
        let sb = self.scrollback.len();
        let mut r: usize = 0;
        while r < self.rows
            invariant
                sb == self.scrollback@.len(),
                r <= self@.rows,
                self@.rows == self.rows,
                lines@.map_values(|s: String| s@) == target.take(sb + r),
                target.len() == sb + self@.rows,
                forall|k: int| 0 <= k < self@.rows ==> target[sb + k] == #[trigger] self@.line_text(k),
            decreases self.rows - r,
        {
            let line = self.screen_line(r);
            proof {
                lemma_string_views_push(lines@, line);
                assert(target.take(sb + r + 1) =~= target.take(sb + r).push(target[sb + r]));
            }
            lines.push(line);
            r = r + 1;
            assert(lines@.map_values(|s: String| s@) =~= target.take(sb + r));
        }
        assert(target.take(sb + r) =~= target);
        lines
    }

    /// The grid that output goes to.
    pub fn active_grid(&self) -> (g: &Vec<Vec<Cell>>)
        ensures
            grid_view(g@) == self@.active(),
    {
        if self.in_alt_screen {
            &self.alt_grid
        } else {
            &self.grid
        }
    }

    /// The main screen grid.
    pub fn grid(&self) -> (g: &Vec<Vec<Cell>>)
        ensures
            grid_view(g@) == self@.grid,
    {
        &self.grid
    }

    /// The alternate screen grid.
    pub fn alt_grid(&self) -> (g: &Vec<Vec<Cell>>)
        ensures
            grid_view(g@) == self@.alt_grid,
    {
        &self.alt_grid
    }

    /// The cursor as (col, row).
    pub fn cursor(&self) -> (c: (usize, usize))
        ensures
            c == self@.cursor,
    {
        self.cursor
    }

    /// The scroll region as (top, bottom), inclusive.
    pub fn scroll_region(&self) -> (r: (usize, usize))
        ensures
            r == self@.scroll_region,
    {
        self.scroll_region
    }

    pub fn in_alt_screen(&self) -> (b: bool)
        ensures
            b == self@.in_alt_screen,
    {
        self.in_alt_screen
    }

    pub fn rows(&self) -> (n: usize)
        ensures
            n == self@.rows,
    {
        self.rows
    }

    pub fn cols(&self) -> (n: usize)
        ensures
            n == self@.cols,
    {
        self.cols
    }

    /// Whether the next printed character is bold.
    pub fn current_bold(&self) -> (b: bool)
        ensures
            b == self@.bold,
    {
        self.current_bold
    }

    pub fn current_fg(&self) -> (c: Option<Color>)
        ensures
            c == self@.fg,
    {
        self.current_fg
    }

    pub fn current_bg(&self) -> (c: Option<Color>)
        ensures
            c == self@.bg,
    {
        self.current_bg
    }
}

} // verus!

verus! {

// ---------------------------------------------------------------------------
// Laws
// ---------------------------------------------------------------------------

/// A position on the screen (or the origin of an empty one).
pub open spec fn on_screen(p: (usize, usize), rows: usize, cols: usize) -> bool {
    p.0 <= usub(cols, 1) && p.1 <= usub(rows, 1)
}

proof fn lemma_scrolled_up_facts(v: ScreenView, n: nat)
    ensures
        v.in_alt_screen ==> v.scrolled_up(n).grid == v.grid && v.scrolled_up(n).scrollback == v.scrollback,
        v.scroll_region.0 > 0 ==> v.scrolled_up(n).scrollback == v.scrollback,
        v.scrollback.len() <= MAX_SCROLLBACK ==> v.scrolled_up(n).scrollback.len() <= MAX_SCROLLBACK,
        v.scrolled_up(n).saved_cursor == v.saved_cursor,
        v.scrolled_up(n).cursor == v.cursor,
        v.scrolled_up(n).rows == v.rows,
        v.scrolled_up(n).cols == v.cols,
        v.scrolled_up(n).in_alt_screen == v.in_alt_screen,
        v.scrolled_up(n).scroll_region == v.scroll_region,
    decreases n,
{
    if n > 0 {
        lemma_scrolled_up_facts(v, (n - 1) as nat);
    }
}

proof fn lemma_scrolled_down_facts(v: ScreenView, n: nat)
    ensures
        v.in_alt_screen ==> v.scrolled_down(n).grid == v.grid,
        v.scrolled_down(n).scrollback == v.scrollback,
        v.scrolled_down(n).saved_cursor == v.saved_cursor,
        v.scrolled_down(n).cursor == v.cursor,
        v.scrolled_down(n).rows == v.rows,
        v.scrolled_down(n).cols == v.cols,
        v.scrolled_down(n).in_alt_screen == v.in_alt_screen,
    decreases n,
{
    if n > 0 {
        lemma_scrolled_down_facts(v, (n - 1) as nat);
    }
}

/// The scrollback never holds more than `MAX_SCROLLBACK` lines: no output handling
/// takes it past the limit.
pub proof fn lemma_scrollback_bounded(v: ScreenView, c: char, b: u8, ps: Seq<Seq<u16>>, inter: Seq<u8>, action: char)
    requires
        v.scrollback.len() <= MAX_SCROLLBACK,
    ensures
        v.printed(c).scrollback.len() <= MAX_SCROLLBACK,
        v.executed(b).scrollback.len() <= MAX_SCROLLBACK,
        v.csi(ps, inter, action).scrollback.len() <= MAX_SCROLLBACK,
        v.escaped(b).scrollback.len() <= MAX_SCROLLBACK,
{
    lemma_scrolled_up_facts(v, 1);
    lemma_scrolled_up_facts(v, at_least_one(param(ps, 0)) as nat);
    lemma_scrolled_down_facts(v, at_least_one(param(ps, 0)) as nat);
}

/// Only lines scrolling out of the top of the main screen reach the scrollback: with a
/// scroll region that does not start at row 0, or on the alternate screen, output
/// handling leaves it as it is.
pub proof fn lemma_scrollback_only_from_top(v: ScreenView, c: char, b: u8, ps: Seq<Seq<u16>>, inter: Seq<u8>, action: char)
    requires
        v.scroll_region.0 > 0 || v.in_alt_screen,
    ensures
        v.printed(c).scrollback == v.scrollback,
        v.executed(b).scrollback == v.scrollback,
        (action == 'S' || action == 'M') && inter != seq![0x3fu8] ==> v.csi(ps, inter, action).scrollback
            == v.scrollback,
{
    lemma_scrolled_up_facts(v, 1);
    lemma_scrolled_up_facts(v, at_least_one(param(ps, 0)) as nat);
}

/// On the alternate screen, output never touches the main screen: printing, controls,
/// CSI sequences (other than the private modes) and escapes leave it as it was.
pub proof fn lemma_alt_screen_keeps_main(v: ScreenView, c: char, b: u8, ps: Seq<Seq<u16>>, inter: Seq<u8>, action: char)
    requires
        v.in_alt_screen,
        inter != seq![0x3fu8],
    ensures
        v.printed(c).grid == v.grid,
        v.executed(b).grid == v.grid,
        v.csi(ps, inter, action).grid == v.grid,
        v.escaped(b).grid == v.grid,
{
    lemma_scrolled_up_facts(v, 1);
    lemma_scrolled_up_facts(v, at_least_one(param(ps, 0)) as nat);
    lemma_scrolled_down_facts(v, at_least_one(param(ps, 0)) as nat);
}

/// Entering and leaving the alternate screen (smcup, then rmcup) gives back the main
/// screen as it was, with the alternate screen left blank at the cursor's origin.
pub proof fn lemma_smcup_rmcup_roundtrip(v: ScreenView, mode: u16)
    requires
        mode == 1049 || mode == 1047 || mode == 47,
    ensures
        ({
            let ps = seq![seq![mode]];
            let w = v.csi(ps, seq![0x3fu8], 'h');
            &&& w.in_alt_screen
            &&& w.cursor == (0usize, 0usize)
            &&& w.alt_grid == blank_grid(v.rows as nat, v.cols as nat)
            &&& w.grid == v.grid
            &&& w.csi(ps, seq![0x3fu8], 'l').grid == v.grid
            &&& !w.csi(ps, seq![0x3fu8], 'l').in_alt_screen
            &&& w.csi(ps, seq![0x3fu8], 'l').scrollback == v.scrollback
        }),
{
    let ps = seq![seq![mode]];
    assert(param(ps, 0) == mode as usize);
}

/// ESC 8 goes back to where ESC 7 was: printing, controls and CSI sequences never
/// change the saved cursor.
pub proof fn lemma_saved_cursor_kept(v: ScreenView, c: char, b: u8, ps: Seq<Seq<u16>>, inter: Seq<u8>, action: char)
    ensures
        v.printed(c).saved_cursor == v.saved_cursor,
        v.executed(b).saved_cursor == v.saved_cursor,
        v.csi(ps, inter, action).saved_cursor == v.saved_cursor,
        v.escaped(0x37).escaped(0x38).cursor == v.cursor,
{
    lemma_scrolled_up_facts(v, 1);
    lemma_scrolled_up_facts(v, at_least_one(param(ps, 0)) as nat);
    lemma_scrolled_down_facts(v, at_least_one(param(ps, 0)) as nat);
}

/// While the cursor and the saved cursor are on the screen, output handling keeps them
/// there (only a resize can leave the saved cursor off the screen).
pub proof fn lemma_cursor_stays_on_screen(v: ScreenView, c: char, b: u8, ps: Seq<Seq<u16>>, inter: Seq<u8>, action: char)
    requires
        v.wf(),
        on_screen(v.cursor, v.rows, v.cols),
        on_screen(v.saved_cursor, v.rows, v.cols),
    ensures
        on_screen(v.printed(c).cursor, v.rows, v.cols),
        on_screen(v.executed(b).cursor, v.rows, v.cols),
        on_screen(v.csi(ps, inter, action).cursor, v.rows, v.cols),
        on_screen(v.escaped(b).cursor, v.rows, v.cols),
        on_screen(v.escaped(b).saved_cursor, v.rows, v.cols),
{
    lemma_scrolled_up_facts(v, 1);
    lemma_scrolled_up_facts(v, at_least_one(param(ps, 0)) as nat);
    lemma_scrolled_down_facts(v, at_least_one(param(ps, 0)) as nat);
}

/// With the cursor on a non-empty screen, erasing in the display or in the line is
/// always defined.
pub proof fn lemma_erase_defined_on_screen(v: ScreenView, ps: Seq<Seq<u16>>, inter: Seq<u8>)
    requires
        v.rows >= 1,
        v.cols >= 1,
        on_screen(v.cursor, v.rows, v.cols),
    ensures
        v.csi_defined(ps, inter, 'J'),
        v.csi_defined(ps, inter, 'K'),
{
}


/// Cursor movement by CSI: with `n` the first parameter (1 when it is 0 or absent),
/// `A` moves up `n` rows stopping at row 0, `B` down `n` rows stopping at the last
/// row, `C` right `n` columns stopping at the last column, `D` left `n` columns
/// stopping at column 0; `H` and `f` go to the 1-based row and column of the first two
/// parameters (0 or absent meaning 1), clamped to the screen. Nothing but the cursor
/// changes.
pub proof fn lemma_cursor_moves(v: ScreenView, ps: Seq<Seq<u16>>, inter: Seq<u8>)
    requires
        v.wf(),
        inter != seq![0x3fu8],
    ensures
        ({
            let p0: int = if ps.len() > 0 && ps[0].len() > 0 { ps[0][0] as int } else { 0 };
            let p1: int = if ps.len() > 1 && ps[1].len() > 0 { ps[1][0] as int } else { 0 };
            let n: int = if p0 == 0 { 1 } else { p0 };
            let col = v.cursor.0 as int;
            let row = v.cursor.1 as int;
            let last_col: int = if v.cols == 0 { 0 } else { v.cols - 1 };
            let last_row: int = if v.rows == 0 { 0 } else { v.rows - 1 };
            let up: int = if row >= n { row - n } else { 0 };
            let down: int = if row + n <= last_row { row + n } else { last_row };
            let right: int = if col + n <= last_col { col + n } else { last_col };
            let left: int = if col >= n { col - n } else { 0 };
            let to_row: int = if p0 == 0 { 0 } else if p0 - 1 <= last_row { p0 - 1 } else { last_row };
            let to_col: int = if p1 == 0 { 0 } else if p1 - 1 <= last_col { p1 - 1 } else { last_col };
            &&& v.csi(ps, inter, 'A') == ScreenView { cursor: (col as usize, up as usize), ..v }
            &&& v.csi(ps, inter, 'B') == ScreenView { cursor: (col as usize, down as usize), ..v }
            &&& v.csi(ps, inter, 'C') == ScreenView { cursor: (right as usize, row as usize), ..v }
            &&& v.csi(ps, inter, 'D') == ScreenView { cursor: (left as usize, row as usize), ..v }
            &&& v.csi(ps, inter, 'H') == ScreenView { cursor: (to_col as usize, to_row as usize), ..v }
            &&& v.csi(ps, inter, 'f') == ScreenView { cursor: (to_col as usize, to_row as usize), ..v }
        }),
{
}

/// Resizing gives a screen of exactly the new size: every row of both grids has the
/// new width, a cell that lay on the old screen keeps its content and every other cell
/// is blank; the scroll region becomes the whole new screen, whatever it was; the
/// cursor is clamped to the new last row and column; the scrollback, the saved cursor,
/// the attributes and which screen is active stay as they were.
pub proof fn lemma_resize(v: ScreenView, cols: usize, rows: usize)
    requires
        v.wf(),
    ensures
        ({
            let w = v.resized(cols, rows);
            let blank = Cell { ch: ' ', bold: false, fg: None, bg: None };
            let last_col: usize = if cols == 0 { 0 } else { (cols - 1) as usize };
            let last_row: usize = if rows == 0 { 0 } else { (rows - 1) as usize };
            &&& w.rows == rows
            &&& w.cols == cols
            &&& w.scroll_region == (0usize, last_row)
            &&& w.cursor == (
                if v.cursor.0 <= last_col { v.cursor.0 } else { last_col },
                if v.cursor.1 <= last_row { v.cursor.1 } else { last_row },
            )
            &&& w.grid.len() == rows
            &&& w.alt_grid.len() == rows
            &&& forall|r: int| 0 <= r < rows ==> (#[trigger] w.grid[r]).len() == cols && w.alt_grid[r].len() == cols
            &&& forall|r: int, c: int|
                #![trigger w.grid[r][c]]
                #![trigger w.alt_grid[r][c]]
                0 <= r < rows && 0 <= c < cols ==> {
                    &&& w.grid[r][c] == (if r < v.rows && c < v.cols { v.grid[r][c] } else { blank })
                    &&& w.alt_grid[r][c] == (if r < v.rows && c < v.cols { v.alt_grid[r][c] } else { blank })
                }
            &&& w.scrollback == v.scrollback
            &&& w.saved_cursor == v.saved_cursor
            &&& w.in_alt_screen == v.in_alt_screen
            &&& w.bold == v.bold && w.fg == v.fg && w.bg == v.bg
        }),
{
    let w = v.resized(cols, rows);
    assert forall|r: int| 0 <= r < rows implies (#[trigger] w.grid[r]).len() == cols && w.alt_grid[r].len()
        == cols by {
        if r < v.rows {
            assert(v.grid[r].len() == v.cols);
            assert(v.alt_grid[r].len() == v.cols);
        }
    }
    assert forall|r: int, c: int|
        #![trigger w.grid[r][c]]
        #![trigger w.alt_grid[r][c]]
        0 <= r < rows && 0 <= c < cols implies {
        let blank = Cell { ch: ' ', bold: false, fg: None, bg: None };
        &&& w.grid[r][c] == (if r < v.rows && c < v.cols { v.grid[r][c] } else { blank })
        &&& w.alt_grid[r][c] == (if r < v.rows && c < v.cols { v.alt_grid[r][c] } else { blank })
    } by {
        if r < v.rows {
            assert(v.grid[r].len() == v.cols);
            assert(v.alt_grid[r].len() == v.cols);
        }
    }
}


/// Printing a character with the cursor on the screen writes it, with the current
/// attributes, into the cell under the cursor of the active screen, leaves every
/// other cell and the other screen as they were, and moves the cursor one column
/// right, stopping at the last column.
pub proof fn lemma_print_writes_at_cursor(v: ScreenView, c: char)
    requires
        v.wf(),
        v.cursor.0 < v.cols,
        v.cursor.1 < v.rows,
    ensures
        ({
            let w = v.printed(c);
            let col = v.cursor.0 as int;
            let row = v.cursor.1 as int;
            &&& w.active()[row][col] == Cell { ch: c, bold: v.bold, fg: v.fg, bg: v.bg }
            &&& forall|r: int, k: int|
                #![trigger w.active()[r][k]]
                0 <= r < v.rows && 0 <= k < v.cols && (r != row || k != col) ==> w.active()[r][k]
                    == v.active()[r][k]
            &&& w.active().len() == v.active().len()
            &&& forall|r: int| 0 <= r < v.rows ==> (#[trigger] w.active()[r]).len() == v.active()[r].len()
            &&& (v.in_alt_screen ==> w.grid == v.grid)
            &&& (!v.in_alt_screen ==> w.alt_grid == v.alt_grid)
            &&& w.cursor == (if col + 1 < v.cols { (col + 1) as usize } else { (v.cols - 1) as usize }, v.cursor.1)
            &&& w.scrollback == v.scrollback
        }),
{
}

/// Carriage return goes to column 0 of the same row; backspace moves one column left,
/// stopping at column 0; a line feed above the bottom of the scroll region moves one
/// row down (stopping at the last row) in the same column. Nothing else changes.
pub proof fn lemma_cursor_controls(v: ScreenView)
    requires
        v.wf(),
    ensures
        v.executed(0x0du8) == (ScreenView { cursor: (0usize, v.cursor.1), ..v }),
        v.executed(0x08u8) == (ScreenView {
            cursor: (if v.cursor.0 >= 1 { (v.cursor.0 - 1) as usize } else { 0usize }, v.cursor.1),
            ..v
        }),
        v.cursor.1 < v.scroll_region.1 && v.cursor.1 < v.rows - 1 ==> v.executed(0x0au8) == (ScreenView {
            cursor: (v.cursor.0, (v.cursor.1 + 1) as usize),
            ..v
        }),
{
}

/// `CSI top ; bottom r` sets the scroll region to the 1-based rows given (0 or absent
/// meaning the first row and the last row), clamped to the screen; nothing else
/// changes.
pub proof fn lemma_set_scroll_region(v: ScreenView, ps: Seq<Seq<u16>>, inter: Seq<u8>)
    requires
        v.wf(),
        v.rows >= 1,
        inter != seq![0x3fu8],
    ensures
        ({
            let p0: int = if ps.len() > 0 && ps[0].len() > 0 { ps[0][0] as int } else { 0 };
            let p1: int = if ps.len() > 1 && ps[1].len() > 0 { ps[1][0] as int } else { 0 };
            let last: int = v.rows - 1;
            let top: int = if p0 == 0 { 0 } else if p0 - 1 <= last { p0 - 1 } else { last };
            let bot: int = if p1 == 0 { last } else if p1 - 1 <= last { p1 - 1 } else { last };
            v.csi(ps, inter, 'r') == ScreenView { scroll_region: (top as usize, bot as usize), ..v }
        }),
{
}

} // verus!
