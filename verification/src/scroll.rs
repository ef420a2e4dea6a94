use vstd::prelude::*;

use crate::input::ScrollAmount;

verus! {

/// SGR mouse button number of a wheel step up.
pub const MOUSE_SCROLL_UP: u8 = 64;

/// SGR mouse button number of a wheel step down.
pub const MOUSE_SCROLL_DOWN: u8 = 65;

/// The number of lines one wheel event is taken to scroll.
pub const LINES_PER_EVENT: u16 = 3;

/// The ASCII decimal digits of `n`, without leading zeros.
pub open spec fn decimal(n: nat) -> Seq<u8>
    decreases n,
{
    if n < 10 {
        seq![(0x30 + n) as u8]
    } else {
        decimal(n / 10).push((0x30 + n % 10) as u8)
    }
}

/// One SGR mouse wheel event: `ESC [ < button ; col ; row M`.
pub open spec fn sgr_event(button: u8, col: u16, row: u16) -> Seq<u8> {
    seq![0x1bu8, 0x5b, 0x3c] + decimal(button as nat) + seq![0x3bu8] + decimal(col as nat) + seq![0x3bu8]
        + decimal(row as nat) + seq![0x4du8]
}

/// `n` copies of `s`, one after the other.
pub open spec fn repeat_bytes(s: Seq<u8>, n: nat) -> Seq<u8>
    decreases n,
{
    if n == 0 {
        Seq::empty()
    } else {
        repeat_bytes(s, (n - 1) as nat) + s
    }
}

pub open spec fn at_least_1(n: int) -> int {
    if n < 1 {
        1
    } else {
        n
    }
}

/// Wheel events for half a page of `rows` lines (at least one).
pub open spec fn half_page_events(rows: u16) -> int {
    at_least_1((rows / 2 / LINES_PER_EVENT) as int)
}

/// Wheel events for a page of `rows` lines (at least one).
pub open spec fn full_page_events(rows: u16) -> int {
    at_least_1((rows / LINES_PER_EVENT) as int)
}

/// `n` capped at `u16::MAX`.
pub open spec fn cap_u16(n: int) -> nat {
    if n > u16::MAX {
        u16::MAX as nat
    } else {
        n as nat
    }
}

/// `Ctrl+Home`: `ESC [ 1 ; 5 H`.
pub open spec fn ctrl_home() -> Seq<u8> {
    seq![0x1bu8, 0x5b, 0x31, 0x3b, 0x35, 0x48]
}

/// `Ctrl+End`: `ESC [ 1 ; 5 F`.
pub open spec fn ctrl_end() -> Seq<u8> {
    seq![0x1bu8, 0x5b, 0x31, 0x3b, 0x35, 0x46]
}

/// The bytes that scroll by `amount` in a window of `cols` x `rows`: wheel events at
/// the centre of the window (each coordinate at least 1), repeated as the amount asks
/// and capped at `u16::MAX` events; the top and the bottom are Ctrl+Home and Ctrl+End.
pub open spec fn scroll_sequence(cols: u16, rows: u16, amount: ScrollAmount) -> Seq<u8> {
    let col = at_least_1((cols / 2) as int) as u16;
    let row = at_least_1((rows / 2) as int) as u16;
    let up = sgr_event(MOUSE_SCROLL_UP, col, row);
    let down = sgr_event(MOUSE_SCROLL_DOWN, col, row);
    match amount {
        ScrollAmount::LineUp(n) => repeat_bytes(up, cap_u16(n as int)),
        ScrollAmount::LineDown(n) => repeat_bytes(down, cap_u16(n as int)),
        ScrollAmount::HalfPageUp(n) => repeat_bytes(up, cap_u16(half_page_events(rows) * n)),
        ScrollAmount::HalfPageDown(n) => repeat_bytes(down, cap_u16(half_page_events(rows) * n)),
        ScrollAmount::FullPageUp(n) => repeat_bytes(up, cap_u16(full_page_events(rows) * n)),
        ScrollAmount::FullPageDown(n) => repeat_bytes(down, cap_u16(full_page_events(rows) * n)),
        ScrollAmount::Top => ctrl_home(),
        ScrollAmount::Bottom => ctrl_end(),
    }
}

/// Appends the decimal digits of `n`.
fn push_decimal(out: &mut Vec<u8>, n: u16)
    ensures
        final(out)@ == old(out)@ + decimal(n as nat),
    decreases n,
{
    if n >= 10 {
        push_decimal(out, n / 10);
    }
    out.push(0x30 + (n % 10) as u8);
    proof {
        if n >= 10 {
            assert(decimal(n as nat) == decimal((n / 10) as nat).push((0x30 + n % 10) as u8));
        }
        assert(final(out)@ =~= old(out)@ + decimal(n as nat));
    }
}

fn push_bytes(out: &mut Vec<u8>, bytes: &Vec<u8>)
    ensures
        final(out)@ == old(out)@ + bytes@,
{
    let mut i: usize = 0;
    while i < bytes.len()
        invariant
            i <= bytes@.len(),
            out@ == old(out)@ + bytes@.take(i as int),
        decreases bytes@.len() - i,
    {
        out.push(bytes[i]);
        i = i + 1;
        assert(out@ =~= old(out)@ + bytes@.take(i as int));
    }
    assert(bytes@.take(i as int) =~= bytes@);
}

/// One SGR mouse wheel event, `ESC [ < button ; col ; row M`.
pub fn sgr_scroll_event(button: u8, col: u16, row: u16) -> (bytes: Vec<u8>)
    ensures
        bytes@ == sgr_event(button, col, row),
{
    let mut out: Vec<u8> = Vec::new();
    out.push(0x1b);
    out.push(0x5b);
    out.push(0x3c);
    push_decimal(&mut out, button as u16);
    out.push(0x3b);
    push_decimal(&mut out, col);
    out.push(0x3b);
    push_decimal(&mut out, row);
    out.push(0x4d);
    assert(out@ =~= sgr_event(button, col, row));
    out
}

/// `count` wheel events, one after the other.
fn sgr_scroll_events(button: u8, col: u16, row: u16, count: u16) -> (bytes: Vec<u8>)
    ensures
        bytes@ == repeat_bytes(sgr_event(button, col, row), count as nat),
{
    let single = sgr_scroll_event(button, col, row);
    let mut result: Vec<u8> = Vec::new();
    let mut i: u16 = 0;
    while i < count
        invariant
            i <= count,
            single@ == sgr_event(button, col, row),
            result@ == repeat_bytes(single@, i as nat),
        decreases count - i,
    {
        push_bytes(&mut result, &single);
        i = i + 1;
    }
    result
}

/// Wheel events for half a page.
fn half_page(rows: u16) -> (n: u16)
    ensures
        n as int == half_page_events(rows),
{
    let n = rows / 2 / LINES_PER_EVENT;
    if n < 1 {
        1
    } else {
        n
    }
}

/// Wheel events for a full page.
fn full_page(rows: u16) -> (n: u16)
    ensures
        n as int == full_page_events(rows),
{
    let n = rows / LINES_PER_EVENT;
    if n < 1 {
        1
    } else {
        n
    }
}

fn cap_count(n: u32) -> (r: u16)
    ensures
        r as nat == cap_u16(n as int),
{
    if n > 65535 {
        u16::MAX
    } else {
        n as u16
    }
}

/// `a * b` capped at `u16::MAX`.
fn cap_mul(a: u16, b: u32) -> (r: u16)
    ensures
        r as nat == cap_u16(a * b),
{
    assert((a as u64) * (b as u64) <= 0xffffu64 * 0xffffffffu64) by (nonlinear_arith)
        requires
            a <= 0xffff,
            b <= 0xffffffff,
    ;
    let p = (a as u64) * (b as u64);
    if p > 65535 {
        u16::MAX
    } else {
        p as u16
    }
}

/// Scrolls by sending SGR mouse wheel events to the PTY (the child enables SGR mouse
/// mode, so wheel events scroll its conversation view).
pub struct Scroller {
    rows: u16,
    cols: u16,
}

impl View for Scroller {
    type V = (u16, u16);

    /// (cols, rows)
    closed spec fn view(&self) -> (u16, u16) {
        (self.cols, self.rows)
    }
}

impl Scroller {
    pub fn new(cols: u16, rows: u16) -> (s: Self)
        ensures
            s@ == (cols, rows),
    {
        Scroller { rows, cols }
    }

    pub fn set_size(&mut self, cols: u16, rows: u16)
        ensures
            final(self)@ == (cols, rows),
    {
        self.cols = cols;
        self.rows = rows;
    }

    /// The bytes that scroll by `amount`; a count gives that many events, one after
    /// the other.
    pub fn scroll_bytes(&self, amount: ScrollAmount) -> (bytes: Vec<u8>)
        ensures
            bytes@ == scroll_sequence(self@.0, self@.1, amount),
    {
        let c = self.cols / 2;
        let col: u16 = if c < 1 { 1 } else { c };
        let r = self.rows / 2;
        let row: u16 = if r < 1 { 1 } else { r };
        match amount {
            ScrollAmount::LineUp(count) => sgr_scroll_events(MOUSE_SCROLL_UP, col, row, cap_count(count)),
            ScrollAmount::LineDown(count) => sgr_scroll_events(MOUSE_SCROLL_DOWN, col, row, cap_count(count)),
            ScrollAmount::HalfPageUp(count) => sgr_scroll_events(
                MOUSE_SCROLL_UP,
                col,
                row,
                cap_mul(half_page(self.rows), count),
            ),
            ScrollAmount::HalfPageDown(count) => sgr_scroll_events(
                MOUSE_SCROLL_DOWN,
                col,
                row,
                cap_mul(half_page(self.rows), count),
            ),
            ScrollAmount::FullPageUp(count) => sgr_scroll_events(
                MOUSE_SCROLL_UP,
                col,
                row,
                cap_mul(full_page(self.rows), count),
            ),
            ScrollAmount::FullPageDown(count) => sgr_scroll_events(
                MOUSE_SCROLL_DOWN,
                col,
                row,
                cap_mul(full_page(self.rows), count),
            ),
            ScrollAmount::Top => {
                let v: Vec<u8> = vec![0x1b, 0x5b, 0x31, 0x3b, 0x35, 0x48];
                assert(v@ =~= ctrl_home());
                v
            },
            ScrollAmount::Bottom => {
                let v: Vec<u8> = vec![0x1b, 0x5b, 0x31, 0x3b, 0x35, 0x46];
                assert(v@ =~= ctrl_end());
                v
            },
        }
    }
}

// ---------------------------------------------------------------------------
// Laws
// ---------------------------------------------------------------------------

/// `n` copies of a byte string are `n` times as long as one copy.
pub proof fn lemma_repeat_len(s: Seq<u8>, n: nat)
    ensures
        repeat_bytes(s, n).len() == n * s.len(),
    decreases n,
{
    if n > 0 {
        lemma_repeat_len(s, (n - 1) as nat);
        assert(n * s.len() == (n - 1) * s.len() + s.len()) by (nonlinear_arith);
    } else {
        assert(n * s.len() == 0) by (nonlinear_arith)
            requires
                n == 0,
        ;
    }
}

/// A line scroll of `n` (up to `u16::MAX`) emits exactly `n` wheel events: the output
/// is `n` times as long as one event.
pub proof fn lemma_line_scroll_event_count(cols: u16, rows: u16, n: u32)
    requires
        n <= u16::MAX,
    ensures
        ({
            let col = at_least_1((cols / 2) as int) as u16;
            let row = at_least_1((rows / 2) as int) as u16;
            &&& scroll_sequence(cols, rows, ScrollAmount::LineDown(n)).len() == n * sgr_event(
                MOUSE_SCROLL_DOWN,
                col,
                row,
            ).len()
            &&& scroll_sequence(cols, rows, ScrollAmount::LineUp(n)).len() == n * sgr_event(
                MOUSE_SCROLL_UP,
                col,
                row,
            ).len()
        }),
{
    let col = at_least_1((cols / 2) as int) as u16;
    let row = at_least_1((rows / 2) as int) as u16;
    lemma_repeat_len(sgr_event(MOUSE_SCROLL_DOWN, col, row), n as nat);
    lemma_repeat_len(sgr_event(MOUSE_SCROLL_UP, col, row), n as nat);
}

/// A page scroll emits at least one wheel event per counted page, however small the
/// window: half a page is `max(rows / 2 / 3, 1)` events, a page `max(rows / 3, 1)`.
pub proof fn lemma_page_scroll_nonempty(cols: u16, rows: u16, n: u32)
    requires
        n >= 1,
    ensures
        scroll_sequence(cols, rows, ScrollAmount::HalfPageDown(n)).len() > 0,
        scroll_sequence(cols, rows, ScrollAmount::HalfPageUp(n)).len() > 0,
        scroll_sequence(cols, rows, ScrollAmount::FullPageDown(n)).len() > 0,
        scroll_sequence(cols, rows, ScrollAmount::FullPageUp(n)).len() > 0,
{
    let col = at_least_1((cols / 2) as int) as u16;
    let row = at_least_1((rows / 2) as int) as u16;
    let up = sgr_event(MOUSE_SCROLL_UP, col, row);
    let down = sgr_event(MOUSE_SCROLL_DOWN, col, row);
    let h = half_page_events(rows);
    let f = full_page_events(rows);
    assert(h * n >= 1) by (nonlinear_arith)
        requires
            h >= 1,
            n >= 1,
    ;
    assert(f * n >= 1) by (nonlinear_arith)
        requires
            f >= 1,
            n >= 1,
    ;
    lemma_repeat_len(up, cap_u16(h * n));
    lemma_repeat_len(down, cap_u16(h * n));
    lemma_repeat_len(up, cap_u16(f * n));
    lemma_repeat_len(down, cap_u16(f * n));
    assert(cap_u16(h * n) * up.len() >= 1) by (nonlinear_arith)
        requires
            cap_u16(h * n) >= 1,
            up.len() >= 1,
    ;
    assert(cap_u16(h * n) * down.len() >= 1) by (nonlinear_arith)
        requires
            cap_u16(h * n) >= 1,
            down.len() >= 1,
    ;
    assert(cap_u16(f * n) * up.len() >= 1) by (nonlinear_arith)
        requires
            cap_u16(f * n) >= 1,
            up.len() >= 1,
    ;
    assert(cap_u16(f * n) * down.len() >= 1) by (nonlinear_arith)
        requires
            cap_u16(f * n) >= 1,
            down.len() >= 1,
    ;
}

/// Every wheel event is addressed to a position inside the window in 1-based SGR
/// coordinates: column and row are at least 1 and at most the window's size (or 1).
pub proof fn lemma_event_position_valid(cols: u16, rows: u16)
    ensures
        1 <= at_least_1((cols / 2) as int) <= at_least_1(cols as int),
        1 <= at_least_1((rows / 2) as int) <= at_least_1(rows as int),
{
}


/// Each scroll is a run of identical events in its own direction at the centre of the
/// window: an upward amount (`LineUp`, `HalfPageUp`, `FullPageUp`) sends only wheel-up
/// events (button 64), a downward amount only wheel-down events (button 65), at
/// column `max(cols / 2, 1)` and row `max(rows / 2, 1)`. A line scroll sends one event
/// per line, half a page `max(rows / 2 / 3, 1)` events per count, a page
/// `max(rows / 3, 1)`, all capped at `u16::MAX` events. The top is Ctrl+Home
/// (`ESC [ 1 ; 5 H`), the bottom Ctrl+End (`ESC [ 1 ; 5 F`).
pub proof fn lemma_scroll_direction(cols: u16, rows: u16, n: u32)
    ensures
        ({
            let col: u16 = if cols / 2 < 1 { 1 } else { cols / 2 };
            let row: u16 = if rows / 2 < 1 { 1 } else { rows / 2 };
            let up = sgr_event(64u8, col, row);
            let down = sgr_event(65u8, col, row);
            let half: int = if rows / 2 / 3 < 1 { 1 } else { (rows / 2 / 3) as int };
            let page: int = if rows / 3 < 1 { 1 } else { (rows / 3) as int };
            let lines: nat = if n > 65535 { 65535 } else { n as nat };
            let halves: nat = if half * n > 65535 { 65535 } else { (half * n) as nat };
            let pages: nat = if page * n > 65535 { 65535 } else { (page * n) as nat };
            &&& scroll_sequence(cols, rows, ScrollAmount::LineUp(n)) == repeat_bytes(up, lines)
            &&& scroll_sequence(cols, rows, ScrollAmount::LineDown(n)) == repeat_bytes(down, lines)
            &&& scroll_sequence(cols, rows, ScrollAmount::HalfPageUp(n)) == repeat_bytes(up, halves)
            &&& scroll_sequence(cols, rows, ScrollAmount::HalfPageDown(n)) == repeat_bytes(down, halves)
            &&& scroll_sequence(cols, rows, ScrollAmount::FullPageUp(n)) == repeat_bytes(up, pages)
            &&& scroll_sequence(cols, rows, ScrollAmount::FullPageDown(n)) == repeat_bytes(down, pages)
            &&& scroll_sequence(cols, rows, ScrollAmount::Top) == seq![0x1bu8, 0x5b, 0x31, 0x3b, 0x35, 0x48]
            &&& scroll_sequence(cols, rows, ScrollAmount::Bottom) == seq![0x1bu8, 0x5b, 0x31, 0x3b, 0x35, 0x46]
        }),
{
}

/// A wheel event reads `ESC [ < button ; col ; row M` with the numbers in decimal:
/// wheel up is `ESC [ < 6 4 ;`, wheel down `ESC [ < 6 5 ;`, and each is followed by
/// the column and the row.
pub proof fn lemma_wheel_event_bytes(col: u16, row: u16)
    ensures
        sgr_event(64u8, col, row) == seq![0x1bu8, 0x5b, 0x3c, 0x36, 0x34, 0x3b] + decimal(col as nat)
            + seq![0x3bu8] + decimal(row as nat) + seq![0x4du8],
        sgr_event(65u8, col, row) == seq![0x1bu8, 0x5b, 0x3c, 0x36, 0x35, 0x3b] + decimal(col as nat)
            + seq![0x3bu8] + decimal(row as nat) + seq![0x4du8],
{
    assert(decimal(6) == seq![0x36u8]);
    assert(decimal(64) =~= seq![0x36u8, 0x34]);
    assert(decimal(65) =~= seq![0x36u8, 0x35]);
    assert(sgr_event(64u8, col, row) =~= seq![0x1bu8, 0x5b, 0x3c, 0x36, 0x34, 0x3b] + decimal(col as nat)
        + seq![0x3bu8] + decimal(row as nat) + seq![0x4du8]);
    assert(sgr_event(65u8, col, row) =~= seq![0x1bu8, 0x5b, 0x3c, 0x36, 0x35, 0x3b] + decimal(col as nat)
        + seq![0x3bu8] + decimal(row as nat) + seq![0x4du8]);
}

} // verus!
