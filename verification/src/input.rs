use vstd::prelude::*;

verus! {

/// How far to scroll; the count is the number of repetitions (1 by default).
#[derive(Debug, Clone, Copy, PartialEq, Eq, Structural)]
pub enum ScrollAmount {
    /// `j`
    LineDown(u32),
    /// `k`
    LineUp(u32),
    /// Ctrl+d (half a page)
    HalfPageDown(u32),
    /// Ctrl+u
    HalfPageUp(u32),
    /// Ctrl+f
    FullPageDown(u32),
    /// Ctrl+b
    FullPageUp(u32),
    /// `gg` (the count is ignored)
    Top,
    /// `G` (the count is ignored)
    Bottom,
}

/// What a key in Normal mode asks for.
#[derive(Debug, Clone, PartialEq, Eq)]
pub enum InputAction {
    /// Scroll the conversation.
    Scroll(ScrollAmount),
    /// Switch to Insert mode.
    SwitchToInsert,
    /// Switch to Cursor mode.
    EnterCursor,
    /// Forward the bytes to the PTY unchanged.
    Passthrough(Vec<u8>),
    /// The first `g` of `gg`: nothing is sent, the next key decides.
    PendingG,
    /// Nothing happens (a key that Normal mode ignores).
    Noop,
}

/// The mathematical value of an [`InputAction`]: the passthrough bytes as a sequence.
pub enum InputActionView {
    Scroll(ScrollAmount),
    SwitchToInsert,
    EnterCursor,
    Passthrough(Seq<u8>),
    PendingG,
    Noop,
}

impl View for InputAction {
    type V = InputActionView;

    open spec fn view(&self) -> InputActionView {
        match self {
            InputAction::Scroll(a) => InputActionView::Scroll(*a),
            InputAction::SwitchToInsert => InputActionView::SwitchToInsert,
            InputAction::EnterCursor => InputActionView::EnterCursor,
            InputAction::Passthrough(v) => InputActionView::Passthrough(v@),
            InputAction::PendingG => InputActionView::PendingG,
            InputAction::Noop => InputActionView::Noop,
        }
    }
}

// ---------------------------------------------------------------------------
// Key sequences
// ---------------------------------------------------------------------------

pub open spec fn key(b: u8) -> Seq<u8> {
    seq![b]
}

/// `ESC [ 100 ; 5 u`: Ctrl+d in the Kitty keyboard protocol.
pub open spec fn kitty_ctrl_d() -> Seq<u8> {
    seq![0x1bu8, 0x5b, 0x31, 0x30, 0x30, 0x3b, 0x35, 0x75]
}

/// `ESC [ 117 ; 5 u`: Ctrl+u in the Kitty keyboard protocol.
pub open spec fn kitty_ctrl_u() -> Seq<u8> {
    seq![0x1bu8, 0x5b, 0x31, 0x31, 0x37, 0x3b, 0x35, 0x75]
}

/// `ESC [ 102 ; 5 u`: Ctrl+f in the Kitty keyboard protocol.
pub open spec fn kitty_ctrl_f() -> Seq<u8> {
    seq![0x1bu8, 0x5b, 0x31, 0x30, 0x32, 0x3b, 0x35, 0x75]
}

/// `ESC [ 98 ; 5 u`: Ctrl+b in the Kitty keyboard protocol.
pub open spec fn kitty_ctrl_b() -> Seq<u8> {
    seq![0x1bu8, 0x5b, 0x39, 0x38, 0x3b, 0x35, 0x75]
}

/// `ESC [ 27 u`: Escape in the Kitty keyboard protocol.
pub open spec fn kitty_esc() -> Seq<u8> {
    seq![0x1bu8, 0x5b, 0x32, 0x37, 0x75]
}

/// A byte that Normal mode forwards when it starts an unrecognised key:
/// a control character, DEL or ESC.
pub open spec fn is_forwarded_lead(b: u8) -> bool {
    b < 0x20 || b == 0x7f || b == 0x1b
}

pub open spec fn sat_u32(x: int) -> u32 {
    if x > u32::MAX {
        u32::MAX
    } else {
        x as u32
    }
}

/// Normal-mode transition with no pending `g`: from the accumulated count and a
/// chunk of input, the action and the next `(pending_g, count)`.
pub open spec fn plain_step(count: u32, bytes: Seq<u8>) -> (InputActionView, (bool, u32)) {
    let n: u32 = if count == 0 { 1 } else { count };
    if bytes.len() == 1 && 0x31 <= bytes[0] <= 0x39 {
        let digit = (bytes[0] - 0x30) as int;
        let new_count = if count == 0 { digit as u32 } else { sat_u32(sat_u32(count * 10) + digit) };
        (InputActionView::Noop, (false, new_count))
    } else if bytes.len() == 1 && bytes[0] == 0x30 && count > 0 {
        (InputActionView::Noop, (false, sat_u32(count * 10)))
    } else if bytes == key(0x6a) {
        (InputActionView::Scroll(ScrollAmount::LineDown(n)), (false, 0))
    } else if bytes == key(0x6b) {
        (InputActionView::Scroll(ScrollAmount::LineUp(n)), (false, 0))
    } else if bytes == key(0x04) || bytes == kitty_ctrl_d() {
        (InputActionView::Scroll(ScrollAmount::HalfPageDown(n)), (false, 0))
    } else if bytes == key(0x15) || bytes == kitty_ctrl_u() {
        (InputActionView::Scroll(ScrollAmount::HalfPageUp(n)), (false, 0))
    } else if bytes == key(0x06) || bytes == kitty_ctrl_f() {
        (InputActionView::Scroll(ScrollAmount::FullPageDown(n)), (false, 0))
    } else if bytes == key(0x02) || bytes == kitty_ctrl_b() {
        (InputActionView::Scroll(ScrollAmount::FullPageUp(n)), (false, 0))
    } else if bytes == key(0x47) {
        (InputActionView::Scroll(ScrollAmount::Bottom), (false, 0))
    } else if bytes == key(0x69) {
        (InputActionView::SwitchToInsert, (false, 0))
    } else if bytes == key(0x63) {
        (InputActionView::EnterCursor, (false, 0))
    } else if bytes == key(0x67) {
        (InputActionView::PendingG, (true, count))
    } else {
        let first: u8 = if bytes.len() > 0 { bytes[0] } else { 0 };
        if is_forwarded_lead(first) {
            (InputActionView::Passthrough(bytes), (false, 0))
        } else {
            (InputActionView::Noop, (false, 0))
        }
    }
}

/// Normal-mode transition from the state `(pending_g, count)` on a chunk of input.
/// A pending `g` followed by `g` scrolls to the top; followed by anything else it is
/// dropped and the chunk is handled as if no `g` had been typed.
pub open spec fn normal_step(state: (bool, u32), bytes: Seq<u8>) -> (InputActionView, (bool, u32)) {
    if state.0 && bytes == key(0x67) {
        (InputActionView::Scroll(ScrollAmount::Top), (false, 0))
    } else {
        plain_step(state.1, bytes)
    }
}

fn sat_mul10(c: u32) -> (r: u32)
    ensures
        r == sat_u32(c * 10),
{
    if c > 429496729 {
        u32::MAX
    } else {
        c * 10
    }
}

fn sat_add(a: u32, b: u32) -> (r: u32)
    ensures
        r == sat_u32(a + b),
{
    if a > u32::MAX - b {
        u32::MAX
    } else {
        a + b
    }
}

/// Byte-slice equality, decided element by element.
pub fn bytes_eq(a: &[u8], b: &[u8]) -> (r: bool)
    ensures
        r == (a@ == b@),
{
    if a.len() != b.len() {
        return false;
    }
    let mut i: usize = 0;
    while i < a.len()
        invariant
            a@.len() == b@.len(),
            i <= a@.len(),
            forall|k: int| 0 <= k < i ==> a@[k] == b@[k],
        decreases a@.len() - i,
    {
        if a[i] != b[i] {
            return false;
        }
        i = i + 1;
    }
    assert(a@ =~= b@);
    true
}

pub fn is_key(bytes: &[u8], b: u8) -> (r: bool)
    ensures
        r == (bytes@ == key(b)),
{
    let r = bytes.len() == 1 && bytes[0] == b;
    proof {
        if bytes@.len() == 1 && bytes@[0] == b {
            assert(bytes@ =~= key(b));
        }
    }
    r
}

fn is_kitty_ctrl_d(bytes: &[u8]) -> (r: bool)
    ensures
        r == (bytes@ == kitty_ctrl_d()),
{
    let pat: [u8; 8] = [0x1b, 0x5b, 0x31, 0x30, 0x30, 0x3b, 0x35, 0x75];
    assert(pat@ =~= kitty_ctrl_d());
    bytes_eq(bytes, pat.as_slice())
}

fn is_kitty_ctrl_u(bytes: &[u8]) -> (r: bool)
    ensures
        r == (bytes@ == kitty_ctrl_u()),
{
    let pat: [u8; 8] = [0x1b, 0x5b, 0x31, 0x31, 0x37, 0x3b, 0x35, 0x75];
    assert(pat@ =~= kitty_ctrl_u());
    bytes_eq(bytes, pat.as_slice())
}

fn is_kitty_ctrl_f(bytes: &[u8]) -> (r: bool)
    ensures
        r == (bytes@ == kitty_ctrl_f()),
{
    let pat: [u8; 8] = [0x1b, 0x5b, 0x31, 0x30, 0x32, 0x3b, 0x35, 0x75];
    assert(pat@ =~= kitty_ctrl_f());
    bytes_eq(bytes, pat.as_slice())
}

fn is_kitty_ctrl_b(bytes: &[u8]) -> (r: bool)
    ensures
        r == (bytes@ == kitty_ctrl_b()),
{
    let pat: [u8; 7] = [0x1b, 0x5b, 0x39, 0x38, 0x3b, 0x35, 0x75];
    assert(pat@ =~= kitty_ctrl_b());
    bytes_eq(bytes, pat.as_slice())
}

/// Whether the bytes are Escape, either the lone byte or the Kitty form `ESC [ 27 u`.
pub fn is_escape_key(bytes: &[u8]) -> (r: bool)
    ensures
        r == (bytes@ == key(0x1b) || bytes@ == kitty_esc()),
{
    let pat: [u8; 5] = [0x1b, 0x5b, 0x32, 0x37, 0x75];
    assert(pat@ =~= kitty_esc());
    is_key(bytes, 0x1b) || bytes_eq(bytes, pat.as_slice())
}

/// Key matching in Normal mode: `gg` as a two-key command and a numeric prefix.
pub struct InputMatcher {
    pending_g: bool,
    /// The numeric prefix typed so far; 0 when none.
    count: u32,
}

impl View for InputMatcher {
    type V = (bool, u32);

    closed spec fn view(&self) -> (bool, u32) {
        (self.pending_g, self.count)
    }
}

impl InputMatcher {
    pub fn new() -> (m: Self)
        ensures
            m@ == (false, 0u32),
    {
        InputMatcher { pending_g: false, count: 0 }
    }

    /// Whether a first `g` is waiting for its second.
    pub fn pending_g(&self) -> (r: bool)
        ensures
            r == self@.0,
    {
        self.pending_g
    }

    /// The numeric prefix typed so far (0 when none).
    pub fn count(&self) -> (r: u32)
        ensures
            r == self@.1,
    {
        self.count
    }

    /// Maps a chunk of raw input to an action and the next matcher; `self` is left as it was.
    pub fn process(&self, bytes: &[u8]) -> (res: (InputAction, Self))
        ensures
            (res.0@, res.1@) == normal_step(self@, bytes@),
    {
        if self.pending_g && is_key(bytes, 0x67) {
            return (InputAction::Scroll(ScrollAmount::Top), InputMatcher { pending_g: false, count: 0 });
        }
        let count = self.count;
        if bytes.len() == 1 {
            let digit_byte = bytes[0];
            if 0x31 <= digit_byte && digit_byte <= 0x39 {
                let digit = (digit_byte - 0x30) as u32;
                let new_count = if count == 0 {
                    digit
                } else {
                    sat_add(sat_mul10(count), digit)
                };
                return (InputAction::Noop, InputMatcher { pending_g: false, count: new_count });
            }
            if digit_byte == 0x30 && count > 0 {
                return (InputAction::Noop, InputMatcher { pending_g: false, count: sat_mul10(count) });
            }
        }
        let n: u32 = if count == 0 { 1 } else { count };
        let reset = InputMatcher { pending_g: false, count: 0 };
        if is_key(bytes, 0x6a) {
            (InputAction::Scroll(ScrollAmount::LineDown(n)), reset)
        } else if is_key(bytes, 0x6b) {
            (InputAction::Scroll(ScrollAmount::LineUp(n)), reset)
        } else if is_key(bytes, 0x04) || is_kitty_ctrl_d(bytes) {
            (InputAction::Scroll(ScrollAmount::HalfPageDown(n)), reset)
        } else if is_key(bytes, 0x15) || is_kitty_ctrl_u(bytes) {
            (InputAction::Scroll(ScrollAmount::HalfPageUp(n)), reset)
        } else if is_key(bytes, 0x06) || is_kitty_ctrl_f(bytes) {
            (InputAction::Scroll(ScrollAmount::FullPageDown(n)), reset)
        } else if is_key(bytes, 0x02) || is_kitty_ctrl_b(bytes) {
            (InputAction::Scroll(ScrollAmount::FullPageUp(n)), reset)
        } else if is_key(bytes, 0x47) {
            (InputAction::Scroll(ScrollAmount::Bottom), reset)
        } else if is_key(bytes, 0x69) {
            (InputAction::SwitchToInsert, reset)
        } else if is_key(bytes, 0x63) {
            (InputAction::EnterCursor, reset)
        } else if is_key(bytes, 0x67) {
            (InputAction::PendingG, InputMatcher { pending_g: true, count })
        } else {
            let first: u8 = if bytes.len() > 0 { bytes[0] } else { 0 };
            if first < 0x20 || first == 0x7f || first == 0x1b {
                (InputAction::Passthrough(vstd::slice::slice_to_vec(bytes)), reset)
            } else {
                (InputAction::Noop, reset)
            }
        }
    }
}

impl Default for InputMatcher {
    fn default() -> (m: Self)
        ensures
            m@ == (false, 0u32),
    {
        Self::new()
    }
}


/// What a key in Cursor mode asks for.
#[derive(Debug, Clone, Copy, PartialEq, Eq, Structural)]
pub enum CursorInputAction {
    MoveUp,
    MoveDown,
    MoveLeft,
    MoveRight,
    EnterVisual,
    Cancel,
    Noop,
}

/// The Cursor-mode key map.
pub open spec fn cursor_key_action(bytes: Seq<u8>) -> CursorInputAction {
    if bytes == key(0x68) {
        CursorInputAction::MoveLeft
    } else if bytes == key(0x6a) {
        CursorInputAction::MoveDown
    } else if bytes == key(0x6b) {
        CursorInputAction::MoveUp
    } else if bytes == key(0x6c) {
        CursorInputAction::MoveRight
    } else if bytes == key(0x76) {
        CursorInputAction::EnterVisual
    } else if bytes == key(0x1b) || bytes == kitty_esc() {
        CursorInputAction::Cancel
    } else {
        CursorInputAction::Noop
    }
}

/// Key matching in Cursor mode (stateless).
pub struct CursorInputMatcher;

impl CursorInputMatcher {
    pub fn new() -> Self {
        CursorInputMatcher
    }

    pub fn process(&self, bytes: &[u8]) -> (r: CursorInputAction)
        ensures
            r == cursor_key_action(bytes@),
    {
        if is_key(bytes, 0x68) {
            CursorInputAction::MoveLeft
        } else if is_key(bytes, 0x6a) {
            CursorInputAction::MoveDown
        } else if is_key(bytes, 0x6b) {
            CursorInputAction::MoveUp
        } else if is_key(bytes, 0x6c) {
            CursorInputAction::MoveRight
        } else if is_key(bytes, 0x76) {
            CursorInputAction::EnterVisual
        } else if is_escape_key(bytes) {
            CursorInputAction::Cancel
        } else {
            CursorInputAction::Noop
        }
    }
}

impl Default for CursorInputMatcher {
    fn default() -> Self {
        Self::new()
    }
}

/// What a key in Visual mode asks for.
#[derive(Debug, Clone, Copy, PartialEq, Eq, Structural)]
pub enum VisualInputAction {
    MoveDown,
    MoveUp,
    MoveLeft,
    MoveRight,
    Yank,
    Cancel,
    Noop,
}

/// The Visual-mode key map.
pub open spec fn visual_key_action(bytes: Seq<u8>) -> VisualInputAction {
    if bytes == key(0x6a) {
        VisualInputAction::MoveDown
    } else if bytes == key(0x6b) {
        VisualInputAction::MoveUp
    } else if bytes == key(0x68) {
        VisualInputAction::MoveLeft
    } else if bytes == key(0x6c) {
        VisualInputAction::MoveRight
    } else if bytes == key(0x79) {
        VisualInputAction::Yank
    } else if bytes == key(0x1b) || bytes == kitty_esc() {
        VisualInputAction::Cancel
    } else {
        VisualInputAction::Noop
    }
}

/// Key matching in Visual mode (stateless).
pub struct VisualInputMatcher;

impl VisualInputMatcher {
    pub fn new() -> Self {
        VisualInputMatcher
    }

    pub fn process(&self, bytes: &[u8]) -> (r: VisualInputAction)
        ensures
            r == visual_key_action(bytes@),
    {
        if is_key(bytes, 0x6a) {
            VisualInputAction::MoveDown
        } else if is_key(bytes, 0x6b) {
            VisualInputAction::MoveUp
        } else if is_key(bytes, 0x68) {
            VisualInputAction::MoveLeft
        } else if is_key(bytes, 0x6c) {
            VisualInputAction::MoveRight
        } else if is_key(bytes, 0x79) {
            VisualInputAction::Yank
        } else if is_escape_key(bytes) {
            VisualInputAction::Cancel
        } else {
            VisualInputAction::Noop
        }
    }
}

impl Default for VisualInputMatcher {
    fn default() -> Self {
        Self::new()
    }
}


// ---------------------------------------------------------------------------
// Laws of Normal-mode key matching
// ---------------------------------------------------------------------------

/// The decimal value of a sequence of ASCII digits.
pub open spec fn digits_value(ds: Seq<u8>) -> nat
    decreases ds.len(),
{
    if ds.len() == 0 {
        0
    } else {
        digits_value(ds.drop_last()) * 10 + (ds.last() - 0x30) as nat
    }
}

pub open spec fn is_digit_string(ds: Seq<u8>) -> bool {
    forall|i: int| 0 <= i < ds.len() ==> 0x30 <= #[trigger] ds[i] <= 0x39
}

/// The state after typing each byte of `ds` as a key of its own.
pub open spec fn feed_keys(state: (bool, u32), ds: Seq<u8>) -> (bool, u32)
    decreases ds.len(),
{
    if ds.len() == 0 {
        state
    } else {
        normal_step(feed_keys(state, ds.drop_last()), key(ds.last())).1
    }
}

/// A command key (a scroll, a mode switch or a forwarded key) clears both the pending
/// `g` and the numeric prefix.
pub proof fn lemma_command_resets_state(state: (bool, u32), bytes: Seq<u8>)
    ensures
        ({
            let r = normal_step(state, bytes);
            (r.0 is Scroll || r.0 is SwitchToInsert || r.0 is EnterCursor || r.0 is Passthrough)
                ==> r.1 == (false, 0u32)
        }),
{
}

/// `g` then `g` scrolls to the top, whatever count was typed before, and leaves a
/// fresh state.
pub proof fn lemma_gg_scrolls_to_top(count: u32)
    ensures
        normal_step((false, count), key(0x67)) == (InputActionView::PendingG, (true, count)),
        normal_step(normal_step((false, count), key(0x67)).1, key(0x67)) == (
            InputActionView::Scroll(ScrollAmount::Top),
            (false, 0u32),
        ),
{
}

/// A pending `g` followed by any other chunk is dropped: the chunk acts as it would
/// have acted with no `g` typed.
pub proof fn lemma_pending_g_dropped(count: u32, bytes: Seq<u8>)
    requires
        bytes != key(0x67),
    ensures
        normal_step((true, count), bytes) == normal_step((false, count), bytes),
{
}

/// Typing a decimal number (without a leading zero) digit by digit sets the count
/// to its value, saturated at `u32::MAX`.
pub proof fn lemma_count_prefix(ds: Seq<u8>)
    requires
        ds.len() > 0,
        is_digit_string(ds),
        ds[0] != 0x30,
    ensures
        feed_keys((false, 0u32), ds) == (false, sat_u32(digits_value(ds) as int)),
        digits_value(ds) >= 1,
    decreases ds.len(),
{
    if ds.len() == 1 {
        assert(ds.drop_last() =~= Seq::<u8>::empty());
        assert(feed_keys((false, 0u32), ds.drop_last()) == (false, 0u32));
        assert(digits_value(ds.drop_last()) == 0);
        assert(ds.last() == ds[0]);
        assert(key(ds.last()).len() == 1 && key(ds.last())[0] == ds[0]);
        assert(digits_value(ds) == (ds[0] - 0x30) as nat);
    } else {
        let pre = ds.drop_last();
        assert(pre[0] == ds[0]);
        assert(is_digit_string(pre)) by {
            assert forall|i: int| 0 <= i < pre.len() implies 0x30 <= #[trigger] pre[i] <= 0x39 by {
                assert(pre[i] == ds[i]);
            }
        }
        lemma_count_prefix(pre);
        let c = sat_u32(digits_value(pre) as int);
        let d = ds.last();
        assert(0x30 <= ds[ds.len() - 1] <= 0x39);
        assert(key(d).len() == 1 && key(d)[0] == d);
        assert(c > 0);
        assert(feed_keys((false, 0u32), ds) == normal_step((false, c), key(d)).1);
        if d == 0x30 {
            assert(digits_value(ds) == digits_value(pre) * 10);
        } else {
            assert(digits_value(ds) == digits_value(pre) * 10 + (d - 0x30) as nat);
        }
    }
}

/// A numeric prefix applies to the next scroll: `N j` scrolls down `N` lines.
pub proof fn lemma_count_prefix_scrolls(ds: Seq<u8>)
    requires
        ds.len() > 0,
        is_digit_string(ds),
        ds[0] != 0x30,
    ensures
        normal_step(feed_keys((false, 0u32), ds), key(0x6a)) == (
            InputActionView::Scroll(ScrollAmount::LineDown(sat_u32(digits_value(ds) as int))),
            (false, 0u32),
        ),
{
    lemma_count_prefix(ds);
}


proof fn lemma_chain_follows_feed(ds: Seq<u8>, states: Seq<(bool, u32)>, i: int)
    requires
        0 <= i <= ds.len(),
        states.len() == ds.len() + 1,
        states[0] == (false, 0u32),
        forall|j: int| 0 <= j < ds.len() ==> states[j + 1] == #[trigger] normal_step(states[j], key(ds[j])).1,
    ensures
        states[i] == feed_keys((false, 0u32), ds.take(i)),
    decreases i,
{
    if i == 0 {
        assert(ds.take(0) =~= Seq::<u8>::empty());
    } else {
        lemma_chain_follows_feed(ds, states, i - 1);
        assert(ds.take(i).drop_last() =~= ds.take(i - 1));
        assert(ds.take(i).last() == ds[i - 1]);
        assert(states[(i - 1) + 1] == normal_step(states[i - 1], key(ds[i - 1])).1);
    }
}

/// Typing the digits of a decimal number (without a leading zero) one key at a time,
/// along any chain of matcher states that starts fresh and follows each key: every
/// key is answered with `Noop`, the last state holds the number (saturated at
/// `u32::MAX`) with no pending `g`, and `j` then scrolls down that many lines and
/// clears the count.
pub proof fn lemma_count_prefix_chain(ds: Seq<u8>, states: Seq<(bool, u32)>)
    requires
        ds.len() > 0,
        is_digit_string(ds),
        ds[0] != 0x30,
        states.len() == ds.len() + 1,
        states[0] == (false, 0u32),
        forall|j: int| 0 <= j < ds.len() ==> states[j + 1] == #[trigger] normal_step(states[j], key(ds[j])).1,
    ensures
        forall|j: int| 0 <= j < ds.len() ==> #[trigger] normal_step(states[j], key(ds[j])).0
            == InputActionView::Noop,
        states[ds.len() as int] == (false, sat_u32(digits_value(ds) as int)),
        normal_step(states[ds.len() as int], key(0x6a)) == (
            InputActionView::Scroll(ScrollAmount::LineDown(sat_u32(digits_value(ds) as int))),
            (false, 0u32),
        ),
{
    assert forall|j: int| 0 <= j < ds.len() implies #[trigger] normal_step(states[j], key(ds[j])).0
        == InputActionView::Noop by {
        lemma_chain_follows_feed(ds, states, j);
        let d = ds[j];
        assert(0x30 <= d <= 0x39);
        assert(key(d).len() == 1 && key(d)[0] == d);
        if j > 0 {
            let pre = ds.take(j);
            assert(pre[0] == ds[0]);
            assert(is_digit_string(pre)) by {
                assert forall|k: int| 0 <= k < pre.len() implies 0x30 <= #[trigger] pre[k] <= 0x39 by {
                    assert(pre[k] == ds[k]);
                }
            }
            lemma_count_prefix(pre);
            assert(states[j].1 > 0);
        }
    }
    lemma_chain_follows_feed(ds, states, ds.len() as int);
    assert(ds.take(ds.len() as int) =~= ds);
    lemma_count_prefix_scrolls(ds);
}


/// Every counted scroll key scrolls by the typed count, or once when none was typed,
/// in its own direction, and clears the state; a pending `g` makes no difference.
/// The keys: `j` (line down), `k` (line up), Ctrl+d (half page down), Ctrl+u (half
/// page up), Ctrl+f (page down), Ctrl+b (page up), each Ctrl key as its control byte
/// or in the Kitty form `ESC [ code ; 5 u`.
pub proof fn lemma_counted_keys(pending: bool, count: u32)
    ensures
        ({
            let n: u32 = if count == 0 { 1 } else { count };
            let st = (pending, count);
            let cleared = (false, 0u32);
            &&& normal_step(st, seq![0x6au8]) == (InputActionView::Scroll(ScrollAmount::LineDown(n)), cleared)
            &&& normal_step(st, seq![0x6bu8]) == (InputActionView::Scroll(ScrollAmount::LineUp(n)), cleared)
            &&& normal_step(st, seq![0x04u8]) == (InputActionView::Scroll(ScrollAmount::HalfPageDown(n)), cleared)
            &&& normal_step(st, seq![0x1bu8, 0x5b, 0x31, 0x30, 0x30, 0x3b, 0x35, 0x75]) == (
                InputActionView::Scroll(ScrollAmount::HalfPageDown(n)),
                cleared,
            )
            &&& normal_step(st, seq![0x15u8]) == (InputActionView::Scroll(ScrollAmount::HalfPageUp(n)), cleared)
            &&& normal_step(st, seq![0x1bu8, 0x5b, 0x31, 0x31, 0x37, 0x3b, 0x35, 0x75]) == (
                InputActionView::Scroll(ScrollAmount::HalfPageUp(n)),
                cleared,
            )
            &&& normal_step(st, seq![0x06u8]) == (InputActionView::Scroll(ScrollAmount::FullPageDown(n)), cleared)
            &&& normal_step(st, seq![0x1bu8, 0x5b, 0x31, 0x30, 0x32, 0x3b, 0x35, 0x75]) == (
                InputActionView::Scroll(ScrollAmount::FullPageDown(n)),
                cleared,
            )
            &&& normal_step(st, seq![0x02u8]) == (InputActionView::Scroll(ScrollAmount::FullPageUp(n)), cleared)
            &&& normal_step(st, seq![0x1bu8, 0x5b, 0x39, 0x38, 0x3b, 0x35, 0x75]) == (
                InputActionView::Scroll(ScrollAmount::FullPageUp(n)),
                cleared,
            )
        }),
{
    let g = seq![0x67u8];
    assert(seq![0x6au8] != g && seq![0x6bu8] != g && seq![0x04u8] != g && seq![0x15u8] != g
        && seq![0x06u8] != g && seq![0x02u8] != g) by {
        assert(seq![0x6au8][0] != g[0]);
        assert(seq![0x6bu8][0] != g[0]);
        assert(seq![0x04u8][0] != g[0]);
        assert(seq![0x15u8][0] != g[0]);
        assert(seq![0x06u8][0] != g[0]);
        assert(seq![0x02u8][0] != g[0]);
    }
    assert(key(0x6a) =~= seq![0x6au8]);
    assert(key(0x6b) =~= seq![0x6bu8]);
    assert(key(0x04) =~= seq![0x04u8]);
    assert(key(0x15) =~= seq![0x15u8]);
    assert(key(0x06) =~= seq![0x06u8]);
    assert(key(0x02) =~= seq![0x02u8]);
    assert(key(0x67) =~= g);
    let kd = seq![0x1bu8, 0x5b, 0x31, 0x30, 0x30, 0x3b, 0x35, 0x75];
    let ku = seq![0x1bu8, 0x5b, 0x31, 0x31, 0x37, 0x3b, 0x35, 0x75];
    let kf = seq![0x1bu8, 0x5b, 0x31, 0x30, 0x32, 0x3b, 0x35, 0x75];
    let kb = seq![0x1bu8, 0x5b, 0x39, 0x38, 0x3b, 0x35, 0x75];
    assert(kd =~= kitty_ctrl_d());
    assert(ku =~= kitty_ctrl_u());
    assert(kf =~= kitty_ctrl_f());
    assert(kb =~= kitty_ctrl_b());
    // The Kitty forms are told apart from the single keys by length, and from each
    // other by their code digits.
    assert(ku != kd) by { assert(ku[3] != kd[3]); }
    assert(kf != kd) by { assert(kf[4] != kd[4]); }
    assert(kf != ku) by { assert(kf[3] != ku[3]); }
    assert(kb != kd) by { assert(kb.len() != kd.len()); }
    assert(kb != ku) by { assert(kb.len() != ku.len()); }
    assert(kb != kf) by { assert(kb.len() != kf.len()); }
    assert(seq![0x15u8] != seq![0x04u8]) by { assert(seq![0x15u8][0] != seq![0x04u8][0]); }
    assert(seq![0x06u8] != seq![0x04u8]) by { assert(seq![0x06u8][0] != seq![0x04u8][0]); }
    assert(seq![0x06u8] != seq![0x15u8]) by { assert(seq![0x06u8][0] != seq![0x15u8][0]); }
    assert(seq![0x02u8] != seq![0x04u8]) by { assert(seq![0x02u8][0] != seq![0x04u8][0]); }
    assert(seq![0x02u8] != seq![0x15u8]) by { assert(seq![0x02u8][0] != seq![0x15u8][0]); }
    assert(seq![0x02u8] != seq![0x06u8]) by { assert(seq![0x02u8][0] != seq![0x06u8][0]); }
    assert(seq![0x6bu8] != seq![0x6au8]) by { assert(seq![0x6bu8][0] != seq![0x6au8][0]); }
}

/// A numeric prefix applies to every counted scroll key: after the digits of `N`
/// (without a leading zero), `j`, `k`, Ctrl+d, Ctrl+u, Ctrl+f and Ctrl+b scroll by `N`,
/// saturated at `u32::MAX`.
pub proof fn lemma_count_prefix_keys(ds: Seq<u8>)
    requires
        ds.len() > 0,
        is_digit_string(ds),
        ds[0] != 0x30,
    ensures
        ({
            let n: u32 = if digits_value(ds) > u32::MAX { u32::MAX } else { digits_value(ds) as u32 };
            let st = feed_keys((false, 0u32), ds);
            &&& normal_step(st, seq![0x6au8]).0 == InputActionView::Scroll(ScrollAmount::LineDown(n))
            &&& normal_step(st, seq![0x6bu8]).0 == InputActionView::Scroll(ScrollAmount::LineUp(n))
            &&& normal_step(st, seq![0x04u8]).0 == InputActionView::Scroll(ScrollAmount::HalfPageDown(n))
            &&& normal_step(st, seq![0x15u8]).0 == InputActionView::Scroll(ScrollAmount::HalfPageUp(n))
            &&& normal_step(st, seq![0x06u8]).0 == InputActionView::Scroll(ScrollAmount::FullPageDown(n))
            &&& normal_step(st, seq![0x1bu8, 0x5b, 0x31, 0x30, 0x32, 0x3b, 0x35, 0x75]).0
                == InputActionView::Scroll(ScrollAmount::FullPageDown(n))
            &&& normal_step(st, seq![0x02u8]).0 == InputActionView::Scroll(ScrollAmount::FullPageUp(n))
        }),
{
    lemma_count_prefix(ds);
    let st = feed_keys((false, 0u32), ds);
    lemma_counted_keys(st.0, st.1);
}


/// The other Normal-mode keys, with or without a typed count: `i` switches to Insert
/// mode, `c` to Cursor mode, `G` goes to the bottom, each clearing the state; a
/// control byte that is not a scroll key (such as Enter or Ctrl+C) and an escape
/// sequence that is not a Kitty scroll key (such as Shift+Tab, `ESC [ Z`) go to the
/// child unchanged.
pub proof fn lemma_other_keys(count: u32, b: u8, esc_seq: Seq<u8>)
    ensures
        normal_step((false, count), seq![0x69u8]) == (InputActionView::SwitchToInsert, (false, 0u32)),
        normal_step((false, count), seq![0x63u8]) == (InputActionView::EnterCursor, (false, 0u32)),
        normal_step((false, count), seq![0x47u8]) == (
            InputActionView::Scroll(ScrollAmount::Bottom),
            (false, 0u32),
        ),
        b < 0x20 && b != 0x04 && b != 0x15 && b != 0x06 && b != 0x02 ==> normal_step((false, count), seq![b])
            == (InputActionView::Passthrough(seq![b]), (false, 0u32)),
        esc_seq.len() >= 2 && esc_seq[0] == 0x1b && esc_seq.len() != 7 && esc_seq.len() != 8 ==> normal_step(
            (false, count),
            esc_seq,
        ) == (InputActionView::Passthrough(esc_seq), (false, 0u32)),
{
    assert(key(0x69) =~= seq![0x69u8]);
    assert(key(0x63) =~= seq![0x63u8]);
    assert(key(0x47) =~= seq![0x47u8]);
    assert(seq![0x69u8][0] == 0x69 && seq![0x63u8][0] == 0x63 && seq![0x47u8][0] == 0x47);
    if b < 0x20 && b != 0x04 && b != 0x15 && b != 0x06 && b != 0x02 {
        let k = seq![b];
        assert(k[0] == b);
        assert(k.len() == 1);
        assert(k != kitty_ctrl_d() && k != kitty_ctrl_u() && k != kitty_ctrl_f() && k != kitty_ctrl_b());
        assert(k != key(0x6a) && k != key(0x6b) && k != key(0x04) && k != key(0x15) && k != key(0x06)
            && k != key(0x02) && k != key(0x47) && k != key(0x69) && k != key(0x63) && k != key(0x67)) by {
            assert(key(0x6a)[0] != b && key(0x6b)[0] != b && key(0x04)[0] != b && key(0x15)[0] != b);
            assert(key(0x06)[0] != b && key(0x02)[0] != b && key(0x47)[0] != b && key(0x69)[0] != b);
            assert(key(0x63)[0] != b && key(0x67)[0] != b);
        }
    }
    if esc_seq.len() >= 2 && esc_seq[0] == 0x1b && esc_seq.len() != 7 && esc_seq.len() != 8 {
        assert(esc_seq != kitty_ctrl_d() && esc_seq != kitty_ctrl_u() && esc_seq != kitty_ctrl_f()
            && esc_seq != kitty_ctrl_b());
        assert(esc_seq.len() != 1);
    }
}

} // verus!
