use vstd::prelude::*;

verus! {

/// `ESC [ ? 1049 h` (smcup).
pub open spec fn smcup_1049() -> Seq<u8> {
    seq![0x1bu8, 0x5b, 0x3f, 0x31, 0x30, 0x34, 0x39, 0x68]
}

/// `ESC [ ? 1049 l` (rmcup).
pub open spec fn rmcup_1049() -> Seq<u8> {
    seq![0x1bu8, 0x5b, 0x3f, 0x31, 0x30, 0x34, 0x39, 0x6c]
}

/// `ESC [ ? 1047 h`.
pub open spec fn smcup_1047() -> Seq<u8> {
    seq![0x1bu8, 0x5b, 0x3f, 0x31, 0x30, 0x34, 0x37, 0x68]
}

/// `ESC [ ? 1047 l`.
pub open spec fn rmcup_1047() -> Seq<u8> {
    seq![0x1bu8, 0x5b, 0x3f, 0x31, 0x30, 0x34, 0x37, 0x6c]
}

/// `ESC [ ? 47 h`.
pub open spec fn smcup_47() -> Seq<u8> {
    seq![0x1bu8, 0x5b, 0x3f, 0x34, 0x37, 0x68]
}

/// `ESC [ ? 47 l`.
pub open spec fn rmcup_47() -> Seq<u8> {
    seq![0x1bu8, 0x5b, 0x3f, 0x34, 0x37, 0x6c]
}

/// `ESC [ 3 J` (erase the scrollback).
pub open spec fn erase_scrollback() -> Seq<u8> {
    seq![0x1bu8, 0x5b, 0x33, 0x4a]
}

pub open spec fn starts_with(s: Seq<u8>, p: Seq<u8>) -> bool {
    p.len() <= s.len() && s.take(p.len() as int) == p
}

/// Whether `s` starts with one of the sequences that are removed.
pub open spec fn starts_with_filtered(s: Seq<u8>) -> bool {
    ||| starts_with(s, smcup_1049())
    ||| starts_with(s, rmcup_1049())
    ||| starts_with(s, smcup_1047())
    ||| starts_with(s, rmcup_1047())
    ||| starts_with(s, smcup_47())
    ||| starts_with(s, rmcup_47())
    ||| starts_with(s, erase_scrollback())
}

/// `s` with the alternate-screen switches (`ESC [ ? 1049 h/l`, `ESC [ ? 1047 h/l`,
/// `ESC [ ? 47 h/l`) and `ESC [ 3 J` removed, scanning from the left.
pub open spec fn filtered(s: Seq<u8>) -> Seq<u8>
    decreases s.len(),
{
    if s.len() == 0 {
        Seq::empty()
    } else if starts_with(s, smcup_1049()) || starts_with(s, rmcup_1049()) || starts_with(s, smcup_1047())
        || starts_with(s, rmcup_1047()) {
        filtered(s.skip(8))
    } else if starts_with(s, smcup_47()) || starts_with(s, rmcup_47()) {
        filtered(s.skip(6))
    } else if starts_with(s, erase_scrollback()) {
        filtered(s.skip(4))
    } else {
        seq![s[0]] + filtered(s.skip(1))
    }
}

/// Whether `pat` occurs in `bytes` at position `i`.
fn occurs_at(bytes: &[u8], i: usize, pat: &[u8]) -> (r: bool)
    requires
        i <= bytes@.len(),
    ensures
        r == starts_with(bytes@.skip(i as int), pat@),
{
    if pat.len() > bytes.len() - i {
        return false;
    }
    let mut k: usize = 0;
    while k < pat.len()
        invariant
            i + pat@.len() <= bytes@.len(),
            k <= pat@.len(),
            i + k <= bytes@.len(),
            bytes@.len() == bytes.len(),
            forall|j: int| 0 <= j < k ==> bytes@[i + j] == pat@[j],
        decreases pat@.len() - k,
    {
        if bytes[i + k] != pat[k] {
            assert(bytes@.skip(i as int).take(pat@.len() as int)[k as int] == bytes@[i + k]);
            return false;
        }
        k = k + 1;
    }
    assert(bytes@.skip(i as int).take(pat@.len() as int) =~= pat@);
    true
}

/// Removes the alternate-screen switches (`ESC [ ? 1049 h/l`, `ESC [ ? 1047 h/l`,
/// `ESC [ ? 47 h/l`) and `ESC [ 3 J` from PTY output; everything else passes through.
pub fn filter_smcup(bytes: &[u8]) -> (out: Vec<u8>)
    ensures
        out@ == filtered(bytes@),
{
    let p1: [u8; 8] = [0x1b, 0x5b, 0x3f, 0x31, 0x30, 0x34, 0x39, 0x68];
    let p2: [u8; 8] = [0x1b, 0x5b, 0x3f, 0x31, 0x30, 0x34, 0x39, 0x6c];
    let p3: [u8; 8] = [0x1b, 0x5b, 0x3f, 0x31, 0x30, 0x34, 0x37, 0x68];
    let p4: [u8; 8] = [0x1b, 0x5b, 0x3f, 0x31, 0x30, 0x34, 0x37, 0x6c];
    let p5: [u8; 6] = [0x1b, 0x5b, 0x3f, 0x34, 0x37, 0x68];
    let p6: [u8; 6] = [0x1b, 0x5b, 0x3f, 0x34, 0x37, 0x6c];
    let p7: [u8; 4] = [0x1b, 0x5b, 0x33, 0x4a];
    assert(p1@ =~= smcup_1049());
    assert(p2@ =~= rmcup_1049());
    assert(p3@ =~= smcup_1047());
    assert(p4@ =~= rmcup_1047());
    assert(p5@ =~= smcup_47());
    assert(p6@ =~= rmcup_47());
    assert(p7@ =~= erase_scrollback());
    let mut result: Vec<u8> = Vec::new();
    let mut i: usize = 0;
    assert(bytes@.skip(0) =~= bytes@);
    while i < bytes.len()
        invariant
            i <= bytes@.len(),
            p1@ == smcup_1049(),
            p2@ == rmcup_1049(),
            p3@ == smcup_1047(),
            p4@ == rmcup_1047(),
            p5@ == smcup_47(),
            p6@ == rmcup_47(),
            p7@ == erase_scrollback(),
            filtered(bytes@) == result@ + filtered(bytes@.skip(i as int)),
        decreases bytes@.len() - i,
    {
        let ghost rest = bytes@.skip(i as int);
        if occurs_at(bytes, i, p1.as_slice()) || occurs_at(bytes, i, p2.as_slice()) || occurs_at(
            bytes,
            i,
            p3.as_slice(),
        ) || occurs_at(bytes, i, p4.as_slice()) {
            assert(rest.skip(8) =~= bytes@.skip(i + 8));
            i = i + 8;
        } else if occurs_at(bytes, i, p5.as_slice()) || occurs_at(bytes, i, p6.as_slice()) {
            assert(rest.skip(6) =~= bytes@.skip(i + 6));
            i = i + 6;
        } else if occurs_at(bytes, i, p7.as_slice()) {
            assert(rest.skip(4) =~= bytes@.skip(i + 4));
            i = i + 4;
        } else {
            let ghost before = result@;
            result.push(bytes[i]);
            assert(rest.skip(1) =~= bytes@.skip(i + 1));
            assert(rest[0] == bytes@[i as int]);
            assert(before + (seq![rest[0]] + filtered(rest.skip(1))) =~= result@ + filtered(rest.skip(1)));
            i = i + 1;
        }
    }
    assert(bytes@.skip(i as int) =~= Seq::<u8>::empty());
    assert(result@ + Seq::<u8>::empty() =~= result@);
    result
}

// ---------------------------------------------------------------------------
// Laws
// ---------------------------------------------------------------------------

proof fn lemma_not_starts(s: Seq<u8>, p: Seq<u8>, j: int)
    requires
        0 <= j < p.len(),
        j < s.len() ==> s[j] != p[j],
    ensures
        !starts_with(s, p),
{
    if p.len() <= s.len() {
        assert(s.take(p.len() as int)[j] == s[j]);
    }
}

/// Output never grows: the filter only removes bytes.
pub proof fn lemma_filtered_len(s: Seq<u8>)
    ensures
        filtered(s).len() <= s.len(),
    decreases s.len(),
{
    if s.len() > 0 {
        if starts_with(s, smcup_1049()) || starts_with(s, rmcup_1049()) || starts_with(s, smcup_1047())
            || starts_with(s, rmcup_1047()) {
            lemma_filtered_len(s.skip(8));
        } else if starts_with(s, smcup_47()) || starts_with(s, rmcup_47()) {
            lemma_filtered_len(s.skip(6));
        } else if starts_with(s, erase_scrollback()) {
            lemma_filtered_len(s.skip(4));
        } else {
            lemma_filtered_len(s.skip(1));
        }
    }
}

/// Bytes before the first ESC pass through unchanged: for `a` without ESC,
/// `filtered(a + x) == a + filtered(x)`.
pub proof fn lemma_filtered_plain_prefix(a: Seq<u8>, x: Seq<u8>)
    requires
        forall|i: int| 0 <= i < a.len() ==> a[i] != 0x1b,
    ensures
        filtered(a + x) == a + filtered(x),
    decreases a.len(),
{
    if a.len() == 0 {
        assert(a + x =~= x);
        assert(a + filtered(x) =~= filtered(x));
    } else {
        let s = a + x;
        assert(s[0] == a[0]);
        lemma_not_starts(s, smcup_1049(), 0);
        lemma_not_starts(s, rmcup_1049(), 0);
        lemma_not_starts(s, smcup_1047(), 0);
        lemma_not_starts(s, rmcup_1047(), 0);
        lemma_not_starts(s, smcup_47(), 0);
        lemma_not_starts(s, rmcup_47(), 0);
        lemma_not_starts(s, erase_scrollback(), 0);
        assert(!starts_with_filtered(s));
        assert(s.skip(1) =~= a.skip(1) + x);
        lemma_filtered_plain_prefix(a.skip(1), x);
        assert(seq![a[0]] + (a.skip(1) + filtered(x)) =~= a + filtered(x));
    }
}

/// Text without ESC passes through unchanged.
pub proof fn lemma_filtered_plain_text(a: Seq<u8>)
    requires
        forall|i: int| 0 <= i < a.len() ==> a[i] != 0x1b,
    ensures
        filtered(a) == a,
{
    lemma_filtered_plain_prefix(a, Seq::empty());
    assert(a + Seq::<u8>::empty() =~= a);
    assert(filtered(Seq::<u8>::empty()) =~= Seq::<u8>::empty());
}

/// A removed sequence at the front disappears and the rest is filtered as it is.
pub proof fn lemma_filtered_drops_sequence(p: Seq<u8>, x: Seq<u8>)
    requires
        p == smcup_1049() || p == rmcup_1049() || p == smcup_1047() || p == rmcup_1047() || p
            == smcup_47() || p == rmcup_47() || p == erase_scrollback(),
    ensures
        filtered(p + x) == filtered(x),
{
    let s = p + x;
    assert(s.take(p.len() as int) =~= p);
    assert(s.skip(p.len() as int) =~= x);
    if p == smcup_47() || p == rmcup_47() {
        assert(s[3] == p[3]);
        lemma_not_starts(s, smcup_1049(), 3);
        lemma_not_starts(s, rmcup_1049(), 3);
        lemma_not_starts(s, smcup_1047(), 3);
        lemma_not_starts(s, rmcup_1047(), 3);
    } else if p == erase_scrollback() {
        assert(s[2] == p[2]);
        lemma_not_starts(s, smcup_1049(), 2);
        lemma_not_starts(s, rmcup_1049(), 2);
        lemma_not_starts(s, smcup_1047(), 2);
        lemma_not_starts(s, rmcup_1047(), 2);
        lemma_not_starts(s, smcup_47(), 2);
        lemma_not_starts(s, rmcup_47(), 2);
    } else if p == smcup_1047() || p == rmcup_1047() {
        assert(s[6] == p[6]);
        lemma_not_starts(s, smcup_1049(), 6);
        lemma_not_starts(s, rmcup_1049(), 6);
    }
}

} // verus!
