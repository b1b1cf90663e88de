//! The byte stream on its way to the terminal: cursor-positioning sequences made uniform,
//! the stream retained for replay, and the batches in which it is fed.

use vstd::prelude::*;

verus! {

// ---- HVP to CUP -----------------------------------------------------------

/// Minimal CSI-final-byte rewriter state (persists across read chunks).
#[derive(Clone, Copy, Debug, PartialEq, Eq, Structural)]
pub enum CsiState {
    /// Normal text.
    Normal,
    /// Saw ESC (0x1b), waiting to see if it starts a CSI (`[`).
    Esc,
    /// Inside a CSI sequence (after `ESC [`), scanning params/intermediates.
    Csi,
}

/// Whether a byte ends a CSI sequence.
pub open spec fn is_final(b: u8) -> bool {
    0x40 <= b <= 0x7e
}

/// The scanner's state after one more byte.
pub open spec fn csi_next(state: CsiState, b: u8) -> CsiState {
    match state {
        CsiState::Normal => if b == 0x1b {
            CsiState::Esc
        } else {
            CsiState::Normal
        },
        CsiState::Esc => if b == 0x5b {
            CsiState::Csi
        } else if b == 0x1b {
            CsiState::Esc
        } else {
            CsiState::Normal
        },
        CsiState::Csi => if is_final(b) {
            CsiState::Normal
        } else {
            CsiState::Csi
        },
    }
}

/// The scanner's state after a row of bytes.
pub open spec fn csi_after(state: CsiState, bytes: Seq<u8>) -> CsiState
    decreases bytes.len(),
{
    if bytes.len() == 0 {
        state
    } else {
        csi_next(csi_after(state, bytes.drop_last()), bytes.last())
    }
}

/// The byte at place `i`: an `f` that ends a CSI sequence becomes `H`, every other byte stays.
pub open spec fn cup_byte(state: CsiState, bytes: Seq<u8>, i: int) -> u8 {
    if bytes[i] == 0x66 && csi_after(state, bytes.take(i)) == CsiState::Csi {
        0x48
    } else {
        bytes[i]
    }
}

/// A row of bytes with HVP (`ESC [ … f`) made CUP (`ESC [ … H`).
pub open spec fn with_cup(state: CsiState, bytes: Seq<u8>) -> Seq<u8> {
    Seq::new(bytes.len(), |i: int| cup_byte(state, bytes, i))
}

/// Rewrites HVP into CUP and returns the scanner's new state.
pub fn rewrite_csi(state: CsiState, input: &[u8]) -> (r: (Vec<u8>, CsiState))
    ensures
        r.0@ == with_cup(state, input@),
        r.1 == csi_after(state, input@),
{
    let mut out: Vec<u8> = Vec::new();
    let mut s: CsiState = state;
    let mut i: usize = 0;
    assert(input@.take(0).len() == 0);
    while i < input.len()
        invariant
            i <= input@.len(),
            s == csi_after(state, input@.take(i as int)),
            out@.len() == i,
            forall|j: int| 0 <= j < i ==> #[trigger] out@[j] == cup_byte(state, input@, j),
        decreases input@.len() - i,
    {
        let b: u8 = input[i];
        proof {
            assert(input@.take(i + 1).drop_last() == input@.take(i as int));
            assert(input@.take(i + 1).last() == b);
        }
        match s {
            CsiState::Normal => {
                if b == 0x1b {
                    s = CsiState::Esc;
                }
                out.push(b);
            },
            CsiState::Esc => {
                if b == 0x5b {
                    s = CsiState::Csi;
                } else {
                    // Not a CSI (could be another ESC, OSC, etc.). Re-arm on a fresh ESC,
                    // otherwise fall back to normal text.
                    s = if b == 0x1b {
                        CsiState::Esc
                    } else {
                        CsiState::Normal
                    };
                }
                out.push(b);
            },
            CsiState::Csi => {
                if 0x40 <= b && b <= 0x7e {
                    out.push(
                        if b == 0x66 {
                            0x48
                        } else {
                            b
                        },
                    );
                    s = CsiState::Normal;
                } else {
                    out.push(b);
                }
            },
        }
        i += 1;
    }
    assert(input@.take(i as int) == input@);
    assert(out@ =~= with_cup(state, input@));
    (out, s)
}

/// The scanner goes on where it stopped: scanning two chunks in turn is scanning them joined.
proof fn lemma_csi_joined(state: CsiState, a: Seq<u8>, b: Seq<u8>)
    ensures
        csi_after(state, a + b) == csi_after(csi_after(state, a), b),
    decreases b.len(),
{
    if b.len() == 0 {
        assert(a + b == a);
    } else {
        lemma_csi_joined(state, a, b.drop_last());
        assert((a + b).drop_last() == a + b.drop_last());
        assert((a + b).last() == b.last());
    }
}

/// A sequence split across read chunks is still handled: rewriting two chunks in turn gives
/// what rewriting the joined bytes gives.
pub proof fn law_rewrite_across_chunks(state: CsiState, a: Seq<u8>, b: Seq<u8>)
    ensures
        with_cup(state, a + b) == with_cup(state, a) + with_cup(csi_after(state, a), b),
        csi_after(state, a + b) == csi_after(csi_after(state, a), b),
{
    lemma_csi_joined(state, a, b);
    let whole = with_cup(state, a + b);
    let parts = with_cup(state, a) + with_cup(csi_after(state, a), b);
    assert forall|i: int| 0 <= i < a.len() + b.len() implies whole[i] == parts[i] by {
        if i < a.len() {
            assert((a + b).take(i) == a.take(i));
        } else {
            let j = i - a.len();
            assert((a + b).take(i) == a + b.take(j));
            lemma_csi_joined(state, a, b.take(j));
        }
    }
    assert(whole =~= parts);
}

/// Only the final byte of a CSI sequence is ever touched, the stream keeps its length, and
/// bytes outside a CSI sequence pass through.
pub proof fn law_rewrite_touches_finals_only(state: CsiState, bytes: Seq<u8>, i: int)
    requires
        0 <= i < bytes.len(),
    ensures
        with_cup(state, bytes).len() == bytes.len(),
        with_cup(state, bytes)[i] != bytes[i] ==> bytes[i] == 0x66 && with_cup(state, bytes)[i]
            == 0x48 && csi_after(state, bytes.take(i)) == CsiState::Csi,
        csi_after(state, bytes.take(i)) == CsiState::Csi && is_final(bytes[i]) ==> with_cup(
            state,
            bytes,
        )[i] != 0x66,
{
}

/// The rewritten stream has no HVP left: rewriting it again changes nothing.
pub proof fn law_rewrite_is_settled(state: CsiState, bytes: Seq<u8>)
    ensures
        with_cup(state, with_cup(state, bytes)) == with_cup(state, bytes),
        csi_after(state, with_cup(state, bytes)) == csi_after(state, bytes),
    decreases bytes.len(),
{
    let once = with_cup(state, bytes);
    if bytes.len() > 0 {
        let d = bytes.drop_last();
        law_rewrite_is_settled(state, d);
        assert forall|i: int| 0 <= i < d.len() implies once[i] == with_cup(state, d)[i] by {
            assert(bytes.take(i) == d.take(i));
        }
        assert(once.drop_last() =~= with_cup(state, d));
        assert(bytes.take(bytes.len() - 1) == d);
        let twice = with_cup(state, once);
        assert forall|i: int| 0 <= i < bytes.len() implies twice[i] == once[i] by {
            assert(once.take(i) == once.drop_last().take(i));
            if i < d.len() {
                assert(with_cup(state, once.drop_last())[i] == once.drop_last()[i]);
            } else {
                assert(once.take(i) == once.drop_last());
            }
        }
        assert(twice =~= once);
    } else {
        assert(once =~= bytes);
        assert(with_cup(state, once) =~= once);
    }
}

// ---- The retained stream --------------------------------------------------

/// How much of the byte stream is retained per tab for resize-reflow.
pub const RAW_CAP: usize = 2 * 1024 * 1024;

/// What follows the first newline, or nothing where there is none.
pub open spec fn after_newline(s: Seq<u8>) -> Seq<u8>
    decreases s.len(),
{
    if s.len() == 0 {
        s
    } else if s[0] == 0x0a {
        s.drop_first()
    } else {
        after_newline(s.drop_first())
    }
}

/// The stream as it is retained: whole up to `RAW_CAP` bytes, and otherwise what follows the
/// first newline of its last `RAW_CAP` bytes.
pub open spec fn retained(raw: Seq<u8>) -> Seq<u8> {
    if raw.len() <= RAW_CAP {
        raw
    } else {
        after_newline(raw.skip(raw.len() - RAW_CAP))
    }
}

/// Dropping up to a newline keeps an end of the stream.
proof fn lemma_after_newline(s: Seq<u8>)
    ensures
        after_newline(s).len() <= s.len(),
        after_newline(s) == s.skip(s.len() - after_newline(s).len()),
        after_newline(s).len() > 0 ==> after_newline(s).len() < s.len() && s[s.len() - after_newline(
            s,
        ).len() - 1] == 0x0a,
    decreases s.len(),
{
    if s.len() > 0 {
        let d = s.drop_first();
        if s[0] != 0x0a {
            lemma_after_newline(d);
            assert(d.skip(d.len() - after_newline(d).len()) == s.skip(
                s.len() - after_newline(s).len(),
            ));
        } else {
            assert(s.skip(1) == d);
        }
    } else {
        assert(s.skip(0) == s);
    }
}

/// The retained stream is never longer than `RAW_CAP`; it is an end of the stream; and where
/// anything was dropped, what is left starts right after a newline, so that a replay never
/// starts in the middle of a line.
pub proof fn law_retained_is_a_bounded_end(raw: Seq<u8>)
    ensures
        retained(raw).len() <= RAW_CAP,
        retained(raw).len() <= raw.len(),
        retained(raw) == raw.skip(raw.len() - retained(raw).len()),
        0 < retained(raw).len() < raw.len() ==> raw[raw.len() - retained(raw).len() - 1] == 0x0a,
{
    if raw.len() <= RAW_CAP {
        assert(raw.skip(0) == raw);
    } else {
        let s = raw.skip(raw.len() - RAW_CAP);
        lemma_after_newline(s);
        assert(s.skip(s.len() - after_newline(s).len()) == raw.skip(
            raw.len() - after_newline(s).len(),
        ));
    }
}

// ---- Batches --------------------------------------------------------------

/// The lines that one batch may hold on a screen of the given height: half a screen, and at
/// least one.
pub open spec fn batch_lines(rows: u16) -> nat {
    let half = rows / 2;
    if half < 1 {
        1
    } else {
        half as nat
    }
}

/// Where a batch that starts at `from`, and may hold `lines` more newlines, ends: right after
/// its last newline, or at the end of the bytes.
pub open spec fn batch_end(bytes: Seq<u8>, lines: nat, from: int) -> int
    decreases bytes.len() - from,
{
    if from < 0 || from >= bytes.len() {
        bytes.len() as int
    } else if bytes[from] == 0x0a {
        if lines <= 1 {
            from + 1
        } else {
            batch_end(bytes, (lines - 1) as nat, from + 1)
        }
    } else {
        batch_end(bytes, lines, from + 1)
    }
}

/// A batch ends past its start.
pub proof fn lemma_batch_end(bytes: Seq<u8>, lines: nat, from: int)
    requires
        0 <= from < bytes.len(),
    ensures
        from < batch_end(bytes, lines, from) <= bytes.len(),
    decreases bytes.len() - from,
{
    if from + 1 < bytes.len() {
        lemma_batch_end(bytes, lines, from + 1);
        if lines > 1 {
            lemma_batch_end(bytes, (lines - 1) as nat, from + 1);
        }
    } else {
        reveal_with_fuel(batch_end, 2);
    }
}

/// The batches that a row of bytes falls into.
pub open spec fn batches(bytes: Seq<u8>, lines: nat) -> Seq<Seq<u8>>
    decreases bytes.len(),
    when true
    via batches_shrink
{
    if bytes.len() == 0 {
        Seq::empty()
    } else {
        let e = batch_end(bytes, lines, 0);
        seq![bytes.take(e)] + batches(bytes.skip(e), lines)
    }
}

#[via_fn]
proof fn batches_shrink(bytes: Seq<u8>, lines: nat) {
    if bytes.len() > 0 {
        lemma_batch_end(bytes, lines, 0);
    }
}

/// The newlines in a row of bytes.
pub open spec fn newlines(bytes: Seq<u8>) -> nat
    decreases bytes.len(),
{
    if bytes.len() == 0 {
        0
    } else {
        newlines(bytes.drop_first()) + if bytes[0] == 0x0a {
            1nat
        } else {
            0nat
        }
    }
}

/// All bytes of a list of batches, in order.
pub open spec fn rejoined(parts: Seq<Seq<u8>>) -> Seq<u8>
    decreases parts.len(),
{
    if parts.len() == 0 {
        Seq::empty()
    } else {
        parts[0] + rejoined(parts.drop_first())
    }
}

/// A batch holds no more newlines than it may.
proof fn lemma_batch_newlines(bytes: Seq<u8>, lines: nat, from: int)
    requires
        0 <= from <= bytes.len(),
        lines >= 1,
    ensures
        newlines(bytes.subrange(from, batch_end(bytes, lines, from))) <= lines,
    decreases bytes.len() - from,
{
    let e = batch_end(bytes, lines, from);
    if from < bytes.len() {
        lemma_batch_end(bytes, lines, from);
        let s = bytes.subrange(from, e);
        assert(s.drop_first() == bytes.subrange(from + 1, e));
        assert(s[0] == bytes[from]);
        if bytes[from] == 0x0a {
            if lines <= 1 {
                assert(newlines(bytes.subrange(from + 1, e)) == 0);
            } else {
                lemma_batch_newlines(bytes, (lines - 1) as nat, from + 1);
            }
        } else {
            lemma_batch_newlines(bytes, lines, from + 1);
        }
    } else {
        assert(newlines(bytes.subrange(from, e)) == 0);
    }
}

/// No batch scrolls more lines than comparing the screens around it can tell, as far as
/// newlines go: each holds at most `lines` newlines and is not empty, and together they are
/// the bytes, in order.
pub proof fn law_batches(bytes: Seq<u8>, lines: nat)
    requires
        lines >= 1,
    ensures
        rejoined(batches(bytes, lines)) == bytes,
        forall|k: int|
            0 <= k < batches(bytes, lines).len() ==> 0 < (#[trigger] batches(
                bytes,
                lines,
            )[k]).len() && newlines(batches(bytes, lines)[k]) <= lines,
    decreases bytes.len(),
{
    let all = batches(bytes, lines);
    if bytes.len() > 0 {
        lemma_batch_end(bytes, lines, 0);
        let e = batch_end(bytes, lines, 0);
        law_batches(bytes.skip(e), lines);
        let rest = batches(bytes.skip(e), lines);
        assert(all == seq![bytes.take(e)] + rest);
        assert(all.drop_first() =~= rest);
        assert(bytes.take(e) + bytes.skip(e) =~= bytes);
        lemma_batch_newlines(bytes, lines, 0);
        assert(bytes.subrange(0, e) == bytes.take(e));
        assert forall|k: int| 0 <= k < all.len() implies 0 < (#[trigger] all[k]).len() && newlines(
            all[k],
        ) <= lines by {
            if k > 0 {
                assert(all[k] == rest[k - 1]);
            }
        }
    } else {
        assert(all == Seq::<Seq<u8>>::empty());
    }
}

/// A batch holds at least one line, and no more than half a screen of two rows or more: less than
/// the one screen of scroll that can be told.
pub proof fn law_batch_lines(rows: u16)
    ensures
        batch_lines(rows) >= 1,
        rows >= 2 ==> batch_lines(rows) * 2 <= rows,
        rows >= 2 ==> batch_lines(rows) < rows,
{
}

// ---- Screen refreshes -----------------------------------------------------

/// Whether a pattern stands in a row of bytes.
pub open spec fn has_bytes(bytes: Seq<u8>, pattern: Seq<u8>) -> bool {
    exists|i: int| #[trigger] bytes_at(bytes, pattern, i)
}

/// Whether a pattern stands at place `i`.
pub open spec fn bytes_at(bytes: Seq<u8>, pattern: Seq<u8>, i: int) -> bool {
    0 <= i && i + pattern.len() <= bytes.len() && bytes.subrange(i, i + pattern.len()) == pattern
}

/// Whether a batch redraws the whole screen: it homes the cursor (`ESC [ H`) and erases the
/// display (`ESC [ 2 J` or `ESC [ J`).
pub open spec fn redraws_screen(bytes: Seq<u8>) -> bool {
    has_bytes(bytes, seq![0x1bu8, 0x5b, 0x48]) && (has_bytes(bytes, seq![0x1bu8, 0x5b, 0x32, 0x4a])
        || has_bytes(bytes, seq![0x1bu8, 0x5b, 0x4a]))
}

/// Whether a pattern stands in a row of bytes.
fn holds_bytes(bytes: &[u8], pattern: &[u8]) -> (r: bool)
    requires
        pattern@.len() > 0,
    ensures
        r == has_bytes(bytes@, pattern@),
{
    let n: usize = bytes.len();
    let m: usize = pattern.len();
    if m > n {
        assert forall|i: int| !#[trigger] bytes_at(bytes@, pattern@, i) by {}
        return false;
    }
    let mut i: usize = 0;
    while i <= n - m
        invariant
            n == bytes@.len(),
            m == pattern@.len(),
            0 < m <= n,
            i <= n - m + 1,
            forall|k: int| 0 <= k < i ==> !#[trigger] bytes_at(bytes@, pattern@, k),
        decreases n - m + 1 - i,
    {
        let mut k: usize = 0;
        while k < m && bytes[i + k] == pattern[k]
            invariant
                n == bytes@.len(),
                m == pattern@.len(),
                0 < m <= n,
                i <= n - m,
                k <= m,
                forall|j: int| 0 <= j < k ==> bytes@[i + j] == pattern@[j],
            decreases m - k,
        {
            k += 1;
        }
        if k == m {
            assert(bytes@.subrange(i as int, i + m) =~= pattern@);
            assert(bytes_at(bytes@, pattern@, i as int));
            return true;
        }
        proof {
            if bytes_at(bytes@, pattern@, i as int) {
                assert(bytes@.subrange(i as int, i + m)[k as int] == pattern@[k as int]);
            }
        }
        i += 1;
    }
    false
}

/// Whether a batch redraws the whole screen, as programs do that run full-screen without the
/// alternate screen.
pub fn is_screen_redraw(bytes: &[u8]) -> (r: bool)
    ensures
        r == redraws_screen(bytes@),
        r ==> exists|i: int|
            0 <= i && i + 2 < bytes@.len() && #[trigger] bytes@[i] == 0x1b && bytes@[i + 1] == 0x5b
                && bytes@[i + 2] == 0x48,
{
    proof {
        law_redraw_needs_home_and_erase(bytes@);
    }
    let home: Vec<u8> = vec![0x1b, 0x5b, 0x48];
    let erase_all: Vec<u8> = vec![0x1b, 0x5b, 0x32, 0x4a];
    let erase: Vec<u8> = vec![0x1b, 0x5b, 0x4a];
    assert(home@ =~= seq![0x1bu8, 0x5b, 0x48]);
    assert(erase_all@ =~= seq![0x1bu8, 0x5b, 0x32, 0x4a]);
    assert(erase@ =~= seq![0x1bu8, 0x5b, 0x4a]);
    holds_bytes(bytes, home.as_slice()) && (holds_bytes(bytes, erase_all.as_slice()) || holds_bytes(
        bytes,
        erase.as_slice(),
    ))
}

// ---- What the stream is promised ------------------------------------------

/// A batch redraws the screen only if it both moves the cursor home (`ESC [ H`) and erases
/// (`ESC [ J` or `ESC [ 2 J`), whatever else it holds.
pub proof fn law_redraw_needs_home_and_erase(bytes: Seq<u8>)
    ensures
        (forall|i: int|
            0 <= i && i + 2 < bytes.len() ==> !(#[trigger] bytes[i] == 0x1b && bytes[i + 1] == 0x5b
                && bytes[i + 2] == 0x48)) ==> !redraws_screen(bytes),
        (forall|i: int|
            0 <= i && i + 2 < bytes.len() ==> !(#[trigger] bytes[i] == 0x1b && bytes[i + 1] == 0x5b
                && (bytes[i + 2] == 0x4a || (i + 3 < bytes.len() && bytes[i + 2] == 0x32 && bytes[i
                + 3] == 0x4a)))) ==> !redraws_screen(bytes),
{
    let home = seq![0x1bu8, 0x5b, 0x48];
    let all = seq![0x1bu8, 0x5b, 0x32, 0x4a];
    let below = seq![0x1bu8, 0x5b, 0x4a];
    if redraws_screen(bytes) {
        let i = choose|i: int| #[trigger] bytes_at(bytes, home, i);
        assert(bytes.subrange(i, i + 3)[0] == home[0]);
        assert(bytes.subrange(i, i + 3)[1] == home[1]);
        assert(bytes.subrange(i, i + 3)[2] == home[2]);
        assert(bytes[i] == 0x1b && bytes[i + 1] == 0x5b && bytes[i + 2] == 0x48);
        if has_bytes(bytes, all) {
            let j = choose|j: int| #[trigger] bytes_at(bytes, all, j);
            assert(bytes.subrange(j, j + 4)[0] == all[0]);
            assert(bytes.subrange(j, j + 4)[1] == all[1]);
            assert(bytes.subrange(j, j + 4)[2] == all[2]);
            assert(bytes.subrange(j, j + 4)[3] == all[3]);
            assert(bytes[j] == 0x1b && bytes[j + 1] == 0x5b);
        } else {
            let j = choose|j: int| #[trigger] bytes_at(bytes, below, j);
            assert(bytes.subrange(j, j + 3)[0] == below[0]);
            assert(bytes.subrange(j, j + 3)[1] == below[1]);
            assert(bytes.subrange(j, j + 3)[2] == below[2]);
            assert(bytes[j] == 0x1b && bytes[j + 1] == 0x5b);
        }
    }
}

/// A batch that moves the cursor home at one place and erases at another, in whatever order,
/// redraws the screen.
pub proof fn law_home_and_erase_redraw(bytes: Seq<u8>, home: int, erase: int)
    requires
        0 <= home,
        home + 2 < bytes.len(),
        bytes[home] == 0x1b && bytes[home + 1] == 0x5b && bytes[home + 2] == 0x48,
        0 <= erase,
        erase + 2 < bytes.len(),
        bytes[erase] == 0x1b && bytes[erase + 1] == 0x5b,
        bytes[erase + 2] == 0x4a || (erase + 3 < bytes.len() && bytes[erase + 2] == 0x32
            && bytes[erase + 3] == 0x4a),
    ensures
        redraws_screen(bytes),
{
    assert(bytes.subrange(home, home + 3) =~= seq![0x1bu8, 0x5b, 0x48]);
    assert(bytes_at(bytes, seq![0x1bu8, 0x5b, 0x48], home));
    if bytes[erase + 2] == 0x4a {
        assert(bytes.subrange(erase, erase + 3) =~= seq![0x1bu8, 0x5b, 0x4a]);
        assert(bytes_at(bytes, seq![0x1bu8, 0x5b, 0x4a], erase));
    } else {
        assert(bytes.subrange(erase, erase + 4) =~= seq![0x1bu8, 0x5b, 0x32, 0x4a]);
        assert(bytes_at(bytes, seq![0x1bu8, 0x5b, 0x32, 0x4a], erase));
    }
}

/// Bytes that cannot end a control sequence leave the scanner inside of it.
proof fn lemma_params_stay(params: Seq<u8>)
    requires
        forall|i: int|
            0 <= i < params.len() ==> !(0x40 <= #[trigger] params[i] && params[i] <= 0x7e),
    ensures
        csi_after(CsiState::Csi, params) == CsiState::Csi,
    decreases params.len(),
{
    if params.len() > 0 {
        assert forall|i: int| 0 <= i < params.drop_last().len() implies !(0x40
            <= #[trigger] params.drop_last()[i] && params.drop_last()[i] <= 0x7e) by {
            assert(params.drop_last()[i] == params[i]);
        }
        lemma_params_stay(params.drop_last());
    }
}

/// Wherever a control sequence `ESC [ … f` starts outside of another one, its final `f` is sent
/// on as `H` and nothing else of it changes; the scanner is back in normal text after it.
pub proof fn law_hvp_is_sent_as_cup(state: CsiState, before: Seq<u8>, params: Seq<u8>)
    requires
        csi_after(state, before) != CsiState::Csi,
        forall|i: int|
            0 <= i < params.len() ==> !(0x40 <= #[trigger] params[i] && params[i] <= 0x7e),
    ensures
        with_cup(state, before + seq![0x1bu8, 0x5b] + params + seq![0x66u8]) == with_cup(
            state,
            before,
        ) + seq![0x1bu8, 0x5b] + params + seq![0x48u8],
        csi_after(state, before + seq![0x1bu8, 0x5b] + params + seq![0x66u8]) == CsiState::Normal,
{
    let s0 = csi_after(state, before);
    let intro = seq![0x1bu8, 0x5b];
    let tail = seq![0x66u8];
    assert(intro.drop_last() =~= seq![0x1bu8]);
    assert(intro.drop_last().drop_last() =~= Seq::<u8>::empty());
    assert(csi_after(s0, Seq::<u8>::empty()) == s0);
    assert(csi_after(s0, intro.drop_last()) == CsiState::Esc);
    assert(csi_after(s0, intro) == CsiState::Csi);
    lemma_params_stay(params);
    assert(tail.drop_last() =~= Seq::<u8>::empty());
    assert(csi_after(CsiState::Csi, Seq::<u8>::empty()) == CsiState::Csi);
    assert(csi_after(CsiState::Csi, tail) == CsiState::Normal);
    law_rewrite_across_chunks(state, before, intro);
    law_rewrite_across_chunks(state, before + intro, params);
    law_rewrite_across_chunks(state, before + intro + params, tail);
    assert(with_cup(s0, intro) =~= intro) by {
        assert(intro[0] != 0x66 && intro[1] != 0x66);
    }
    assert(with_cup(CsiState::Csi, params) =~= params) by {
        assert forall|i: int| 0 <= i < params.len() implies with_cup(CsiState::Csi, params)[i]
            == params[i] by {
            assert(!(0x40 <= params[i] && params[i] <= 0x7e));
        }
    }
    assert(tail.take(0) =~= Seq::<u8>::empty());
    assert(with_cup(CsiState::Csi, tail) =~= seq![0x48u8]);
}

/// Text without an escape character, read outside of any sequence, is sent on as it is, and the
/// scanner stays in normal text.
pub proof fn law_plain_text_is_sent_as_it_is(bytes: Seq<u8>)
    requires
        forall|i: int| 0 <= i < bytes.len() ==> #[trigger] bytes[i] != 0x1b,
    ensures
        with_cup(CsiState::Normal, bytes) == bytes,
        csi_after(CsiState::Normal, bytes) == CsiState::Normal,
    decreases bytes.len(),
{
    if bytes.len() > 0 {
        let front = bytes.drop_last();
        assert forall|i: int| 0 <= i < front.len() implies #[trigger] front[i] != 0x1b by {
            assert(front[i] == bytes[i]);
        }
        law_plain_text_is_sent_as_it_is(front);
        law_rewrite_across_chunks(CsiState::Normal, front, seq![bytes.last()]);
        assert(front + seq![bytes.last()] =~= bytes);
        let last = seq![bytes.last()];
        assert(last.take(0) =~= Seq::<u8>::empty());
        assert(csi_after(CsiState::Normal, last.take(0)) == CsiState::Normal);
        assert(with_cup(CsiState::Normal, last) =~= last);
    } else {
        assert(with_cup(CsiState::Normal, bytes) =~= bytes);
    }
}

/// An escape character that is followed by neither `[` nor another one starts no control
/// sequence; one that is followed by another leaves the scanner waiting for `[`.
pub proof fn law_other_escapes_start_nothing(state: CsiState, before: Seq<u8>, b: u8)
    requires
        csi_after(state, before) != CsiState::Csi,
    ensures
        csi_after(state, before + seq![0x1bu8]) == CsiState::Esc,
        b != 0x5b && b != 0x1b ==> csi_after(state, before + seq![0x1bu8, b]) == CsiState::Normal,
        csi_after(state, before + seq![0x1bu8, 0x1bu8]) == CsiState::Esc,
        csi_after(state, before + seq![0x1bu8, 0x5bu8]) == CsiState::Csi,
{
    let one = before + seq![0x1bu8];
    assert(one.drop_last() =~= before);
    assert((before + seq![0x1bu8, b]).drop_last() =~= one);
    assert((before + seq![0x1bu8, 0x1bu8]).drop_last() =~= one);
    assert((before + seq![0x1bu8, 0x5bu8]).drop_last() =~= one);
}

proof fn lemma_first_newline(s: Seq<u8>)
    ensures
        ({
            let gone = s.len() - after_newline(s).len();
            forall|i: int| 0 <= i < gone - 1 ==> #[trigger] s[i] != 0x0a
        }),
        after_newline(s).len() == 0 ==> forall|i: int|
            0 <= i < s.len() - 1 ==> #[trigger] s[i] != 0x0a,
    decreases s.len(),
{
    lemma_after_newline(s);
    if s.len() > 0 && s[0] != 0x0a {
        let rest = s.drop_first();
        lemma_first_newline(rest);
        lemma_after_newline(rest);
        let gone = s.len() - after_newline(s).len();
        assert forall|i: int| 0 <= i < gone - 1 implies #[trigger] s[i] != 0x0a by {
            if i > 0 {
                assert(rest[i - 1] == s[i]);
            }
        }
        if after_newline(s).len() == 0 {
            assert forall|i: int| 0 <= i < s.len() - 1 implies #[trigger] s[i] != 0x0a by {
                if i > 0 {
                    assert(rest[i - 1] == s[i]);
                }
            }
        }
    }
}

/// A stream of at most two mebibytes is retained whole. Of a longer one no more goes than the
/// excess and the line that it cuts: between the cut and the start of what is kept there is no
/// line feed but the last.
pub proof fn law_no_more_is_dropped_than_needed(raw: Seq<u8>, i: int)
    ensures
        raw.len() <= 2_097_152 ==> retained(raw) == raw,
        raw.len() > 2_097_152 ==> retained(raw).len() <= 2_097_152,
        raw.len() > 2_097_152 && raw.len() - 2_097_152 <= i < raw.len() - retained(raw).len() - 1
            ==> raw[i] != 0x0a,
{
    if raw.len() > RAW_CAP {
        let end = raw.skip(raw.len() - RAW_CAP);
        lemma_after_newline(end);
        lemma_first_newline(end);
        if raw.len() - RAW_CAP <= i < raw.len() - retained(raw).len() - 1 {
            assert(end[i - (raw.len() - RAW_CAP)] == raw[i]);
        }
    }
}

proof fn lemma_batch_full(bytes: Seq<u8>, lines: nat, from: int)
    requires
        0 <= from <= bytes.len(),
        lines >= 1,
        batch_end(bytes, lines, from) < bytes.len(),
    ensures
        from < batch_end(bytes, lines, from),
        bytes[batch_end(bytes, lines, from) - 1] == 0x0a,
        newlines(bytes.subrange(from, batch_end(bytes, lines, from))) == lines,
    decreases bytes.len() - from,
{
    if from < bytes.len() {
        let e = batch_end(bytes, lines, from);
        let here = bytes.subrange(from, e);
        if bytes[from] == 0x0a && lines <= 1 {
            assert(here.drop_first() =~= Seq::<u8>::empty());
            assert(newlines(here.drop_first()) == 0);
            assert(here[0] == 0x0a);
            assert(newlines(here) == 1);
        } else {
            let left = if bytes[from] == 0x0a {
                (lines - 1) as nat
            } else {
                lines
            };
            lemma_batch_full(bytes, left, from + 1);
            assert(here.drop_first() =~= bytes.subrange(from + 1, e));
            assert(here[0] == bytes[from]);
        }
    }
}

/// The screen is looked at no oftener than needed: every batch but the last ends in a line feed
/// and holds as many of them as a batch may.
pub proof fn law_batches_are_full(bytes: Seq<u8>, lines: nat)
    requires
        lines >= 1,
    ensures
        forall|k: int|
            0 <= k < batches(bytes, lines).len() - 1 ==> newlines(
                #[trigger] batches(bytes, lines)[k],
            ) == lines && batches(bytes, lines)[k].last() == 0x0a,
    decreases bytes.len(),
{
    if bytes.len() > 0 {
        let e = batch_end(bytes, lines, 0);
        lemma_batch_end(bytes, lines, 0);
        let rest = batches(bytes.skip(e), lines);
        law_batches_are_full(bytes.skip(e), lines);
        let all = batches(bytes, lines);
        assert(all == seq![bytes.take(e)] + rest);
        assert forall|k: int| 0 <= k < all.len() - 1 implies newlines(#[trigger] all[k]) == lines
            && all[k].last() == 0x0a by {
            if k == 0 {
                if e >= bytes.len() {
                    assert(bytes.skip(e).len() == 0);
                    assert(rest.len() == 0);
                }
                lemma_batch_full(bytes, lines, 0);
                assert(bytes.subrange(0, e) =~= bytes.take(e));
            } else {
                assert(all[k] == rest[k - 1]);
            }
        }
    }
}

/// A batch is half a screen, rounded down, but at least one line.
pub proof fn law_a_batch_is_half_a_screen(rows: u16)
    ensures
        rows >= 2 ==> batch_lines(rows) * 2 == rows || batch_lines(rows) * 2 + 1 == rows,
        rows < 2 ==> batch_lines(rows) == 1,
{
}

proof fn lemma_ends_in_newline(s: Seq<u8>)
    requires
        s.len() > 0,
        s.last() == 0x0a,
    ensures
        newlines(s) >= 1,
    decreases s.len(),
{
    if s.len() > 1 {
        assert(s.drop_first().last() == s.last());
        lemma_ends_in_newline(s.drop_first());
    } else {
        assert(s[0] == 0x0a);
    }
}

/// A batch ends right after the line feed that fills it.
pub proof fn lemma_batch_end_is(bytes: Seq<u8>, lines: nat, from: int, e: int)
    requires
        0 <= from < e <= bytes.len(),
        lines >= 1,
        newlines(bytes.subrange(from, e)) == lines,
        bytes[e - 1] == 0x0a,
    ensures
        batch_end(bytes, lines, from) == e,
    decreases e - from,
{
    let here = bytes.subrange(from, e);
    let rest = bytes.subrange(from + 1, e);
    assert(here.drop_first() =~= rest);
    assert(here[0] == bytes[from]);
    if from + 1 < e {
        assert(rest.last() == bytes[e - 1]);
        lemma_ends_in_newline(rest);
        if bytes[from] == 0x0a {
            lemma_batch_end_is(bytes, (lines - 1) as nat, from + 1, e);
        } else {
            lemma_batch_end_is(bytes, lines, from + 1, e);
        }
    } else {
        assert(rest =~= Seq::<u8>::empty());
        assert(newlines(rest) == 0);
    }
}

/// Without enough line feeds a batch ends where the bytes end.
pub proof fn lemma_batch_end_is_the_end(bytes: Seq<u8>, lines: nat, from: int)
    requires
        0 <= from <= bytes.len(),
        newlines(bytes.subrange(from, bytes.len() as int)) < lines,
    ensures
        batch_end(bytes, lines, from) == bytes.len(),
    decreases bytes.len() - from,
{
    if from < bytes.len() {
        let here = bytes.subrange(from, bytes.len() as int);
        let rest = bytes.subrange(from + 1, bytes.len() as int);
        assert(here.drop_first() =~= rest);
        assert(here[0] == bytes[from]);
        if bytes[from] == 0x0a {
            lemma_batch_end_is_the_end(bytes, (lines - 1) as nat, from + 1);
        } else {
            lemma_batch_end_is_the_end(bytes, lines, from + 1);
        }
    }
}

/// A control sequence goes on until a byte from `@` to `~`, and ends with the first one.
pub proof fn law_what_ends_a_sequence(state: CsiState, before: Seq<u8>, b: u8)
    requires
        csi_after(state, before) == CsiState::Csi,
    ensures
        0x40 <= b <= 0x7e ==> csi_after(state, before.push(b)) == CsiState::Normal,
        b < 0x40 || b > 0x7e ==> csi_after(state, before.push(b)) == CsiState::Csi,
        with_cup(state, before.push(b)) == with_cup(state, before).push(
            if b == 0x66 {
                0x48u8
            } else {
                b
            },
        ),
{
    let all = before.push(b);
    assert(all.drop_last() =~= before);
    assert(all.take(before.len() as int) =~= before);
    assert forall|i: int| 0 <= i < before.len() implies with_cup(state, all)[i] == with_cup(
        state,
        before,
    )[i] by {
        assert(all.take(i) =~= before.take(i));
    }
    assert(with_cup(state, all) =~= with_cup(state, before).push(
        if b == 0x66 {
            0x48u8
        } else {
            b
        },
    ));
}

} // verus!
