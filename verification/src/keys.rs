//! The keyboard: what a key press sends to the remote side, and what of it may be logged.

use vstd::prelude::*;

use crate::text::{
    all_pieces, ascii_upper, decimal, lemma_first_piece, lemma_one_piece, push_decimal,
    to_ascii_upper, to_chars, with_seps,
};

verus! {

// ---- Keys to bytes --------------------------------------------------------

/// The final letter of an arrow key: up, down, left and right.
pub open spec fn arrow_letter(c: char) -> Option<u8> {
    let n = c as u32;
    if n == 0xf700 {
        Some(0x41)
    } else if n == 0xf701 {
        Some(0x42)
    } else if n == 0xf702 {
        Some(0x44)
    } else if n == 0xf703 {
        Some(0x43)
    } else {
        None
    }
}

/// The final letter of Home and End.
pub open spec fn jump_letter(c: char) -> Option<u8> {
    let n = c as u32;
    if n == 0xf729 {
        Some(0x48)
    } else if n == 0xf72b {
        Some(0x46)
    } else {
        None
    }
}

/// The final letter of F1 to F4.
pub open spec fn pf_letter(c: char) -> Option<u8> {
    let n = c as u32;
    if 0xf704 <= n <= 0xf707 {
        Some((0x50 + (n - 0xf704)) as u8)
    } else {
        None
    }
}

/// The digits of the keys that send `ESC [ digits ~`: PageUp, PageDown, Delete, F5 to F12.
pub open spec fn tilde_digits(c: char) -> Option<Seq<u8>> {
    let n = c as u32;
    if n == 0xf72c {
        Some(seq![0x35u8])
    } else if n == 0xf72d {
        Some(seq![0x36u8])
    } else if n == 0x7f || n == 0xf728 {
        Some(seq![0x33u8])
    } else if n == 0xf708 {
        Some(seq![0x31u8, 0x35])
    } else if 0xf709 <= n <= 0xf70b {
        Some(seq![0x31u8, (0x37 + (n - 0xf709)) as u8])
    } else if 0xf70c <= n <= 0xf70d {
        Some(seq![0x32u8, (0x30 + (n - 0xf70c)) as u8])
    } else if 0xf70e <= n <= 0xf70f {
        Some(seq![0x32u8, (0x33 + (n - 0xf70e)) as u8])
    } else {
        None
    }
}

/// What a key without a character of its own sends. The arrow keys depend on the application
/// cursor mode (DECCKM).
pub open spec fn special_bytes(c: char, app_cursor: bool) -> Option<Seq<u8>> {
    match arrow_letter(c) {
        Some(l) => Some(
            seq![
                0x1bu8,
                if app_cursor {
                    0x4f
                } else {
                    0x5b
                },
                l,
            ],
        ),
        None => match jump_letter(c) {
            Some(l) => Some(seq![0x1bu8, 0x5b, l]),
            None => match pf_letter(c) {
                Some(l) => Some(seq![0x1bu8, 0x4f, l]),
                None => match tilde_digits(c) {
                    Some(d) => Some(seq![0x1bu8, 0x5b] + d + seq![0x7eu8]),
                    None => None,
                },
            },
        },
    }
}

/// The control character that Ctrl makes of the low byte of a character: letters, `[`, `\`,
/// `]`, `^`, `_` and `@`.
pub open spec fn ctrl_byte(c: char) -> Option<u8> {
    let u = ascii_upper(c) as u8;
    if 0x41 <= u <= 0x5a {
        Some((u - 0x40) as u8)
    } else if 0x5b <= u <= 0x5f {
        Some((u - 0x40) as u8)
    } else if u == 0x40 {
        Some(0)
    } else {
        None
    }
}

/// Whether a character lies in the Private Use Area.
pub open spec fn private_use(c: char) -> bool {
    0xe000 <= c as u32 <= 0xf8ff
}

/// Whether a lone modifier key is encoded by this character.
pub open spec fn bare_modifier(c: char) -> bool {
    0x10 <= c as u32 <= 0x18
}

/// The UTF-8 bytes of a text.
pub open spec fn utf8(s: Seq<char>) -> Seq<u8> {
    vstd::utf8::encode_utf8(s)
}

/// What a key press that is no special key sends when it is one character with Ctrl held, if
/// that is a control character: the one it is already, or the one it makes.
pub open spec fn ctrl_bytes(key: Seq<char>) -> Option<Seq<u8>> {
    if key.len() != 1 {
        None
    } else if 0x01 <= key[0] as u32 <= 0x1f {
        Some(seq![key[0] as u8])
    } else {
        match ctrl_byte(key[0]) {
            Some(b) => Some(seq![b]),
            None => None,
        }
    }
}

/// What a key press that is no special key, Backspace or Enter sends.
pub open spec fn text_bytes(key: Seq<char>, ctrl: bool, alt: bool) -> Seq<u8> {
    if key.len() == 0 || (!ctrl && key.len() == 1 && bare_modifier(key[0])) {
        Seq::empty()
    } else if ctrl && ctrl_bytes(key) is Some {
        ctrl_bytes(key)->0
    } else if exists|i: int| 0 <= i < key.len() && private_use(#[trigger] key[i]) {
        Seq::empty()
    } else if alt && !ctrl {
        seq![0x1bu8] + utf8(key)
    } else {
        utf8(key)
    }
}

/// What a key press sends.
pub open spec fn pty_bytes(key: Seq<char>, ctrl: bool, alt: bool, app_cursor: bool) -> Seq<u8> {
    if key.len() == 1 && special_bytes(key[0], app_cursor) is Some {
        special_bytes(key[0], app_cursor)->0
    } else if key.len() == 1 && key[0] as u32 == 0x08 {
        seq![0x7fu8]
    } else if key.len() == 1 && key[0] == '\n' && !ctrl && !alt {
        seq![0x0du8]
    } else {
        text_bytes(key, ctrl, alt)
    }
}

/// What a key without a character of its own sends.
fn special_key(c: char, app_cursor: bool) -> (r: Option<Vec<u8>>)
    ensures
        r is Some <==> special_bytes(c, app_cursor) is Some,
        r matches Some(b) ==> b@ == special_bytes(c, app_cursor)->0,
{
    let n: u32 = c as u32;
    let arrow: u8 = if app_cursor {
        0x4f
    } else {
        0x5b
    };
    let out: Vec<u8> = if n == 0xf700 {
        vec![0x1b, arrow, 0x41]
    } else if n == 0xf701 {
        vec![0x1b, arrow, 0x42]
    } else if n == 0xf702 {
        vec![0x1b, arrow, 0x44]
    } else if n == 0xf703 {
        vec![0x1b, arrow, 0x43]
    } else if n == 0xf729 {
        vec![0x1b, 0x5b, 0x48]
    } else if n == 0xf72b {
        vec![0x1b, 0x5b, 0x46]
    } else if 0xf704 <= n && n <= 0xf707 {
        vec![0x1b, 0x4f, 0x50 + (n - 0xf704) as u8]
    } else if n == 0xf72c {
        vec![0x1b, 0x5b, 0x35, 0x7e]
    } else if n == 0xf72d {
        vec![0x1b, 0x5b, 0x36, 0x7e]
    } else if n == 0x7f || n == 0xf728 {
        vec![0x1b, 0x5b, 0x33, 0x7e]
    } else if n == 0xf708 {
        vec![0x1b, 0x5b, 0x31, 0x35, 0x7e]
    } else if 0xf709 <= n && n <= 0xf70b {
        vec![0x1b, 0x5b, 0x31, 0x37 + (n - 0xf709) as u8, 0x7e]
    } else if 0xf70c <= n && n <= 0xf70d {
        vec![0x1b, 0x5b, 0x32, 0x30 + (n - 0xf70c) as u8, 0x7e]
    } else if 0xf70e <= n && n <= 0xf70f {
        vec![0x1b, 0x5b, 0x32, 0x33 + (n - 0xf70e) as u8, 0x7e]
    } else {
        return None;
    };
    assert(out@ =~= special_bytes(c, app_cursor)->0);
    Some(out)
}

/// Appends bytes.
fn push_bytes(out: &mut Vec<u8>, bytes: &[u8])
    ensures
        final(out)@ == old(out)@ + bytes@,
{
    let ghost before = out@;
    let mut i: usize = 0;
    assert(before + bytes@.take(0) =~= before);
    while i < bytes.len()
        invariant
            i <= bytes@.len(),
            out@ == before + bytes@.take(i as int),
        decreases bytes@.len() - i,
    {
        out.push(bytes[i]);
        i += 1;
        assert(before + bytes@.take(i as int) =~= (before + bytes@.take(i - 1)).push(
            bytes@[i - 1],
        ));
    }
    assert(bytes@.take(i as int) == bytes@);
}

/// Whether any of the characters lies in the Private Use Area.
fn any_private_use(chars: &[char]) -> (r: bool)
    ensures
        r == exists|i: int| 0 <= i < chars@.len() && private_use(#[trigger] chars@[i]),
{
    let mut i: usize = 0;
    while i < chars.len()
        invariant
            i <= chars@.len(),
            forall|j: int| 0 <= j < i ==> !private_use(#[trigger] chars@[j]),
        decreases chars@.len() - i,
    {
        let n: u32 = chars[i] as u32;
        if 0xe000 <= n && n <= 0xf8ff {
            assert(private_use(chars@[i as int]));
            return true;
        }
        i += 1;
    }
    false
}

/// The bytes that a key press sends to the PTY.
///
/// `app_cursor` mirrors the remote terminal's DECCKM mode (`ESC [ ? 1 h/l`): when true the four
/// arrow keys use SS3 sequences (`ESC O A`) instead of the default CSI sequences (`ESC [ A`).
/// Full-screen apps like nano and vim set this mode on startup.
///
/// Backspace sends DEL and Enter sends CR, as every terminal does. A lone modifier key arrives
/// as a control character without Ctrl and sends nothing: with Alt it would otherwise reach the
/// shell as ESC and discard the line being typed. Ctrl with a letter sends the control character;
/// unknown private-use keys send nothing; Alt prefixes ESC; everything else is sent as UTF-8.
pub fn key_to_pty_bytes(key: &str, ctrl: bool, alt: bool, app_cursor: bool) -> (r: Vec<u8>)
    ensures
        r@ == pty_bytes(key@, ctrl, alt, app_cursor),
{
    let chars = to_chars(key);
    // The Ctrl/Shift/Alt key press itself may come without text.
    if chars.len() == 0 {
        return Vec::new();
    }
    if chars.len() == 1 {
        let c: char = chars[0];
        let n: u32 = c as u32;
        match special_key(c, app_cursor) {
            Some(bytes) => return bytes,
            None => {},
        }
        if n == 0x08 {
            let del: Vec<u8> = vec![0x7f];
            assert(del@ =~= seq![0x7fu8]);
            return del;
        }
        if c == '\n' && !ctrl && !alt {
            let cr: Vec<u8> = vec![0x0d];
            assert(cr@ =~= seq![0x0du8]);
            return cr;
        }
        if !ctrl && 0x10 <= n && n <= 0x18 {
            return Vec::new();
        }
        if ctrl {
            // The platform already encoded the control character.
            if 0x01 <= n && n <= 0x1f {
                let out: Vec<u8> = vec![n as u8];
                assert(out@ =~= seq![c as u8]);
                return out;
            }
            // A letter with the Ctrl modifier: synthesise the control character.
            let upper: u8 = to_ascii_upper(c) as u8;
            if 0x40 <= upper && upper <= 0x5f {
                let out: Vec<u8> = vec![upper - 0x40];
                assert(out@ =~= ctrl_bytes(key@)->0);
                return out;
            }
        }
    }
    if any_private_use(chars.as_slice()) {
        return Vec::new();
    }
    let mut bytes: Vec<u8> = Vec::new();
    if alt && !ctrl {
        bytes.push(0x1b);
    }
    push_bytes(&mut bytes, key.as_bytes());
    assert(bytes@ =~= text_bytes(key@, ctrl, alt));
    bytes
}

// ---- Pasting --------------------------------------------------------------

/// A text with every CRLF and every LF made one CR.
pub open spec fn with_cr(s: Seq<char>) -> Seq<char>
    decreases s.len(),
{
    if s.len() == 0 {
        s
    } else if s[0] == '\r' && s.len() > 1 && s[1] == '\n' {
        seq!['\r'] + with_cr(s.skip(2))
    } else if s[0] == '\n' {
        seq!['\r'] + with_cr(s.skip(1))
    } else {
        seq![s[0]] + with_cr(s.skip(1))
    }
}

/// Normalise pasted text's line endings to a single CR (0x0d), what a terminal expects for
/// Enter.
///
/// The clipboard may hold CRLF (Windows) or LF line breaks. Sending those to the PTY verbatim
/// makes the remote shell see two line breaks per line, which prematurely ends a `\`-continued
/// line. Collapsing every CRLF/LF to one CR fixes it.
pub fn normalize_pasted_newlines(text: &str) -> (r: String)
    ensures
        r@ == with_cr(text@),
{
    let s = to_chars(text);
    let mut out: String = String::new();
    let mut i: usize = 0;
    assert(s@.skip(0) == s@);
    assert(out@ + with_cr(s@) =~= with_cr(s@));
    while i < s.len()
        invariant
            s@ == text@,
            i <= s@.len(),
            out@ + with_cr(s@.skip(i as int)) == with_cr(text@),
        decreases s@.len() - i,
    {
        let ghost rest = s@.skip(i as int);
        let ghost before = out@;
        assert(rest[0] == s@[i as int]);
        assert(rest.skip(1) == s@.skip(i + 1));
        if s[i] == '\r' && s.len() - i > 1 && s[i + 1] == '\n' {
            assert(rest[1] == s@[i + 1]);
            assert(rest.skip(2) == s@.skip(i + 2));
            out.push('\r');
            assert(out@ + with_cr(s@.skip(i + 2)) =~= before + with_cr(rest));
            i += 2;
        } else if s[i] == '\n' {
            out.push('\r');
            assert(out@ + with_cr(s@.skip(i + 1)) =~= before + with_cr(rest));
            i += 1;
        } else {
            proof {
                if rest.len() > 1 {
                    assert(rest[1] == s@[i + 1]);
                }
            }
            out.push(s[i]);
            assert(out@ + with_cr(s@.skip(i + 1)) =~= before + with_cr(rest));
            i += 1;
        }
    }
    assert(with_cr(s@.skip(i as int)) =~= Seq::<char>::empty());
    assert(out@ =~= with_cr(text@));
    out
}

// ---- Line numbers ---------------------------------------------------------

/// The newlines in a text.
pub open spec fn line_breaks(s: Seq<char>) -> nat
    decreases s.len(),
{
    if s.len() == 0 {
        0
    } else {
        line_breaks(s.drop_last()) + if s.last() == '\n' {
            1nat
        } else {
            0nat
        }
    }
}

/// The numbers from 1 to `n`, one per line.
pub open spec fn numbered(n: nat) -> Seq<char>
    decreases n,
{
    if n <= 1 {
        decimal(1)
    } else {
        numbered((n - 1) as nat).push('\n') + decimal(n)
    }
}

/// Build the editor's line-number gutter text: "1\n2\n…\nN", one number per line of `content`,
/// matching its (newline-separated) line count.
pub fn line_numbers_for(content: &str) -> (r: String)
    ensures
        r@ == numbered(line_breaks(content@) + 1),
{
    let s = to_chars(content);
    let mut out: String = String::new();
    push_decimal(&mut out, 1);
    let mut line: u128 = 1;
    let mut i: usize = 0;
    assert(out@ =~= decimal(1));
    assert(s@.take(0).len() == 0);
    while i < s.len()
        invariant
            s@ == content@,
            i <= s@.len(),
            line == line_breaks(s@.take(i as int)) + 1,
            line <= i + 1,
            out@ == numbered(line as nat),
        decreases s@.len() - i,
    {
        proof {
            assert(s@.take(i + 1).drop_last() == s@.take(i as int));
            assert(s@.take(i + 1).last() == s@[i as int]);
        }
        if s[i] == '\n' {
            line += 1;
            let ghost before = out@;
            out.push('\n');
            push_decimal(&mut out, line);
            assert(out@ =~= before.push('\n') + decimal(line as nat));
        }
        i += 1;
    }
    assert(s@.take(i as int) == s@);
    out
}

// ---- Logging --------------------------------------------------------------

/// Whether a character is a control character, which may be logged.
pub open spec fn loggable(c: char) -> bool {
    (c as u32) < 0x20 || 0x7f <= c as u32 <= 0x9f
}

/// A hexadecimal digit, in capitals.
pub open spec fn hex_digit(n: int) -> char {
    if n < 10 {
        ('0' as u32 + n) as char
    } else {
        ('A' as u32 + (n - 10)) as char
    }
}

/// The label of a control character: `U+00` and two digits.
pub open spec fn code_label(c: char) -> Seq<char> {
    let n = c as u32 as int;
    seq!['U', '+', '0', '0', hex_digit(n / 16), hex_digit(n % 16)]
}

/// The labels of the control characters of a key, comma between them.
pub open spec fn code_labels(key: Seq<char>) -> Seq<char>
    decreases key.len(),
{
    if key.len() == 0 {
        Seq::empty()
    } else {
        let before = code_labels(key.drop_last());
        if !loggable(key.last()) {
            before
        } else if before.len() == 0 {
            code_label(key.last())
        } else {
            before.push(',') + code_label(key.last())
        }
    }
}

/// The number of characters that may not be logged.
pub open spec fn hidden_count(key: Seq<char>) -> nat
    decreases key.len(),
{
    if key.len() == 0 {
        0
    } else {
        hidden_count(key.drop_last()) + if loggable(key.last()) {
            0nat
        } else {
            1nat
        }
    }
}

/// What stands in a log for so many hidden characters.
pub open spec fn hidden_note(n: nat) -> Seq<char> {
    "<"@ + decimal(n) + " printable redacted>"@
}

/// A key as it may stand in a log.
pub open spec fn redacted(key: Seq<char>) -> Seq<char> {
    if key.len() == 0 {
        "(empty)"@
    } else {
        let codes = code_labels(key);
        let n = hidden_count(key);
        if n == 0 {
            codes
        } else if codes.len() == 0 {
            hidden_note(n)
        } else {
            codes.push(',') + hidden_note(n)
        }
    }
}

/// Appends a hexadecimal digit.
fn push_hex(out: &mut String, n: u8)
    requires
        n < 16,
    ensures
        final(out)@ == old(out)@.push(hex_digit(n as int)),
{
    if n < 10 {
        out.push((48u8 + n) as char);
    } else {
        out.push((65u8 + (n - 10)) as char);
    }
}

/// A key press for the log: control characters by their code, printable ones only counted.
pub fn redact_key(key: &str) -> (r: String)
    ensures
        r@ == redacted(key@),
{
    if key.is_empty() {
        return "(empty)".to_owned();
    }
    let s = to_chars(key);
    let mut out: String = String::new();
    let mut some: bool = false;
    let mut printable: u64 = 0;
    let mut i: usize = 0;
    assert(s@.take(0).len() == 0);
    while i < s.len()
        invariant
            s@ == key@,
            i <= s@.len(),
            i <= u64::MAX,
            out@ == code_labels(s@.take(i as int)),
            some == (out@.len() > 0),
            printable == hidden_count(s@.take(i as int)),
            printable <= i,
        decreases s@.len() - i,
    {
        let c: char = s[i];
        let cp: u32 = c as u32;
        proof {
            assert(s@.take(i + 1).drop_last() == s@.take(i as int));
            assert(s@.take(i + 1).last() == c);
        }
        if cp < 0x20 || (0x7f <= cp && cp <= 0x9f) {
            let ghost before = out@;
            if some {
                out.push(',');
            }
            out.push('U');
            out.push('+');
            out.push('0');
            out.push('0');
            push_hex(&mut out, (cp / 16) as u8);
            push_hex(&mut out, (cp % 16) as u8);
            some = true;
            proof {
                if before.len() == 0 {
                    assert(out@ =~= code_label(c));
                } else {
                    assert(out@ =~= before.push(',') + code_label(c));
                }
            }
        } else {
            printable += 1;
        }
        i += 1;
    }
    assert(s@.take(i as int) == s@);
    if printable > 0 {
        let ghost before = out@;
        if some {
            out.push(',');
        }
        out.append("<");
        push_decimal(&mut out, printable as u128);
        out.append(" printable redacted>");
        proof {
            if before.len() == 0 {
                assert(out@ =~= hidden_note(printable as nat));
            } else {
                assert(out@ =~= before.push(',') + hidden_note(printable as nat));
            }
        }
    }
    out
}

// ---- Laws -----------------------------------------------------------------

/// A lone modifier key never reaches the shell, whether or not Alt is held.
pub proof fn law_bare_modifiers_send_nothing(key: Seq<char>, alt: bool, app_cursor: bool)
    requires
        key.len() == 1,
        bare_modifier(key[0]),
    ensures
        pty_bytes(key, false, alt, app_cursor) == Seq::<u8>::empty(),
{
}

/// The application cursor mode matters to the four arrow keys alone.
pub proof fn law_cursor_mode_is_for_arrows(key: Seq<char>, ctrl: bool, alt: bool)
    requires
        key.len() != 1 || arrow_letter(key[0]) is None,
    ensures
        pty_bytes(key, ctrl, alt, true) == pty_bytes(key, ctrl, alt, false),
{
}

/// Ctrl with a letter does not depend on the letter's case.
pub proof fn law_ctrl_ignores_case(a: char, b: char, alt: bool, app_cursor: bool)
    requires
        'a' <= a <= 'z',
        b == ascii_upper(a),
    ensures
        pty_bytes(seq![a], true, alt, app_cursor) == pty_bytes(seq![b], true, alt, app_cursor),
        pty_bytes(seq![a], true, alt, app_cursor) == seq![(a as u32 - 0x60) as u8],
{
}

/// A text without control characters or private-use keys is sent as its UTF-8 bytes, and with
/// Alt held after one ESC.
pub proof fn law_text_is_sent_as_utf8(key: Seq<char>, app_cursor: bool)
    requires
        key.len() > 0,
        forall|i: int|
            0 <= i < key.len() ==> !loggable(#[trigger] key[i]) && !private_use(key[i]),
    ensures
        pty_bytes(key, false, false, app_cursor) == utf8(key),
        pty_bytes(key, false, true, app_cursor) == seq![0x1bu8] + utf8(key),
{
    if key.len() == 1 {
        let c = key[0];
        assert(!loggable(c) && !private_use(c));
    }
}

/// Normalised text holds no LF, and normalising it again changes nothing.
pub proof fn law_pasted_text_has_no_lf(s: Seq<char>)
    ensures
        forall|i: int| 0 <= i < with_cr(s).len() ==> #[trigger] with_cr(s)[i] != '\n',
        with_cr(with_cr(s)) == with_cr(s),
        with_cr(s).len() <= s.len(),
    decreases s.len(),
{
    if s.len() > 0 {
        let (c, rest) = if s[0] == '\r' && s.len() > 1 && s[1] == '\n' {
            ('\r', s.skip(2))
        } else if s[0] == '\n' {
            ('\r', s.skip(1))
        } else {
            (s[0], s.skip(1))
        };
        law_pasted_text_has_no_lf(rest);
        let t = with_cr(s);
        assert(t == seq![c] + with_cr(rest));
        assert forall|i: int| 0 <= i < t.len() implies #[trigger] t[i] != '\n' by {
            if i > 0 {
                assert(t[i] == with_cr(rest)[i - 1]);
            }
        }
        assert(t.skip(1) == with_cr(rest));
        assert(with_cr(t) == seq![c] + with_cr(t.skip(1)));
    }
}

/// Text without LF is pasted as it is.
pub proof fn law_text_without_lf_is_kept(s: Seq<char>)
    requires
        forall|i: int| 0 <= i < s.len() ==> #[trigger] s[i] != '\n',
    ensures
        with_cr(s) == s,
    decreases s.len(),
{
    if s.len() > 0 {
        let rest = s.skip(1);
        assert forall|i: int| 0 <= i < rest.len() implies #[trigger] rest[i] != '\n' by {
            assert(rest[i] == s[i + 1]);
        }
        law_text_without_lf_is_kept(rest);
        assert(seq![s[0]] + rest =~= s);
    }
}

/// A log shows nothing of what was typed: any printable character may be any other.
pub proof fn law_redaction_hides_text(key: Seq<char>, i: int, c: char)
    requires
        0 <= i < key.len(),
        !loggable(key[i]),
        !loggable(c),
    ensures
        redacted(key.update(i, c)) == redacted(key),
{
    lemma_redaction(key, i, c);
}

proof fn lemma_redaction(key: Seq<char>, i: int, c: char)
    requires
        0 <= i < key.len(),
        !loggable(key[i]),
        !loggable(c),
    ensures
        code_labels(key.update(i, c)) == code_labels(key),
        hidden_count(key.update(i, c)) == hidden_count(key),
    decreases key.len(),
{
    let other = key.update(i, c);
    if i == key.len() - 1 {
        assert(other.drop_last() == key.drop_last());
    } else {
        lemma_redaction(key.drop_last(), i, c);
        assert(other.drop_last() == key.drop_last().update(i, c));
        assert(other.last() == key.last());
    }
}

/// Ctrl makes a control character of each character from `@` to `_` and of the small letters,
/// the low five bits of it, and sends one that is there already as it is.
pub proof fn law_ctrl_makes_control_characters(c: char, alt: bool, app_cursor: bool)
    ensures
        0x40 <= c as u32 && c as u32 <= 0x5f ==> pty_bytes(seq![c], true, alt, app_cursor) == seq![
            (c as u32 - 0x40) as u8,
        ],
        0x61 <= c as u32 && c as u32 <= 0x7a ==> pty_bytes(seq![c], true, alt, app_cursor) == seq![
            (c as u32 - 0x60) as u8,
        ],
        0x01 <= c as u32 && c as u32 <= 0x1f && c as u32 != 0x08 ==> pty_bytes(
            seq![c],
            true,
            alt,
            app_cursor,
        ) == seq![c as u8],
{
}

/// Backspace sends DEL whatever is held, and Enter by itself sends CR.
pub proof fn law_backspace_and_enter(ctrl: bool, alt: bool, app_cursor: bool)
    ensures
        pty_bytes(seq!['\x08'], ctrl, alt, app_cursor) == seq![0x7fu8],
        pty_bytes(seq!['\n'], false, false, app_cursor) == seq![0x0du8],
{
}

/// A key of the private-use area sends an escape sequence or nothing, and never its character;
/// modifiers do not change what a key sends that has a sequence of its own.
pub proof fn law_private_keys(c: char, ctrl: bool, alt: bool, app_cursor: bool)
    ensures
        private_use(c) && special_bytes(c, app_cursor) is None && !ctrl ==> pty_bytes(
            seq![c],
            ctrl,
            alt,
            app_cursor,
        ).len() == 0,
        special_bytes(c, app_cursor) is Some ==> ({
            let sent = pty_bytes(seq![c], ctrl, alt, app_cursor);
            &&& sent == pty_bytes(seq![c], false, false, app_cursor)
            &&& 3 <= sent.len() <= 5
            &&& sent[0] == 0x1b
            &&& sent[1] == 0x5b || sent[1] == 0x4f
        }),
{
    let key = seq![c];
    if private_use(c) {
        assert(private_use(key[0]));
    }
}

/// The arrow keys send `A` to `D` for up, down, right and left, after `ESC [`, or after `ESC O`
/// in application cursor mode.
pub proof fn law_arrow_keys(c: char, ctrl: bool, alt: bool, app_cursor: bool)
    requires
        0xf700 <= c as u32 <= 0xf703,
    ensures
        ({
            let sent = pty_bytes(seq![c], ctrl, alt, app_cursor);
            &&& sent.len() == 3
            &&& sent[0] == 0x1b
            &&& sent[1] == if app_cursor {
                0x4fu8
            } else {
                0x5bu8
            }
            &&& c as u32 == 0xf700 ==> sent[2] == 0x41
            &&& c as u32 == 0xf701 ==> sent[2] == 0x42
            &&& c as u32 == 0xf702 ==> sent[2] == 0x44
            &&& c as u32 == 0xf703 ==> sent[2] == 0x43
        }),
{
}

/// Every line break of a pasted text, LF or CRLF, becomes one CR where it stands, and what is
/// round it is pasted as it would be by itself.
pub proof fn law_each_line_break_is_one_cr(a: Seq<char>, b: Seq<char>)
    ensures
        with_cr(a + seq!['\r', '\n'] + b) == with_cr(a) + seq!['\r'] + with_cr(b),
        a.len() == 0 || a.last() != '\r' ==> with_cr(a + seq!['\n'] + b) == with_cr(a) + seq!['\r']
            + with_cr(b),
    decreases a.len(),
{
    let crlf = a + seq!['\r', '\n'] + b;
    let lf = a + seq!['\n'] + b;
    if a.len() == 0 {
        assert(crlf[0] == '\r' && crlf[1] == '\n');
        assert(crlf.skip(2) =~= b);
        assert(lf[0] == '\n');
        assert(lf.skip(1) =~= b);
        assert(with_cr(a) =~= Seq::<char>::empty());
        assert(with_cr(crlf) =~= with_cr(a) + seq!['\r'] + with_cr(b));
        assert(with_cr(lf) =~= with_cr(a) + seq!['\r'] + with_cr(b));
    } else if a[0] == '\r' && a.len() > 1 && a[1] == '\n' {
        let rest = a.skip(2);
        law_each_line_break_is_one_cr(rest, b);
        assert(crlf.skip(2) =~= rest + seq!['\r', '\n'] + b);
        assert(lf.skip(2) =~= rest + seq!['\n'] + b);
        assert(with_cr(crlf) =~= with_cr(a) + seq!['\r'] + with_cr(b));
        if a.last() != '\r' {
            assert(rest.len() > 0 ==> rest.last() == a.last());
            assert(with_cr(lf) =~= with_cr(a) + seq!['\r'] + with_cr(b));
        }
    } else {
        let rest = a.skip(1);
        law_each_line_break_is_one_cr(rest, b);
        assert(crlf.skip(1) =~= rest + seq!['\r', '\n'] + b);
        assert(lf.skip(1) =~= rest + seq!['\n'] + b);
        assert(crlf[0] == a[0] && lf[0] == a[0]);
        assert(a.len() > 1 ==> crlf[1] == a[1] && lf[1] == a[1]);
        assert(with_cr(crlf) =~= with_cr(a) + seq!['\r'] + with_cr(b));
        if a.last() != '\r' {
            assert(rest.len() > 0 ==> rest.last() == a.last());
            assert(with_cr(lf) =~= with_cr(a) + seq!['\r'] + with_cr(b));
        }
    }
}

proof fn lemma_breaks_joined(a: Seq<char>, b: Seq<char>)
    ensures
        line_breaks(a + b) == line_breaks(a) + line_breaks(b),
    decreases b.len(),
{
    if b.len() == 0 {
        assert(a + b =~= a);
    } else {
        lemma_breaks_joined(a, b.drop_last());
        assert((a + b).drop_last() =~= a + b.drop_last());
        assert((a + b).last() == b.last());
    }
}

proof fn lemma_no_breaks(s: Seq<char>)
    requires
        !s.contains('\n'),
    ensures
        line_breaks(s) == 0,
    decreases s.len(),
{
    if s.len() > 0 {
        assert(s.contains(s[s.len() - 1]));
        assert forall|i: int| 0 <= i < s.drop_last().len() implies s.drop_last()[i] != '\n' by {
            assert(s.contains(s[i]));
        }
        lemma_no_breaks(s.drop_last());
    }
}

proof fn lemma_breaks_and_pieces(s: Seq<char>)
    ensures
        all_pieces(s, '\n').len() == line_breaks(s) + 1,
    decreases s.len(),
{
    if !s.contains('\n') {
        lemma_one_piece(s, '\n');
        lemma_no_breaks(s);
    } else {
        let e = s.index_of_first('\n')->0;
        s.index_of_first_ensures('\n');
        let a = s.take(e);
        let rest = s.skip(e + 1);
        assert(!a.contains('\n'));
        assert(a.push('\n') + rest =~= s);
        lemma_first_piece(a, rest, '\n');
        lemma_breaks_and_pieces(rest);
        lemma_no_breaks(a);
        lemma_breaks_joined(a.push('\n'), rest);
        assert(a.push('\n').drop_last() =~= a);
    }
}

proof fn lemma_last_part(parts: Seq<Seq<char>>, x: Seq<char>, sep: char)
    requires
        parts.len() > 0,
    ensures
        with_seps(parts.push(x), sep) == with_seps(parts, sep).push(sep) + x,
    decreases parts.len(),
{
    let all = parts.push(x);
    assert(all.drop_first() =~= parts.drop_first().push(x));
    if parts.len() > 1 {
        lemma_last_part(parts.drop_first(), x, sep);
        assert(with_seps(all, sep) =~= with_seps(parts, sep).push(sep) + x);
    } else {
        assert(all.drop_first() =~= seq![x]);
        assert(with_seps(all.drop_first(), sep) == x);
    }
}

/// The line numbers of a text are the numbers from one on, each on its line, as many as the text
/// has lines.
pub proof fn law_one_number_per_line(content: Seq<char>)
    ensures
        numbered(line_breaks(content) + 1) == with_seps(
            Seq::new(all_pieces(content, '\n').len(), |k: int| decimal((k + 1) as nat)),
            '\n',
        ),
{
    lemma_breaks_and_pieces(content);
    lemma_numbered(line_breaks(content) + 1);
}

proof fn lemma_numbered(n: nat)
    requires
        n >= 1,
    ensures
        numbered(n) == with_seps(Seq::new(n, |k: int| decimal((k + 1) as nat)), '\n'),
    decreases n,
{
    let parts = Seq::new(n, |k: int| decimal((k + 1) as nat));
    if n > 1 {
        let before = Seq::new((n - 1) as nat, |k: int| decimal((k + 1) as nat));
        lemma_numbered((n - 1) as nat);
        assert(parts =~= before.push(decimal(n)));
        lemma_last_part(before, decimal(n), '\n');
    }
}

proof fn lemma_all_hidden(key: Seq<char>)
    requires
        forall|i: int| 0 <= i < key.len() ==> !loggable(#[trigger] key[i]),
    ensures
        hidden_count(key) == key.len(),
        code_labels(key).len() == 0,
    decreases key.len(),
{
    if key.len() > 0 {
        let front = key.drop_last();
        assert(!loggable(key[key.len() - 1]));
        assert forall|i: int| 0 <= i < front.len() implies !loggable(#[trigger] front[i]) by {
            assert(!loggable(key[i]));
        }
        lemma_all_hidden(front);
    }
}

proof fn lemma_all_shown(key: Seq<char>, k: int)
    requires
        forall|i: int| 0 <= i < key.len() ==> loggable(#[trigger] key[i]),
    ensures
        hidden_count(key) == 0,
        key.len() > 0 ==> code_labels(key).len() == 7 * key.len() - 1,
        0 <= k < key.len() ==> code_labels(key).subrange(7 * k, 7 * k + 6) == code_label(key[k]),
    decreases key.len(),
{
    if key.len() > 0 {
        let front = key.drop_last();
        assert(loggable(key[key.len() - 1]));
        assert forall|i: int| 0 <= i < front.len() implies loggable(#[trigger] front[i]) by {
            assert(loggable(key[i]));
        }
        lemma_all_shown(front, k);
        let all = code_labels(key);
        if front.len() == 0 {
            assert(front =~= Seq::<char>::empty());
            assert(code_labels(front).len() == 0);
            assert(all == code_label(key.last()));
        }
        if 0 <= k < key.len() {
            if k < front.len() {
                assert(all.subrange(7 * k, 7 * k + 6) =~= code_labels(front).subrange(
                    7 * k,
                    7 * k + 6,
                ));
                assert(front[k] == key[k]);
            } else {
                assert(all.subrange(7 * k, 7 * k + 6) =~= code_label(key[k]));
            }
        }
    }
}

/// The value of a hexadecimal digit in capitals.
pub open spec fn hex_value(c: char) -> int {
    if '0' <= c && c <= '9' {
        c as u32 - '0' as u32
    } else {
        c as u32 - 'A' as u32 + 10
    }
}

/// A log tells of printable characters only how many there were, and every control character by
/// its code: `U+00` and two hexadecimal digits, commas between them.
pub proof fn law_redacted_keys(key: Seq<char>, k: int)
    requires
        key.len() > 0,
    ensures
        (forall|i: int| 0 <= i < key.len() ==> !loggable(#[trigger] key[i])) ==> redacted(key)
            == hidden_note(key.len()),
        (forall|i: int| 0 <= i < key.len() ==> loggable(#[trigger] key[i])) && 0 <= k < key.len()
            ==> ({
            let label = redacted(key).subrange(7 * k, 7 * k + 6);
            &&& redacted(key).len() == 7 * key.len() - 1
            &&& label.take(4) == seq!['U', '+', '0', '0']
            &&& 16 * hex_value(label[4]) + hex_value(label[5]) == key[k] as u32
        }),
        forall|c: char| 0x20 <= c as u32 && c as u32 <= 0x7e ==> !(#[trigger] loggable(c)),
        forall|c: char| (c as u32) < 0x20 || c as u32 == 0x7f ==> #[trigger] loggable(c),
        forall|c: char| 0x80 <= c as u32 && c as u32 <= 0x9f ==> #[trigger] loggable(c),
        forall|c: char| c as u32 >= 0xa0 ==> !(#[trigger] loggable(c)),
{
    if forall|i: int| 0 <= i < key.len() ==> !loggable(#[trigger] key[i]) {
        lemma_all_hidden(key);
    }
    if (forall|i: int| 0 <= i < key.len() ==> loggable(#[trigger] key[i])) && 0 <= k < key.len() {
        lemma_all_shown(key, k);
        let n = key[k] as u32 as int;
        assert(loggable(key[k]));
        assert(code_label(key[k]).take(4) =~= seq!['U', '+', '0', '0']);
        assert(hex_value(hex_digit(n / 16)) == n / 16);
        assert(hex_value(hex_digit(n % 16)) == n % 16);
    }
}

/// With Ctrl held, keys that make no control character are sent as their UTF-8 bytes, with no
/// escape before them even if Alt is held too.
pub proof fn law_ctrl_leaves_other_text(key: Seq<char>, alt: bool, app_cursor: bool)
    requires
        key.len() > 0,
        forall|i: int| 0 <= i < key.len() ==> !private_use(#[trigger] key[i]),
        key.len() > 1 || 0x20 <= key[0] as u32 <= 0x3f,
    ensures
        pty_bytes(key, true, alt, app_cursor) == utf8(key),
{
}

/// A key from the Private Use Area that has no sequence of its own sends nothing, and neither does
/// a text that holds such a character; a lone modifier sends nothing unless Ctrl is held. Every
/// other character without a sequence of its own is sent, behind one escape if Alt is held.
pub proof fn law_which_keys_are_silent(c: char, alt: bool, app_cursor: bool)
    requires
        special_bytes(c, app_cursor) is None,
    ensures
        0xe000 <= c as u32 && c as u32 <= 0xf8ff ==> pty_bytes(
            seq![c],
            false,
            alt,
            app_cursor,
        ).len() == 0,
        0x10 <= c as u32 && c as u32 <= 0x18 ==> pty_bytes(seq![c], false, alt, app_cursor).len()
            == 0,
        !(0xe000 <= c as u32 && c as u32 <= 0xf8ff) && !(0x10 <= c as u32 && c as u32 <= 0x18)
            && c as u32 != 0x08 && c != '\n' ==> pty_bytes(seq![c], false, alt, app_cursor)
            == if alt {
            seq![0x1bu8] + utf8(seq![c])
        } else {
            utf8(seq![c])
        },
{
    let key = seq![c];
    if private_use(c) {
        assert(private_use(key[0]));
    }
}

/// The function keys: the first four send `ESC O` and the letters from `P` on; the others send
/// `ESC [`, a number of two digits and `~`. The numbers rise from 15 by one from key to key, but
/// 16 and 22 are left out.
pub proof fn law_function_keys(c: char, ctrl: bool, alt: bool, app_cursor: bool)
    requires
        0xf704 <= c as u32 <= 0xf70f,
    ensures
        ({
            let k = c as u32 - 0xf704 + 1;
            let sent = pty_bytes(seq![c], ctrl, alt, app_cursor);
            &&& k <= 4 ==> sent == seq![0x1bu8, 0x4f, (0x4f + k) as u8]
            &&& k > 4 ==> {
                &&& sent.len() == 5
                &&& sent[0] == 0x1b && sent[1] == 0x5b && sent[4] == 0x7e
                &&& 0x30 <= sent[2] <= 0x39 && 0x30 <= sent[3] <= 0x39
                &&& 10 * (sent[2] - 0x30) + (sent[3] - 0x30) == k + 10 + (if k > 5 {
                    1int
                } else {
                    0int
                }) + (if k > 10 {
                    1int
                } else {
                    0int
                })
            }
        }),
{
    assert(special_bytes(c, app_cursor) is Some);
    let sent = pty_bytes(seq![c], ctrl, alt, app_cursor);
    if c as u32 <= 0xf707 {
        assert(sent =~= seq![0x1bu8, 0x4f, (0x4f + (c as u32 - 0xf704 + 1)) as u8]);
    }
}

/// Home and End send `ESC [ H` and `ESC [ F`; Delete, PageUp and PageDown send `ESC [`, one digit
/// and `~`, whatever is held and whatever the cursor mode.
pub proof fn law_navigation_keys(c: char, ctrl: bool, alt: bool, app_cursor: bool)
    ensures
        ({
            let n = c as u32;
            let sent = pty_bytes(seq![c], ctrl, alt, app_cursor);
            &&& n == 0xf729 ==> sent == seq![0x1bu8, 0x5b, 0x48]
            &&& n == 0xf72b ==> sent == seq![0x1bu8, 0x5b, 0x46]
            &&& n == 0x7f || n == 0xf728 ==> sent == seq![0x1bu8, 0x5b, 0x33, 0x7e]
            &&& n == 0xf72c ==> sent == seq![0x1bu8, 0x5b, 0x35, 0x7e]
            &&& n == 0xf72d ==> sent == seq![0x1bu8, 0x5b, 0x36, 0x7e]
        }),
{
    assert(seq![0x1bu8, 0x5b] + seq![0x33u8] + seq![0x7eu8] =~= seq![0x1bu8, 0x5b, 0x33, 0x7e]);
    assert(seq![0x1bu8, 0x5b] + seq![0x35u8] + seq![0x7eu8] =~= seq![0x1bu8, 0x5b, 0x35, 0x7e]);
    assert(seq![0x1bu8, 0x5b] + seq![0x36u8] + seq![0x7eu8] =~= seq![0x1bu8, 0x5b, 0x36, 0x7e]);
}

} // verus!
