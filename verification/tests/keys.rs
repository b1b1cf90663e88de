use meatshell::keys::{
    key_to_pty_bytes, line_numbers_for, normalize_pasted_newlines, redact_key,
};

fn key(k: &str) -> Vec<u8> {
    key_to_pty_bytes(k, false, false, false)
}

#[test]
fn arrow_keys_follow_cursor_mode() {
    assert_eq!(key("\u{F700}"), b"\x1b[A");
    assert_eq!(key("\u{F701}"), b"\x1b[B");
    assert_eq!(key("\u{F702}"), b"\x1b[D");
    assert_eq!(key("\u{F703}"), b"\x1b[C");
    assert_eq!(key_to_pty_bytes("\u{F700}", false, false, true), b"\x1bOA");
    assert_eq!(key_to_pty_bytes("\u{F701}", false, false, true), b"\x1bOB");
    assert_eq!(key_to_pty_bytes("\u{F702}", false, false, true), b"\x1bOD");
    assert_eq!(key_to_pty_bytes("\u{F703}", false, false, true), b"\x1bOC");
}

#[test]
fn special_keys() {
    let table: [(&str, &[u8]); 19] = [
        ("\u{F729}", b"\x1b[H"),
        ("\u{F72B}", b"\x1b[F"),
        ("\u{F72C}", b"\x1b[5~"),
        ("\u{F72D}", b"\x1b[6~"),
        ("\u{007F}", b"\x1b[3~"),
        ("\u{F728}", b"\x1b[3~"),
        ("\u{F704}", b"\x1bOP"),
        ("\u{F705}", b"\x1bOQ"),
        ("\u{F706}", b"\x1bOR"),
        ("\u{F707}", b"\x1bOS"),
        ("\u{F708}", b"\x1b[15~"),
        ("\u{F709}", b"\x1b[17~"),
        ("\u{F70A}", b"\x1b[18~"),
        ("\u{F70B}", b"\x1b[19~"),
        ("\u{F70C}", b"\x1b[20~"),
        ("\u{F70D}", b"\x1b[21~"),
        ("\u{F70E}", b"\x1b[23~"),
        ("\u{F70F}", b"\x1b[24~"),
        ("\u{0008}", b"\x7f"),
    ];
    for (k, want) in table {
        assert_eq!(key(k), want);
        assert_eq!(key_to_pty_bytes(k, true, true, true), want);
    }
}

#[test]
fn enter_is_cr() {
    assert_eq!(key("\n"), vec![0x0d]);
    assert_eq!(key_to_pty_bytes("\n", true, false, false), vec![0x0a]);
    assert_eq!(key_to_pty_bytes("\n", false, true, false), vec![0x1b, 0x0a]);
    assert_eq!(key("\r"), vec![0x0d]);
    assert_eq!(key("\t"), vec![0x09]);
}

#[test]
fn bare_modifiers_send_nothing() {
    assert_eq!(key(""), Vec::<u8>::new());
    assert_eq!(key_to_pty_bytes("", false, true, false), Vec::<u8>::new());
    for n in 0x10u8..=0x18 {
        let k = (n as char).to_string();
        assert_eq!(key(&k), Vec::<u8>::new());
        assert_eq!(key_to_pty_bytes(&k, false, true, false), Vec::<u8>::new());
        // With Ctrl they are control characters.
        assert_eq!(key_to_pty_bytes(&k, true, false, false), vec![n]);
    }
}

#[test]
fn ctrl_makes_control_characters() {
    assert_eq!(key_to_pty_bytes("a", true, false, false), vec![0x01]);
    assert_eq!(key_to_pty_bytes("Z", true, false, false), vec![0x1a]);
    assert_eq!(key_to_pty_bytes("[", true, false, false), vec![0x1b]);
    assert_eq!(key_to_pty_bytes("\\", true, false, false), vec![0x1c]);
    assert_eq!(key_to_pty_bytes("]", true, false, false), vec![0x1d]);
    assert_eq!(key_to_pty_bytes("^", true, false, false), vec![0x1e]);
    assert_eq!(key_to_pty_bytes("_", true, false, false), vec![0x1f]);
    assert_eq!(key_to_pty_bytes("@", true, false, false), vec![0x00]);
    assert_eq!(key_to_pty_bytes("1", true, false, false), b"1");
    assert_eq!(key_to_pty_bytes("ab", true, false, false), b"ab");
    // The low byte of the character decides.
    assert_eq!(key_to_pty_bytes("\u{149}", true, false, false), vec![0x09]);
    assert_eq!(key_to_pty_bytes("\u{161}", true, false, false), "\u{161}".as_bytes());
    for n in b'a'..=b'z' {
        let lower = (n as char).to_string();
        let upper = lower.to_uppercase();
        assert_eq!(
            key_to_pty_bytes(&lower, true, false, false),
            key_to_pty_bytes(&upper, true, false, false)
        );
    }
}

#[test]
fn text_is_sent_as_utf8() {
    assert_eq!(key("a"), b"a");
    assert_eq!(key("中文"), "中文".as_bytes());
    assert_eq!(key_to_pty_bytes("é", false, true, false), "\x1bé".as_bytes());
    assert_eq!(key_to_pty_bytes("x", true, true, false), vec![0x18]);
    assert_eq!(key("\u{1b}"), vec![0x1b]);
}

#[test]
fn unknown_private_keys_send_nothing() {
    assert_eq!(key("\u{E000}"), Vec::<u8>::new());
    assert_eq!(key("\u{F8FF}"), Vec::<u8>::new());
    assert_eq!(key("a\u{F730}"), Vec::<u8>::new());
    assert_eq!(key("\u{F900}"), "\u{F900}".as_bytes());
}

#[test]
fn pasted_newlines() {
    assert_eq!(normalize_pasted_newlines("a\r\nb\nc\rd"), "a\rb\rc\rd");
    assert_eq!(normalize_pasted_newlines("\r\r\n\n"), "\r\r\r");
    assert_eq!(normalize_pasted_newlines(""), "");
    assert_eq!(normalize_pasted_newlines("no break"), "no break");
    assert_eq!(
        normalize_pasted_newlines("sudo apt install \\\r\n  docker-ce"),
        "sudo apt install \\\r  docker-ce"
    );
    for s in ["a\r\nb\n", "\n\n\r\n", "x\ry"] {
        let once = normalize_pasted_newlines(s);
        assert!(!once.contains('\n'));
        assert_eq!(normalize_pasted_newlines(&once), once);
        assert_eq!(once, s.replace("\r\n", "\r").replace('\n', "\r"));
    }
}

#[test]
fn line_numbers() {
    assert_eq!(line_numbers_for(""), "1");
    assert_eq!(line_numbers_for("a"), "1");
    assert_eq!(line_numbers_for("a\n"), "1\n2");
    assert_eq!(line_numbers_for("a\nb\nc"), "1\n2\n3");
    assert_eq!(line_numbers_for(&"\n".repeat(11)).lines().last(), Some("12"));
}

#[test]
fn redacted_keys() {
    assert_eq!(redact_key(""), "(empty)");
    assert_eq!(redact_key("a"), "<1 printable redacted>");
    assert_eq!(redact_key("secret"), "<6 printable redacted>");
    assert_eq!(redact_key("\u{1b}"), "U+001B");
    assert_eq!(redact_key("\u{7f}\u{9f}"), "U+007F,U+009F");
    assert_eq!(redact_key("a\u{3}b"), "U+0003,<2 printable redacted>");
    assert_eq!(redact_key("ab"), redact_key("xy"));
    assert_eq!(redact_key("\u{a0}"), "<1 printable redacted>");
}
