use meatshell::buffer::{
    apply_terminal_resize, is_roomy, rebuild_tab_display, BuiltScreen, TermBuffer,
};
use meatshell::feed::{is_screen_redraw, rewrite_csi, CsiState, RAW_CAP};
use meatshell::line::{detect_scroll, HistSpan, Line};
use meatshell::palette::Shade;
use meatshell::vt::VtColor;

fn fed(bytes: &[u8]) -> TermBuffer {
    let mut b = TermBuffer::new(true);
    b.ingest(bytes);
    b
}

fn row(b: &TermBuffer, i: usize) -> String {
    b.displayed_row(i).unwrap()
}

fn shown(b: &mut TermBuffer) -> (BuiltScreen, Vec<String>) {
    let s = b.render();
    let rows = b.size().0 as usize;
    let text = (0..rows).map(|i| row(b, i)).collect();
    (s, text)
}

fn numbered_lines(n: usize) -> Vec<u8> {
    let mut out = Vec::new();
    for i in 0..n {
        out.extend_from_slice(format!("line {i}\r\n").as_bytes());
    }
    out
}

fn line(text: &str) -> Line {
    (text.to_string(), Vec::<HistSpan>::new())
}

#[test]
fn new_terminal_is_blank() {
    let mut b = TermBuffer::new(true);
    assert_eq!(b.size(), (24, 80));
    let (s, text) = shown(&mut b);
    assert_eq!(s.spans.len(), 0);
    assert_eq!((s.cursor_row, s.cursor_col), (0, 0));
    assert_eq!(s.rows_used, 1);
    assert!(!s.is_alt);
    assert_eq!((s.scroll_max, s.scroll_offset), (0, 0));
    assert_eq!(text.len(), 24);
    assert!(text.iter().all(|t| t.is_empty()));
    let (live, used) = b.live_rows();
    assert_eq!(live.len(), 24);
    assert_eq!(used, 0);
    assert_eq!(live[0].0.len(), 80);
    assert_eq!(b.extract_selection_text(), "");
}

#[test]
fn plain_text_is_one_run() {
    let mut b = fed(b"hello");
    let (s, text) = shown(&mut b);
    assert_eq!(text[0], "hello");
    // Narrow cells that look alike form one run, the blanks of the row included.
    assert_eq!(s.spans.len(), 1);
    assert_eq!(s.spans[0].text.trim_end(), "hello");
    assert_eq!((s.spans[0].row, s.spans[0].col, s.spans[0].cells), (0, 0, 80));
    assert_eq!(s.spans[0].fg, Shade::Opaque(0xd4, 0xd4, 0xd4));
    assert_eq!(s.spans[0].bg, Shade::Clear);
    assert!(!s.spans[0].cjk);
    assert_eq!((s.cursor_row, s.cursor_col), (0, 5));
}

#[test]
fn colour_changes_split_runs() {
    let mut b = fed(b"ab\x1b[31mcd\x1b[0mef");
    let (s, _) = shown(&mut b);
    assert_eq!(s.spans.len(), 3);
    assert_eq!(s.spans[0].text, "ab");
    assert_eq!(s.spans[1].text, "cd");
    assert_eq!((s.spans[1].col, s.spans[1].cells), (2, 2));
    assert_eq!(s.spans[1].fg, Shade::Opaque(0xcd, 0x31, 0x31));
    assert_eq!(s.spans[2].text.trim_end(), "ef");
    assert_eq!(s.spans[2].col, 4);
}

#[test]
fn reverse_video_swaps_colours() {
    let mut b = fed(b"\x1b[7;31mx\x1b[0m");
    let (s, _) = shown(&mut b);
    assert_eq!(s.spans[0].text, "x");
    assert_eq!(s.spans[0].bg, Shade::Opaque(0xcd, 0x31, 0x31));
    assert_eq!(s.spans[0].fg, Shade::Opaque(0xd4, 0xd4, 0xd4));
}

#[test]
fn coloured_blanks_stay_visible() {
    let mut b = fed(b"\x1b[44m   \x1b[0m");
    let (s, text) = shown(&mut b);
    assert_eq!(s.spans.len(), 1);
    assert_eq!(s.spans[0].text, "   ");
    assert_eq!(s.spans[0].bg, Shade::Opaque(0x24, 0x72, 0xc8));
    assert_eq!(text[0], "");
}

#[test]
fn wide_glyph_has_its_own_span() {
    let mut b = fed("a中b".as_bytes());
    let (s, text) = shown(&mut b);
    assert_eq!(text[0], "a中b");
    assert_eq!(s.spans.len(), 3);
    assert_eq!((s.spans[1].text.as_str(), s.spans[1].col, s.spans[1].cells), ("中", 1, 2));
    assert!(s.spans[1].cjk);
    assert_eq!(s.spans[2].col, 3);
    assert_eq!(s.spans[2].text.trim_end(), "b");
}

#[test]
fn rows_of_a_terminal_hold_raw_colours() {
    let b = fed(b"\x1b[1;32mok\x1b[0m");
    let (live, used) = b.live_rows();
    assert_eq!(used, 1);
    assert_eq!(live[0].1.len(), 1);
    assert_eq!(live[0].1[0].text, "ok");
    assert_eq!(live[0].1[0].fg, VtColor::Idx(2));
    assert_eq!(live[0].1[0].bg, VtColor::Default);
    assert!(live[0].1[0].bold);
}

#[test]
fn scrolled_lines_join_the_history() {
    let mut b = fed(&numbered_lines(100));
    assert_eq!(b.history_len(), 100 - 23);
    let (s, text) = shown(&mut b);
    assert_eq!(s.scroll_max, 77);
    assert_eq!(text[0], "line 77");
    assert_eq!(text[22], "line 99");
    assert_eq!(text[23], "");
    assert_eq!(s.rows_used, 23);
    // The live view starts right after the history.
    assert_eq!(b.vis_to_abs(0), 77);
}

#[test]
fn tall_screens_lose_no_line() {
    let mut b = TermBuffer::new(true);
    apply_terminal_resize(&mut b, 80, 100);
    assert_eq!(b.size(), (100, 80));
    b.ingest(&numbered_lines(1000));
    assert_eq!(b.history_len(), 1000 - 99);
    b.set_view_offset(b.history_len());
    let (_, text) = shown(&mut b);
    assert_eq!(text[0], "line 0");
    assert_eq!(text[99], "line 99");
}

#[test]
fn scrolling_moves_line_by_line() {
    let mut b = fed(&numbered_lines(60));
    let (_, live) = shown(&mut b);
    b.set_view_offset(1);
    let (s, one) = shown(&mut b);
    assert_eq!(s.cursor_row, -1);
    assert_eq!(s.scroll_offset, 1);
    assert_eq!(s.rows_used, 24);
    for i in 0..23 {
        assert_eq!(one[i + 1], live[i]);
    }
    assert_eq!(b.vis_to_abs(5), 60 - 23 - 1 + 5);
    // Past the oldest line the view stays at the top.
    b.set_view_offset(usize::MAX);
    let (_, top) = shown(&mut b);
    assert_eq!(top[0], "line 0");
    assert_eq!(b.vis_to_abs(0), 0);
}

#[test]
fn reads_can_be_cut_anywhere() {
    let bytes: Vec<u8> = "ab\x1b[3;5fX中\x1b[31mred\x1b[0m\r\nend".bytes().collect();
    let mut whole = fed(&bytes);
    let (a, ta) = shown(&mut whole);
    for cut in 0..bytes.len() {
        let mut b = TermBuffer::new(true);
        b.ingest(&bytes[..cut]);
        b.ingest(&bytes[cut..]);
        let (s, t) = shown(&mut b);
        assert_eq!(ta, t);
        assert_eq!((a.cursor_row, a.cursor_col), (s.cursor_row, s.cursor_col));
        assert_eq!(a.spans.len(), s.spans.len());
    }
    // HVP places the cursor as CUP does.
    assert_eq!(ta[2], "    X中red");
}

#[test]
fn csi_rewrite_touches_finals_only() {
    let (out, state) = rewrite_csi(CsiState::Normal, b"f\x1b[1;2ff\x1bf\x1b[31mf");
    assert_eq!(out, b"f\x1b[1;2Hf\x1bf\x1b[31mf".to_vec());
    assert_eq!(state, CsiState::Normal);
    let (one, mid) = rewrite_csi(CsiState::Normal, b"\x1b[12");
    assert_eq!(one, b"\x1b[12".to_vec());
    assert_eq!(mid, CsiState::Csi);
    let (two, _) = rewrite_csi(mid, b";3f");
    assert_eq!(two, b";3H".to_vec());
    assert_eq!(rewrite_csi(CsiState::Esc, b"\x1b").1, CsiState::Esc);
    assert_eq!(rewrite_csi(CsiState::Esc, b"x").1, CsiState::Normal);
    let (again, _) = rewrite_csi(CsiState::Normal, &out);
    assert_eq!(again, out);
}

#[test]
fn rewrite_hvp_keeps_its_state() {
    let mut b = TermBuffer::new(true);
    assert_eq!(b.rewrite_hvp(b"\x1b[5"), b"\x1b[5".to_vec());
    assert_eq!(b.rewrite_hvp(b"f"), b"H".to_vec());
    assert_eq!(b.rewrite_hvp(b"f"), b"f".to_vec());
}

#[test]
fn alternate_screen_keeps_no_history() {
    let mut b = fed(&numbered_lines(50));
    let before = b.history_len();
    b.set_view_offset(3);
    b.ingest(b"\x1b[?1049h");
    b.ingest(&numbered_lines(50));
    let (s, _) = shown(&mut b);
    assert!(s.is_alt);
    assert_eq!(s.scroll_max, 0);
    assert_eq!(s.scroll_offset, 0);
    assert_eq!(s.rows_used, 24);
    assert_eq!(b.history_len(), before);
    b.ingest(b"\x1b[?1049l");
    let (s, text) = shown(&mut b);
    assert!(!s.is_alt);
    assert_eq!(text[0], "line 27");
}

#[test]
fn screen_redraw_is_not_history() {
    assert!(is_screen_redraw(b"\x1b[H\x1b[2J"));
    assert!(is_screen_redraw(b"x\x1b[Jy\x1b[H"));
    assert!(!is_screen_redraw(b"\x1b[H"));
    assert!(!is_screen_redraw(b"\x1b[2J"));
    assert!(!is_screen_redraw(b""));
    let mut b = fed(&numbered_lines(30));
    let before = b.history_len();
    b.ingest(b"\x1b[H\x1b[2Jframe");
    assert_eq!(b.history_len(), before);
}

#[test]
fn reflow_rewraps_long_lines() {
    let mut b = fed("x".repeat(100).as_bytes());
    let (_, text) = shown(&mut b);
    assert_eq!(text[0].len(), 80);
    assert_eq!(text[1].len(), 20);
    apply_terminal_resize(&mut b, 120, 24);
    let (_, text) = shown(&mut b);
    assert_eq!(b.size(), (24, 120));
    assert_eq!(text[0].len(), 100);
    assert_eq!(text[1], "");
    apply_terminal_resize(&mut b, 40, 10);
    let (_, text) = shown(&mut b);
    assert_eq!(text[0].len(), 40);
    assert_eq!(text[2].len(), 20);
    assert_eq!(b.retained_len(), 100);
}

#[test]
fn reflow_shows_what_a_fresh_terminal_shows() {
    let bytes = numbered_lines(40);
    let mut b = fed(&bytes);
    b.set_selection(Some((0, 0)), Some((3, 4)));
    b.set_view_offset(2);
    b.reflow(30, 60);
    let mut f = TermBuffer::new(true);
    apply_terminal_resize(&mut f, 60, 30);
    f.ingest(&bytes);
    let (s, tb) = shown(&mut b);
    let (_, tf) = shown(&mut f);
    assert_eq!(tb, tf);
    assert_eq!(b.history_len(), f.history_len());
    assert_eq!(s.scroll_offset, 0);
    assert_eq!(b.extract_selection_text(), "");
}

#[test]
fn resize_to_the_same_size_changes_nothing() {
    let mut b = fed(&numbered_lines(40));
    b.set_view_offset(2);
    let (_, before) = shown(&mut b);
    apply_terminal_resize(&mut b, 80, 24);
    let (_, after) = shown(&mut b);
    assert_eq!(before, after);
}

#[test]
fn alternate_screen_is_resized_in_place() {
    let mut b = fed(b"\x1b[?1049htop");
    apply_terminal_resize(&mut b, 100, 40);
    assert_eq!(b.size(), (40, 100));
    let (s, text) = shown(&mut b);
    assert!(s.is_alt);
    assert_eq!(text[0], "top");
}

#[test]
fn shrunk_alternate_screen_still_takes_bytes() {
    let mut b = fed(b"\x1b[24;1Hshell\x1b[?1049h\x1b[Hvim");
    apply_terminal_resize(&mut b, 20, 5);
    assert_eq!(b.size(), (5, 20));
    // Leaving the alternate screen restores a cursor that lay past the new edge.
    b.renew();
    b.ingest(b"\x1b[?1049l\x1b[Hback");
    let (s, text) = shown(&mut b);
    assert!(!s.is_alt);
    assert_eq!(text[0].trim_end(), "back");
    assert_eq!(b.size(), (5, 20));
}

#[test]
fn shrunk_alternate_screen_stays_alternate() {
    let mut b = fed(b"\x1b[?1049hvim");
    apply_terminal_resize(&mut b, 40, 10);
    b.renew();
    b.ingest(b"\x1b[2;1Hredrawn");
    let (s, text) = shown(&mut b);
    assert!(s.is_alt);
    assert_eq!(text[1], "redrawn");
}

#[test]
fn shrunk_alternate_screen_keeps_scrollback_and_selection() {
    let mut b = fed(&numbered_lines(60));
    let kept = b.history_len();
    assert!(kept > 0);
    b.set_selection(Some((1, 0)), Some((2, 79)));
    b.ingest(b"\x1b[?1049hvim");
    apply_terminal_resize(&mut b, 40, 10);
    b.renew();
    b.ingest(b"\x1b[2;1Hredrawn");
    assert_eq!(b.history_len(), kept);
    assert_eq!(b.extract_selection_text(), "line 1\nline 2");
    let (s, text) = shown(&mut b);
    assert!(s.is_alt);
    assert_eq!(text[1], "redrawn");
}

#[test]
fn renewing_an_intact_terminal_changes_nothing() {
    let mut b = fed(b"\x1b[3;4Hdrawn\x1b[?1049hvim");
    apply_terminal_resize(&mut b, 100, 40);
    let (before, text) = shown(&mut b);
    b.renew();
    let (after, again) = shown(&mut b);
    assert_eq!(text, again);
    assert_eq!((before.cursor_row, before.cursor_col), (after.cursor_row, after.cursor_col));
}

#[test]
fn reflowing_again_changes_nothing() {
    let mut b = fed(&numbered_lines(60));
    b.set_view_offset(5);
    b.reflow(30, 50);
    let (once, text) = shown(&mut b);
    let kept = b.history_len();
    assert_eq!((once.scroll_offset, once.scroll_max), (0, kept as i32));
    b.reflow(10, 20);
    b.reflow(30, 50);
    let (_, again) = shown(&mut b);
    assert_eq!(again, text);
    assert_eq!(b.history_len(), kept);
}

#[test]
fn room_for_any_byte() {
    assert!(is_roomy(2, 3));
    assert!(!is_roomy(1, 80));
    assert!(!is_roomy(24, 2));
    assert!(!is_roomy(24, 65535));
    assert!(is_roomy(24, 65527));
}

#[test]
fn retained_stream_is_capped_at_a_line() {
    let mut b = TermBuffer::new(true);
    let mut line: Vec<u8> = vec![b'x'; 65535];
    line.push(b'\n');
    let lines = RAW_CAP / line.len();
    let mut bytes = Vec::new();
    for _ in 0..lines {
        bytes.extend_from_slice(&line);
    }
    b.ingest(&bytes);
    assert_eq!(b.retained_len(), RAW_CAP);
    b.ingest(b"xyz");
    // Three bytes too many cost the rest of the first line.
    assert_eq!(b.retained_len(), RAW_CAP + 3 - line.len());
    b.cap_raw();
    assert_eq!(b.retained_len(), RAW_CAP + 3 - line.len());
}

#[test]
fn selection_copies_across_screens() {
    let mut b = fed(&numbered_lines(100));
    b.set_selection(Some((2, 5)), Some((4, 3)));
    assert_eq!(b.extract_selection_text(), "2\nline 3\nline");
    // Which end the drag began at, and where the view is, do not matter.
    b.set_selection(Some((4, 3)), Some((2, 5)));
    assert_eq!(b.extract_selection_text(), "2\nline 3\nline");
    b.set_view_offset(50);
    assert_eq!(b.extract_selection_text(), "2\nline 3\nline");
    // Blank rows below the content add no lines.
    b.set_selection(Some((98, 0)), Some((100, 79)));
    assert_eq!(b.extract_selection_text(), "line 98\nline 99");
    // An end on such a row takes the last row of content whole, whatever its column.
    b.set_selection(Some((98, 0)), Some((100, 2)));
    assert_eq!(b.extract_selection_text(), "line 98\nline 99");
    b.set_selection(Some((99, 3)), Some((100, 0)));
    assert_eq!(b.extract_selection_text(), "e 99");
    b.set_selection(Some((101, 0)), Some((102, 4)));
    assert_eq!(b.extract_selection_text(), "");
    b.set_selection(Some((0, 0)), Some((99, 79)));
    let all = b.extract_selection_text();
    assert_eq!(all.lines().count(), 100);
    assert_eq!(all.lines().next(), Some("line 0"));
    assert_eq!(all.lines().last(), Some("line 99"));
}

#[test]
fn selection_goes_by_columns() {
    let mut b = fed("a中文b\r\nnext".as_bytes());
    b.set_selection(Some((0, 1)), Some((0, 2)));
    assert_eq!(b.extract_selection_text(), "中");
    // Half a wide glyph selects it.
    b.set_selection(Some((0, 2)), Some((0, 3)));
    assert_eq!(b.extract_selection_text(), "中文");
    b.set_selection(Some((0, 5)), Some((0, 5)));
    assert_eq!(b.extract_selection_text(), "b");
    b.set_selection(Some((0, 5)), None);
    assert_eq!(b.extract_selection_text(), "");
}

#[test]
fn copied_lines_end_in_no_white_space() {
    let mut b = fed("one  \r\n\r\n  two \u{3000}\r\nthree four".as_bytes());
    b.set_selection(Some((0, 0)), Some((3, 5)));
    let text = b.extract_selection_text();
    assert_eq!(text, "one\n\n  two\nthree");
    assert!(text.lines().all(|l| l.trim_end() == l));
}

#[test]
fn selection_keeps_marks() {
    let mut b = fed("e\u{301}x".as_bytes());
    b.set_selection(Some((0, 0)), Some((0, 0)));
    assert_eq!(b.extract_selection_text(), "e\u{301}");
    b.set_selection(Some((0, 1)), Some((0, 1)));
    assert_eq!(b.extract_selection_text(), "x");
}

#[test]
fn selection_highlights() {
    let mut b = fed(&numbered_lines(10));
    assert_eq!(b.selection_rects_visible(80).len(), 0);
    b.set_selection(Some((1, 3)), Some((3, 5)));
    let r = b.selection_rects_visible(80);
    assert_eq!(r.len(), 3);
    assert_eq!((r[0].row, r[0].col, r[0].len), (1, 3, 77));
    assert_eq!((r[1].row, r[1].col, r[1].len), (2, 0, 80));
    assert_eq!((r[2].row, r[2].col, r[2].len), (3, 0, 6));
    b.set_selection(Some((1, 7)), Some((1, 3)));
    let r = b.selection_rects_visible(80);
    assert_eq!((r[0].row, r[0].col, r[0].len), (1, 3, 5));
    // A click selects nothing.
    b.set_selection(Some((1, 7)), Some((1, 7)));
    assert_eq!(b.selection_rects_visible(80).len(), 0);
    // A selection beyond the screen shows nothing.
    b.set_selection(Some((30, 0)), Some((31, 1)));
    assert_eq!(b.selection_rects_visible(80).len(), 0);
}

#[test]
fn selection_highlights_follow_the_view() {
    let mut b = fed(&numbered_lines(60));
    b.set_selection(Some((0, 0)), Some((59, 79)));
    assert_eq!(b.selection_rects_visible(80).len(), 23);
    b.set_view_offset(37);
    let r = b.selection_rects_visible(80);
    assert_eq!(r.len(), 24);
    assert_eq!(r[0].row, 0);
    b.set_selection(Some((1, 0)), Some((2, 4)));
    let r = b.selection_rects_visible(80);
    assert_eq!(r.len(), 2);
    assert_eq!((r[0].row, r[1].row), (1, 2));
    assert_eq!(r[1].len, 5);
}

#[test]
fn theme_switch_changes_colours_only() {
    let mut b = fed(b"a\x1b[33mb\x1b[0m \x1b[38;2;255;255;255mc\x1b[48;2;0;0;0md");
    let (dark, td) = shown(&mut b);
    b.set_dark(false);
    let (light, tl) = shown(&mut b);
    assert_eq!(td, tl);
    assert_eq!(dark.spans.len(), light.spans.len());
    for (d, l) in dark.spans.iter().zip(light.spans.iter()) {
        assert_eq!((&d.text, d.row, d.col, d.cells, d.bold, d.cjk), (&l.text, l.row, l.col, l.cells, l.bold, l.cjk));
    }
    assert_eq!(dark.spans[0].fg, Shade::Opaque(0xd4, 0xd4, 0xd4));
    assert_eq!(light.spans[0].fg, Shade::Opaque(0x2d, 0x2d, 0x2f));
    assert_eq!(light.spans[1].fg, Shade::Opaque(0x85, 0x64, 0x04));
    assert_eq!(light.spans[2].fg, Shade::Darkened(255, 255, 255));
    assert_eq!(light.spans[3].bg, Shade::Lightened(0, 0, 0));
}

#[test]
fn display_has_find_matches_and_selection() {
    let mut b = fed("foo 中Foo\r\nbar".as_bytes());
    b.set_find_query("FOO");
    b.set_selection(Some((1, 0)), Some((1, 1)));
    let d = rebuild_tab_display(&mut b);
    assert_eq!(d.find_matches.len(), 2);
    assert_eq!((d.find_matches[0].row, d.find_matches[0].col, d.find_matches[0].len), (0, 0, 3));
    assert_eq!((d.find_matches[1].row, d.find_matches[1].col, d.find_matches[1].len), (0, 6, 3));
    assert_eq!(d.selection.len(), 1);
    assert_eq!(d.screen.rows_used, 2);
}

#[test]
fn scroll_detection() {
    let prev = vec![line("a"), line("b"), line("c"), line("d")];
    let up = vec![line("c"), line("d"), line("e"), line("f")];
    assert_eq!(detect_scroll(&prev, &up), 2);
    assert_eq!(detect_scroll(&prev, &[]), 0);
    // The longest run of equal lines from the top counts, not the whole screen.
    let partly = vec![line("b"), line("c"), line("x"), line("y")];
    assert_eq!(detect_scroll(&prev, &partly), 1);
    // Of runs as long, one without a differing line below it counts.
    let old = [line("a"), line("b"), line("a")];
    assert_eq!(detect_scroll(&old, &[line("a"), line("c")]), 2);
    assert_eq!(detect_scroll(&old, &[line("a"), line("c"), line("d")]), 2);
    // With nothing in common no scroll is told.
    let other = vec![line("x"), line("y"), line("z"), line("w")];
    assert_eq!(detect_scroll(&prev, &other), 0);
    // Any shift within one screen is told.
    let tall: Vec<Line> = (0..30).map(|i| line(&format!("{i}"))).collect();
    let gone: Vec<Line> = (25..55).map(|i| line(&format!("{i}"))).collect();
    assert_eq!(detect_scroll(&tall, &gone), 25);
}

#[test]
fn unchanged_screen_is_not_scrolled() {
    let same: Vec<Line> = (0..24).map(|i| line(&format!("{i}"))).collect();
    assert_eq!(detect_scroll(&same, &same), 0);
    let alike: Vec<Line> = (0..24).map(|_| line("y")).collect();
    assert_eq!(detect_scroll(&alike, &alike), 0);
    let mut typed = same.iter().map(|l| line(&l.0)).collect::<Vec<Line>>();
    typed[23].0.push('x');
    assert_eq!(detect_scroll(&same, &typed), 0);
    let short = vec![line("a"), line("b")];
    let typed = vec![line("a"), line("bc")];
    assert_eq!(detect_scroll(&short, &typed), 0);
}
