//! A terminal as a mathematical value: what it holds, what is on view, what is selected, and
//! what each operation makes of it.

use vstd::prelude::*;

use crate::feed::{
    batch_end, batch_lines, batches, csi_after, law_batch_lines, law_batches,
    law_redraw_needs_home_and_erase, law_rewrite_across_chunks, lemma_batch_end_is,
    lemma_batch_end_is_the_end, newlines, redraws_screen, rejoined, retained, with_cup, CsiState,
    RAW_CAP,
};
use crate::grid::{
    cells_of, columns, end_char, law_narrow_selection, law_selection_takes_whole_glyphs,
    law_whole_line_is_selected, lemma_char_range, line_cells, start_char, start_col, TermMatch,
};
use crate::line::{
    law_one_char_per_cell, law_scroll_is_the_best_alignment, lemma_run_agrees, row_cells, row_line,
    row_runs, run_length, scrolled, single_lines, LineView, SpanView,
};
use crate::palette::{fill_shade, has_cjk, text_shade, Shade};
use crate::text::{
    all_pieces, lemma_first_piece, lemma_one_piece, lemma_trimmed_end, trimmed_end, white_space,
};
use crate::vt::{
    alternate_after, byte_ops, cursor_after, grid_cols, grid_rows, lemma_bytes_keep, roomy, steady,
    VtOp,
};

verus! {

/// Per-session scrollback cap (recycled on clear / tab close).
pub const MAX_HISTORY: usize = 100_000;

/// The scrollback that the emulator itself is asked to keep.
pub const PARSER_SCROLLBACK: usize = 5000;

/// What a terminal holds.
#[verifier::ext_equal]
pub ghost struct TermView {
    pub log: Seq<VtOp>,
    pub find_query: Seq<char>,
    pub is_dark: bool,
    pub sel_anchor: Option<(usize, u16)>,
    pub sel_focus: Option<(usize, u16)>,
    pub history: Seq<LineView>,
    pub prev: Seq<LineView>,
    pub view_offset: usize,
    pub displayed: Seq<Seq<char>>,
    pub csi_state: CsiState,
    pub raw: Seq<u8>,
}

// ---- The screen -----------------------------------------------------------

/// The lines of the live screen.
pub open spec fn screen_lines(log: Seq<VtOp>) -> Seq<LineView> {
    Seq::new(
        grid_rows(log) as nat,
        |r: int| row_line(row_cells(log, r as u16, grid_cols(log))),
    )
}

/// The lines up to the last one with a visible run.
pub open spec fn used_rows(lines: Seq<LineView>) -> nat
    decreases lines.len(),
{
    if lines.len() == 0 {
        0
    } else if lines.last().runs.len() != 0 {
        lines.len()
    } else {
        used_rows(lines.drop_last())
    }
}

// ---- The view -------------------------------------------------------------

/// The virtual buffer: history, oldest first, then the live screen.
pub open spec fn combined(v: TermView) -> Seq<LineView> {
    v.history + screen_lines(v.log)
}

/// The row of the virtual buffer that is on top of the view: the first live row, or as many
/// rows further up as the view is scrolled back, but not above the oldest.
pub open spec fn view_top(v: TermView) -> nat {
    if v.view_offset <= v.history.len() {
        (v.history.len() - v.view_offset) as nat
    } else {
        0
    }
}

/// Whether one end of a selection stands before another, or is the same.
pub open spec fn not_after(a: (usize, u16), b: (usize, u16)) -> bool {
    a.0 < b.0 || (a.0 == b.0 && a.1 <= b.1)
}

/// The two ends of the selection, the earlier one first.
pub open spec fn selection(v: TermView) -> Option<((usize, u16), (usize, u16))> {
    match (v.sel_anchor, v.sel_focus) {
        (Some(a), Some(f)) => if not_after(a, f) {
            Some((a, f))
        } else {
            Some((f, a))
        },
        _ => None,
    }
}

/// The lesser of two columns.
pub open spec fn col_min(a: u16, b: u16) -> u16 {
    if a <= b {
        a
    } else {
        b
    }
}

/// The greater of two columns.
pub open spec fn col_max(a: u16, b: u16) -> u16 {
    if a >= b {
        a
    } else {
        b
    }
}

/// The first and the last selected column of a row between two ends, where `edge` is the last
/// column of a row that is selected to its end.
pub open spec fn selected_cols(
    row: int,
    lo: (usize, u16),
    hi: (usize, u16),
    edge: u16,
) -> (u16, u16) {
    if row == lo.0 && row == hi.0 {
        (col_min(lo.1, hi.1), col_max(lo.1, hi.1))
    } else if row == lo.0 {
        (lo.1, edge)
    } else if row == hi.0 {
        (0, hi.1)
    } else {
        (0, edge)
    }
}

/// The highlight of one visible row.
pub open spec fn selection_rect(
    vis: int,
    top: nat,
    lo: (usize, u16),
    hi: (usize, u16),
    cols: u16,
) -> TermMatch {
    let edge = if cols > 0 {
        (cols - 1) as u16
    } else {
        0
    };
    let (c0, c1) = selected_cols(top + vis, lo, hi, edge);
    TermMatch {
        row: vis as i32,
        col: c0 as i32,
        len: if c1 >= c0 {
            (c1 - c0 + 1) as i32
        } else {
            1
        },
    }
}

/// The visible rows that a selection touches: the first one, and the one past the last.
pub open spec fn selected_rows(rows: u16, top: nat, lo: usize, hi: usize) -> (int, int) {
    let first = if lo <= top {
        0
    } else if lo - top <= rows {
        lo - top
    } else {
        rows as int
    };
    let past = if hi < top {
        0
    } else if hi - top + 1 <= rows {
        hi - top + 1
    } else {
        rows as int
    };
    (first, past)
}

/// The highlights of the selection on the visible rows, top to bottom.
pub open spec fn selection_rects(v: TermView, cols: u16) -> Seq<TermMatch> {
    match selection(v) {
        Some((lo, hi)) => {
            let top = view_top(v);
            let (first, past) = selected_rows(grid_rows(v.log), top, lo.0, hi.0);
            if lo == hi || first >= past {
                Seq::empty()
            } else {
                Seq::new(
                    (past - first) as nat,
                    |i: int| selection_rect(first + i, top, lo, hi, cols),
                )
            }
        },
        None => Seq::empty(),
    }
}

/// The plain text of a row of the virtual buffer.
pub open spec fn combined_text(v: TermView, row: int) -> Seq<char> {
    if 0 <= row < combined(v).len() {
        combined(v)[row].text
    } else {
        Seq::empty()
    }
}

/// The part of a line between two columns, both included, without white space at its end.
pub open spec fn between_cols(line: Seq<char>, cols: (u16, u16)) -> Seq<char> {
    let from = start_char(columns(line), cols.0 as usize, 0);
    let to = end_char(columns(line), cols.1 as usize, 0);
    if from < to {
        trimmed_end(line.subrange(from, to))
    } else {
        Seq::empty()
    }
}

/// The selected text of the rows from `row` on, up to that of the end `hi`, one line each.
pub open spec fn selected_text(v: TermView, lo: (usize, u16), hi: (usize, u16), row: int) -> Seq<
    char,
>
    decreases hi.0 - row + 1,
{
    if row > hi.0 {
        Seq::empty()
    } else {
        let here = between_cols(combined_text(v, row), selected_cols(row, lo, hi, u16::MAX));
        if row == hi.0 {
            here
        } else {
            here.push('\n') + selected_text(v, lo, hi, row + 1)
        }
    }
}

/// The last row of the virtual buffer with content, or the first row.
pub open spec fn last_used_row(v: TermView) -> int {
    let n = v.history.len() + used_rows(screen_lines(v.log));
    if n > 0 {
        n - 1
    } else {
        0
    }
}

/// The end of a selection within the content: an end on a blank row below it takes in the last
/// row with content, whole.
pub open spec fn content_end(v: TermView, hi: (usize, u16)) -> (usize, u16) {
    if hi.0 <= last_used_row(v) {
        hi
    } else {
        (last_used_row(v) as usize, u16::MAX)
    }
}

/// The text of the selection, without the blank rows below the content.
pub open spec fn selection_text(v: TermView) -> Seq<char> {
    match selection(v) {
        Some((lo, hi)) => selected_text(v, lo, content_end(v, hi), lo.0 as int),
        None => Seq::empty(),
    }
}

/// A terminal in which nothing has happened yet.
pub open spec fn fresh(rows: u16, cols: u16, is_dark: bool) -> TermView {
    TermView {
        log: seq![VtOp::New { rows: rows, cols: cols, scrollback: PARSER_SCROLLBACK }],
        find_query: Seq::empty(),
        is_dark: is_dark,
        sel_anchor: None,
        sel_focus: None,
        history: Seq::empty(),
        prev: Seq::empty(),
        view_offset: 0,
        displayed: Seq::empty(),
        csi_state: CsiState::Normal,
        raw: Seq::empty(),
    }
}

// ---- Feeding --------------------------------------------------------------

/// Lines without the oldest ones that exceed the scrollback cap.
pub open spec fn recent(lines: Seq<LineView>) -> Seq<LineView> {
    if lines.len() > MAX_HISTORY {
        lines.skip(lines.len() - MAX_HISTORY)
    } else {
        lines
    }
}

/// The terminal after one batch. What scrolled off the top since the last batch joins the
/// history; on the alternate screen, and when the batch redraws the screen, nothing does, and
/// the view snaps back to the live screen.
pub open spec fn after_chunk(v: TermView, bytes: Seq<u8>) -> TermView {
    let log = v.log + byte_ops(bytes);
    if alternate_after(log) || redraws_screen(bytes) {
        TermView { log: log, view_offset: 0, prev: Seq::empty(), ..v }
    } else {
        let curr = screen_lines(log);
        if v.prev.len() == 0 {
            TermView { log: log, prev: curr, ..v }
        } else {
            let gone = v.prev.take(scrolled(v.prev, curr));
            TermView { log: log, history: recent(v.history + gone), prev: curr, ..v }
        }
    }
}

/// The terminal after a list of batches.
pub open spec fn after_chunks(v: TermView, parts: Seq<Seq<u8>>) -> TermView
    decreases parts.len(),
{
    if parts.len() == 0 {
        v
    } else {
        after_chunks(after_chunk(v, parts[0]), parts.drop_first())
    }
}

/// The terminal after a stream of bytes, fed in batches.
pub open spec fn after_feed(v: TermView, bytes: Seq<u8>) -> TermView {
    after_chunks(v, batches(bytes, batch_lines(grid_rows(v.log))))
}

/// The terminal after bytes from the remote side: the stream is rewritten and retained, then
/// fed.
pub open spec fn after_ingest(v: TermView, input: Seq<u8>) -> TermView {
    let bytes = with_cup(v.csi_state, input);
    after_feed(
        TermView {
            csi_state: csi_after(v.csi_state, input),
            raw: retained(v.raw + bytes),
            ..v
        },
        bytes,
    )
}

/// The terminal rebuilt at a new size from the retained stream.
pub open spec fn after_reflow(v: TermView, rows: u16, cols: u16) -> TermView {
    after_feed(
        TermView {
            log: seq![VtOp::New { rows: rows, cols: cols, scrollback: PARSER_SCROLLBACK }],
            history: Seq::empty(),
            prev: Seq::empty(),
            view_offset: 0,
            sel_anchor: None,
            sel_focus: None,
            ..v
        },
        v.raw,
    )
}

/// The terminal after a settled resize. On the alternate screen the grid alone is resized,
/// because the remote side redraws it; otherwise what was printed is reflowed. Either way the
/// snapshot for scroll detection is dropped. A size that stays changes nothing.
pub open spec fn after_resize(v: TermView, rows: u16, cols: u16) -> TermView {
    if rows == grid_rows(v.log) && cols == grid_cols(v.log) {
        v
    } else if alternate_after(v.log) {
        TermView {
            log: v.log.push(VtOp::Resize { rows: rows, cols: cols }),
            prev: Seq::empty(),
            ..v
        }
    } else {
        TermView { prev: Seq::empty(), ..after_reflow(v, rows, cols) }
    }
}

/// The next batch of a stream is fed first.
pub proof fn lemma_next_batch(v: TermView, rest: Seq<u8>, limit: nat)
    requires
        rest.len() > 0,
    ensures
        after_chunks(v, batches(rest, limit)) == after_chunks(
            after_chunk(v, rest.take(batch_end(rest, limit, 0))),
            batches(rest.skip(batch_end(rest, limit, 0)), limit),
        ),
{
    let e = batch_end(rest, limit, 0);
    let all = batches(rest, limit);
    let tail = batches(rest.skip(e), limit);
    assert(all == seq![rest.take(e)] + tail);
    assert(all.drop_first() =~= tail);
}

// ---- Resizing -------------------------------------------------------------

/// The sequence that switches to the alternate screen.
pub open spec fn enter_alternate() -> Seq<u8> {
    seq![0x1bu8, 0x5b, 0x3f, 0x31, 0x30, 0x34, 0x39, 0x68]
}

/// The log of an emulator made anew at the size of another one, fed the retained stream, and put
/// back on the alternate screen where that stream no longer says so.
pub open spec fn renewed_log(v: TermView) -> Seq<VtOp> {
    let again = seq![
        VtOp::New {
            rows: grid_rows(v.log),
            cols: grid_cols(v.log),
            scrollback: PARSER_SCROLLBACK,
        },
    ] + byte_ops(v.raw);
    if alternate_after(v.log) && !alternate_after(again) {
        again + byte_ops(enter_alternate())
    } else {
        again
    }
}

/// The terminal with an emulator that can take any byte: a new one where it was made smaller. The
/// scrollback, the view on it and the selection stay.
pub open spec fn renewed(v: TermView) -> TermView {
    if steady(v.log) {
        v
    } else {
        TermView { log: renewed_log(v), ..v }
    }
}

// ---- Rendering ------------------------------------------------------------

/// What a painted run holds.
#[verifier::ext_equal]
pub ghost struct PaintView {
    pub text: Seq<char>,
    pub fg: Shade,
    pub bg: Shade,
    pub bold: bool,
    pub row: i32,
    pub col: i32,
    pub cells: i32,
    pub cjk: bool,
}

/// What a snapshot holds.
#[verifier::ext_equal]
pub ghost struct BuiltView {
    pub spans: Seq<PaintView>,
    pub cursor_row: i32,
    pub cursor_col: i32,
    pub rows_used: i32,
    pub is_alt: bool,
    pub scroll_max: i32,
    pub scroll_offset: i32,
}

/// A run painted on a visible row with the palette of the theme.
pub open spec fn painted(run: SpanView, row: int, is_dark: bool) -> PaintView {
    PaintView {
        text: run.text,
        fg: text_shade(run.fg, run.bold, is_dark),
        bg: fill_shade(run.bg, is_dark),
        bold: run.bold,
        row: row as i32,
        col: run.col,
        cells: run.cells,
        cjk: has_cjk(run.text),
    }
}

/// The runs of one visible row, painted.
pub open spec fn painted_row(line: LineView, row: int, is_dark: bool) -> Seq<PaintView> {
    line.runs.map_values(|run: SpanView| painted(run, row, is_dark))
}

/// The runs of the first `n` visible rows, painted, top to bottom.
pub open spec fn painted_rows(lines: Seq<LineView>, is_dark: bool, n: int) -> Seq<PaintView>
    decreases n,
{
    if n <= 0 {
        Seq::empty()
    } else {
        painted_rows(lines, is_dark, n - 1) + painted_row(lines[n - 1], n - 1, is_dark)
    }
}

/// Whether the live screen is on view: always so on the alternate screen.
pub open spec fn is_live(v: TermView) -> bool {
    alternate_after(v.log) || v.view_offset == 0
}

/// The lines on view: a window as high as the screen, into the virtual buffer.
pub open spec fn shown_lines(v: TermView) -> Seq<LineView> {
    if is_live(v) {
        screen_lines(v.log)
    } else {
        combined(v).subrange(view_top(v) as int, view_top(v) + grid_rows(v.log))
    }
}

/// The snapshot of what is on view.
pub open spec fn rendered(v: TermView) -> BuiltView {
    let lines = shown_lines(v);
    let rows = grid_rows(v.log) as int;
    let alt = alternate_after(v.log);
    let used = used_rows(lines);
    BuiltView {
        spans: painted_rows(lines, v.is_dark, rows),
        cursor_row: if is_live(v) {
            cursor_after(v.log).0 as i32
        } else {
            (-1) as i32
        },
        cursor_col: if is_live(v) {
            cursor_after(v.log).1 as i32
        } else {
            0
        },
        rows_used: if !is_live(v) || alt {
            rows as i32
        } else if used > 0 {
            used as i32
        } else {
            1
        },
        is_alt: alt,
        scroll_max: if alt {
            0
        } else {
            v.history.len() as i32
        },
        scroll_offset: if is_live(v) {
            0
        } else {
            v.view_offset as i32
        },
    }
}

/// The terminal after it was rendered: it knows the text on display.
pub open spec fn after_render(v: TermView) -> TermView {
    TermView { displayed: shown_lines(v).map_values(|l: LineView| trimmed_end(l.text)), ..v }
}

// ---- Laws -----------------------------------------------------------------

/// Joined bytes are joined in the log.
pub proof fn lemma_byte_ops_joined(a: Seq<u8>, b: Seq<u8>)
    ensures
        byte_ops(a + b) == byte_ops(a) + byte_ops(b),
{
    assert(byte_ops(a + b) =~= byte_ops(a) + byte_ops(b));
}

/// What feeding leaves as it is.
pub open spec fn same_frame(a: TermView, b: TermView) -> bool {
    &&& a.find_query == b.find_query
    &&& a.is_dark == b.is_dark
    &&& a.sel_anchor == b.sel_anchor
    &&& a.sel_focus == b.sel_focus
    &&& a.displayed == b.displayed
    &&& a.csi_state == b.csi_state
    &&& a.raw == b.raw
}

/// Batches reach the emulator as the bytes they are cut from, leave the theme, the search, the
/// selection and the retained stream alone, and keep the scrollback within its cap.
proof fn lemma_chunks(v: TermView, parts: Seq<Seq<u8>>)
    ensures
        after_chunks(v, parts).log == v.log + byte_ops(rejoined(parts)),
        same_frame(after_chunks(v, parts), v),
        v.history.len() <= MAX_HISTORY ==> after_chunks(v, parts).history.len() <= MAX_HISTORY,
    decreases parts.len(),
{
    if parts.len() == 0 {
        assert(v.log + byte_ops(Seq::<u8>::empty()) =~= v.log);
    } else {
        let next = after_chunk(v, parts[0]);
        lemma_chunks(next, parts.drop_first());
        lemma_byte_ops_joined(parts[0], rejoined(parts.drop_first()));
        assert((v.log + byte_ops(parts[0])) + byte_ops(rejoined(parts.drop_first())) =~= v.log
            + byte_ops(rejoined(parts)));
    }
}

/// Feeding in batches is feeding the whole: the emulator gets every byte once, in order. The
/// theme, the search, the selection and the retained stream stay, and the scrollback stays
/// within its cap.
pub proof fn law_feeding_in_batches(v: TermView, bytes: Seq<u8>)
    ensures
        after_feed(v, bytes).log == v.log + byte_ops(bytes),
        same_frame(after_feed(v, bytes), v),
        v.history.len() <= MAX_HISTORY ==> after_feed(v, bytes).history.len() <= MAX_HISTORY,
        grid_rows(after_feed(v, bytes).log) == grid_rows(v.log),
        grid_cols(after_feed(v, bytes).log) == grid_cols(v.log),
{
    law_batch_lines(grid_rows(v.log));
    law_batches(bytes, batch_lines(grid_rows(v.log)));
    lemma_chunks(v, batches(bytes, batch_lines(grid_rows(v.log))));
    lemma_bytes_keep(v.log, bytes);
}

/// It does not matter how the network cuts the stream: two reads in turn leave the emulator
/// and the scanner as one read of the joined bytes does.
pub proof fn law_reads_can_be_cut_anywhere(v: TermView, a: Seq<u8>, b: Seq<u8>)
    ensures
        after_ingest(after_ingest(v, a), b).log == after_ingest(v, a + b).log,
        after_ingest(after_ingest(v, a), b).csi_state == after_ingest(v, a + b).csi_state,
        screen_lines(after_ingest(after_ingest(v, a), b).log) == screen_lines(
            after_ingest(v, a + b).log,
        ),
{
    let s = v.csi_state;
    law_rewrite_across_chunks(s, a, b);
    let one = with_cup(s, a);
    let two = with_cup(csi_after(s, a), b);
    let v1 = TermView { csi_state: csi_after(s, a), raw: retained(v.raw + one), ..v };
    law_feeding_in_batches(v1, one);
    let w = after_feed(v1, one);
    let w1 = TermView { csi_state: csi_after(w.csi_state, b), raw: retained(w.raw + two), ..w };
    law_feeding_in_batches(w1, two);
    let u1 = TermView { csi_state: csi_after(s, a + b), raw: retained(v.raw + (one + two)), ..v };
    law_feeding_in_batches(u1, one + two);
    lemma_byte_ops_joined(one, two);
    assert((v.log + byte_ops(one)) + byte_ops(two) =~= v.log + byte_ops(one + two));
}

/// Reflowing shows what a fresh terminal of the new size shows once it was fed the retained
/// stream, whatever the terminal went through before; the retained stream, the theme and the
/// search stay, the selection is dropped and the view is live.
pub proof fn law_reflow_replays_the_stream(v: TermView, rows: u16, cols: u16)
    ensures
        after_reflow(v, rows, cols).log == after_feed(fresh(rows, cols, v.is_dark), v.raw).log,
        after_reflow(v, rows, cols).log == seq![
            VtOp::New { rows: rows, cols: cols, scrollback: PARSER_SCROLLBACK },
        ] + byte_ops(v.raw),
        after_reflow(v, rows, cols).history == after_feed(
            fresh(rows, cols, v.is_dark),
            v.raw,
        ).history,
        after_reflow(v, rows, cols).prev == after_feed(fresh(rows, cols, v.is_dark), v.raw).prev,
        after_reflow(v, rows, cols).view_offset == 0,
        after_reflow(v, rows, cols).raw == v.raw,
        after_reflow(v, rows, cols).csi_state == v.csi_state,
        after_reflow(v, rows, cols).is_dark == v.is_dark,
        after_reflow(v, rows, cols).find_query == v.find_query,
        after_reflow(v, rows, cols).sel_anchor is None,
        after_reflow(v, rows, cols).sel_focus is None,
        after_reflow(v, rows, cols).history.len() <= MAX_HISTORY,
{
    let start = TermView {
        log: seq![VtOp::New { rows: rows, cols: cols, scrollback: PARSER_SCROLLBACK }],
        history: Seq::empty(),
        prev: Seq::empty(),
        view_offset: 0,
        sel_anchor: None,
        sel_focus: None,
        ..v
    };
    law_feeding_in_batches(start, v.raw);
    law_feeding_in_batches(fresh(rows, cols, v.is_dark), v.raw);
    lemma_chunks_alike(
        start,
        fresh(rows, cols, v.is_dark),
        batches(v.raw, batch_lines(grid_rows(start.log))),
    );
}

/// What two terminals are fed makes the same screen, scrollback and view of the same ones; a
/// live view stays live.
proof fn lemma_chunks_alike(v: TermView, w: TermView, parts: Seq<Seq<u8>>)
    requires
        v.log == w.log,
        v.history == w.history,
        v.prev == w.prev,
        v.view_offset == w.view_offset,
    ensures
        after_chunks(v, parts).log == after_chunks(w, parts).log,
        after_chunks(v, parts).history == after_chunks(w, parts).history,
        after_chunks(v, parts).prev == after_chunks(w, parts).prev,
        after_chunks(v, parts).view_offset == after_chunks(w, parts).view_offset,
        v.view_offset == 0 ==> after_chunks(v, parts).view_offset == 0,
    decreases parts.len(),
{
    if parts.len() > 0 {
        lemma_chunks_alike(
            after_chunk(v, parts[0]),
            after_chunk(w, parts[0]),
            parts.drop_first(),
        );
    }
}

/// Reflowing depends on the retained stream and the size alone, so that doing it again changes
/// nothing, whatever size it went through in between.
pub proof fn law_reflowing_again_changes_nothing(
    v: TermView,
    rows: u16,
    cols: u16,
    via_rows: u16,
    via_cols: u16,
)
    ensures
        after_reflow(after_reflow(v, rows, cols), rows, cols) == after_reflow(v, rows, cols),
        after_reflow(after_reflow(v, via_rows, via_cols), rows, cols) == after_reflow(
            v,
            rows,
            cols,
        ),
{
    lemma_reflow_via(v, rows, cols, rows, cols);
    lemma_reflow_via(v, rows, cols, via_rows, via_cols);
}

proof fn lemma_reflow_via(v: TermView, rows: u16, cols: u16, via_rows: u16, via_cols: u16)
    ensures
        after_reflow(after_reflow(v, via_rows, via_cols), rows, cols) == after_reflow(
            v,
            rows,
            cols,
        ),
{
    let new = seq![VtOp::New { rows: rows, cols: cols, scrollback: PARSER_SCROLLBACK }];
    let w = after_reflow(v, via_rows, via_cols);
    let via = TermView {
        log: seq![VtOp::New { rows: via_rows, cols: via_cols, scrollback: PARSER_SCROLLBACK }],
        history: Seq::empty(),
        prev: Seq::empty(),
        view_offset: 0,
        sel_anchor: None,
        sel_focus: None,
        ..v
    };
    law_feeding_in_batches(via, v.raw);
    let a = TermView {
        log: new,
        history: Seq::empty(),
        prev: Seq::empty(),
        view_offset: 0,
        sel_anchor: None,
        sel_focus: None,
        ..v
    };
    let b = TermView {
        log: new,
        history: Seq::empty(),
        prev: Seq::empty(),
        view_offset: 0,
        sel_anchor: None,
        sel_focus: None,
        ..w
    };
    assert(a == b);
}

/// Bytes from the remote side leave the selection on its rows, the search and the theme alone,
/// and join the retained stream.
pub proof fn law_output_keeps_the_selection(v: TermView, input: Seq<u8>)
    ensures
        after_ingest(v, input).sel_anchor == v.sel_anchor,
        after_ingest(v, input).sel_focus == v.sel_focus,
        after_ingest(v, input).find_query == v.find_query,
        after_ingest(v, input).is_dark == v.is_dark,
        after_ingest(v, input).raw == retained(v.raw + with_cup(v.csi_state, input)),
{
    let bytes = with_cup(v.csi_state, input);
    law_feeding_in_batches(
        TermView {
            csi_state: csi_after(v.csi_state, input),
            raw: retained(v.raw + bytes),
            ..v
        },
        bytes,
    );
}

/// A renewed terminal can take any byte, and has the size, the scrollback, the view, the
/// selection and the retained stream that it had.
pub proof fn law_renewing_replaces_the_emulator_alone(v: TermView)
    requires
        roomy(grid_rows(v.log), grid_cols(v.log)),
    ensures
        steady(renewed(v).log),
        grid_rows(renewed(v).log) == grid_rows(v.log),
        grid_cols(renewed(v).log) == grid_cols(v.log),
        renewed(v) == (TermView { log: renewed(v).log, ..v }),
        renewed(renewed(v)) == renewed(v),
{
    let new = seq![
        VtOp::New {
            rows: grid_rows(v.log),
            cols: grid_cols(v.log),
            scrollback: PARSER_SCROLLBACK,
        },
    ];
    assert(new.drop_last().len() == 0);
    assert(steady(new));
    lemma_bytes_keep(new, v.raw);
    lemma_bytes_keep(new + byte_ops(v.raw), enter_alternate());
}

/// After a resize the grid has the size that was asked for, and a second resize to the same
/// size changes nothing.
pub proof fn law_resize_takes_effect(v: TermView, rows: u16, cols: u16)
    ensures
        grid_rows(after_resize(v, rows, cols).log) == rows,
        grid_cols(after_resize(v, rows, cols).log) == cols,
        after_resize(after_resize(v, rows, cols), rows, cols) == after_resize(v, rows, cols),
{
    if !(rows == grid_rows(v.log) && cols == grid_cols(v.log)) {
        if alternate_after(v.log) {
            assert(after_resize(v, rows, cols).log.last() == VtOp::Resize {
                rows: rows,
                cols: cols,
            });
        } else {
            law_reflow_replays_the_stream(v, rows, cols);
            let new = seq![VtOp::New { rows: rows, cols: cols, scrollback: PARSER_SCROLLBACK }];
            lemma_bytes_keep(new, v.raw);
            assert(new.last() == VtOp::New {
                rows: rows,
                cols: cols,
                scrollback: PARSER_SCROLLBACK,
            });
        }
    }
}

/// A batch leaves the retained stream, the selection, the search and the theme alone. Where the
/// alternate screen shows or the batch redraws the screen, the scrollback stays as it is, the
/// view is live and the snapshot is dropped; otherwise the new screen is the snapshot, the lines
/// that left the old one end the scrollback, and that stays within its cap.
pub proof fn law_a_batch_scrolls_or_redraws(v: TermView, bytes: Seq<u8>)
    ensures
        same_frame(after_chunk(v, bytes), v),
        alternate_after(v.log + byte_ops(bytes)) || redraws_screen(bytes) ==> ({
            &&& after_chunk(v, bytes).history == v.history
            &&& after_chunk(v, bytes).view_offset == 0
            &&& after_chunk(v, bytes).prev.len() == 0
        }),
        !alternate_after(v.log + byte_ops(bytes)) && !redraws_screen(bytes) ==> ({
            let curr = screen_lines(v.log + byte_ops(bytes));
            &&& after_chunk(v, bytes).prev == curr
            &&& after_chunk(v, bytes).view_offset == v.view_offset
            &&& v.history.len() <= MAX_HISTORY ==> after_chunk(v, bytes).history == recent(
                v.history + v.prev.take(scrolled(v.prev, curr)),
            )
        }),
        v.history.len() <= MAX_HISTORY ==> after_chunk(v, bytes).history.len() <= MAX_HISTORY,
{
    let curr = screen_lines(v.log + byte_ops(bytes));
    law_scroll_is_the_best_alignment(v.prev, curr);
    if v.prev.len() == 0 {
        assert(v.history + v.prev.take(scrolled(v.prev, curr)) =~= v.history);
    }
}

/// On the alternate screen nothing joins the scrollback, and the view is live.
pub proof fn law_alternate_screen_keeps_no_history(v: TermView, bytes: Seq<u8>)
    requires
        alternate_after(v.log + byte_ops(bytes)),
    ensures
        after_chunk(v, bytes).history == v.history,
        after_chunk(v, bytes).view_offset == 0,
{
}

/// Nothing is lost in a scroll that is told: the scrollback and the screen together go on with the
/// lines they held, in order, as far as the aligned lines reach; what follows them is new.
pub proof fn law_scrolled_lines_are_kept(v: TermView, bytes: Seq<u8>, i: int)
    requires
        !alternate_after(v.log + byte_ops(bytes)),
        !redraws_screen(bytes),
        ({
            let curr = screen_lines(v.log + byte_ops(bytes));
            let k = scrolled(v.prev, curr);
            &&& v.history.len() + k <= MAX_HISTORY
            &&& v.prev.len() > 0
            &&& 0 <= i < v.history.len() + k + run_length(v.prev, curr, k, 0)
        }),
    ensures
        combined(after_chunk(v, bytes))[i].text == (v.history + v.prev)[i].text,
        i < v.history.len() ==> combined(after_chunk(v, bytes))[i] == v.history[i],
{
    let log = v.log + byte_ops(bytes);
    let curr = screen_lines(log);
    let k = scrolled(v.prev, curr);
    law_scroll_is_the_best_alignment(v.prev, curr);
    let h = v.history + v.prev.take(k);
    let after = after_chunk(v, bytes);
    assert(after.history == h);
    if i < h.len() {
        assert(combined(after)[i] == h[i]);
    } else {
        let j = i - h.len();
        lemma_run_agrees(v.prev, curr, k, 0, j);
        assert(combined(after)[i] == curr[j]);
    }
}

/// The lines on view are a window of the virtual buffer, as high as the screen, in the live and
/// in the scrolled view alike; only the alternate screen stands apart.
pub proof fn law_view_is_a_window(v: TermView)
    requires
        !alternate_after(v.log),
    ensures
        shown_lines(v) == combined(v).subrange(
            view_top(v) as int,
            view_top(v) + grid_rows(v.log),
        ),
{
    assert(combined(v).subrange(
        v.history.len() as int,
        v.history.len() + grid_rows(v.log),
    ) =~= screen_lines(v.log));
}

/// Scrolling back by one line moves every row on view down by one: live and scrolled views are
/// continuous.
pub proof fn law_scrolling_moves_line_by_line(v: TermView, i: int)
    requires
        !alternate_after(v.log),
        v.view_offset < v.history.len(),
        v.view_offset < usize::MAX,
        0 <= i,
        i + 1 < grid_rows(v.log),
    ensures
        shown_lines(TermView { view_offset: (v.view_offset + 1) as usize, ..v })[i + 1]
            == shown_lines(v)[i],
{
    let w = TermView { view_offset: (v.view_offset + 1) as usize, ..v };
    law_view_is_a_window(v);
    law_view_is_a_window(w);
    assert(combined(v) == combined(w));
}

/// A theme switch recolours the whole scrollback and changes nothing else on view.
pub proof fn law_theme_changes_colours_only(v: TermView, dark: bool, i: int)
    requires
        0 <= i < rendered(v).spans.len(),
    ensures
        ({
            let a = rendered(v);
            let b = rendered(TermView { is_dark: dark, ..v });
            &&& a.spans.len() == b.spans.len()
            &&& a.spans[i].text == b.spans[i].text
            &&& a.spans[i].bold == b.spans[i].bold
            &&& a.spans[i].row == b.spans[i].row
            &&& a.spans[i].col == b.spans[i].col
            &&& a.spans[i].cells == b.spans[i].cells
            &&& a.spans[i].cjk == b.spans[i].cjk
            &&& a.cursor_row == b.cursor_row
            &&& a.cursor_col == b.cursor_col
            &&& a.rows_used == b.rows_used
            &&& a.is_alt == b.is_alt
            &&& a.scroll_max == b.scroll_max
            &&& a.scroll_offset == b.scroll_offset
        }),
{
    let w = TermView { is_dark: dark, ..v };
    assert(combined(v) == combined(w));
    assert(shown_lines(v) == shown_lines(w));
    lemma_recoloured(shown_lines(v), v.is_dark, dark, grid_rows(v.log) as int, i);
}

proof fn lemma_recoloured(lines: Seq<LineView>, a: bool, b: bool, n: int, i: int)
    requires
        0 <= i < painted_rows(lines, a, n).len(),
    ensures
        painted_rows(lines, a, n).len() == painted_rows(lines, b, n).len(),
        ({
            let x = painted_rows(lines, a, n)[i];
            let y = painted_rows(lines, b, n)[i];
            x.text == y.text && x.bold == y.bold && x.row == y.row && x.col == y.col && x.cells
                == y.cells && x.cjk == y.cjk
        }),
    decreases n,
{
    lemma_painted_len(lines, a, b, n);
    if n > 0 {
        lemma_painted_len(lines, a, b, n - 1);
        let before = painted_rows(lines, a, n - 1).len();
        if i < before {
            lemma_recoloured(lines, a, b, n - 1, i);
        } else {
            assert(painted_rows(lines, a, n)[i] == painted(
                lines[n - 1].runs[i - before],
                n - 1,
                a,
            ));
            assert(painted_rows(lines, b, n)[i] == painted(
                lines[n - 1].runs[i - before],
                n - 1,
                b,
            ));
        }
    }
}

proof fn lemma_painted_len(lines: Seq<LineView>, a: bool, b: bool, n: int)
    ensures
        painted_rows(lines, a, n).len() == painted_rows(lines, b, n).len(),
    decreases n,
{
    if n > 0 {
        lemma_painted_len(lines, a, b, n - 1);
    }
}

/// The selection stays on its content: scrolling the view changes neither its ends nor the text
/// that is copied.
pub proof fn law_selection_ignores_the_view(v: TermView, offset: usize)
    ensures
        selection(TermView { view_offset: offset, ..v }) == selection(v),
        selection_text(TermView { view_offset: offset, ..v }) == selection_text(v),
{
    let w = TermView { view_offset: offset, ..v };
    assert(combined(v) == combined(w));
    match selection(v) {
        Some((lo, hi)) => {
            lemma_selected_text_same(v, w, lo, content_end(v, hi), lo.0 as int);
        },
        None => {},
    }
}

proof fn lemma_selected_text_same(
    v: TermView,
    w: TermView,
    lo: (usize, u16),
    hi: (usize, u16),
    row: int,
)
    requires
        combined(v) == combined(w),
    ensures
        selected_text(v, lo, hi, row) == selected_text(w, lo, hi, row),
    decreases hi.0 - row + 1,
{
    if row < hi.0 {
        lemma_selected_text_same(v, w, lo, hi, row + 1);
    }
}

/// Which end a drag began at does not matter: swapped ends select the same text and highlight
/// the same cells.
pub proof fn law_selection_has_no_direction(v: TermView, cols: u16)
    ensures
        ({
            let w = TermView { sel_anchor: v.sel_focus, sel_focus: v.sel_anchor, ..v };
            selection_text(w) == selection_text(v) && selection_rects(w, cols) == selection_rects(
                v,
                cols,
            )
        }),
{
    let w = TermView { sel_anchor: v.sel_focus, sel_focus: v.sel_anchor, ..v };
    assert(selection(w) == selection(v));
    lemma_selection_text_follows(v, w);
    assert(selection_rects(w, cols) =~= selection_rects(v, cols));
}

proof fn lemma_selection_text_follows(v: TermView, w: TermView)
    requires
        combined(v) == combined(w),
        v.history == w.history,
        v.log == w.log,
        selection(v) == selection(w),
    ensures
        selection_text(v) == selection_text(w),
{
    match selection(v) {
        Some((lo, hi)) => {
            lemma_selected_text_same(v, w, lo, content_end(v, hi), lo.0 as int);
        },
        None => {},
    }
}

/// The row on view at each place is the row of the virtual buffer that the place is mapped to.
pub proof fn law_visible_rows_are_where_they_say(v: TermView, i: int)
    requires
        !alternate_after(v.log),
        0 <= i < grid_rows(v.log),
    ensures
        shown_lines(v).len() == grid_rows(v.log),
        shown_lines(v)[i] == combined(v)[view_top(v) + i],
{
    law_view_is_a_window(v);
}

/// Highlights of a selection lie on rows that are on view, one per row, top to bottom, and each
/// takes at least one cell.
pub proof fn law_selection_highlights_are_on_view(v: TermView, cols: u16, i: int)
    requires
        0 <= i < selection_rects(v, cols).len(),
    ensures
        0 <= selection_rects(v, cols)[i].row < grid_rows(v.log),
        selection_rects(v, cols)[i].len >= 1,
        selection_rects(v, cols)[i].row == selection_rects(v, cols)[0].row + i,
{
}

/// A selection of whole rows copies every line, whole but for white space at its end, also those
/// scrolled out of view.
pub proof fn law_whole_lines_are_copied(v: TermView, lo: (usize, u16), hi: (usize, u16), row: int)
    requires
        lo.0 <= row < hi.0,
        row == lo.0 ==> lo.1 == 0,
        0 < line_cells(combined_text(v, row)) <= u16::MAX + 1,
    ensures
        selected_text(v, lo, hi, row) == trimmed_end(combined_text(v, row)).push('\n')
            + selected_text(v, lo, hi, row + 1),
{
    let line = combined_text(v, row);
    law_whole_line_is_selected(line);
    assert(line.subrange(0, line.len() as int) =~= line);
    assert(line.len() > 0);
}

/// The selected part of a row between two ends.
pub open spec fn copied_row(v: TermView, lo: (usize, u16), hi: (usize, u16), row: int) -> Seq<
    char,
> {
    between_cols(combined_text(v, row), selected_cols(row, lo, hi, u16::MAX))
}

/// The selected part of a row is a part of it, and does not end in white space.
proof fn lemma_copied_row(v: TermView, lo: (usize, u16), hi: (usize, u16), row: int)
    ensures
        copied_row(v, lo, hi, row).len() > 0 ==> !white_space(copied_row(v, lo, hi, row).last()),
        forall|c: char| #[trigger]
            copied_row(v, lo, hi, row).contains(c) ==> combined_text(v, row).contains(c),
{
    let line = combined_text(v, row);
    let cols = selected_cols(row, lo, hi, u16::MAX);
    let from = start_char(columns(line), cols.0 as usize, 0);
    let to = end_char(columns(line), cols.1 as usize, 0);
    lemma_char_range(line, cols.0 as usize, cols.1 as usize);
    if from < to {
        let part = line.subrange(from, to);
        lemma_trimmed_end(part);
        assert forall|c: char| #[trigger] copied_row(v, lo, hi, row).contains(
            c,
        ) implies line.contains(c) by {
            let i = choose|i: int|
                0 <= i < trimmed_end(part).len() && trimmed_end(part)[i] == c;
            assert(part[i] == c);
            assert(line[from + i] == c);
        }
    }
}

proof fn lemma_copied_rows(v: TermView, lo: (usize, u16), hi: (usize, u16), row: int)
    requires
        lo.0 <= row <= hi.0,
        single_lines(combined(v)),
    ensures
        all_pieces(selected_text(v, lo, hi, row), '\n') == Seq::new(
            (hi.0 - row + 1) as nat,
            |i: int| copied_row(v, lo, hi, row + i),
        ),
    decreases hi.0 - row,
{
    let here = copied_row(v, lo, hi, row);
    let rows = Seq::new((hi.0 - row + 1) as nat, |i: int| copied_row(v, lo, hi, row + i));
    lemma_copied_row(v, lo, hi, row);
    assert(!combined_text(v, row).contains('\n')) by {
        if row < combined(v).len() {
            assert(!combined(v)[row].text.contains('\n'));
        }
    }
    if row == hi.0 {
        lemma_one_piece(here, '\n');
        assert(rows =~= seq![here]);
    } else {
        let rest = selected_text(v, lo, hi, row + 1);
        lemma_first_piece(here, rest, '\n');
        lemma_copied_rows(v, lo, hi, row + 1);
        assert(rows =~= seq![here] + all_pieces(rest, '\n'));
    }
}

/// Whether no line of a text ends in white space.
pub open spec fn lines_end_visibly(text: Seq<char>) -> bool {
    forall|i: int|
        0 <= i < all_pieces(text, '\n').len() && (#[trigger] all_pieces(text, '\n')[i]).len() > 0
            ==> !white_space(all_pieces(text, '\n')[i].last())
}

/// The copied text has one line per selected row, down to the last row with content, and each is
/// the selected part of its row.
pub proof fn law_copied_lines_are_the_selected_rows(v: TermView, lo: (usize, u16), hi: (usize, u16))
    requires
        selection(v) == Some((lo, hi)),
        lo.0 <= last_used_row(v),
        single_lines(combined(v)),
    ensures
        ({
            let end = content_end(v, hi);
            let lines = all_pieces(selection_text(v), '\n');
            &&& lines.len() == end.0 - lo.0 + 1
            &&& forall|i: int|
                0 <= i < lines.len() ==> #[trigger] lines[i] == copied_row(v, lo, end, lo.0 + i)
        }),
        lines_end_visibly(selection_text(v)),
{
    let end = content_end(v, hi);
    let lines = all_pieces(selection_text(v), '\n');
    lemma_copied_rows(v, lo, end, lo.0 as int);
    assert forall|i: int| 0 <= i < lines.len() && (#[trigger] lines[i]).len() > 0 implies
        !white_space(lines[i].last()) by {
        lemma_copied_row(v, lo, end, lo.0 + i);
    }
}

/// No line of the copied text ends in white space, whatever is selected.
pub proof fn law_copied_lines_end_visibly(v: TermView)
    requires
        single_lines(combined(v)),
    ensures
        lines_end_visibly(selection_text(v)),
{
    match selection(v) {
        Some((lo, hi)) if lo.0 <= last_used_row(v) => {
            law_copied_lines_are_the_selected_rows(v, lo, hi);
        },
        _ => {
            law_nothing_selected_copies_nothing(v);
            lemma_one_piece(selection_text(v), '\n');
        },
    }
}

/// A selection that ends on a blank row below the content copies the last row with content whole,
/// but for white space at its end, and nothing after it.
pub proof fn law_selection_below_the_content(v: TermView, lo: (usize, u16), hi: (usize, u16))
    requires
        selection(v) == Some((lo, hi)),
        lo.0 < last_used_row(v) < hi.0,
        0 < line_cells(combined_text(v, last_used_row(v))) <= u16::MAX + 1,
    ensures
        content_end(v, hi).0 == last_used_row(v),
        copied_row(v, lo, content_end(v, hi), last_used_row(v)) == trimmed_end(
            combined_text(v, last_used_row(v)),
        ),
{
    let line = combined_text(v, last_used_row(v));
    law_whole_line_is_selected(line);
    assert(line.subrange(0, line.len() as int) =~= line);
    assert(line.len() > 0);
}

/// Where nothing is selected, or all of it lies below the content, nothing is copied.
pub proof fn law_nothing_selected_copies_nothing(v: TermView)
    requires
        v.sel_anchor is None || v.sel_focus is None || (selection(v) matches Some((lo, hi))
            && last_used_row(v) < lo.0),
    ensures
        selection_text(v) == Seq::<char>::empty(),
{
}

/// On a line of one-column characters the copied text is that of the selected columns.
pub proof fn law_selected_columns_are_copied(line: Seq<char>, a: u16, b: u16)
    requires
        a <= b < line.len() < usize::MAX,
        forall|j: int| 0 <= j < line.len() ==> cells_of(#[trigger] line[j]) == 1,
    ensures
        between_cols(line, (a, b)) == trimmed_end(line.subrange(a as int, b + 1)),
{
    law_narrow_selection(line, a as usize, b as usize);
}

// ---- What stands where ----------------------------------------------------

/// Of a list of spans, those on one row, in their order.
pub open spec fn on_row(spans: Seq<PaintView>, row: int) -> Seq<PaintView>
    decreases spans.len(),
{
    if spans.len() == 0 {
        Seq::empty()
    } else if spans.last().row == row {
        on_row(spans.drop_last(), row).push(spans.last())
    } else {
        on_row(spans.drop_last(), row)
    }
}

proof fn lemma_on_row_joined(a: Seq<PaintView>, b: Seq<PaintView>, row: int)
    ensures
        on_row(a + b, row) == on_row(a, row) + on_row(b, row),
    decreases b.len(),
{
    if b.len() == 0 {
        assert(a + b =~= a);
        assert(on_row(a, row) + on_row(b, row) =~= on_row(a, row));
    } else {
        lemma_on_row_joined(a, b.drop_last(), row);
        assert((a + b).drop_last() =~= a + b.drop_last());
        assert((a + b).last() == b.last());
        assert(on_row(a + b, row) =~= on_row(a, row) + on_row(b, row));
    }
}

proof fn lemma_on_same_row(spans: Seq<PaintView>, r: int, row: int)
    requires
        forall|i: int| 0 <= i < spans.len() ==> (#[trigger] spans[i]).row == r,
    ensures
        on_row(spans, row) == if r == row {
            spans
        } else {
            Seq::empty()
        },
    decreases spans.len(),
{
    if spans.len() > 0 {
        let front = spans.drop_last();
        assert forall|i: int| 0 <= i < front.len() implies (#[trigger] front[i]).row == r by {
            assert(front[i] == spans[i]);
        }
        lemma_on_same_row(front, r, row);
        assert(spans.last() == spans[spans.len() - 1]);
        assert(front.push(spans.last()) =~= spans);
    } else {
        assert(spans =~= Seq::empty());
    }
}

proof fn lemma_painted_on_row(lines: Seq<LineView>, is_dark: bool, n: int, row: int)
    requires
        0 <= n <= lines.len(),
        n <= u16::MAX,
    ensures
        on_row(painted_rows(lines, is_dark, n), row) == if 0 <= row < n {
            painted_row(lines[row], row, is_dark)
        } else {
            Seq::empty()
        },
        forall|k: int|
            0 <= k < painted_rows(lines, is_dark, n).len() ==> 0 <= (#[trigger] painted_rows(
                lines,
                is_dark,
                n,
            )[k]).row < n,
        forall|j: int, k: int|
            0 <= j <= k < painted_rows(lines, is_dark, n).len() ==> (#[trigger] painted_rows(
                lines,
                is_dark,
                n,
            )[j]).row <= (#[trigger] painted_rows(lines, is_dark, n)[k]).row,
    decreases n,
{
    if n > 0 {
        let before = painted_rows(lines, is_dark, n - 1);
        let here = painted_row(lines[n - 1], n - 1, is_dark);
        lemma_painted_on_row(lines, is_dark, n - 1, row);
        lemma_on_row_joined(before, here, row);
        assert forall|i: int| 0 <= i < here.len() implies (#[trigger] here[i]).row == n - 1 by {}
        lemma_on_same_row(here, n - 1, row);
        let all = painted_rows(lines, is_dark, n);
        assert(all == before + here);
        assert(on_row(all, row) =~= if 0 <= row < n {
            painted_row(lines[row], row, is_dark)
        } else {
            Seq::empty()
        });
        assert forall|k: int| 0 <= k < all.len() implies 0 <= (#[trigger] all[k]).row < n by {
            if k < before.len() {
                assert(all[k] == before[k]);
            } else {
                assert(all[k] == here[k - before.len()]);
            }
        }
        assert forall|j: int, k: int| 0 <= j <= k < all.len() implies (#[trigger] all[j]).row <= (
        #[trigger] all[k]).row by {
            if k < before.len() {
                assert(all[k] == before[k] && all[j] == before[j]);
            } else {
                assert(all[k] == here[k - before.len()]);
                if j < before.len() {
                    assert(all[j] == before[j]);
                } else {
                    assert(all[j] == here[j - before.len()]);
                }
            }
        }
    }
}

/// What is painted on visible row `i` is the row `i` below the top of the view, counted through
/// the scrollback and on through the live screen: every run of that row once, in order, where it
/// stands, and nothing else. The top of the view is as many rows above the live screen as the
/// view is scrolled back, at most the whole scrollback; the alternate screen is never scrolled.
pub proof fn law_rows_on_view_are_painted(v: TermView, i: int, q: int)
    requires
        0 <= i < grid_rows(v.log),
    ensures
        ({
            let all = v.history + screen_lines(v.log);
            let above = if alternate_after(v.log) {
                0
            } else if v.view_offset <= v.history.len() {
                v.view_offset as int
            } else {
                v.history.len() as int
            };
            let line = all[v.history.len() - above + i];
            let spans = on_row(rendered(v).spans, i);
            &&& spans.len() == line.runs.len()
            &&& 0 <= q < spans.len() ==> {
                &&& spans[q].text == line.runs[q].text
                &&& spans[q].col == line.runs[q].col
                &&& spans[q].cells == line.runs[q].cells
                &&& spans[q].bold == line.runs[q].bold
                &&& spans[q].cjk == has_cjk(line.runs[q].text)
                &&& spans[q].fg == text_shade(line.runs[q].fg, line.runs[q].bold, v.is_dark)
                &&& spans[q].bg == fill_shade(line.runs[q].bg, v.is_dark)
            }
            &&& after_render(v).displayed.len() == grid_rows(v.log)
            &&& after_render(v).displayed[i] == trimmed_end(line.text)
        }),
{
    let all = v.history + screen_lines(v.log);
    let lines = shown_lines(v);
    let n = grid_rows(v.log) as int;
    assert(combined(v) =~= all);
    assert(lines.len() == n);
    lemma_painted_on_row(lines, v.is_dark, n, i);
    if is_live(v) {
        assert(lines[i] == all[v.history.len() + i]);
    } else {
        assert(lines[i] == all[view_top(v) + i]);
    }
}

/// Every span is on a visible row, and the rows are painted from the top down.
pub proof fn law_spans_are_on_view(v: TermView, j: int, k: int)
    requires
        0 <= j <= k < rendered(v).spans.len(),
    ensures
        0 <= rendered(v).spans[j].row <= rendered(v).spans[k].row < grid_rows(v.log),
{
    let n = grid_rows(v.log) as int;
    assert(shown_lines(v).len() == n);
    lemma_painted_on_row(shown_lines(v), v.is_dark, n, 0);
}

proof fn lemma_used_rows(lines: Seq<LineView>)
    ensures
        used_rows(lines) <= lines.len(),
        forall|r: int| used_rows(lines) <= r < lines.len() ==> (#[trigger] lines[r]).runs.len() == 0,
        used_rows(lines) > 0 ==> lines[used_rows(lines) - 1].runs.len() > 0,
    decreases lines.len(),
{
    if lines.len() > 0 && lines.last().runs.len() == 0 {
        lemma_used_rows(lines.drop_last());
        assert forall|r: int| used_rows(lines) <= r < lines.len() implies (
        #[trigger] lines[r]).runs.len() == 0 by {
            if r < lines.len() - 1 {
                assert(lines.drop_last()[r] == lines[r]);
            }
        }
    }
}

/// The cursor shows where it is while the view is on the live screen and not at all while it is
/// scrolled back. The scroll bar goes as far as there is scrollback, and the alternate screen has
/// none.
pub proof fn law_cursor_and_scroll_bar(v: TermView)
    requires
        v.history.len() <= MAX_HISTORY,
    ensures
        rendered(v).is_alt == alternate_after(v.log),
        alternate_after(v.log) || v.view_offset == 0 ==> rendered(v).cursor_row == cursor_after(
            v.log,
        ).0 && rendered(v).cursor_col == cursor_after(v.log).1 && rendered(v).scroll_offset == 0,
        !alternate_after(v.log) && v.view_offset > 0 ==> rendered(v).cursor_row == -1 && rendered(
            v,
        ).cursor_col == 0,
        !alternate_after(v.log) && v.view_offset <= i32::MAX ==> rendered(v).scroll_offset
            == v.view_offset,
        alternate_after(v.log) ==> rendered(v).scroll_max == 0,
        !alternate_after(v.log) ==> rendered(v).scroll_max == v.history.len(),
{
}

/// On the live screen the rows in use end with the last row that shows anything; there is always
/// one. The alternate screen and a view that is scrolled back use all rows.
pub proof fn law_rows_in_use(v: TermView, r: int)
    ensures
        ({
            let used = rendered(v).rows_used;
            let lines = screen_lines(v.log);
            &&& alternate_after(v.log) || v.view_offset > 0 ==> used == grid_rows(v.log)
            &&& !alternate_after(v.log) && v.view_offset == 0 ==> {
                &&& used >= 1
                &&& used <= r < lines.len() ==> lines[r].runs.len() == 0
                &&& used > 1 ==> used <= lines.len() && lines[used - 1].runs.len() > 0
            }
        }),
{
    lemma_used_rows(screen_lines(v.log));
}

/// The selection lies between its two ends, the earlier one first: by rows, and within a row by
/// columns.
pub proof fn law_selection_is_ordered(v: TermView)
    ensures
        selection(v) is Some <==> v.sel_anchor is Some && v.sel_focus is Some,
        selection(v) matches Some((lo, hi)) ==> {
            &&& lo.0 < hi.0 || (lo.0 == hi.0 && lo.1 <= hi.1)
            &&& (v.sel_anchor == Some(lo) && v.sel_focus == Some(hi)) || (v.sel_anchor == Some(hi)
                && v.sel_focus == Some(lo))
        },
{
}

/// A visible row is highlighted if and only if the selection goes through it: from the column in
/// which the selection starts, or from the first; to the column in which it ends, or to the last
/// one of the terminal, however wide that is.
pub proof fn law_selection_is_highlighted(v: TermView, cols: u16, i: int)
    requires
        0 <= i < grid_rows(v.log),
        cols > 0,
    ensures
        ({
            let rects = selection_rects(v, cols);
            let top = if v.view_offset <= v.history.len() {
                v.history.len() - v.view_offset
            } else {
                0
            };
            match selection(v) {
                None => rects.len() == 0,
                Some((lo, hi)) => {
                    &&& lo == hi ==> rects.len() == 0
                    &&& lo != hi && lo.0 <= top + i <= hi.0 ==> exists|k: int|
                        0 <= k < rects.len() && (#[trigger] rects[k]).row == i
                    &&& forall|k: int|
                        0 <= k < rects.len() && (#[trigger] rects[k]).row == i ==> {
                            &&& lo != hi && lo.0 <= top + i <= hi.0
                            &&& lo.0 < top + i < hi.0 ==> rects[k].col == 0 && rects[k].len == cols
                            &&& lo.0 == top + i < hi.0 ==> rects[k].col == lo.1
                            &&& lo.0 == top + i < hi.0 && lo.1 < cols ==> rects[k].col
                                + rects[k].len == cols
                            &&& lo.0 == top + i < hi.0 && lo.1 >= cols ==> rects[k].len == 1
                            &&& lo.0 < top + i == hi.0 ==> rects[k].col == 0 && rects[k].len == hi.1
                                + 1
                            &&& lo.0 == top + i == hi.0 ==> rects[k].col == lo.1 && rects[k].col
                                + rects[k].len == hi.1 + 1
                        }
                },
            }
        }),
{
    law_selection_is_ordered(v);
    if let Some((lo, hi)) = selection(v) {
        let top = view_top(v);
        let rects = selection_rects(v, cols);
        let (first, past) = selected_rows(grid_rows(v.log), top, lo.0, hi.0);
        if lo != hi && first < past {
            assert forall|k: int| 0 <= k < rects.len() implies #[trigger] rects[k]
                == selection_rect(first + k, top, lo, hi, cols) by {}
            if lo.0 <= top + i <= hi.0 {
                assert(first <= i < past);
                assert(rects[i - first].row == i);
            }
        }
    }
}

/// What is copied of a row runs from the column in which the selection starts, or from the first,
/// to the column in which it ends, or to the end of the line; and it is copied out of the
/// scrollback followed by the live screen.
pub proof fn law_copied_columns(v: TermView, lo: (usize, u16), hi: (usize, u16), row: int)
    requires
        lo.0 <= row <= hi.0,
        lo.0 == hi.0 ==> lo.1 <= hi.1,
        row < v.history.len() + screen_lines(v.log).len(),
    ensures
        ({
            let line = (v.history + screen_lines(v.log))[row].text;
            let here = copied_row(v, lo, hi, row);
            &&& lo.0 < row < hi.0 ==> here == between_cols(line, (0, u16::MAX))
            &&& lo.0 == row < hi.0 ==> here == between_cols(line, (lo.1, u16::MAX))
            &&& lo.0 < row == hi.0 ==> here == between_cols(line, (0, hi.1))
            &&& lo.0 == row == hi.0 ==> here == between_cols(line, (lo.1, hi.1))
        }),
{
}

/// The last row that is copied from is the last row of the screen that shows anything, or the
/// last one of the scrollback where the screen is blank.
pub proof fn law_last_used_row(v: TermView, r: int)
    ensures
        ({
            let last = last_used_row(v);
            let lines = screen_lines(v.log);
            &&& 0 <= r < lines.len() && v.history.len() + r > last ==> lines[r].runs.len() == 0
            &&& last >= v.history.len() && last > 0 ==> last - v.history.len() < lines.len()
                && lines[last - v.history.len()].runs.len() > 0
            &&& last < v.history.len() ==> last == v.history.len() - 1
            &&& last >= 0
        }),
{
    lemma_used_rows(screen_lines(v.log));
}

/// Bytes that come in are drawn after whatever was drawn before, as rewritten from the state that
/// the scanner was left in, and the scanner goes on from there.
pub proof fn law_input_is_drawn(v: TermView, input: Seq<u8>)
    ensures
        after_ingest(v, input).log == v.log + byte_ops(with_cup(v.csi_state, input)),
        after_ingest(v, input).csi_state == csi_after(v.csi_state, input),
        after_ingest(v, input).displayed == v.displayed,
        v.raw.len() + input.len() <= RAW_CAP ==> after_ingest(v, input).raw == v.raw + with_cup(
            v.csi_state,
            input,
        ),
{
    let bytes = with_cup(v.csi_state, input);
    law_feeding_in_batches(
        TermView {
            csi_state: csi_after(v.csi_state, input),
            raw: retained(v.raw + bytes),
            ..v
        },
        bytes,
    );
}

/// On the normal screen a batch without a cursor-home sequence (`ESC [ H`) never counts as a
/// redraw, whatever it erases: the lines that it scrolls off the top join the scrollback, and
/// the view stays where it is.
pub proof fn law_without_a_cursor_home_scrolled_lines_are_kept(v: TermView, bytes: Seq<u8>)
    requires
        !alternate_after(v.log + byte_ops(bytes)),
        forall|i: int|
            0 <= i && i + 2 < bytes.len() ==> !(#[trigger] bytes[i] == 0x1b && bytes[i + 1] == 0x5b
                && bytes[i + 2] == 0x48),
        v.history.len() + v.prev.len() <= 100_000,
    ensures
        ({
            let curr = screen_lines(v.log + byte_ops(bytes));
            &&& after_chunk(v, bytes).prev == curr
            &&& after_chunk(v, bytes).view_offset == v.view_offset
            &&& after_chunk(v, bytes).history == v.history + v.prev.take(scrolled(v.prev, curr))
        }),
{
    law_redraw_needs_home_and_erase(bytes);
    let curr = screen_lines(v.log + byte_ops(bytes));
    law_scroll_is_the_best_alignment(v.prev, curr);
    if v.prev.len() == 0 {
        assert(v.prev.take(scrolled(v.prev, curr)) =~= v.prev);
        assert(v.history + v.prev.take(scrolled(v.prev, curr)) =~= v.history);
    }
}

/// Of too much scrollback the newest hundred thousand lines are kept.
pub proof fn law_newest_lines_are_kept(lines: Seq<LineView>, i: int)
    requires
        0 <= i < recent(lines).len(),
    ensures
        lines.len() <= 100_000 ==> recent(lines) == lines,
        lines.len() > 100_000 ==> recent(lines).len() == 100_000,
        recent(lines)[i] == lines[lines.len() - recent(lines).len() + i],
{
}

/// A resize of the alternate screen resizes the grid in place, and nothing else but the rows last
/// seen is touched. A resize of the normal screen draws the retained stream anew at the new size,
/// with the scrollback that follows from it, at its end and with nothing selected.
pub proof fn law_resize_of_either_screen(v: TermView, rows: u16, cols: u16)
    requires
        rows != grid_rows(v.log) || cols != grid_cols(v.log),
    ensures
        ({
            let w = after_resize(v, rows, cols);
            &&& w.prev.len() == 0
            &&& w.raw == v.raw
            &&& w.csi_state == v.csi_state
            &&& w.find_query == v.find_query
            &&& w.is_dark == v.is_dark
            &&& alternate_after(v.log) ==> {
                &&& w.log == v.log.push(VtOp::Resize { rows: rows, cols: cols })
                &&& w.history == v.history
                &&& w.view_offset == v.view_offset
                &&& w.sel_anchor == v.sel_anchor
                &&& w.sel_focus == v.sel_focus
                &&& w.displayed == v.displayed
            }
            &&& !alternate_after(v.log) ==> {
                &&& w.log == fresh(rows, cols, v.is_dark).log + byte_ops(v.raw)
                &&& w.history == after_feed(fresh(rows, cols, v.is_dark), v.raw).history
                &&& w.view_offset == 0
                &&& w.sel_anchor is None
                &&& w.sel_focus is None
            }
        }),
{
    law_reflow_replays_the_stream(v, rows, cols);
}

/// A renewed emulator has the size of the old one and has drawn the retained stream; where the
/// old one was on the alternate screen and the stream alone does not lead there, `ESC [ ? 1 0 4 9
/// h` follows, and nothing else ever does.
pub proof fn law_renewed_emulator_replays_the_stream(v: TermView)
    requires
        !steady(v.log),
    ensures
        ({
            let again = fresh(grid_rows(v.log), grid_cols(v.log), v.is_dark).log + byte_ops(v.raw);
            let switch = byte_ops(seq![0x1bu8, 0x5b, 0x3f, 0x31, 0x30, 0x34, 0x39, 0x68]);
            &&& !alternate_after(v.log) ==> renewed(v).log == again
            &&& alternate_after(again) ==> renewed(v).log == again
            &&& alternate_after(v.log) && !alternate_after(again) ==> renewed(v).log == again
                + switch
        }),
{
}

/// A new terminal is blank: nothing was drawn, kept, selected or searched for, and the view is on
/// the live screen.
pub proof fn law_new_terminal_is_blank(rows: u16, cols: u16, is_dark: bool)
    ensures
        ({
            let v = fresh(rows, cols, is_dark);
            &&& grid_rows(v.log) == rows && grid_cols(v.log) == cols
            &&& v.log == seq![VtOp::New { rows: rows, cols: cols, scrollback: 5000 }]
            &&& v.history.len() == 0 && v.prev.len() == 0 && v.raw.len() == 0
            &&& v.view_offset == 0 && v.sel_anchor is None && v.sel_focus is None
            &&& v.find_query.len() == 0 && v.displayed.len() == 0
            &&& v.is_dark == is_dark && v.csi_state == CsiState::Normal
        }),
{
}

/// Output with fewer line feeds than half a screen has rows is looked at once, when all of it is
/// drawn.
pub proof fn law_short_output_is_looked_at_once(v: TermView, bytes: Seq<u8>)
    requires
        bytes.len() > 0,
        2 * (newlines(bytes) + 1) <= grid_rows(v.log) || newlines(bytes) == 0,
    ensures
        after_feed(v, bytes) == after_chunk(v, bytes),
{
    let lines = batch_lines(grid_rows(v.log));
    assert(newlines(bytes) < lines);
    assert(bytes.subrange(0, bytes.len() as int) =~= bytes);
    lemma_batch_end_is_the_end(bytes, lines, 0);
    lemma_next_batch(v, bytes, lines);
    let none = bytes.skip(bytes.len() as int);
    assert(bytes.take(bytes.len() as int) =~= bytes);
    assert(none.len() == 0);
    assert(batches(none, lines) == Seq::<Seq<u8>>::empty());
    assert(after_chunks(after_chunk(v, bytes), Seq::empty()) == after_chunk(v, bytes));
}

/// Longer output is looked at after each half screen of lines: first when that much is drawn, and
/// then on with the rest.
pub proof fn law_long_output_is_looked_at_by_half_screens(v: TermView, a: Seq<u8>, b: Seq<u8>)
    requires
        a.len() > 0,
        a.last() == 0x0a,
        grid_rows(v.log) >= 2,
        2 * newlines(a) == grid_rows(v.log) || 2 * newlines(a) + 1 == grid_rows(v.log),
    ensures
        after_feed(v, a + b) == after_feed(after_chunk(v, a), b),
{
    let lines = batch_lines(grid_rows(v.log));
    let all = a + b;
    let e = a.len() as int;
    assert(newlines(a) == lines);
    assert(all.subrange(0, e) =~= a);
    assert(all[e - 1] == a.last());
    lemma_batch_end_is(all, lines, 0, e);
    lemma_next_batch(v, all, lines);
    assert(all.take(e) =~= a);
    assert(all.skip(e) =~= b);
    lemma_bytes_keep(v.log, a);
}

/// The lines of a screen are the rows of its grid: a row of narrow cells reads, character for
/// character, what its cells show.
pub proof fn law_screen_lines_are_the_grid(log: Seq<VtOp>, r: u16, c: u16)
    requires
        r < grid_rows(log),
        c < grid_cols(log),
    ensures
        screen_lines(log).len() == grid_rows(log),
        ({
            let cells = row_cells(log, r, grid_cols(log));
            let line = screen_lines(log)[r as int];
            &&& (forall|i: int|
                0 <= i < cells.len() ==> !(#[trigger] cells[i]).wide && cells[i].text.len() == 1)
                ==> line.text.len() == grid_cols(log) && line.text[c as int]
                == cells[c as int].text[0]
            &&& line.runs == row_runs(cells, 0)
        }),
{
    let cells = row_cells(log, r, grid_cols(log));
    if forall|i: int|
        0 <= i < cells.len() ==> !(#[trigger] cells[i]).wide && cells[i].text.len() == 1 {
        law_one_char_per_cell(cells, 0);
        assert(cells[c as int].text.len() == 1);
    }
}

/// What is copied between two columns is one stretch of the line, without the white space at its
/// end: the stretch holds a glyph if and only if one of the glyph's columns is between the two.
pub proof fn law_copied_text_is_the_glyphs_between(line: Seq<char>, a: u16, b: u16) -> (r: (
    int,
    int,
))
    requires
        a <= b,
        line_cells(line) <= usize::MAX,
    ensures
        0 <= r.0 <= r.1 <= line.len(),
        between_cols(line, (a, b)) == trimmed_end(line.subrange(r.0, r.1)),
        forall|k: int|
            0 <= k < line.len() && cells_of(#[trigger] line[k]) > 0 ==> (r.0 <= k < r.1 <==> (
            start_col(line, k) <= b && a < start_col(line, k) + cells_of(line[k]))),
{
    let from = start_char(columns(line), a as usize, 0);
    let to = end_char(columns(line), b as usize, 0);
    lemma_char_range(line, a as usize, b as usize);
    assert forall|k: int| 0 <= k < line.len() && cells_of(#[trigger] line[k]) > 0 implies (from <= k
        < to <==> (start_col(line, k) <= b && a < start_col(line, k) + cells_of(line[k]))) by {
        law_selection_takes_whole_glyphs(line, a as usize, b as usize, k);
    }
    if from < to {
        (from, to)
    } else {
        assert(line.subrange(from, from) =~= Seq::<char>::empty());
        (from, from)
    }
}

/// What is copied ends where the selection ends, unless that is below the last row in use: then
/// all of that row is the end.
pub proof fn law_copying_ends_with_the_content(v: TermView, hi: (usize, u16))
    requires
        v.history.len() <= MAX_HISTORY,
    ensures
        hi.0 <= last_used_row(v) ==> content_end(v, hi) == hi,
        hi.0 > last_used_row(v) ==> content_end(v, hi).0 == last_used_row(v) && content_end(
            v,
            hi,
        ).1 == u16::MAX,
{
    lemma_used_rows(screen_lines(v.log));
}

} // verus!
