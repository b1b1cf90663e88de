//! One terminal: the emulator, the scrollback captured from it, the view on both, and the
//! selection.

use vstd::prelude::*;
use vstd::slice::slice_subrange;
use std::collections::VecDeque;

use crate::feed::{
    after_newline, batch_end, batch_lines, batches, csi_after, is_screen_redraw, retained,
    rewrite_csi, with_cup, CsiState, RAW_CAP,
};
use crate::grid::{
    cell_prefix, char_after_cell_end, char_at_cell_start, compute_find_matches, find_matches,
    TermMatch,
};
use crate::line::{
    all_spaces, build_row, detect_scroll, empty_place, lemma_empty_row, line_view, line_views,
    row_cells, row_line, single_lines, span_views, HistSpan, Line, LineView, SpanView,
};
use crate::palette::{contains_cjk, vt_bg_to_slint, vt_color_to_slint, Shade};
use crate::term::{
    after_chunk, after_chunks, after_feed, after_ingest, after_reflow, after_render,
    after_resize, between_cols, combined, combined_text, enter_alternate, fresh, is_live,
    law_copied_lines_end_visibly, law_resize_takes_effect, lemma_next_batch, lines_end_visibly,
    painted, painted_rows, recent, rendered, renewed, screen_lines, selected_cols, selected_rows,
    selected_text, selection, selection_rect, selection_rects,
    selection_text, shown_lines, used_rows, view_top, BuiltView, MAX_HISTORY, PARSER_SCROLLBACK,
    PaintView, TermView,
};
use crate::text::{copy_range, from_chars, texts, to_chars, trim_end, trim_end_text, trimmed_end};
use crate::vt::{
    alternate_after, blank_cell, byte_ops, cell_after, cursor_after, grid_cols, grid_rows,
    lemma_bytes_keep, roomy, steady, vt_alternate, vt_cursor, vt_log, vt_new, vt_process,
    vt_set_size, vt_size, MAX_COLS, MIN_COLS, MIN_ROWS,
};

verus! {

/// Per-terminal state: the emulator drives all rendering for both normal (bash) and
/// alternate-screen (vim/nano/htop) modes.
///
/// Using the emulator for normal mode too is necessary because readline rewrites the current
/// input line whenever the cursor moves; an append-only buffer would duplicate the text.
pub struct TermBuffer {
    parser: vt100::Parser,
    /// Active find query for this tab ("" = no search).
    find_query: String,
    /// Current theme mode.
    is_dark: bool,
    /// Drag selection in absolute scrollback coordinates: each endpoint is a row of the
    /// history followed by the live screen, and a column. Absolute coordinates keep the
    /// selection on its content while the view scrolls during a drag.
    sel_anchor: Option<(usize, u16)>,
    sel_focus: Option<(usize, u16)>,
    /// Session scrollback: lines that have scrolled off the top (oldest first).
    history: Vec<Line>,
    /// Previous frame's grid lines, for scroll-off detection.
    prev: Vec<Line>,
    /// Scrollback view offset in lines (0 = live bottom).
    view_offset: usize,
    /// Plain text of the rows currently displayed (drives find + selection).
    displayed_text: Vec<String>,
    /// Scanner state for rewriting HVP into CUP.
    csi_state: CsiState,
    /// Capped copy of the rewritten byte stream, so that a window resize can replay it at the
    /// new width and reflow already-printed output.
    raw: VecDeque<u8>,
    /// Whether the emulator can take any byte (it cannot once it was made smaller).
    intact: bool,
}

impl View for TermBuffer {
    type V = TermView;

    closed spec fn view(&self) -> TermView {
        TermView {
            log: vt_log(self.parser),
            find_query: self.find_query@,
            is_dark: self.is_dark,
            sel_anchor: self.sel_anchor,
            sel_focus: self.sel_focus,
            history: line_views(self.history@),
            prev: line_views(self.prev@),
            view_offset: self.view_offset,
            displayed: texts(self.displayed_text@),
            csi_state: self.csi_state,
            raw: self.raw@,
        }
    }
}

// ---- The screen -----------------------------------------------------------

/// The lines of the live screen.
fn screen_of(parser: &vt100::Parser) -> (lines: Vec<Line>)
    ensures
        line_views(lines@) == screen_lines(vt_log(*parser)),
        lines@.len() == grid_rows(vt_log(*parser)),
        single_lines(line_views(lines@)),
{
    let (rows, cols) = vt_size(parser);
    let mut lines: Vec<Line> = Vec::new();
    let mut r: u16 = 0;
    while r < rows
        invariant
            rows == grid_rows(vt_log(*parser)),
            cols == grid_cols(vt_log(*parser)),
            r <= rows,
            lines@.len() == r,
            forall|i: int|
                0 <= i < r ==> line_view(#[trigger] lines@[i]) == row_line(
                    row_cells(vt_log(*parser), i as u16, cols),
                ),
            forall|i: int| 0 <= i < r ==> !(#[trigger] lines@[i]).0@.contains('\n'),
        decreases rows - r,
    {
        lines.push(build_row(parser, r, cols));
        r += 1;
    }
    assert(line_views(lines@) =~= screen_lines(vt_log(*parser)));
    lines
}

/// The count of lines up to the last one with a visible run.
fn count_used(lines: &Vec<Line>) -> (n: usize)
    ensures
        n == used_rows(line_views(lines@)),
        n <= lines@.len(),
{
    let mut n: usize = lines.len();
    assert(line_views(lines@).take(n as int) == line_views(lines@));
    while n > 0 && lines[n - 1].1.len() == 0
        invariant
            n <= lines@.len(),
            used_rows(line_views(lines@).take(n as int)) == used_rows(line_views(lines@)),
        decreases n,
    {
        proof {
            let v = line_views(lines@);
            assert(v.take(n as int).drop_last() == v.take(n - 1));
            assert(v.take(n as int).last() == line_view(lines@[n - 1]));
        }
        n -= 1;
    }
    proof {
        if n > 0 {
            let v = line_views(lines@);
            assert(v.take(n as int).last() == line_view(lines@[n - 1]));
        }
    }
    n
}

// ---- The view -------------------------------------------------------------

/// Lines without visible runs are not counted as used.
proof fn lemma_all_unused(lines: Seq<LineView>, n: int)
    requires
        0 <= n <= lines.len(),
        forall|r: int| 0 <= r < n ==> (#[trigger] lines[r]).runs.len() == 0,
    ensures
        used_rows(lines.take(n)) == 0,
    decreases n,
{
    if n > 0 {
        lemma_all_unused(lines, n - 1);
        assert(lines.take(n).drop_last() == lines.take(n - 1));
        assert(lines.take(n).last() == lines[n - 1]);
    }
}

impl TermBuffer {
    /// What holds of every terminal.
    pub closed spec fn wf(&self) -> bool {
        &&& self.history@.len() <= MAX_HISTORY
        &&& self.intact == steady(vt_log(self.parser))
        &&& single_lines(line_views(self.history@))
        &&& single_lines(line_views(self.prev@))
        &&& roomy(grid_rows(vt_log(self.parser)), grid_cols(vt_log(self.parser)))
    }

    /// A new terminal of 24 rows and 80 columns, resized once its place is known.
    pub fn new(is_dark: bool) -> (b: TermBuffer)
        ensures
            b.wf(),
            b@ == fresh(24, 80, is_dark),
            !alternate_after(b@.log),
            cursor_after(b@.log) == (0u16, 0u16),
            used_rows(screen_lines(b@.log)) == 0,
            forall|r: int|
                0 <= r < 24 ==> (#[trigger] screen_lines(b@.log)[r]).runs.len() == 0
                    && screen_lines(b@.log)[r].text.len() == 80 && all_spaces(
                    screen_lines(b@.log)[r].text,
                ),
    {
        let parser = vt_new(24, 80, PARSER_SCROLLBACK);
        let b = TermBuffer {
            parser,
            find_query: String::new(),
            is_dark,
            sel_anchor: None,
            sel_focus: None,
            history: Vec::new(),
            prev: Vec::new(),
            view_offset: 0,
            displayed_text: Vec::new(),
            csi_state: CsiState::Normal,
            raw: VecDeque::new(),
            intact: true,
        };
        proof {
            let log = vt_log(b.parser);
            assert(log.drop_last().len() == 0);
            assert(steady(log));
            assert(line_views(b.history@) =~= Seq::<LineView>::empty());
            assert(line_views(b.prev@) =~= Seq::<LineView>::empty());
            assert(texts(b.displayed_text@) =~= Seq::<Seq<char>>::empty());
            let lines = screen_lines(log);
            assert forall|r: int| 0 <= r < 24 implies (#[trigger] lines[r]).runs.len() == 0
                && lines[r].text.len() == 80 && all_spaces(lines[r].text) by {
                let cells = row_cells(log, r as u16, 80);
                assert forall|c: int| 0 <= c < cells.len() implies #[trigger] cells[c]
                    == empty_place() by {
                    assert(cell_after(log, r as u16, c as u16) == blank_cell());
                }
                lemma_empty_row(cells);
            }
            lemma_all_unused(lines, 24);
            assert(lines.take(24) == lines);
        }
        b
    }

    /// Live screen rows plus the count of non-blank ones at the top.
    pub fn live_rows(&self) -> (r: (Vec<Line>, usize))
        ensures
            line_views(r.0@) == screen_lines(self@.log),
            r.1 == used_rows(screen_lines(self@.log)),
            r.1 <= r.0@.len() == grid_rows(self@.log),
            single_lines(screen_lines(self@.log)),
    {
        let live = screen_of(&self.parser);
        let used: usize = count_used(&live);
        (live, used)
    }

    /// Absolute combined-row index of the top visible row for the current view.
    pub fn view_top_abs(&self, _live_used: usize) -> (r: usize)
        requires
            self.wf(),
        ensures
            r == view_top(self@),
            r <= MAX_HISTORY,
            self@.view_offset <= self@.history.len() ==> r + self@.view_offset
                == self@.history.len(),
    {
        let rows: usize = vt_size(&self.parser).0 as usize;
        let hist_len: usize = self.history.len();
        if self.view_offset == 0 {
            // Live view: visible row 0 is live screen row 0.
            hist_len
        } else {
            // The screen's full row count (trailing blanks too) keeps the live and scrolled
            // views continuous after a shrink/grow.
            let combined_len: usize = hist_len + rows;
            combined_len.saturating_sub(rows.saturating_add(self.view_offset))
        }
    }

    /// Map a visible row (0..rows) to its absolute combined-row index.
    pub fn vis_to_abs(&self, vis_row: u16) -> (r: usize)
        requires
            self.wf(),
        ensures
            r == view_top(self@) + vis_row,
            self@.view_offset <= self@.history.len() ==> r + self@.view_offset
                == self@.history.len() + vis_row,
    {
        let (_, live_used) = self.live_rows();
        self.view_top_abs(live_used) + vis_row as usize
    }

    /// Highlight rectangles for the current selection, clipped to the visible window of the
    /// current view.
    pub fn selection_rects_visible(&self, cols: u16) -> (out: Vec<TermMatch>)
        requires
            self.wf(),
        ensures
            out@ == selection_rects(self@, cols),
    {
        let mut out: Vec<TermMatch> = Vec::new();
        let (lo, hi) = match self.ordered_selection() {
            Some(ends) => ends,
            None => return out,
        };
        if lo.0 == hi.0 && lo.1 == hi.1 {
            return out;
        }
        let (_, live_used) = self.live_rows();
        let top: usize = self.view_top_abs(live_used);
        let rows: u16 = vt_size(&self.parser).0;
        let edge: u16 = if cols > 0 {
            cols - 1
        } else {
            0
        };
        let ghost (first, past) = selected_rows(rows, top as nat, lo.0, hi.0);
        let mut vis: u16 = 0;
        while vis < rows
            invariant
                selection(self@) == Some((lo, hi)),
                lo != hi,
                top == view_top(self@),
                top <= MAX_HISTORY,
                rows == grid_rows(self@.log),
                edge == (if cols > 0 {
                    (cols - 1) as u16
                } else {
                    0u16
                }),
                (first, past) == selected_rows(rows, top as nat, lo.0, hi.0),
                vis <= rows,
                out@.len() == (if vis <= first || first >= past {
                    0
                } else if vis <= past {
                    vis - first
                } else {
                    past - first
                }),
                forall|i: int|
                    0 <= i < out@.len() ==> #[trigger] out@[i] == selection_rect(
                        first + i,
                        top as nat,
                        lo,
                        hi,
                        cols,
                    ),
            decreases rows - vis,
        {
            let abs: usize = top + vis as usize;
            if lo.0 <= abs && abs <= hi.0 {
                let (c0, c1) = pick_cols(abs, lo, hi, edge);
                out.push(
                    TermMatch {
                        row: vis as i32,
                        col: c0 as i32,
                        len: (c1.saturating_sub(c0) as i32) + 1,
                    },
                );
            }
            vis += 1;
        }
        assert(out@ =~= selection_rects(self@, cols));
        out
    }

    /// The two ends of the selection, the earlier one first.
    fn ordered_selection(&self) -> (r: Option<((usize, u16), (usize, u16))>)
        ensures
            r == selection(self@),
    {
        match (self.sel_anchor, self.sel_focus) {
            (Some(a), Some(f)) => {
                if a.0 < f.0 || (a.0 == f.0 && a.1 <= f.1) {
                    Some((a, f))
                } else {
                    Some((f, a))
                }
            },
            _ => None,
        }
    }

    /// Extract the selected text from the combined buffer (whole selection, even the parts
    /// currently scrolled out of view). No line of it ends in white space.
    pub fn extract_selection_text(&self) -> (out: String)
        requires
            self.wf(),
        ensures
            out@ == selection_text(self@),
            lines_end_visibly(out@),
            single_lines(combined(self@)),
    {
        let (live, live_used) = self.live_rows();
        proof {
            let v = self@;
            assert forall|i: int| 0 <= i < combined(v).len() implies !(#[trigger] combined(
                v,
            )[i]).text.contains('\n') by {
                if i < v.history.len() {
                    assert(combined(v)[i] == v.history[i]);
                } else {
                    assert(combined(v)[i] == screen_lines(v.log)[i - v.history.len()]);
                }
            }
            law_copied_lines_end_visibly(v);
        }
        let (lo, hi) = match self.ordered_selection() {
            Some(ends) => ends,
            None => return String::new(),
        };
        let hist_len: usize = self.history.len();
        let combined_len: usize = hist_len + live_used;
        // Clamp into real content so that a focus parked on a blank row below the prompt does
        // not emit trailing empty lines.
        let last: usize = combined_len.saturating_sub(1);
        let end: (usize, u16) = if hi.0 <= last {
            hi
        } else {
            (last, u16::MAX)
        };
        let hi_r: usize = end.0;
        let mut out: String = String::new();
        let mut r: usize = lo.0;
        assert(out@ + selected_text(self@, lo, end, r as int) =~= selected_text(
            self@,
            lo,
            end,
            lo.0 as int,
        ));
        while r <= hi_r
            invariant
                self.wf(),
                hist_len == self.history@.len(),
                line_views(live@) == screen_lines(self@.log),
                live@.len() == line_views(live@).len(),
                hi_r == end.0,
                hi_r <= MAX_HISTORY + u16::MAX,
                r <= hi_r || r == lo.0 || r == hi_r + 1,
                out@ + selected_text(self@, lo, end, r as int) == selected_text(
                    self@,
                    lo,
                    end,
                    lo.0 as int,
                ),
            decreases hi_r + 1 - r,
        {
            let line: &str = if r < hist_len {
                self.history[r].0.as_str()
            } else if r - hist_len < live.len() {
                live[r - hist_len].0.as_str()
            } else {
                ""
            };
            proof {
                let v = self@;
                reveal_strlit("");
                if r < hist_len {
                    assert(v.history[r as int] == line_view(self.history@[r as int]));
                    assert(combined(v)[r as int] == v.history[r as int]);
                } else if r - hist_len < live@.len() {
                    assert(line_views(live@)[r - hist_len] == line_view(live@[r - hist_len]));
                    assert(combined(v)[r as int] == screen_lines(v.log)[r - hist_len]);
                }
                assert(line@ == combined_text(v, r as int));
            }
            let chars = to_chars(line);
            // Columns are grid columns (inclusive). The plain text keeps one char per glyph,
            // so that wide (CJK) glyphs make char index and column differ.
            let (c0, c1) = pick_cols(r, lo, end, u16::MAX);
            let prefix = cell_prefix(chars.as_slice());
            let from: usize = char_at_cell_start(prefix.as_slice(), c0 as usize);
            let to: usize = char_after_cell_end(prefix.as_slice(), c1 as usize);
            let ghost before = out@;
            let ghost here = between_cols(line@, (c0, c1));
            if from < to {
                let seg = copy_range(chars.as_slice(), from, to);
                let seg = from_chars(trim_end(seg.as_slice()).as_slice());
                out.append(seg.as_str());
            }
            assert(out@ =~= before + here);
            if r != hi_r {
                out.push('\n');
                assert(out@ + selected_text(self@, lo, end, r + 1) =~= before + selected_text(
                    self@,
                    lo,
                    end,
                    r as int,
                ));
            } else {
                assert(selected_text(self@, lo, end, r + 1) =~= Seq::<char>::empty());
                assert(out@ + selected_text(self@, lo, end, r + 1) =~= before + selected_text(
                    self@,
                    lo,
                    end,
                    r as int,
                ));
            }
            r += 1;
        }
        assert(selected_text(self@, lo, end, r as int) =~= Seq::<char>::empty());
        assert(out@ =~= selected_text(self@, lo, end, lo.0 as int));
        out
    }
}

/// The first and the last selected column of a row between two ends.
fn pick_cols(row: usize, lo: (usize, u16), hi: (usize, u16), edge: u16) -> (r: (u16, u16))
    ensures
        r == selected_cols(row as int, lo, hi, edge),
{
    if row == lo.0 && row == hi.0 {
        if lo.1 <= hi.1 {
            (lo.1, hi.1)
        } else {
            (hi.1, lo.1)
        }
    } else if row == lo.0 {
        (lo.1, edge)
    } else if row == hi.0 {
        (0, hi.1)
    } else {
        (0, edge)
    }
}

// ---- Feeding --------------------------------------------------------------

/// Whether a grid of this size can take any byte.
pub fn is_roomy(rows: u16, cols: u16) -> (r: bool)
    ensures
        r == roomy(rows, cols),
{
    rows >= MIN_ROWS && MIN_COLS <= cols && cols <= MAX_COLS
}

impl TermBuffer {
    /// Translate every CSI sequence terminated by `f` (HVP) into the identical sequence
    /// terminated by `H` (CUP). The scanner state persists across calls, so that a sequence
    /// split across read chunks is still handled. Only the final byte of a CSI sequence is
    /// ever touched; text bytes pass through.
    pub fn rewrite_hvp(&mut self, input: &[u8]) -> (out: Vec<u8>)
        requires
            old(self).wf(),
        ensures
            final(self).wf(),
            out@ == with_cup(old(self)@.csi_state, input@),
            final(self)@ == (TermView {
                csi_state: csi_after(old(self)@.csi_state, input@),
                ..old(self)@
            }),
    {
        let (out, state) = rewrite_csi(self.csi_state, input);
        self.csi_state = state;
        out
    }

    /// Trim the retained stream to `RAW_CAP`, dropping from the front up to the next line
    /// boundary so that a replay never starts mid-escape or mid-wrapped-line.
    pub fn cap_raw(&mut self)
        requires
            old(self).wf(),
        ensures
            final(self).wf(),
            final(self)@ == (TermView { raw: retained(old(self)@.raw), ..old(self)@ }),
    {
        let n: usize = self.raw.len();
        if n <= RAW_CAP {
            return;
        }
        let overflow: usize = n - RAW_CAP;
        let ghost whole = self.raw@;
        let mut kept = self.raw.split_off(overflow);
        let ghost tail = kept@;
        assert(tail == whole.skip(whole.len() - RAW_CAP));
        let mut open: bool = true;
        while open
            invariant
                open ==> after_newline(kept@) == after_newline(tail),
                !open ==> kept@ == after_newline(tail),
            decreases kept@.len() + (if open { 1int } else { 0int }),
        {
            let ghost before = kept@;
            match kept.pop_front() {
                Some(b) => {
                    assert(kept@ == before.drop_first());
                    if b == 0x0a {
                        open = false;
                    }
                },
                None => {
                    open = false;
                },
            }
        }
        self.raw = kept;
    }

    /// Process one bounded batch and capture any lines that scrolled off the top (skipped for
    /// alternate-screen programs like vim/nano, and for programs that redraw the whole screen
    /// without it).
    pub fn ingest_chunk(&mut self, bytes: &[u8])
        requires
            old(self).wf(),
            steady(old(self)@.log),
        ensures
            final(self).wf(),
            final(self)@ == after_chunk(old(self)@, bytes@),
            steady(final(self)@.log),
    {
        let ghost v0 = self@;
        let is_redraw: bool = is_screen_redraw(bytes);
        proof {
            lemma_bytes_keep(v0.log, bytes@);
        }
        vt_process(&mut self.parser, bytes);
        if vt_alternate(&self.parser) || is_redraw {
            self.view_offset = 0;
            self.prev = Vec::new();
            proof {
                assert(line_views(self.prev@) =~= Seq::<LineView>::empty());
                assert(self@ =~= after_chunk(v0, bytes@));
            }
            return;
        }
        let curr = screen_of(&self.parser);
        if self.prev.len() != 0 {
            let k: usize = detect_scroll(self.prev.as_slice(), curr.as_slice());
            let ghost prev0 = self.prev@;
            let ghost hist0 = self.history@;
            if k > 0 {
                self.prev.truncate(k);
                self.history.append(&mut self.prev);
            }
            let ghost gone = v0.prev.take(k as int);
            assert(line_views(self.history@) =~= v0.history + gone) by {
                assert(line_views(hist0) == v0.history);
                assert(line_views(prev0) == v0.prev);
                if k > 0 {
                    assert(self.history@ == hist0 + prev0.take(k as int));
                    assert(line_views(hist0 + prev0.take(k as int)) =~= line_views(hist0)
                        + line_views(prev0).take(k as int));
                } else {
                    assert(gone.len() == 0);
                }
            }
            let n: usize = self.history.len();
            if n > MAX_HISTORY {
                let ghost hist1 = self.history@;
                let kept = self.history.split_off(n - MAX_HISTORY);
                assert(line_views(kept@) =~= line_views(hist1).skip(n - MAX_HISTORY));
                self.history = kept;
            }
            assert(line_views(self.history@) == recent(v0.history + gone));
        }
        self.prev = curr;
        assert(self@ =~= after_chunk(v0, bytes@));
    }

    /// Feed an (already rewritten) byte slice to the emulator in newline-bounded batches,
    /// capturing scrolled-off lines into history after each. Does not touch the retained
    /// stream, so that both live ingest and resize-reflow replay use it.
    pub fn feed_batched(&mut self, bytes: &[u8])
        requires
            old(self).wf(),
            steady(old(self)@.log) || bytes@.len() == 0,
        ensures
            final(self).wf(),
            final(self)@ == after_feed(old(self)@, bytes@),
            steady(final(self)@.log) == steady(old(self)@.log),
    {
        let ghost v0 = self@;
        let rows: u16 = vt_size(&self.parser).0;
        let half: usize = (rows / 2) as usize;
        let limit: usize = if half < 1 {
            1
        } else {
            half
        };
        let n: usize = bytes.len();
        let mut start: usize = 0;
        let mut nl: usize = 0;
        let mut i: usize = 0;
        assert(bytes@.skip(0) == bytes@);
        while i < n
            invariant
                n == bytes@.len(),
                limit == batch_lines(grid_rows(v0.log)),
                limit >= 1,
                start <= i <= n,
                nl < limit,
                self.wf(),
                steady(v0.log) || n == 0,
                steady(self@.log) == steady(v0.log),
                after_chunks(self@, batches(bytes@.skip(start as int), limit as nat))
                    == after_feed(v0, bytes@),
                batch_end(bytes@.skip(start as int), limit as nat, 0) == batch_end(
                    bytes@.skip(start as int),
                    (limit - nl) as nat,
                    i - start,
                ),
            decreases n - i,
        {
            let ghost rest = bytes@.skip(start as int);
            assert(rest[i - start] == bytes@[i as int]);
            if bytes[i] == 0x0a {
                nl += 1;
                if nl >= limit {
                    let part = slice_subrange(bytes, start, i + 1);
                    proof {
                        assert(batch_end(rest, limit as nat, 0) == i + 1 - start);
                        lemma_next_batch(self@, rest, limit as nat);
                        assert(part@ == rest.take(i + 1 - start));
                        assert(rest.skip(i + 1 - start) == bytes@.skip(i + 1));
                    }
                    self.ingest_chunk(part);
                    start = i + 1;
                    nl = 0;
                }
            }
            i += 1;
        }
        if start < n {
            let part = slice_subrange(bytes, start, n);
            proof {
                let rest = bytes@.skip(start as int);
                assert(batch_end(rest, limit as nat, 0) == rest.len());
                lemma_next_batch(self@, rest, limit as nat);
                assert(part@ == rest);
                assert(rest.take(rest.len() as int) == rest);
                assert(batches(rest.skip(rest.len() as int), limit as nat) =~= Seq::<
                    Seq<u8>,
                >::empty());
            }
            self.ingest_chunk(part);
        } else {
            assert(batches(bytes@.skip(start as int), limit as nat) =~= Seq::<Seq<u8>>::empty());
        }
    }

    /// Feed bytes to the emulator and capture scrolled-off lines into history.
    ///
    /// Scrolling is detected by comparing the screen before and after, which can only recover
    /// up to one screen of shift per call. A single large burst can scroll many screens at once,
    /// so the input is split at newline boundaries into batches of at most about half a screen of
    /// lines, and captured after each: no batch scrolls more than the comparison can see. VT
    /// escape sequences never contain a newline, so that splitting there is safe.
    pub fn ingest(&mut self, input: &[u8])
        requires
            old(self).wf(),
            steady(old(self)@.log) || input@.len() == 0,
        ensures
            final(self).wf(),
            final(self)@ == after_ingest(old(self)@, input@),
            steady(final(self)@.log) == steady(old(self)@.log),
    {
        let ghost v0 = self@;
        let bytes = self.rewrite_hvp(input);
        let ghost v1 = self@;
        let mut i: usize = 0;
        while i < bytes.len()
            invariant
                i <= bytes@.len(),
                self.wf(),
                self@ == (TermView { raw: v0.raw + bytes@.take(i as int), ..v1 }),
            decreases bytes@.len() - i,
        {
            self.raw.push_back(bytes[i]);
            i += 1;
            assert(v0.raw + bytes@.take(i as int) =~= (v0.raw + bytes@.take(i - 1)).push(
                bytes@[i - 1],
            ));
        }
        assert(bytes@.take(i as int) == bytes@);
        self.cap_raw();
        self.feed_batched(bytes.as_slice());
    }

    /// A copy of the retained stream.
    fn retained_stream(&self) -> (stream: Vec<u8>)
        ensures
            stream@ == self@.raw,
    {
        let mut stream: Vec<u8> = Vec::new();
        let n: usize = self.raw.len();
        let mut i: usize = 0;
        while i < n
            invariant
                n == self.raw@.len(),
                i <= n,
                stream@ == self.raw@.take(i as int),
            decreases n - i,
        {
            stream.push(self.raw[i]);
            i += 1;
            assert(self.raw@.take(i as int) =~= self.raw@.take(i - 1).push(self.raw@[i - 1]));
        }
        assert(stream@ =~= self.raw@);
        stream
    }

    /// Resize-reflow: rebuild the screen and scrollback at a new size by replaying the retained
    /// byte stream through a fresh emulator. The emulator itself cannot reflow, and only
    /// rendered rows are kept in history, so replaying the stream is what lets long lines rewrap
    /// to the new width. Used only on the normal screen: alternate-screen programs redraw.
    pub fn reflow(&mut self, new_rows: u16, new_cols: u16)
        requires
            old(self).wf(),
            roomy(new_rows, new_cols),
        ensures
            final(self).wf(),
            final(self)@ == after_reflow(old(self)@, new_rows, new_cols),
            steady(final(self)@.log),
    {
        let stream = self.retained_stream();
        self.parser = vt_new(new_rows, new_cols, PARSER_SCROLLBACK);
        self.history = Vec::new();
        self.prev = Vec::new();
        self.view_offset = 0;
        // The scrollback line count changes, so absolute selection coordinates no longer map.
        self.sel_anchor = None;
        self.sel_focus = None;
        self.intact = true;
        proof {
            let log = vt_log(self.parser);
            assert(log.drop_last().len() == 0);
            assert(steady(log));
            assert(line_views(self.history@) =~= Seq::<LineView>::empty());
            assert(line_views(self.prev@) =~= Seq::<LineView>::empty());
        }
        self.feed_batched(stream.as_slice());
    }
}

// ---- Resizing -------------------------------------------------------------

/// Apply a settled terminal size to the grid. The caller debounces: a layout reflow can
/// briefly report a near-zero width, and applying that garbles running output, so that only
/// the settled size ever gets here. A grid too small to take any byte is left out: the emulator
/// stops on bytes that do not fit it.
pub fn apply_terminal_resize(buf: &mut TermBuffer, cols: u32, rows: u32)
    requires
        old(buf).wf(),
        roomy(rows as u16, cols as u16),
    ensures
        final(buf).wf(),
        final(buf)@ == after_resize(old(buf)@, rows as u16, cols as u16),
        grid_rows(final(buf)@.log) == rows as u16,
        grid_cols(final(buf)@.log) == cols as u16,
{
    proof {
        law_resize_takes_effect(buf@, rows as u16, cols as u16);
    }
    let (old_rows, old_cols) = vt_size(&buf.parser);
    let (new_rows, new_cols) = (rows as u16, cols as u16);
    if new_rows != old_rows || new_cols != old_cols {
        if vt_alternate(&buf.parser) {
            // The remote redraws the whole screen on SIGWINCH, so just resize the grid and let
            // that redraw fill it.
            let ghost log = buf@.log;
            vt_set_size(&mut buf.parser, new_rows, new_cols);
            buf.intact = buf.intact && old_rows <= new_rows && old_cols <= new_cols;
            assert(vt_log(buf.parser).drop_last() == log);
        } else {
            buf.reflow(new_rows, new_cols);
        }
        // The screens before and after differ; drop the scroll-detection snapshot so that the
        // next output is not read as a scroll.
        buf.prev = Vec::new();
        assert(line_views(buf.prev@) =~= Seq::<LineView>::empty());
    }
}

impl TermBuffer {
    /// Make the emulator anew where it was made smaller: it may keep saved cursors past its edge,
    /// and stop on the byte that goes back to one. The new one has the same size and is fed the
    /// retained stream; the scrollback, the view and the selection stay as they are.
    pub fn renew(&mut self)
        requires
            old(self).wf(),
        ensures
            final(self).wf(),
            final(self)@ == renewed(old(self)@),
            steady(final(self)@.log),
    {
        if self.intact {
            return;
        }
        let ghost v0 = self@;
        let (rows, cols) = vt_size(&self.parser);
        let was_alt: bool = vt_alternate(&self.parser);
        let stream = self.retained_stream();
        let mut parser = vt_new(rows, cols, PARSER_SCROLLBACK);
        proof {
            let log = vt_log(parser);
            assert(log.drop_last().len() == 0);
            assert(steady(log));
            assert(grid_rows(log) == rows && grid_cols(log) == cols);
            lemma_bytes_keep(log, stream@);
            lemma_bytes_keep(log + byte_ops(stream@), enter_alternate());
        }
        vt_process(&mut parser, stream.as_slice());
        if was_alt && !vt_alternate(&parser) {
            let enter: Vec<u8> = vec![0x1b, 0x5b, 0x3f, 0x31, 0x30, 0x34, 0x39, 0x68];
            assert(enter@ =~= enter_alternate());
            vt_process(&mut parser, enter.as_slice());
        }
        self.parser = parser;
        self.intact = true;
        assert(self@ =~= renewed(v0));
    }
}

// ---- Rendering ------------------------------------------------------------

/// One run as it is painted.
pub struct TermSpan {
    pub text: String,
    pub fg: Shade,
    pub bg: Shade,
    pub bold: bool,
    pub row: i32,
    pub col: i32,
    pub cells: i32,
    pub cjk: bool,
}

impl View for TermSpan {
    type V = PaintView;

    open spec fn view(&self) -> PaintView {
        PaintView {
            text: self.text@,
            fg: self.fg,
            bg: self.bg,
            bold: self.bold,
            row: self.row,
            col: self.col,
            cells: self.cells,
            cjk: self.cjk,
        }
    }
}

/// The painted runs of a list.
pub open spec fn paint_views(spans: Seq<TermSpan>) -> Seq<PaintView> {
    spans.map_values(|s: TermSpan| s@)
}

/// A coloured, cursor-annotated snapshot ready for the terminal grid.
pub struct BuiltScreen {
    pub spans: Vec<TermSpan>,
    pub cursor_row: i32,
    pub cursor_col: i32,
    pub rows_used: i32,
    pub is_alt: bool,
    /// Scrollback depth (max view offset = history length) and the current offset (0 = live
    /// bottom), for the terminal scrollbar.
    pub scroll_max: i32,
    pub scroll_offset: i32,
}

impl View for BuiltScreen {
    type V = BuiltView;

    open spec fn view(&self) -> BuiltView {
        BuiltView {
            spans: paint_views(self.spans@),
            cursor_row: self.cursor_row,
            cursor_col: self.cursor_col,
            rows_used: self.rows_used,
            is_alt: self.is_alt,
            scroll_max: self.scroll_max,
            scroll_offset: self.scroll_offset,
        }
    }
}

/// Appends the runs of a line, painted on a visible row.
fn paint_line(spans: &mut Vec<TermSpan>, runs: &Vec<HistSpan>, row: u16, is_dark: bool)
    ensures
        paint_views(final(spans)@) == paint_views(old(spans)@) + span_views(runs@).map_values(
            |run: SpanView| painted(run, row as int, is_dark),
        ),
{
    let ghost before = paint_views(spans@);
    let ghost f = |run: SpanView| painted(run, row as int, is_dark);
    let ghost all = span_views(runs@).map_values(f);
    let mut i: usize = 0;
    while i < runs.len()
        invariant
            i <= runs@.len(),
            f == (|run: SpanView| painted(run, row as int, is_dark)),
            all == span_views(runs@).map_values(f),
            paint_views(spans@) == before + all.take(i as int),
        decreases runs@.len() - i,
    {
        let hs = &runs[i];
        let ghost sofar = spans@;
        let span = TermSpan {
            text: hs.text.clone(),
            fg: vt_color_to_slint(hs.fg, hs.bold, is_dark),
            bg: vt_bg_to_slint(hs.bg, is_dark),
            bold: hs.bold,
            row: row as i32,
            col: hs.col,
            cells: hs.cells,
            cjk: contains_cjk(hs.text.as_str()),
        };
        spans.push(span);
        i += 1;
        proof {
            assert(span@ == f(hs@));
            assert(all[i - 1] == f(runs@[i - 1]@));
            assert(paint_views(spans@) =~= paint_views(sofar).push(span@));
            assert(before + all.take(i as int) =~= (before + all.take(i - 1)).push(all[i - 1]));
        }
    }
    assert(all.take(i as int) == all);
}

impl TermBuffer {
    /// Render the terminal grid for the current scrollback view offset (0 = live). Caches the
    /// displayed plain text for find and selection.
    pub fn render(&mut self) -> (built: BuiltScreen)
        requires
            old(self).wf(),
        ensures
            final(self).wf(),
            built@ == rendered(old(self)@),
            final(self)@ == after_render(old(self)@),
    {
        let ghost v = self@;
        let is_alt: bool = vt_alternate(&self.parser);
        let rows: u16 = vt_size(&self.parser).0;
        let (cur_row, cur_col) = vt_cursor(&self.parser);
        let live = screen_of(&self.parser);
        let hist_len: usize = self.history.len();
        let on_live: bool = is_alt || self.view_offset == 0;
        let start: usize = if on_live {
            hist_len
        } else {
            hist_len.saturating_sub(self.view_offset)
        };
        let ghost lines = shown_lines(v);
        let ghost trim = |l: LineView| trimmed_end(l.text);
        assert(lines.len() == rows) by {
            assert(combined(v).len() == hist_len + rows);
        }
        let mut spans: Vec<TermSpan> = Vec::new();
        let mut displayed: Vec<String> = Vec::new();
        let mut used: u16 = 0;
        let mut d: u16 = 0;
        assert(paint_views(spans@) =~= painted_rows(lines, v.is_dark, 0));
        assert(texts(displayed@) =~= lines.take(0).map_values(trim));
        while d < rows
            invariant
                self.wf(),
                self@ == v,
                hist_len == self.history@.len(),
                start == (if on_live {
                    v.history.len()
                } else {
                    view_top(v)
                }),
                on_live == is_live(v),
                lines == shown_lines(v),
                lines.len() == rows,
                trim == (|l: LineView| trimmed_end(l.text)),
                line_views(live@) == screen_lines(v.log),
                live@.len() == rows,
                rows == grid_rows(v.log),
                d <= rows,
                used <= d,
                used == used_rows(lines.take(d as int)),
                paint_views(spans@) == painted_rows(lines, v.is_dark, d as int),
                texts(displayed@) == lines.take(d as int).map_values(trim),
            decreases rows - d,
        {
            let idx: usize = start + d as usize;
            let line: &Line = if idx < hist_len {
                &self.history[idx]
            } else {
                &live[idx - hist_len]
            };
            proof {
                if idx < hist_len {
                    assert(v.history[idx as int] == line_view(self.history@[idx as int]));
                    assert(combined(v)[idx as int] == v.history[idx as int]);
                } else {
                    assert(line_views(live@)[idx - hist_len] == line_view(live@[idx - hist_len]));
                    assert(combined(v)[idx as int] == screen_lines(v.log)[idx - hist_len]);
                }
                assert(lines[d as int] == line_view(*line));
                assert(lines.take(d + 1).drop_last() == lines.take(d as int));
                assert(lines.take(d + 1).last() == lines[d as int]);
            }
            let ghost shown0 = displayed@;
            paint_line(&mut spans, &line.1, d, self.is_dark);
            let text = trim_end_text(line.0.as_str());
            displayed.push(text);
            if line.1.len() != 0 {
                used = d + 1;
            }
            d += 1;
            proof {
                assert(texts(displayed@) =~= texts(shown0).push(text@));
                assert(lines.take(d as int).map_values(trim) =~= lines.take(d - 1).map_values(
                    trim,
                ).push(trimmed_end(line.0@)));
            }
        }
        assert(lines.take(d as int) == lines);
        self.displayed_text = displayed;
        assert(self@ =~= after_render(v));
        let hist: i32 = hist_len as i32;
        if on_live {
            let rows_used: i32 = if is_alt {
                rows as i32
            } else if used > 0 {
                used as i32
            } else {
                1
            };
            BuiltScreen {
                spans,
                cursor_row: cur_row as i32,
                cursor_col: cur_col as i32,
                rows_used,
                is_alt,
                scroll_max: if is_alt {
                    0
                } else {
                    hist
                },
                scroll_offset: 0,
            }
        } else {
            BuiltScreen {
                spans,
                cursor_row: -1,
                cursor_col: 0,
                rows_used: rows as i32,
                is_alt: false,
                scroll_max: hist,
                scroll_offset: self.view_offset as i32,
            }
        }
    }
}

// ---- What a tab shows -----------------------------------------------------

/// All that a tab shows of its terminal: the screen, the find highlights and the selection.
pub struct TabDisplay {
    pub screen: BuiltScreen,
    pub find_matches: Vec<TermMatch>,
    pub selection: Vec<TermMatch>,
}

/// Recompute spans, cursor and find/selection highlights for one tab from its current screen
/// (respecting scrollback).
pub fn rebuild_tab_display(buf: &mut TermBuffer) -> (d: TabDisplay)
    requires
        old(buf).wf(),
    ensures
        final(buf).wf(),
        final(buf)@ == after_render(old(buf)@),
        d.screen@ == rendered(old(buf)@),
        d.find_matches@ == find_matches(
            final(buf)@.displayed,
            old(buf)@.find_query,
            grid_rows(old(buf)@.log) as int,
        ),
        d.selection@ == selection_rects(old(buf)@, grid_cols(old(buf)@.log)),
{
    let ghost v = buf@;
    let cols: u16 = vt_size(&buf.parser).1;
    let screen = buf.render();
    let found = compute_find_matches(buf.displayed_text.as_slice(), buf.find_query.as_str());
    let marked = buf.selection_rects_visible(cols);
    proof {
        assert(shown_lines(v).len() == grid_rows(v.log)) by {
            assert(combined(v).len() == v.history.len() + grid_rows(v.log));
        }
        assert(texts(buf.displayed_text@).len() == buf.displayed_text@.len());
        assert(selection_rects(buf@, cols) =~= selection_rects(v, cols));
    }
    TabDisplay { screen, find_matches: found, selection: marked }
}

impl TermBuffer {
    /// Search for a text ("" = no search).
    pub fn set_find_query(&mut self, query: &str)
        requires
            old(self).wf(),
        ensures
            final(self).wf(),
            final(self)@ == (TermView { find_query: query@, ..old(self)@ }),
    {
        self.find_query = query.to_owned();
    }

    /// Switch between the dark and the light palette.
    pub fn set_dark(&mut self, is_dark: bool)
        requires
            old(self).wf(),
        ensures
            final(self).wf(),
            final(self)@ == (TermView { is_dark: is_dark, ..old(self)@ }),
    {
        self.is_dark = is_dark;
    }

    /// Set both ends of the selection, in absolute coordinates.
    pub fn set_selection(&mut self, anchor: Option<(usize, u16)>, focus: Option<(usize, u16)>)
        requires
            old(self).wf(),
        ensures
            final(self).wf(),
            final(self)@ == (TermView { sel_anchor: anchor, sel_focus: focus, ..old(self)@ }),
    {
        self.sel_anchor = anchor;
        self.sel_focus = focus;
    }

    /// Scroll the view back by so many lines from the live bottom.
    pub fn set_view_offset(&mut self, offset: usize)
        requires
            old(self).wf(),
        ensures
            final(self).wf(),
            final(self)@ == (TermView { view_offset: offset, ..old(self)@ }),
    {
        self.view_offset = offset;
    }

    /// Rows and columns of the grid.
    pub fn size(&self) -> (r: (u16, u16))
        ensures
            r == (grid_rows(self@.log), grid_cols(self@.log)),
    {
        vt_size(&self.parser)
    }

    /// The lines of scrollback.
    pub fn history_len(&self) -> (n: usize)
        ensures
            n == self@.history.len(),
    {
        self.history.len()
    }

    /// The bytes retained for a replay.
    pub fn retained_len(&self) -> (n: usize)
        ensures
            n == self@.raw.len(),
    {
        self.raw.len()
    }

    /// The plain text of a displayed row, as last rendered.
    pub fn displayed_row(&self, row: usize) -> (s: Option<String>)
        ensures
            s is Some <==> row < self@.displayed.len(),
            s matches Some(t) ==> t@ == self@.displayed[row as int],
    {
        if row < self.displayed_text.len() {
            Some(self.displayed_text[row].clone())
        } else {
            None
        }
    }
}

} // verus!
