//! Lines of the screen: what a row of cells shows, as plain text and as coloured runs.

use vstd::prelude::*;

use crate::text::{lemma_joined_without, to_chars};
use crate::vt::{cell_after, on_grid, vt_cell, vt_log, VtColor, VtOp};

verus! {

// ---- Cells as shown -------------------------------------------------------

/// What a cell shows: its text, its colours after reverse video, and whether its glyph takes
/// two cells.
#[verifier::ext_equal]
pub ghost struct ShownCell {
    pub text: Seq<char>,
    pub fg: VtColor,
    pub bg: VtColor,
    pub bold: bool,
    pub wide: bool,
}

/// A place with nothing in it.
pub open spec fn empty_place() -> ShownCell {
    ShownCell {
        text: seq![' '],
        fg: VtColor::Default,
        bg: VtColor::Default,
        bold: false,
        wide: false,
    }
}

/// What a cell of the grid shows. The second half of a wide glyph shows nothing, because the
/// glyph covers it; an empty cell shows a space, and so does a place off the grid.
pub open spec fn shown_cell(log: Seq<VtOp>, row: u16, col: u16) -> ShownCell {
    if on_grid(log, row, col) {
        let cell = cell_after(log, row, col);
        ShownCell {
            text: if cell.continuation {
                Seq::empty()
            } else if cell.contents.len() == 0 {
                seq![' ']
            } else {
                cell.contents
            },
            fg: if cell.inverse {
                cell.bg
            } else {
                cell.fg
            },
            bg: if cell.inverse {
                cell.fg
            } else {
                cell.bg
            },
            bold: cell.bold,
            wide: cell.wide,
        }
    } else {
        empty_place()
    }
}

/// Effective (contents, fg, bg, bold, wide) for one grid cell, applying reverse video.
/// `contents` is one display string: " " for a blank cell, "" for the second half of a wide
/// glyph.
pub fn cell_attrs(parser: &vt100::Parser, r: u16, c: u16) -> (out: (
    String,
    VtColor,
    VtColor,
    bool,
    bool,
))
    ensures
        (ShownCell { text: out.0@, fg: out.1, bg: out.2, bold: out.3, wide: out.4 }) == shown_cell(
            vt_log(*parser),
            r,
            c,
        ),
        !out.0@.contains('\n'),
{
    match vt_cell(parser, r, c) {
        Some(cell) => {
            let (fg, bg) = if cell.inverse {
                (cell.bg, cell.fg)
            } else {
                (cell.fg, cell.bg)
            };
            let s: String = if cell.continuation {
                String::new()
            } else if cell.contents.as_str().is_empty() {
                space()
            } else {
                cell.contents
            };
            (s, fg, bg, cell.bold, cell.wide)
        },
        None => (space(), VtColor::Default, VtColor::Default, false, false),
    }
}

/// One space.
fn space() -> (r: String)
    ensures
        r@ == seq![' '],
{
    let mut r: String = String::new();
    r.push(' ');
    assert(r@ =~= seq![' ']);
    r
}

/// What the first `cols` places of a row show.
pub open spec fn row_cells(log: Seq<VtOp>, row: u16, cols: u16) -> Seq<ShownCell> {
    Seq::new(cols as nat, |c: int| shown_cell(log, row, c as u16))
}

// ---- Runs -----------------------------------------------------------------

/// One coloured run within a line (its grid row is assigned at render time). Colours are kept
/// as the terminal gave them, so that the palette (dark or light) is applied at render time:
/// a theme switch then recolours the entire scrollback.
pub struct HistSpan {
    pub text: String,
    pub fg: VtColor,
    pub bg: VtColor,
    pub bold: bool,
    pub col: i32,
    pub cells: i32,
}

/// A run: its text, its look, the column it starts in and the cells it takes.
#[verifier::ext_equal]
pub ghost struct SpanView {
    pub text: Seq<char>,
    pub fg: VtColor,
    pub bg: VtColor,
    pub bold: bool,
    pub col: i32,
    pub cells: i32,
}

impl View for HistSpan {
    type V = SpanView;

    open spec fn view(&self) -> SpanView {
        SpanView {
            text: self.text@,
            fg: self.fg,
            bg: self.bg,
            bold: self.bold,
            col: self.col,
            cells: self.cells,
        }
    }
}

/// The runs of a list.
pub open spec fn span_views(runs: Seq<HistSpan>) -> Seq<SpanView> {
    runs.map_values(|h: HistSpan| h@)
}

/// A rendered line: plain text (for find and selection) and runs.
pub type Line = (String, Vec<HistSpan>);

/// A line: its plain text and its runs.
#[verifier::ext_equal]
pub ghost struct LineView {
    pub text: Seq<char>,
    pub runs: Seq<SpanView>,
}

/// What a line holds.
pub open spec fn line_view(line: Line) -> LineView {
    LineView { text: line.0@, runs: span_views(line.1@) }
}

/// What each of a list of lines holds.
pub open spec fn line_views(lines: Seq<Line>) -> Seq<LineView> {
    lines.map_values(|l: Line| line_view(l))
}

/// Whether no line of a list holds a line feed.
pub open spec fn single_lines(lines: Seq<LineView>) -> bool {
    forall|i: int| 0 <= i < lines.len() ==> !(#[trigger] lines[i]).text.contains('\n')
}

/// Whether two cells can stand in one run.
pub open spec fn same_look(a: ShownCell, b: ShownCell) -> bool {
    a.fg == b.fg && a.bg == b.bg && a.bold == b.bold
}

/// The first place from `c` on that does not belong to the run that starts at `start`: a wide
/// glyph, a cell that looks otherwise, or the end of the row.
pub open spec fn run_end(cells: Seq<ShownCell>, start: int, c: int) -> int
    decreases cells.len() - c,
{
    if c < 0 || c >= cells.len() || cells[c].wide || !same_look(cells[c], cells[start]) {
        c
    } else {
        run_end(cells, start, c + 1)
    }
}

/// The texts of the cells from `a` up to `b`, joined.
pub open spec fn joined(cells: Seq<ShownCell>, a: int, b: int) -> Seq<char>
    decreases b - a,
{
    if a >= b {
        Seq::empty()
    } else {
        joined(cells, a, b - 1) + cells[b - 1].text
    }
}

/// Whether a text is spaces only.
pub open spec fn all_spaces(s: Seq<char>) -> bool {
    forall|i: int| 0 <= i < s.len() ==> #[trigger] s[i] == ' '
}

/// The plain text of a row from place `c` on: the cells' texts, the place after a wide glyph
/// left out.
pub open spec fn row_text(cells: Seq<ShownCell>, c: int) -> Seq<char>
    decreases cells.len() + 1 - c,
{
    if c < 0 || c >= cells.len() {
        Seq::empty()
    } else if cells[c].wide {
        cells[c].text + row_text(cells, c + 2)
    } else {
        cells[c].text + row_text(cells, c + 1)
    }
}

/// The run made of the cells from `a` up to `b`.
pub open spec fn run_of(cells: Seq<ShownCell>, a: int, b: int) -> SpanView {
    SpanView {
        text: joined(cells, a, b),
        fg: cells[a].fg,
        bg: cells[a].bg,
        bold: cells[a].bold,
        col: a as i32,
        cells: (b - a) as i32,
    }
}

/// The run of one wide glyph: exactly its two cells.
pub open spec fn wide_run(cells: Seq<ShownCell>, c: int) -> SpanView {
    SpanView {
        text: cells[c].text,
        fg: cells[c].fg,
        bg: cells[c].bg,
        bold: cells[c].bold,
        col: c as i32,
        cells: 2,
    }
}

/// Whether a run shows nothing: spaces on the default background.
pub open spec fn invisible(run: SpanView) -> bool {
    all_spaces(run.text) && run.bg == VtColor::Default
}

/// The visible runs of a row from place `c` on: each wide glyph by itself, and the longest
/// stretches of narrow cells that look alike.
pub open spec fn row_runs(cells: Seq<ShownCell>, c: int) -> Seq<SpanView>
    decreases cells.len() + 1 - c,
    when 0 <= c
    via row_runs_shrink
{
    if c < 0 || c >= cells.len() {
        Seq::empty()
    } else if cells[c].wide {
        seq![wide_run(cells, c)] + row_runs(cells, c + 2)
    } else {
        let e = run_end(cells, c, c + 1);
        let run = run_of(cells, c, e);
        if invisible(run) {
            row_runs(cells, e)
        } else {
            seq![run] + row_runs(cells, e)
        }
    }
}

#[via_fn]
proof fn row_runs_shrink(cells: Seq<ShownCell>, c: int) {
    if c < cells.len() && !cells[c].wide {
        lemma_run_end(cells, c, c + 1);
    }
}

/// A run ends within the row, and all its cells are narrow and look alike.
pub proof fn lemma_run_end(cells: Seq<ShownCell>, start: int, c: int)
    requires
        0 <= c <= cells.len(),
    ensures
        c <= run_end(cells, start, c) <= cells.len(),
        forall|i: int|
            c <= i < run_end(cells, start, c) ==> !(#[trigger] cells[i]).wide && same_look(
                cells[i],
                cells[start],
            ),
    decreases cells.len() - c,
{
    if c < cells.len() && !cells[c].wide && same_look(cells[c], cells[start]) {
        lemma_run_end(cells, start, c + 1);
    }
}

/// What a row of cells amounts to.
pub open spec fn row_line(cells: Seq<ShownCell>) -> LineView {
    LineView { text: row_text(cells, 0), runs: row_runs(cells, 0) }
}

/// Whether a string is spaces only.
fn is_blank(s: &str) -> (r: bool)
    ensures
        r == all_spaces(s@),
{
    let chars = to_chars(s);
    let mut i: usize = 0;
    while i < chars.len()
        invariant
            i <= chars@.len(),
            chars@ == s@,
            forall|j: int| 0 <= j < i ==> #[trigger] chars@[j] == ' ',
        decreases chars@.len() - i,
    {
        if chars[i] != ' ' {
            assert(s@[i as int] != ' ');
            return false;
        }
        i += 1;
    }
    true
}

/// Build one screen row into plain text and coloured runs.
///
/// A wide (CJK) glyph gets its own span of exactly its two grid cells, so that it can be boxed
/// and centred on the monospace grid. Consecutive narrow cells that share colours and weight
/// form one run, blank cells included (a coloured bar made of spaces still needs its fill);
/// runs that show nothing are left out.
pub fn build_row(parser: &vt100::Parser, r: u16, cols: u16) -> (line: Line)
    ensures
        line_view(line) == row_line(row_cells(vt_log(*parser), r, cols)),
        !line.0@.contains('\n'),
{
    let ghost cells = row_cells(vt_log(*parser), r, cols);
    let mut plain: String = String::new();
    let mut runs: Vec<HistSpan> = Vec::new();
    let mut c: u32 = 0;
    assert(plain@ + row_text(cells, 0) =~= row_text(cells, 0));
    assert(span_views(runs@) + row_runs(cells, 0) =~= row_runs(cells, 0));
    while c < cols as u32
        invariant
            0 <= c <= cols + 1,
            cells == row_cells(vt_log(*parser), r, cols),
            plain@ + row_text(cells, c as int) == row_text(cells, 0),
            !plain@.contains('\n'),
            span_views(runs@) + row_runs(cells, c as int) == row_runs(cells, 0),
        decreases cols + 1 - c,
    {
        let (s, fg, bg, bold, wide) = cell_attrs(parser, r, c as u16);
        let ghost here = cells[c as int];
        assert(here.text == s@ && here.fg == fg && here.bg == bg && here.bold == bold && here.wide
            == wide);
        let ghost plain0 = plain@;
        let ghost runs0 = runs@;
        proof {
            lemma_joined_without(plain@, s@, '\n');
        }
        if wide {
            plain.append(s.as_str());
            let h = HistSpan { text: s, fg, bg, bold, col: c as i32, cells: 2 };
            assert(h@ == wide_run(cells, c as int));
            runs.push(h);
            proof {
                assert(plain@ + row_text(cells, c + 2) =~= plain0 + row_text(cells, c as int));
                assert(span_views(runs@) =~= span_views(runs0).push(h@));
                assert(span_views(runs@) + row_runs(cells, c + 2) =~= span_views(runs0) + row_runs(
                    cells,
                    c as int,
                ));
                if c + 2 >= cells.len() {
                    assert(row_text(cells, c + 2) == row_text(cells, cells.len() as int));
                }
            }
            c = c + 2;
            continue;
        }
        let start: u32 = c;
        plain.append(s.as_str());
        let mut text: String = s;
        c = c + 1;
        assert(plain@ + row_text(cells, c as int) =~= plain0 + row_text(cells, start as int));
        assert(joined(cells, start as int, start as int) == Seq::<char>::empty());
        assert(joined(cells, start as int, c as int) =~= text@);
        let mut open: bool = true;
        while c < cols as u32 && open
            invariant
                start < c <= cols,
                cells == row_cells(vt_log(*parser), r, cols),
                here == cells[start as int],
                here.fg == fg && here.bg == bg && here.bold == bold,
                plain@ + row_text(cells, c as int) == row_text(cells, 0),
                !plain@.contains('\n'),
                text@ == joined(cells, start as int, c as int),
                run_end(cells, start as int, start + 1) == run_end(cells, start as int, c as int),
                !open ==> run_end(cells, start as int, c as int) == c,
            decreases cols - c + (if open { 1int } else { 0int }),
        {
            let (cs, cfg, cbg, cbold, cwide) = cell_attrs(parser, r, c as u16);
            let ghost next = cells[c as int];
            assert(next.text == cs@ && next.fg == cfg && next.bg == cbg && next.bold == cbold
                && next.wide == cwide);
            if cwide || cfg != fg || cbg != bg || cbold != bold {
                open = false;
            } else {
                let ghost plain1 = plain@;
                proof {
                    lemma_joined_without(plain@, cs@, '\n');
                }
                plain.append(cs.as_str());
                text.append(cs.as_str());
                assert(plain@ + row_text(cells, c + 1) =~= plain1 + row_text(cells, c as int));
                c = c + 1;
            }
        }
        assert(run_end(cells, start as int, start + 1) == c);
        let ghost run = run_of(cells, start as int, c as int);
        let bg_default: bool = match bg {
            VtColor::Default => true,
            _ => false,
        };
        if is_blank(text.as_str()) && bg_default {
            assert(row_runs(cells, start as int) == row_runs(cells, c as int));
            continue;
        }
        let h = HistSpan { text, fg, bg, bold, col: start as i32, cells: (c - start) as i32 };
        assert(h@ == run);
        runs.push(h);
        proof {
            assert(span_views(runs@) =~= span_views(runs0).push(h@));
            assert(row_runs(cells, start as int) == seq![run] + row_runs(cells, c as int));
            assert(span_views(runs@) + row_runs(cells, c as int) =~= span_views(runs0) + row_runs(
                cells,
                start as int,
            ));
        }
    }
    proof {
        assert(row_text(cells, c as int) == Seq::<char>::empty());
        assert(row_runs(cells, c as int) == Seq::<SpanView>::empty());
        assert(plain@ =~= row_text(cells, 0));
        assert(span_views(runs@) =~= row_runs(cells, 0));
    }
    (plain, runs)
}

// ---- Scrolling ------------------------------------------------------------

/// How many lines of two screens agree from the top on, from line `i`, when the first one is
/// moved up by `k` lines. Lines agree when their plain texts do.
pub open spec fn run_length(prev: Seq<LineView>, curr: Seq<LineView>, k: int, i: int) -> nat
    decreases curr.len() - i,
{
    if i < 0 || i >= curr.len() || k + i < 0 || k + i >= prev.len() || prev[k + i].text
        != curr[i].text {
        0
    } else {
        1 + run_length(prev, curr, k, i + 1)
    }
}

/// Whether two screens agree on all the lines they share when the first one is moved up by `k`
/// lines, and share some.
pub open spec fn aligned(prev: Seq<LineView>, curr: Seq<LineView>, k: int) -> bool {
    let run = run_length(prev, curr, k, 0);
    run > 0 && (run == prev.len() - k || run == curr.len())
}

/// Whether shift `a` aligns two screens better than shift `b`: by a longer run of equal lines
/// from the top, or by one as long beyond which no line differs.
pub open spec fn better_shift(prev: Seq<LineView>, curr: Seq<LineView>, a: int, b: int) -> bool {
    let (x, y) = (run_length(prev, curr, a, 0), run_length(prev, curr, b, 0));
    x > y || (x == y && aligned(prev, curr, a) && !aligned(prev, curr, b))
}

/// The shift, up to `n`, that aligns two screens best; the least of them.
pub open spec fn best_shift(prev: Seq<LineView>, curr: Seq<LineView>, n: int) -> int
    decreases n,
{
    if n <= 0 {
        0
    } else {
        let best = best_shift(prev, curr, n - 1);
        if better_shift(prev, curr, n, best) {
            n
        } else {
            best
        }
    }
}

/// The greatest shift that is looked for: one screen.
pub open spec fn max_shift(prev: Seq<LineView>, curr: Seq<LineView>) -> int {
    if prev.len() <= curr.len() {
        prev.len() as int
    } else {
        curr.len() as int
    }
}

/// How many lines left the top between two screens: the shift that best aligns them.
pub open spec fn scrolled(prev: Seq<LineView>, curr: Seq<LineView>) -> int {
    best_shift(prev, curr, max_shift(prev, curr))
}

/// How many lines of two screens agree from the top on, when the first one is moved up by `k`
/// lines.
fn agreeing_lines(prev: &[Line], curr: &[Line], k: usize) -> (r: usize)
    requires
        k <= prev@.len(),
    ensures
        r == run_length(line_views(prev@), line_views(curr@), k as int, 0),
{
    let ghost p = line_views(prev@);
    let ghost c = line_views(curr@);
    let n: usize = prev.len();
    let mut i: usize = 0;
    while i < curr.len() && i < n - k
        invariant
            n == prev@.len(),
            p == line_views(prev@),
            c == line_views(curr@),
            k <= n,
            i <= curr@.len(),
            i <= n - k,
            run_length(p, c, k as int, 0) == i + run_length(p, c, k as int, i as int),
        decreases n - k - i,
    {
        let a = &prev[k + i];
        let b = &curr[i];
        assert(p[k + i].text == a.0@);
        assert(c[i as int].text == b.0@);
        if a.0 != b.0 {
            return i;
        }
        i += 1;
    }
    i
}

/// Detect how many lines scrolled off the top between two screen snapshots by finding the
/// vertical shift `k` that best aligns `prev` onto `curr` (longest top-anchored run of equal
/// plain-text lines). `k` lines left the top. Of runs as long, one that takes in all the lines
/// that the screens share goes before one that breaks off.
pub fn detect_scroll(prev: &[Line], curr: &[Line]) -> (r: usize)
    ensures
        r == scrolled(line_views(prev@), line_views(curr@)),
        r <= prev@.len(),
{
    let max_k: usize = if prev.len() <= curr.len() {
        prev.len()
    } else {
        curr.len()
    };
    let ghost p = line_views(prev@);
    let ghost c = line_views(curr@);
    let mut best: usize = 0;
    let mut best_run: usize = agreeing_lines(prev, curr, 0);
    let mut best_whole: bool = best_run > 0 && (best_run == prev.len() || best_run == curr.len());
    let mut k: usize = 0;
    while k < max_k
        invariant
            p == line_views(prev@),
            c == line_views(curr@),
            max_k <= prev@.len(),
            k <= max_k,
            best <= k,
            best == best_shift(p, c, k as int),
            best_run == run_length(p, c, best as int, 0),
            best_whole == aligned(p, c, best as int),
        decreases max_k - k,
    {
        k += 1;
        let run: usize = agreeing_lines(prev, curr, k);
        let whole: bool = run > 0 && (run == prev.len() - k || run == curr.len());
        if run > best_run || (run == best_run && whole && !best_whole) {
            best = k;
            best_run = run;
            best_whole = whole;
        }
    }
    best
}

// ---- Laws -----------------------------------------------------------------

/// Runs stand in order, none before the place they are built from, none over another, and
/// each takes at least one cell.
pub proof fn law_runs_in_order(cells: Seq<ShownCell>, c: int)
    requires
        0 <= c,
        cells.len() <= u16::MAX,
    ensures
        forall|k: int|
            0 <= k < row_runs(cells, c).len() ==> c <= (#[trigger] row_runs(cells, c)[k]).col
                < cells.len() && row_runs(cells, c)[k].cells >= 1,
        forall|j: int, k: int|
            0 <= j < k < row_runs(cells, c).len() ==> (#[trigger] row_runs(cells, c)[j]).col
                + row_runs(cells, c)[j].cells <= (#[trigger] row_runs(cells, c)[k]).col,
    decreases cells.len() + 1 - c,
{
    let all = row_runs(cells, c);
    if c < cells.len() {
        if cells[c].wide {
            law_runs_in_order(cells, c + 2);
            let rest = row_runs(cells, c + 2);
            assert(all == seq![wide_run(cells, c)] + rest);
            assert forall|k: int| 0 < k < all.len() implies #[trigger] all[k] == rest[k - 1] by {}
            assert forall|j: int, k: int| 0 <= j < k < all.len() implies (#[trigger] all[j]).col
                + all[j].cells <= (#[trigger] all[k]).col by {
                assert(all[k] == rest[k - 1]);
                if j > 0 {
                    assert(all[j] == rest[j - 1]);
                }
            }
        } else {
            lemma_run_end(cells, c, c + 1);
            let e = run_end(cells, c, c + 1);
            law_runs_in_order(cells, e);
            let rest = row_runs(cells, e);
            let run = run_of(cells, c, e);
            if !invisible(run) {
                assert(all == seq![run] + rest);
                assert forall|k: int| 0 < k < all.len() implies #[trigger] all[k] == rest[k
                    - 1] by {}
                assert forall|j: int, k: int| 0 <= j < k < all.len() implies (#[trigger] all[j]).col
                    + all[j].cells <= (#[trigger] all[k]).col by {
                    assert(all[k] == rest[k - 1]);
                    if j > 0 {
                        assert(all[j] == rest[j - 1]);
                    }
                }
            } else {
                assert(all == rest);
            }
        }
    } else {
        assert(all == Seq::<SpanView>::empty());
    }
}

/// Whether a glyph of the row from `c` on starts in place `i`: every place does but the one
/// after a wide glyph.
pub open spec fn leads(cells: Seq<ShownCell>, c: int, i: int) -> bool
    decreases cells.len() + 1 - c,
{
    if c < 0 || c >= cells.len() {
        false
    } else if c == i {
        true
    } else if cells[c].wide {
        leads(cells, c + 2, i)
    } else {
        leads(cells, c + 1, i)
    }
}

/// Whether a run covers place `i` and has the look of its cell.
pub open spec fn covers(run: SpanView, cells: Seq<ShownCell>, i: int) -> bool {
    &&& run.col <= i < run.col + run.cells
    &&& run.fg == cells[i].fg
    &&& run.bg == cells[i].bg
    &&& run.bold == cells[i].bold
}

/// Nothing that shows is lost: a glyph that is more than spaces, or has a background of its
/// own, stands in a run with its look.
pub proof fn law_visible_cells_are_in_runs(cells: Seq<ShownCell>, c: int, i: int)
    requires
        0 <= c,
        cells.len() <= u16::MAX,
        leads(cells, c, i),
        !all_spaces(cells[i].text) || cells[i].bg != VtColor::Default,
    ensures
        exists|k: int|
            0 <= k < row_runs(cells, c).len() && #[trigger] covers(row_runs(cells, c)[k], cells, i),
    decreases cells.len() + 1 - c,
{
    let all = row_runs(cells, c);
    if cells[c].wide {
        let rest = row_runs(cells, c + 2);
        if c == i {
            assert(covers(all[0], cells, i));
        } else {
            law_visible_cells_are_in_runs(cells, c + 2, i);
            let k = choose|k: int| 0 <= k < rest.len() && #[trigger] covers(rest[k], cells, i);
            assert(all[k + 1] == rest[k]);
            assert(covers(all[k + 1], cells, i));
        }
    } else {
        lemma_run_end(cells, c, c + 1);
        let e = run_end(cells, c, c + 1);
        let rest = row_runs(cells, e);
        let run = run_of(cells, c, e);
        lemma_leads_from(cells, c, i);
        if i < e {
            assert(same_look(cells[i], cells[c]));
            if !all_spaces(cells[i].text) {
                lemma_joined_holds(cells, c, e, i);
            }
            assert(!invisible(run));
            assert(all == seq![run] + rest);
            assert(covers(all[0], cells, i));
        } else {
            lemma_leads_past(cells, c, e, i);
            law_visible_cells_are_in_runs(cells, e, i);
            let k = choose|k: int| 0 <= k < rest.len() && #[trigger] covers(rest[k], cells, i);
            if invisible(run) {
                assert(all == rest);
                assert(covers(all[k], cells, i));
            } else {
                assert(all[k + 1] == rest[k]);
                assert(covers(all[k + 1], cells, i));
            }
        }
    }
}

/// A glyph that the walk from `c` meets starts at `c` or later, on the row.
proof fn lemma_leads_from(cells: Seq<ShownCell>, c: int, i: int)
    requires
        leads(cells, c, i),
    ensures
        0 <= c <= i < cells.len(),
    decreases cells.len() + 1 - c,
{
    if c != i {
        if cells[c].wide {
            lemma_leads_from(cells, c + 2, i);
        } else {
            lemma_leads_from(cells, c + 1, i);
        }
    }
}

/// The walk passes over narrow cells one by one.
proof fn lemma_leads_past(cells: Seq<ShownCell>, c: int, e: int, i: int)
    requires
        leads(cells, c, i),
        0 <= c <= e <= i,
        e <= cells.len(),
        forall|k: int| c <= k < e ==> !(#[trigger] cells[k]).wide,
    ensures
        leads(cells, e, i),
    decreases e - c,
{
    if c < e {
        lemma_leads_past(cells, c + 1, e, i);
    }
}

/// A joined text with a cell that is more than spaces is more than spaces.
proof fn lemma_joined_holds(cells: Seq<ShownCell>, a: int, b: int, i: int)
    requires
        0 <= a <= i < b <= cells.len(),
        !all_spaces(cells[i].text),
    ensures
        !all_spaces(joined(cells, a, b)),
    decreases b - a,
{
    let before = joined(cells, a, b - 1);
    let last = cells[b - 1].text;
    let whole = before + last;
    if i == b - 1 {
        let j = choose|j: int| 0 <= j < last.len() && #[trigger] last[j] != ' ';
        assert(whole[before.len() + j] != ' ');
    } else {
        lemma_joined_holds(cells, a, b - 1, i);
        let j = choose|j: int| 0 <= j < before.len() && #[trigger] before[j] != ' ';
        assert(whole[j] != ' ');
    }
}

/// On a row of narrow one-character cells the plain text holds one character per cell, so
/// that a char index is a grid column.
pub proof fn law_one_char_per_cell(cells: Seq<ShownCell>, c: int)
    requires
        0 <= c <= cells.len(),
        forall|i: int|
            0 <= i < cells.len() ==> !(#[trigger] cells[i]).wide && cells[i].text.len() == 1,
    ensures
        row_text(cells, c).len() == cells.len() - c,
        forall|i: int|
            c <= i < cells.len() ==> row_text(cells, c)[i - c] == #[trigger] cells[i].text[0],
    decreases cells.len() - c,
{
    if c < cells.len() {
        law_one_char_per_cell(cells, c + 1);
        let rest = row_text(cells, c + 1);
        assert(row_text(cells, c) == cells[c].text + rest);
        assert forall|i: int| c <= i < cells.len() implies row_text(cells, c)[i - c]
            == #[trigger] cells[i].text[0] by {
            if i > c {
                assert(row_text(cells, c)[i - c] == rest[i - (c + 1)]);
            }
        }
    }
}

/// The lines of a run agree.
pub proof fn lemma_run_agrees(prev: Seq<LineView>, curr: Seq<LineView>, k: int, from: int, i: int)
    requires
        0 <= from <= i < from + run_length(prev, curr, k, from),
        0 <= k,
    ensures
        i < curr.len(),
        k + i < prev.len(),
        prev[k + i].text == curr[i].text,
    decreases i - from,
{
    if from < i {
        lemma_run_agrees(prev, curr, k, from + 1, i);
    }
}

proof fn lemma_best(prev: Seq<LineView>, curr: Seq<LineView>, n: int)
    requires
        0 <= n,
    ensures
        0 <= best_shift(prev, curr, n) <= n,
        forall|k: int|
            0 <= k <= n ==> !(#[trigger] better_shift(prev, curr, k, best_shift(prev, curr, n))),
        forall|k: int|
            0 <= k < best_shift(prev, curr, n) ==> #[trigger] better_shift(
                prev,
                curr,
                best_shift(prev, curr, n),
                k,
            ),
    decreases n,
{
    if n > 0 {
        lemma_best(prev, curr, n - 1);
        let b = best_shift(prev, curr, n - 1);
        if better_shift(prev, curr, n, b) {
            assert forall|k: int| 0 <= k < n implies #[trigger] better_shift(prev, curr, n, k) by {
                assert(!better_shift(prev, curr, k, b));
            }
            assert forall|k: int| 0 <= k <= n implies !(#[trigger] better_shift(
                prev,
                curr,
                k,
                n,
            )) by {
                if k < n {
                    assert(!better_shift(prev, curr, k, b));
                }
            }
        }
    }
}

/// The shift that is told is within a screen; no other shift aligns the screens better, and
/// every lesser one aligns them worse. So no other run of equal lines from the top is longer, and
/// none that is as long takes in all shared lines where that of the told shift breaks off.
pub proof fn law_scroll_is_the_best_alignment(prev: Seq<LineView>, curr: Seq<LineView>)
    ensures
        0 <= scrolled(prev, curr) <= max_shift(prev, curr),
        forall|k: int|
            0 <= k <= max_shift(prev, curr) ==> !#[trigger] better_shift(
                prev,
                curr,
                k,
                scrolled(prev, curr),
            ),
        forall|k: int|
            0 <= k < scrolled(prev, curr) ==> #[trigger] better_shift(
                prev,
                curr,
                scrolled(prev, curr),
                k,
            ),
{
    lemma_best(prev, curr, max_shift(prev, curr));
}

/// A shift that aligns all shared lines is told where no run of equal lines is longer; of several
/// such shifts, the least.
pub proof fn law_aligned_screens_tell_the_scroll(
    prev: Seq<LineView>,
    curr: Seq<LineView>,
    k: int,
)
    requires
        0 <= k <= max_shift(prev, curr),
        aligned(prev, curr, k),
        forall|j: int|
            0 <= j <= max_shift(prev, curr) ==> #[trigger] run_length(prev, curr, j, 0)
                <= run_length(prev, curr, k, 0),
        forall|j: int|
            0 <= j < k ==> !(#[trigger] aligned(prev, curr, j) && run_length(prev, curr, j, 0)
                == run_length(prev, curr, k, 0)),
    ensures
        scrolled(prev, curr) == k,
{
    law_scroll_is_the_best_alignment(prev, curr);
    let s = scrolled(prev, curr);
    assert(run_length(prev, curr, s, 0) <= run_length(prev, curr, k, 0));
    assert(!better_shift(prev, curr, k, s));
    if k < s {
        assert(better_shift(prev, curr, s, k));
    }
}

/// A run over a whole screen is a screen long.
proof fn lemma_full_run(lines: Seq<LineView>, i: int)
    requires
        0 <= i <= lines.len(),
    ensures
        run_length(lines, lines, 0, i) == lines.len() - i,
    decreases lines.len() - i,
{
    if i < lines.len() {
        lemma_full_run(lines, i + 1);
    }
}

proof fn lemma_run_bound(prev: Seq<LineView>, curr: Seq<LineView>, k: int, i: int)
    requires
        0 <= i,
        0 <= k,
    ensures
        run_length(prev, curr, k, i) > 0 ==> i + run_length(prev, curr, k, i) <= curr.len()
            && k + i + run_length(prev, curr, k, i) <= prev.len(),
    decreases curr.len() - i,
{
    if run_length(prev, curr, k, i) > 0 {
        lemma_run_bound(prev, curr, k, i + 1);
    }
}

/// A screen that did not change was not scrolled.
pub proof fn law_unchanged_screen_is_not_scrolled(lines: Seq<LineView>)
    ensures
        scrolled(lines, lines) == 0,
{
    law_scroll_is_the_best_alignment(lines, lines);
    lemma_full_run(lines, 0);
    let s = scrolled(lines, lines);
    lemma_run_bound(lines, lines, s, 0);
    if s > 0 {
        assert(better_shift(lines, lines, s, 0));
    }
}

/// Where the new top line stood on the old screen in one place only, the lines above that place
/// are the ones that left.
pub proof fn law_unique_top_line_tells_the_scroll(
    prev: Seq<LineView>,
    curr: Seq<LineView>,
    k: int,
)
    requires
        0 <= k < prev.len(),
        k <= curr.len(),
        curr.len() > 0,
        prev[k].text == curr[0].text,
        forall|j: int| 0 <= j < prev.len() && j != k ==> (#[trigger] prev[j]).text != curr[0].text,
    ensures
        scrolled(prev, curr) == k,
{
    law_scroll_is_the_best_alignment(prev, curr);
    let s = scrolled(prev, curr);
    assert(run_length(prev, curr, k, 0) >= 1);
    if s != k {
        assert(run_length(prev, curr, s, 0) == 0) by {
            if s < prev.len() {
                assert(prev[s].text != curr[0].text);
            }
        }
        assert(!better_shift(prev, curr, k, s));
    }
}

/// A row of empty places shows spaces and has no visible run.
pub proof fn lemma_empty_row(cells: Seq<ShownCell>)
    requires
        forall|i: int| 0 <= i < cells.len() ==> #[trigger] cells[i] == empty_place(),
    ensures
        row_runs(cells, 0) == Seq::<SpanView>::empty(),
        row_text(cells, 0).len() == cells.len(),
        all_spaces(row_text(cells, 0)),
{
    assert forall|i: int| 0 <= i < cells.len() implies !(#[trigger] cells[i]).wide
        && cells[i].text.len() == 1 by {}
    law_one_char_per_cell(cells, 0);
    assert forall|i: int| 0 <= i < row_text(cells, 0).len() implies #[trigger] row_text(
        cells,
        0,
    )[i] == ' ' by {
        assert(cells[i].text[0] == ' ');
    }
    if cells.len() > 0 {
        lemma_run_end(cells, 0, 1);
        lemma_empty_run(cells, 1);
        let n = cells.len() as int;
        assert(run_end(cells, 0, 1) == n);
        lemma_joined_spaces(cells, n);
        assert(invisible(run_of(cells, 0, n)));
        assert(row_runs(cells, 0) == row_runs(cells, n));
    }
}

proof fn lemma_empty_run(cells: Seq<ShownCell>, c: int)
    requires
        0 <= c <= cells.len(),
        cells.len() > 0,
        forall|i: int| 0 <= i < cells.len() ==> #[trigger] cells[i] == empty_place(),
    ensures
        run_end(cells, 0, c) == cells.len(),
    decreases cells.len() - c,
{
    if c < cells.len() {
        assert(cells[c] == empty_place() && cells[0] == empty_place());
        lemma_empty_run(cells, c + 1);
    }
}

proof fn lemma_joined_spaces(cells: Seq<ShownCell>, b: int)
    requires
        0 <= b <= cells.len(),
        forall|i: int| 0 <= i < cells.len() ==> #[trigger] cells[i] == empty_place(),
    ensures
        all_spaces(joined(cells, 0, b)),
    decreases b,
{
    if b > 0 {
        lemma_joined_spaces(cells, b - 1);
        assert(cells[b - 1].text == seq![' ']);
    }
}

// ---- Cells, runs and scrolls, place by place --------------------------------

/// A row shows each of its cells as it was drawn: the colours as they are, or swapped under
/// reverse video; a space where nothing was drawn; and nothing in the second half of a wide
/// glyph.
pub proof fn law_rows_show_what_was_drawn(log: Seq<VtOp>, row: u16, cols: u16, c: u16)
    requires
        c < cols,
    ensures
        row_cells(log, row, cols).len() == cols,
        ({
            let shown = row_cells(log, row, cols)[c as int];
            let drawn = cell_after(log, row, c);
            &&& !on_grid(log, row, c) ==> shown.text == seq![' '] && shown.fg == VtColor::Default
                && shown.bg == VtColor::Default && !shown.bold && !shown.wide
            &&& on_grid(log, row, c) ==> {
                &&& shown.bold == drawn.bold
                &&& shown.wide == drawn.wide
                &&& !drawn.inverse ==> shown.fg == drawn.fg && shown.bg == drawn.bg
                &&& drawn.inverse ==> shown.fg == drawn.bg && shown.bg == drawn.fg
                &&& drawn.continuation ==> shown.text.len() == 0
                &&& !drawn.continuation && drawn.contents.len() == 0 ==> shown.text == seq![' ']
                &&& !drawn.continuation && drawn.contents.len() > 0 ==> shown.text == drawn.contents
            }
        }),
{
}

proof fn lemma_joined_narrow(cells: Seq<ShownCell>, a: int, b: int)
    requires
        0 <= a <= b <= cells.len(),
        forall|i: int| a <= i < b ==> (#[trigger] cells[i]).text.len() == 1,
    ensures
        joined(cells, a, b).len() == b - a,
        forall|i: int| a <= i < b ==> joined(cells, a, b)[i - a] == #[trigger] cells[i].text[0],
    decreases b - a,
{
    if a < b {
        lemma_joined_narrow(cells, a, b - 1);
    }
}

/// A run holds what its cells hold, character for character, looks like every one of them, and
/// is not blank on the default background unless it is a wide glyph.
pub proof fn law_runs_spell_their_cells(cells: Seq<ShownCell>, c: int, k: int)
    requires
        0 <= c,
        cells.len() <= u16::MAX,
        forall|i: int| 0 <= i < cells.len() && !(#[trigger] cells[i]).wide ==> cells[i].text.len()
            == 1,
        0 <= k < row_runs(cells, c).len(),
    ensures
        ({
            let run = row_runs(cells, c)[k];
            &&& 0 <= run.col < cells.len()
            &&& cells[run.col as int].wide ==> run.cells == 2 && run.text
                == cells[run.col as int].text && covers(run, cells, run.col as int)
            &&& !cells[run.col as int].wide ==> {
                &&& run.text.len() == run.cells
                &&& run.col + run.cells <= cells.len()
                &&& forall|i: int|
                    run.col <= i < run.col + run.cells ==> !(#[trigger] cells[i]).wide
                        && cells[i].fg == run.fg && cells[i].bg == run.bg && cells[i].bold
                        == run.bold && run.text[i - run.col] == cells[i].text[0]
                &&& run.bg != VtColor::Default || exists|j: int|
                    0 <= j < run.text.len() && #[trigger] run.text[j] != ' '
            }
        }),
    decreases cells.len() + 1 - c,
{
    let all = row_runs(cells, c);
    if c < cells.len() {
        if cells[c].wide {
            let rest = row_runs(cells, c + 2);
            if k > 0 {
                law_runs_spell_their_cells(cells, c + 2, k - 1);
                assert(all[k] == rest[k - 1]);
            }
        } else {
            lemma_run_end(cells, c, c + 1);
            let e = run_end(cells, c, c + 1);
            let rest = row_runs(cells, e);
            let run = run_of(cells, c, e);
            if invisible(run) {
                assert(all == rest);
                law_runs_spell_their_cells(cells, e, k);
            } else if k > 0 {
                law_runs_spell_their_cells(cells, e, k - 1);
                assert(all[k] == rest[k - 1]);
            } else {
                lemma_joined_narrow(cells, c, e);
                assert(all[0] == run);
                assert forall|i: int| c <= i < e implies !(#[trigger] cells[i]).wide && cells[i].fg
                    == run.fg && cells[i].bg == run.bg && cells[i].bold == run.bold && run.text[i
                    - run.col] == cells[i].text[0] by {
                    assert(same_look(cells[i], cells[c]));
                    assert(joined(cells, c, e)[i - c] == cells[i].text[0]);
                }
                if run.bg == VtColor::Default {
                    let j = choose|j: int|
                        0 <= j < run.text.len() && #[trigger] run.text[j] != ' ';
                    assert(run.text[j] != ' ');
                }
            }
        }
    }
}

proof fn lemma_run_breaks(cells: Seq<ShownCell>, start: int, c: int)
    requires
        0 <= c <= cells.len(),
    ensures
        ({
            let e = run_end(cells, start, c);
            e < cells.len() ==> cells[e].wide || !same_look(cells[e], cells[start])
        }),
    decreases cells.len() - c,
{
    if c < cells.len() && !cells[c].wide && same_look(cells[c], cells[start]) {
        lemma_run_breaks(cells, start, c + 1);
    }
}

/// Runs are as long as they can be: the place after a run of narrow cells holds a wide glyph or
/// looks otherwise, unless the row ends there.
pub proof fn law_runs_are_as_long_as_can_be(cells: Seq<ShownCell>, c: int, k: int)
    requires
        0 <= c,
        cells.len() <= u16::MAX,
        0 <= k < row_runs(cells, c).len(),
    ensures
        ({
            let run = row_runs(cells, c)[k];
            let end = run.col + run.cells;
            &&& 0 <= run.col < cells.len()
            &&& !cells[run.col as int].wide && end < cells.len() ==> cells[end].wide
                || cells[end].fg != run.fg || cells[end].bg != run.bg || cells[end].bold != run.bold
        }),
    decreases cells.len() + 1 - c,
{
    let all = row_runs(cells, c);
    if c < cells.len() {
        if cells[c].wide {
            let rest = row_runs(cells, c + 2);
            if k > 0 {
                law_runs_are_as_long_as_can_be(cells, c + 2, k - 1);
                assert(all[k] == rest[k - 1]);
            }
        } else {
            lemma_run_end(cells, c, c + 1);
            lemma_run_breaks(cells, c, c + 1);
            let e = run_end(cells, c, c + 1);
            let rest = row_runs(cells, e);
            let run = run_of(cells, c, e);
            if invisible(run) {
                assert(all == rest);
                law_runs_are_as_long_as_can_be(cells, e, k);
            } else if k > 0 {
                law_runs_are_as_long_as_can_be(cells, e, k - 1);
                assert(all[k] == rest[k - 1]);
            } else {
                assert(all[0] == run);
            }
        }
    }
}

proof fn lemma_joined_front(cells: Seq<ShownCell>, a: int, b: int)
    requires
        0 <= a < b <= cells.len(),
    ensures
        joined(cells, a, b) == cells[a].text + joined(cells, a + 1, b),
    decreases b - a,
{
    if a + 1 < b {
        lemma_joined_front(cells, a, b - 1);
        assert(joined(cells, a, b) =~= cells[a].text + joined(cells, a + 1, b));
    } else {
        assert(joined(cells, a, a) == Seq::<char>::empty());
        assert(joined(cells, a, b) =~= cells[a].text + joined(cells, a + 1, b));
    }
}

/// Where the place after every wide glyph is empty, the plain text of a row is the texts of all
/// its cells, one after another.
pub proof fn law_row_text_joins_the_cells(cells: Seq<ShownCell>, c: int)
    requires
        0 <= c <= cells.len(),
        forall|i: int|
            0 <= i < cells.len() && (#[trigger] cells[i]).wide ==> i + 1 < cells.len() && cells[i
                + 1].text.len() == 0,
    ensures
        row_text(cells, c) == joined(cells, c, cells.len() as int),
        c == 0 ==> row_line(cells).text == joined(cells, 0, cells.len() as int),
        c == 0 ==> row_line(cells).runs == row_runs(cells, 0),
    decreases cells.len() - c,
{
    let n = cells.len() as int;
    if c < n {
        lemma_joined_front(cells, c, n);
        if cells[c].wide {
            law_row_text_joins_the_cells(cells, c + 2);
            lemma_joined_front(cells, c + 1, n);
            assert(cells[c + 1].text + joined(cells, c + 2, n) =~= joined(cells, c + 2, n));
        } else {
            law_row_text_joins_the_cells(cells, c + 1);
        }
    }
}

/// Whether the first `n` lines of a screen are those of an earlier one moved up by `k`.
pub open spec fn agree(prev: Seq<LineView>, curr: Seq<LineView>, k: int, n: int) -> bool {
    &&& 0 <= n <= curr.len()
    &&& 0 <= k
    &&& k + n <= prev.len()
    &&& forall|i: int| 0 <= i < n ==> #[trigger] curr[i].text == prev[k + i].text
}

/// How many lines two screens share when the earlier one is moved up by `k`.
pub open spec fn shared(prev: Seq<LineView>, curr: Seq<LineView>, k: int) -> int {
    if prev.len() - k <= curr.len() {
        prev.len() - k
    } else {
        curr.len() as int
    }
}

proof fn lemma_agree_run(prev: Seq<LineView>, curr: Seq<LineView>, k: int, n: int, i: int)
    requires
        agree(prev, curr, k, n),
        0 <= i <= n,
    ensures
        run_length(prev, curr, k, i) >= n - i,
    decreases n - i,
{
    if i < n {
        assert(curr[i].text == prev[k + i].text);
        lemma_agree_run(prev, curr, k, n, i + 1);
    }
}

proof fn lemma_run_is_agreement(prev: Seq<LineView>, curr: Seq<LineView>, k: int)
    requires
        0 <= k <= prev.len(),
    ensures
        agree(prev, curr, k, run_length(prev, curr, k, 0) as int),
        run_length(prev, curr, k, 0) <= shared(prev, curr, k),
{
    let n = run_length(prev, curr, k, 0) as int;
    assert forall|i: int| 0 <= i < n implies #[trigger] curr[i].text == prev[k + i].text by {
        lemma_run_agrees(prev, curr, k, 0, i);
    }
    if n > 0 {
        lemma_run_agrees(prev, curr, k, 0, n - 1);
    }
}

/// No shift makes more lines agree from the top than the shift that is told. A shift of more
/// than nothing is told only if it brings the new top line onto one like it.
pub proof fn law_no_shift_agrees_on_more(prev: Seq<LineView>, curr: Seq<LineView>, k: int, n: int)
    ensures
        0 <= scrolled(prev, curr) <= prev.len(),
        scrolled(prev, curr) <= curr.len(),
        k <= curr.len() && agree(prev, curr, k, n) ==> agree(prev, curr, scrolled(prev, curr), n),
        scrolled(prev, curr) > 0 ==> agree(prev, curr, scrolled(prev, curr), 1),
{
    let s = scrolled(prev, curr);
    law_scroll_is_the_best_alignment(prev, curr);
    lemma_run_is_agreement(prev, curr, s);
    if k <= curr.len() && agree(prev, curr, k, n) {
        lemma_agree_run(prev, curr, k, n, 0);
        assert(!better_shift(prev, curr, k, s));
    }
    if s > 0 {
        assert(better_shift(prev, curr, s, 0));
    }
}

/// A shift at which all the shared lines agree is told, or a lesser one of which the same holds,
/// unless another makes even more lines agree from the top. Of a lesser shift than the told one,
/// fewer lines agree from the top, or a shared line differs while none does at the told one.
pub proof fn law_least_whole_alignment_is_told(prev: Seq<LineView>, curr: Seq<LineView>, k: int)
    requires
        0 <= k <= curr.len(),
        k < prev.len(),
        curr.len() > 0,
    ensures
        ({
            let s = scrolled(prev, curr);
            let n = shared(prev, curr, k);
            &&& agree(prev, curr, k, n) ==> agree(prev, curr, s, n + 1) || (s <= k && agree(
                prev,
                curr,
                s,
                shared(prev, curr, s),
            ))
            &&& k < s ==> {
                ||| exists|m: int| agree(prev, curr, s, m) && !#[trigger] agree(prev, curr, k, m)
                ||| agree(prev, curr, s, shared(prev, curr, s)) && !agree(prev, curr, k, n)
            }
        }),
{
    let s = scrolled(prev, curr);
    let n = shared(prev, curr, k);
    law_scroll_is_the_best_alignment(prev, curr);
    lemma_run_is_agreement(prev, curr, s);
    lemma_run_is_agreement(prev, curr, k);
    let rs = run_length(prev, curr, s, 0) as int;
    let rk = run_length(prev, curr, k, 0) as int;
    if agree(prev, curr, k, n) {
        lemma_agree_run(prev, curr, k, n, 0);
        assert(!better_shift(prev, curr, k, s));
        if rs > n {
            assert(agree(prev, curr, s, n + 1));
        } else {
            assert(aligned(prev, curr, k));
            assert(aligned(prev, curr, s));
            if k < s {
                assert(better_shift(prev, curr, s, k));
            }
        }
    }
    if k < s {
        assert(better_shift(prev, curr, s, k));
        if rs > rk {
            if agree(prev, curr, k, rs) {
                lemma_agree_run(prev, curr, k, rs, 0);
            }
            assert(agree(prev, curr, s, rs) && !agree(prev, curr, k, rs));
        } else if agree(prev, curr, k, n) {
            lemma_agree_run(prev, curr, k, n, 0);
        }
    }
}

} // verus!
