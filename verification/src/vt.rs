//! The terminal emulator as this library sees it. The `vt100` crate keeps a grid of cells and
//! changes it byte by byte; what a parser shows is a function of what it was made with and fed
//! since, its log. What that function is stays with the crate: here it only has names.

use vstd::prelude::*;

verus! {

// ---- Cells ----------------------------------------------------------------

/// A terminal colour: the default one, one of the palette, or red, green and blue.
#[derive(Clone, Copy, Debug, PartialEq, Eq, Structural)]
pub enum VtColor {
    Default,
    Idx(u8),
    Rgb(u8, u8, u8),
}

/// One cell of the grid.
pub struct Cell {
    pub contents: String,
    pub fg: VtColor,
    pub bg: VtColor,
    pub bold: bool,
    pub inverse: bool,
    pub wide: bool,
    pub continuation: bool,
}

/// What a cell holds.
pub ghost struct CellView {
    pub contents: Seq<char>,
    pub fg: VtColor,
    pub bg: VtColor,
    pub bold: bool,
    pub inverse: bool,
    pub wide: bool,
    pub continuation: bool,
}

impl View for Cell {
    type V = CellView;

    open spec fn view(&self) -> CellView {
        CellView {
            contents: self.contents@,
            fg: self.fg,
            bg: self.bg,
            bold: self.bold,
            inverse: self.inverse,
            wide: self.wide,
            continuation: self.continuation,
        }
    }
}

/// A cell on which nothing was ever drawn.
pub open spec fn blank_cell() -> CellView {
    CellView {
        contents: Seq::empty(),
        fg: VtColor::Default,
        bg: VtColor::Default,
        bold: false,
        inverse: false,
        wide: false,
        continuation: false,
    }
}

// ---- The log --------------------------------------------------------------

/// One thing done to a parser.
pub enum VtOp {
    New { rows: u16, cols: u16, scrollback: usize },
    Byte { byte: u8 },
    Resize { rows: u16, cols: u16 },
}

/// A row of bytes, as it stands in a log.
pub open spec fn byte_ops(bytes: Seq<u8>) -> Seq<VtOp> {
    bytes.map_values(|b: u8| VtOp::Byte { byte: b })
}

/// The rows of the grid: those it was last given.
pub open spec fn grid_rows(log: Seq<VtOp>) -> u16
    decreases log.len(),
{
    if log.len() == 0 {
        0
    } else {
        match log.last() {
            VtOp::New { rows, cols, scrollback } => rows,
            VtOp::Byte { byte } => grid_rows(log.drop_last()),
            VtOp::Resize { rows, cols } => rows,
        }
    }
}

/// The columns of the grid: those it was last given.
pub open spec fn grid_cols(log: Seq<VtOp>) -> u16
    decreases log.len(),
{
    if log.len() == 0 {
        0
    } else {
        match log.last() {
            VtOp::New { rows, cols, scrollback } => cols,
            VtOp::Byte { byte } => grid_cols(log.drop_last()),
            VtOp::Resize { rows, cols } => cols,
        }
    }
}

/// Whether there is such a cell.
pub open spec fn on_grid(log: Seq<VtOp>, row: u16, col: u16) -> bool {
    row < grid_rows(log) && col < grid_cols(log)
}

/// The fewest rows on which the parser can wrap a line.
pub const MIN_ROWS: u16 = 2;

/// The fewest columns that hold the widest glyph.
pub const MIN_COLS: u16 = 3;

/// The most columns from which a tab stop still is a column number.
pub const MAX_COLS: u16 = 65527;

/// Whether a grid of this size can take any byte.
pub open spec fn roomy(rows: u16, cols: u16) -> bool {
    rows >= MIN_ROWS && MIN_COLS <= cols <= MAX_COLS
}

/// Whether the parser can take any byte: it was made with room enough, and was never made
/// smaller. A parser that was made smaller keeps saved cursors, and halves of wide glyphs,
/// that lie past its edge, and stops on the byte that uses one.
pub open spec fn steady(log: Seq<VtOp>) -> bool
    decreases log.len(),
{
    if log.len() == 0 {
        false
    } else {
        let before = log.drop_last();
        match log.last() {
            VtOp::New { rows, cols, scrollback } => before.len() == 0 && roomy(rows, cols),
            VtOp::Byte { byte } => steady(before),
            VtOp::Resize { rows, cols } => steady(before) && grid_rows(before) <= rows && grid_cols(
                before,
            ) <= cols <= MAX_COLS,
        }
    }
}

// ---- What the crate computes ----------------------------------------------

/// `vt100::Parser`, a terminal emulator: opaque here but for its log.
#[verifier::external_type_specification]
#[verifier::external_body]
pub struct ExParser(vt100::Parser);

/// The name of what was done to a parser since it was made, first to last.
pub uninterp spec fn vt_log(p: vt100::Parser) -> Seq<VtOp>;

/// The name of `Screen::alternate_screen`: whether the alternate screen shows.
pub uninterp spec fn alternate_after(log: Seq<VtOp>) -> bool;

/// The name of `Screen::cursor_position`: the cursor's row and column.
pub uninterp spec fn cursor_after(log: Seq<VtOp>) -> (u16, u16);

/// The name of `Screen::cell`: what stands in a cell of the grid.
pub uninterp spec fn cell_after(log: Seq<VtOp>, row: u16, col: u16) -> CellView;

/// `vt100::Parser::new`: a parser with a grid of the given size. It shows the normal screen,
/// with the cursor in the first cell and nothing drawn. It panics on a grid of no rows.
#[verifier::external_body]
pub(crate) fn vt_new(rows: u16, cols: u16, scrollback: usize) -> (p: vt100::Parser)
    requires
        rows >= 1,
    ensures
        vt_log(p) == seq![VtOp::New { rows: rows, cols: cols, scrollback: scrollback }],
        !alternate_after(vt_log(p)),
        cursor_after(vt_log(p)) == (0u16, 0u16),
        forall|r: u16, c: u16| #[trigger]
            cell_after(vt_log(p), r, c) == blank_cell() || !on_grid(vt_log(p), r, c),
{
    vt100::Parser::new(rows, cols, scrollback)
}

/// `vt100::Parser::process`: the bytes are taken one by one, so that feeding two pieces in
/// turn is feeding them joined. It can panic on a grid too small for a wrap or for the widest
/// glyph, on one too wide for a tab, and on one that was made smaller.
#[verifier::external_body]
pub(crate) fn vt_process(p: &mut vt100::Parser, bytes: &[u8])
    requires
        steady(vt_log(*old(p))),
    ensures
        vt_log(*final(p)) == vt_log(*old(p)) + byte_ops(bytes@),
{
    p.process(bytes)
}

/// `vt100::Parser::set_size`: the grid gets a new size. It panics on a grid of no rows or no
/// columns.
#[verifier::external_body]
pub(crate) fn vt_set_size(p: &mut vt100::Parser, rows: u16, cols: u16)
    requires
        rows >= 1,
        cols >= 1,
    ensures
        vt_log(*final(p)) == vt_log(*old(p)).push(VtOp::Resize { rows: rows, cols: cols }),
{
    p.set_size(rows, cols)
}

/// `vt100::Screen::size`: the rows and columns of the grid, which are those it was last given;
/// no byte changes them.
#[verifier::external_body]
pub(crate) fn vt_size(p: &vt100::Parser) -> (r: (u16, u16))
    ensures
        r == (grid_rows(vt_log(*p)), grid_cols(vt_log(*p))),
{
    p.screen().size()
}

/// `vt100::Screen::alternate_screen`: whether the alternate screen shows.
#[verifier::external_body]
pub(crate) fn vt_alternate(p: &vt100::Parser) -> (r: bool)
    ensures
        r == alternate_after(vt_log(*p)),
{
    p.screen().alternate_screen()
}

/// `vt100::Screen::cursor_position`: the cursor's row and column.
#[verifier::external_body]
pub(crate) fn vt_cursor(p: &vt100::Parser) -> (r: (u16, u16))
    ensures
        r == cursor_after(vt_log(*p)),
{
    p.screen().cursor_position()
}

/// `vt100::Screen::cell`, read out with the cell's own methods: what stands in a cell, and
/// nothing for a place that is not on the grid. No control character is ever drawn, so that no
/// cell holds a line feed.
#[verifier::external_body]
pub(crate) fn vt_cell(p: &vt100::Parser, row: u16, col: u16) -> (r: Option<Cell>)
    ensures
        r is Some <==> on_grid(vt_log(*p), row, col),
        r matches Some(c) ==> c@ == cell_after(vt_log(*p), row, col),
        r matches Some(c) ==> !c.contents@.contains('\n'),
{
    let plain = |c: vt100::Color| match c {
        vt100::Color::Default => VtColor::Default,
        vt100::Color::Idx(i) => VtColor::Idx(i),
        vt100::Color::Rgb(r, g, b) => VtColor::Rgb(r, g, b),
    };
    p.screen().cell(row, col).map(|c| Cell {
        contents: c.contents(),
        fg: plain(c.fgcolor()),
        bg: plain(c.bgcolor()),
        bold: c.bold(),
        inverse: c.inverse(),
        wide: c.is_wide(),
        continuation: c.is_wide_continuation(),
    })
}

// ---- Facts about logs -----------------------------------------------------

/// Bytes change neither the size of the grid nor whether the parser is steady.
pub proof fn lemma_bytes_keep(log: Seq<VtOp>, bytes: Seq<u8>)
    ensures
        grid_rows(log + byte_ops(bytes)) == grid_rows(log),
        grid_cols(log + byte_ops(bytes)) == grid_cols(log),
        steady(log + byte_ops(bytes)) == steady(log),
    decreases bytes.len(),
{
    let whole = log + byte_ops(bytes);
    if bytes.len() == 0 {
        assert(whole == log);
    } else {
        lemma_bytes_keep(log, bytes.drop_last());
        assert(whole.drop_last() == log + byte_ops(bytes.drop_last()));
        assert(whole.last() == VtOp::Byte { byte: bytes.last() });
    }
}

} // verus!
