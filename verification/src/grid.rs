//! Characters and the columns they stand in: a line of text on a grid of cells.

use vstd::prelude::*;

use crate::text::{ascii_lower_seq, found_at, lower_all, occurs_at, texts, to_chars};

verus! {

// ---- Width ----------------------------------------------------------------

/// The name of the width that the `unicode-width` crate gives a character: the number of
/// columns it takes, or nothing for a control character.
pub uninterp spec fn char_width(c: char) -> Option<usize>;

/// The C0 and C1 control characters and DEL.
pub open spec fn is_control(c: char) -> bool {
    (c as u32) < 0x20 || 0x7f <= (c as u32) < 0xa0
}

/// `unicode_width::UnicodeWidthChar::width`: the displayed width of a character in columns,
/// `None` for control characters and for nothing else. Printable ASCII takes one column and
/// no character takes more than three. The table behind it is named, not stated.
#[verifier::external_body]
pub(crate) fn glyph_width(c: char) -> (r: Option<usize>)
    ensures
        r == char_width(c),
        r is None <==> is_control(c),
        0x20 <= c as u32 && (c as u32) < 0x7f ==> r == Some(1usize),
        r matches Some(w) ==> w <= 3,
{
    unicode_width::UnicodeWidthChar::width(c)
}

/// The columns that a character takes: its width, and none for a control character.
pub open spec fn cells_of(c: char) -> nat {
    match char_width(c) {
        Some(w) => w as nat,
        None => 0,
    }
}

/// The columns that a character takes.
pub fn char_cells(c: char) -> (r: usize)
    ensures
        r == cells_of(c),
        r <= 3,
        0x20 <= c as u32 && (c as u32) < 0x7f ==> r == 1,
{
    match glyph_width(c) {
        Some(w) => w,
        None => 0,
    }
}

/// The columns that a line takes in all.
pub open spec fn line_cells(chars: Seq<char>) -> nat
    decreases chars.len(),
{
    if chars.len() == 0 {
        0
    } else {
        line_cells(chars.drop_last()) + cells_of(chars.last())
    }
}

/// The column in which character `i` starts. A character that takes no column of its own
/// shares the column of the character it stands on.
pub open spec fn start_col(chars: Seq<char>, i: int) -> nat
    decreases i,
{
    if i <= 0 {
        0
    } else if i < chars.len() && cells_of(chars[i]) == 0 {
        start_col(chars, i - 1)
    } else {
        line_cells(chars.take(i))
    }
}

/// A count as a machine word holds it.
pub open spec fn word(n: nat) -> usize {
    if n <= usize::MAX {
        n as usize
    } else {
        usize::MAX
    }
}

/// The start column of every character of a line, and the width of the line.
pub open spec fn columns(chars: Seq<char>) -> Seq<usize> {
    Seq::new(
        chars.len() + 1,
        |i: int|
            if i < chars.len() {
                word(start_col(chars, i))
            } else {
                word(line_cells(chars))
            },
    )
}

/// Cumulative grid columns for a rendered line. The plain text we keep stores one char per
/// glyph, but a wide (CJK) glyph takes two grid cells, so a char index is not a grid column.
/// `prefix[i]` is the starting grid column of char `i`; `prefix[chars.len()]` is the line's
/// total cell width. Zero-width chars (combining marks) share their base char's column.
pub fn cell_prefix(chars: &[char]) -> (prefix: Vec<usize>)
    ensures
        prefix@ == columns(chars@),
{
    let mut prefix: Vec<usize> = Vec::new();
    let mut acc: usize = 0;
    let mut base: usize = 0;
    let mut i: usize = 0;
    assert(chars@.take(0).len() == 0);
    while i < chars.len()
        invariant
            i <= chars@.len(),
            acc == word(line_cells(chars@.take(i as int))),
            i > 0 ==> base == word(start_col(chars@, i - 1)),
            i == 0 ==> base == 0,
            prefix@.len() == i,
            forall|j: int| 0 <= j < i ==> prefix@[j] == word(start_col(chars@, j)),
        decreases chars@.len() - i,
    {
        let w: usize = char_cells(chars[i]);
        proof {
            assert(chars@.take(i + 1).drop_last() == chars@.take(i as int));
            assert(chars@.take(i + 1).last() == chars@[i as int]);
        }
        if w > 0 {
            base = acc;
        }
        prefix.push(base);
        acc = acc.saturating_add(w);
        i += 1;
    }
    assert(chars@.take(i as int) == chars@);
    prefix.push(acc);
    assert(prefix@ =~= columns(chars@));
    prefix
}

// ---- From columns back to characters --------------------------------------

/// The column just past the cells of entry `i`: the first later entry that differs from it.
pub open spec fn span_end(prefix: Seq<usize>, i: int) -> usize
    decreases prefix.len() - i,
{
    if 0 <= i && i + 1 < prefix.len() {
        if prefix[i + 1] != prefix[i] {
            prefix[i + 1]
        } else {
            span_end(prefix, i + 1)
        }
    } else {
        prefix[i]
    }
}

/// Whether the cells of entry `i` contain the column `target`.
pub open spec fn in_span(prefix: Seq<usize>, i: int, target: usize) -> bool {
    prefix[i] <= target < span_end(prefix, i)
}

/// The number of characters that a list of columns describes.
pub open spec fn char_count(prefix: Seq<usize>) -> nat {
    if prefix.len() == 0 {
        0
    } else {
        (prefix.len() - 1) as nat
    }
}

/// The first entry from `from` on whose cells contain the column `target`, or the end.
pub open spec fn start_char(prefix: Seq<usize>, target: usize, from: int) -> int
    decreases char_count(prefix) - from,
{
    if from < 0 || from >= char_count(prefix) {
        char_count(prefix) as int
    } else if in_span(prefix, from, target) {
        from
    } else {
        start_char(prefix, target, from + 1)
    }
}

/// The first entry from `from` on that lies past the column `target`, or the end.
pub open spec fn end_char(prefix: Seq<usize>, target: usize, from: int) -> int
    decreases char_count(prefix) - from,
{
    if from < 0 || from >= char_count(prefix) {
        char_count(prefix) as int
    } else if prefix[from] > target {
        from
    } else {
        end_char(prefix, target, from + 1)
    }
}

/// First char index whose cell span contains grid column `target`: the char that a
/// selection starting at that column begins on. Clamps to the end of the line when `target`
/// is past the content.
pub fn char_at_cell_start(prefix: &[usize], target: usize) -> (r: usize)
    ensures
        r <= char_count(prefix@),
        forall|i: int| 0 <= i < r ==> !#[trigger] in_span(prefix@, i, target),
        r < char_count(prefix@) ==> in_span(prefix@, r as int, target),
        r == start_char(prefix@, target, 0),
{
    let n: usize = prefix.len().saturating_sub(1);
    let mut i: usize = 0;
    while i < n
        invariant
            n == char_count(prefix@),
            i <= n,
            start_char(prefix@, target, 0) == start_char(prefix@, target, i as int),
            forall|k: int| 0 <= k < i ==> !#[trigger] in_span(prefix@, k, target),
        decreases n - i,
    {
        if prefix[i] <= target {
            let mut j: usize = i + 1;
            while j < n && prefix[j] == prefix[i]
                invariant
                    n == char_count(prefix@),
                    i < j <= n,
                    i < n,
                    forall|k: int| i <= k < j ==> prefix@[k] == prefix@[i as int],
                    span_end(prefix@, i as int) == span_end(prefix@, j - 1),
                decreases n - j,
            {
                assert(span_end(prefix@, j - 1) == span_end(prefix@, j as int));
                j += 1;
            }
            proof {
                if prefix@[j as int] == prefix@[i as int] {
                    assert(j == n);
                    assert(span_end(prefix@, j - 1) == span_end(prefix@, j as int));
                }
            }
            if target < prefix[j] && prefix[j] != prefix[i] {
                return i;
            }
            assert(!in_span(prefix@, i as int, target));
        }
        i += 1;
    }
    n
}

/// Exclusive char index just past grid column `target`: the slice end for a selection ending
/// (inclusive) at that column. Trailing zero-width marks on the last glyph are kept because
/// their start column is not strictly greater than `target`.
pub fn char_after_cell_end(prefix: &[usize], target: usize) -> (r: usize)
    ensures
        r <= char_count(prefix@),
        forall|i: int| 0 <= i < r ==> prefix@[i] <= target,
        r < char_count(prefix@) ==> prefix@[r as int] > target,
        r == end_char(prefix@, target, 0),
{
    let n: usize = prefix.len().saturating_sub(1);
    let mut i: usize = 0;
    while i < n
        invariant
            n == char_count(prefix@),
            i <= n,
            end_char(prefix@, target, 0) == end_char(prefix@, target, i as int),
            forall|k: int| 0 <= k < i ==> prefix@[k] <= target,
        decreases n - i,
    {
        if prefix[i] > target {
            return i;
        }
        i += 1;
    }
    n
}

// ---- Finding text ---------------------------------------------------------

/// A highlighted stretch of cells on one displayed row.
#[derive(Clone, Copy, Debug, PartialEq, Eq, Structural)]
pub struct TermMatch {
    pub row: i32,
    pub col: i32,
    pub len: i32,
}

/// The places at which `q` is found in `s` from position `from` on, left to right, each one
/// past the end of the one before.
pub open spec fn places(s: Seq<char>, q: Seq<char>, from: int) -> Seq<int>
    decreases s.len() - from,
{
    if q.len() == 0 || from < 0 || from + q.len() > s.len() {
        Seq::empty()
    } else if occurs_at(s, q, from) {
        seq![from] + places(s, q, from + q.len())
    } else {
        places(s, q, from + 1)
    }
}

/// The cells that the characters from `at` up to `at + len` of a line stand in: from the
/// start column of the first to the end column of the last.
pub open spec fn cells_at(chars: Seq<char>, row: int, at: int, len: nat) -> TermMatch {
    let from = word(start_col(chars, at));
    let to = word(line_cells(chars.take(at + len)));
    TermMatch { row: row as i32, col: from as i32, len: (to - from) as i32 }
}

/// The highlights for `query` on one displayed row, letter case aside for ASCII.
pub open spec fn line_matches(line: Seq<char>, query: Seq<char>, row: int) -> Seq<TermMatch> {
    places(ascii_lower_seq(line), ascii_lower_seq(query), 0).map_values(
        |at: int| cells_at(line, row, at, query.len()),
    )
}

/// The highlights for `query` on the first `n` displayed rows.
pub open spec fn find_matches(rows: Seq<Seq<char>>, query: Seq<char>, n: int) -> Seq<TermMatch>
    decreases n,
{
    if n <= 0 {
        Seq::empty()
    } else {
        find_matches(rows, query, n - 1) + line_matches(rows[n - 1], query, n - 1)
    }
}

/// A character ends no earlier than it starts.
pub proof fn lemma_start_col_in_line(chars: Seq<char>, i: int, to: int)
    requires
        0 <= i < to <= chars.len(),
    ensures
        start_col(chars, i) <= line_cells(chars.take(to)),
    decreases to, i,
{
    assert(chars.take(to).drop_last() == chars.take(to - 1));
    if i > 0 && cells_of(chars[i]) == 0 {
        lemma_start_col_in_line(chars, i - 1, to);
    } else if i > 0 {
        if to - 1 > i {
            lemma_start_col_in_line(chars, i, to - 1);
        } else {
            assert(to - 1 == i);
        }
    }
}

/// Find every (case-insensitive) occurrence of `query` across the currently displayed rows
/// and return highlight rectangles in grid-column space (wide CJK glyphs count as two
/// columns, so highlights line up over the text).
pub fn compute_find_matches(rows: &[String], query: &str) -> (out: Vec<TermMatch>)
    ensures
        out@ == find_matches(texts(rows@), query@, rows@.len() as int),
{
    let mut out: Vec<TermMatch> = Vec::new();
    let q = lower_all(to_chars(query).as_slice());
    let ghost all = texts(rows@);
    if q.len() == 0 {
        proof {
            lemma_no_query(all, query@, rows@.len() as int);
        }
        return out;
    }
    let mut r: usize = 0;
    while r < rows.len()
        invariant
            r <= rows@.len(),
            all == texts(rows@),
            q@ == ascii_lower_seq(query@),
            q@.len() > 0,
            out@ == find_matches(all, query@, r as int),
        decreases rows@.len() - r,
    {
        let chars = to_chars(rows[r].as_str());
        let lower = lower_all(chars.as_slice());
        let prefix = cell_prefix(chars.as_slice());
        let n: usize = lower.len();
        let mut i: usize = 0;
        let ghost before = out@;
        let ghost f = |at: int| cells_at(chars@, r as int, at, query@.len());
        assert(before + places(lower@, q@, 0).map_values(f) =~= before + line_matches(
            chars@,
            query@,
            r as int,
        ));
        assert(all[r as int] == chars@);
        while i <= n && q.len() <= n - i
            invariant
                r < rows@.len(),
                n == lower@.len(),
                i <= n,
                chars@.len() == n,
                lower@ == ascii_lower_seq(chars@),
                q@ == ascii_lower_seq(query@),
                q@.len() > 0,
                prefix@ == columns(chars@),
                f == (|at: int| cells_at(chars@, r as int, at, query@.len())),
                out@ + places(lower@, q@, i as int).map_values(f) == before + line_matches(
                    chars@,
                    query@,
                    r as int,
                ),
            decreases n - i,
        {
            let ghost sofar = out@;
            if found_at(lower.as_slice(), q.as_slice(), i) {
                let e: usize = i + q.len();
                let to: usize = if e < n {
                    cells_upto(chars.as_slice(), e)
                } else {
                    assert(chars@.take(e as int) == chars@);
                    prefix[e]
                };
                proof {
                    lemma_start_col_in_line(chars@, i as int, e as int);
                }
                let m = TermMatch {
                    row: r as i32,
                    col: prefix[i] as i32,
                    len: (to - prefix[i]) as i32,
                };
                out.push(m);
                proof {
                    assert(m == f(i as int));
                    assert(places(lower@, q@, i as int) == seq![i as int] + places(
                        lower@,
                        q@,
                        e as int,
                    ));
                    assert(sofar + places(lower@, q@, i as int).map_values(f) =~= out@ + places(
                        lower@,
                        q@,
                        e as int,
                    ).map_values(f));
                }
                i = e;
            } else {
                i += 1;
            }
        }
        proof {
            assert(places(lower@, q@, i as int) =~= Seq::<int>::empty());
            assert(out@ + Seq::<int>::empty().map_values(f) =~= out@);
        }
        r += 1;
    }
    out
}

/// The columns that the first `n` characters take.
fn cells_upto(chars: &[char], n: usize) -> (r: usize)
    requires
        n <= chars@.len(),
    ensures
        r == word(line_cells(chars@.take(n as int))),
{
    let mut acc: usize = 0;
    let mut i: usize = 0;
    while i < n
        invariant
            i <= n <= chars@.len(),
            acc == word(line_cells(chars@.take(i as int))),
        decreases n - i,
    {
        proof {
            assert(chars@.take(i + 1).drop_last() == chars@.take(i as int));
            assert(chars@.take(i + 1).last() == chars@[i as int]);
        }
        acc = acc.saturating_add(char_cells(chars[i]));
        i += 1;
    }
    acc
}

/// An empty query is found nowhere.
proof fn lemma_no_query(rows: Seq<Seq<char>>, query: Seq<char>, n: int)
    requires
        query.len() == 0,
    ensures
        find_matches(rows, query, n) == Seq::<TermMatch>::empty(),
    decreases n,
{
    if n > 0 {
        lemma_no_query(rows, query, n - 1);
        assert(ascii_lower_seq(query).len() == 0);
        assert(line_matches(rows[n - 1], query, n - 1) =~= Seq::<TermMatch>::empty());
    }
}

// ---- Laws -----------------------------------------------------------------

/// On a line of one-column characters a char index is a grid column.
pub proof fn law_narrow_columns(chars: Seq<char>, i: int)
    requires
        0 <= i <= chars.len(),
        forall|j: int| 0 <= j < chars.len() ==> cells_of(#[trigger] chars[j]) == 1,
    ensures
        line_cells(chars.take(i)) == i,
        i < chars.len() ==> start_col(chars, i) == i,
    decreases i,
{
    if i > 0 {
        law_narrow_columns(chars, i - 1);
        assert(chars.take(i).drop_last() == chars.take(i - 1));
        assert(chars.take(i).last() == chars[i - 1]);
    }
}

/// Columns never go back: along a line every character starts where the one before it
/// starts or further right, and none starts past the line's end.
pub proof fn law_columns_rise(chars: Seq<char>, i: int, j: int)
    requires
        0 <= i <= j <= chars.len(),
    ensures
        columns(chars)[i] <= columns(chars)[j],
    decreases j,
{
    if i < j {
        law_columns_rise(chars, i, j - 1);
        assert(chars.take(chars.len() as int) == chars);
        lemma_start_col_in_line(chars, j - 1, j);
        if j < chars.len() && cells_of(chars[j]) != 0 {
            assert(start_col(chars, j) == line_cells(chars.take(j)));
        }
    }
}

/// A mark that takes no column of its own starts where the character before it starts.
pub proof fn law_marks_share_a_column(chars: Seq<char>, i: int)
    requires
        0 < i < chars.len(),
        cells_of(chars[i]) == 0,
    ensures
        columns(chars)[i] == columns(chars)[i - 1],
{
}

/// Every occurrence of the query is highlighted or overlaps one that is.
pub proof fn law_every_occurrence_is_met(s: Seq<char>, q: Seq<char>, from: int, at: int)
    requires
        q.len() > 0,
        0 <= from <= at,
        occurs_at(s, q, at),
    ensures
        exists|k: int|
            0 <= k < places(s, q, from).len() && (#[trigger] places(s, q, from)[k]) <= at
                < places(s, q, from)[k] + q.len(),
    decreases s.len() - from,
{
    let p = places(s, q, from);
    if occurs_at(s, q, from) {
        let rest = places(s, q, from + q.len());
        if at < from + q.len() {
            assert(p[0] == from);
        } else {
            law_every_occurrence_is_met(s, q, from + q.len(), at);
            let k = choose|k: int|
                0 <= k < rest.len() && (#[trigger] rest[k]) <= at < rest[k] + q.len();
            assert(p[k + 1] == rest[k]);
        }
    } else {
        law_every_occurrence_is_met(s, q, from + 1, at);
    }
}

/// Highlights are occurrences of the query, in order, and do not overlap.
pub proof fn law_places_are_occurrences(s: Seq<char>, q: Seq<char>, from: int)
    requires
        0 <= from,
    ensures
        forall|k: int|
            0 <= k < places(s, q, from).len() ==> from <= #[trigger] places(s, q, from)[k]
                && occurs_at(s, q, places(s, q, from)[k]),
        forall|j: int, k: int|
            0 <= j < k < places(s, q, from).len() ==> #[trigger] places(s, q, from)[j] + q.len()
                <= #[trigger] places(s, q, from)[k],
    decreases s.len() - from,
{
    if q.len() > 0 && from + q.len() <= s.len() {
        if occurs_at(s, q, from) {
            law_places_are_occurrences(s, q, from + q.len());
            let rest = places(s, q, from + q.len());
            let p = places(s, q, from);
            assert(p == seq![from] + rest);
            assert forall|k: int| 0 < k < p.len() implies p[k] == rest[k - 1] && from + q.len()
                <= #[trigger] p[k] && occurs_at(s, q, p[k]) by {
                assert(p[k] == rest[k - 1]);
            }
            assert forall|j: int, k: int| 0 <= j < k < p.len() implies #[trigger] p[j] + q.len()
                <= #[trigger] p[k] by {
                if j > 0 {
                    assert(rest[j - 1] + q.len() <= rest[k - 1]);
                }
            }
            assert(p[0] == from);
        } else {
            law_places_are_occurrences(s, q, from + 1);
            assert(places(s, q, from) == places(s, q, from + 1));
        }
    } else {
        assert(places(s, q, from) == Seq::<int>::empty());
    }
}

/// A list of columns that never goes back.
pub open spec fn rising(prefix: Seq<usize>) -> bool {
    forall|i: int, j: int| 0 <= i <= j < prefix.len() ==> prefix[i] <= prefix[j]
}

/// The columns of a line never go back.
pub proof fn lemma_columns_rising(chars: Seq<char>)
    ensures
        rising(columns(chars)),
{
    assert forall|i: int, j: int| 0 <= i <= j < columns(chars).len() implies columns(chars)[i]
        <= columns(chars)[j] by {
        law_columns_rise(chars, i, j);
    }
}

/// The cells of an entry end past its start where the line goes on past it.
proof fn lemma_span_end(prefix: Seq<usize>, i: int)
    requires
        rising(prefix),
        0 <= i < prefix.len(),
        prefix[i] < prefix.last(),
    ensures
        prefix[i] < span_end(prefix, i),
    decreases prefix.len() - i,
{
    if prefix[i + 1] == prefix[i] {
        lemma_span_end(prefix, i + 1);
    }
}

/// Every character of a line that takes columns starts before the line's end.
proof fn lemma_starts_before_end(chars: Seq<char>, i: int)
    requires
        0 <= i < chars.len(),
        line_cells(chars) > 0,
    ensures
        start_col(chars, i) < line_cells(chars),
    decreases i,
{
    if i > 0 {
        if cells_of(chars[i]) == 0 {
            lemma_starts_before_end(chars, i - 1);
        } else {
            assert(chars.take(i + 1).drop_last() == chars.take(i));
            assert(chars.take(i + 1).last() == chars[i]);
            lemma_cells_grow(chars, i + 1);
        }
    }
}

/// A line takes no fewer columns than its start.
proof fn lemma_cells_grow(chars: Seq<char>, i: int)
    requires
        0 <= i <= chars.len(),
    ensures
        line_cells(chars.take(i)) <= line_cells(chars),
    decreases chars.len() - i,
{
    if i < chars.len() {
        lemma_cells_grow(chars, i + 1);
        assert(chars.take(i + 1).drop_last() == chars.take(i));
    } else {
        assert(chars.take(i) == chars);
    }
}

proof fn lemma_char_bounds(p: Seq<usize>, a: usize, b: usize, i: int)
    requires
        0 <= i <= char_count(p),
    ensures
        i <= start_char(p, a, i) <= char_count(p),
        i <= end_char(p, b, i) <= char_count(p),
    decreases char_count(p) - i,
{
    if i < char_count(p) {
        lemma_char_bounds(p, a, b, i + 1);
    }
}

/// The characters of a line between two columns are characters of the line.
pub proof fn lemma_char_range(chars: Seq<char>, a: usize, b: usize)
    ensures
        0 <= start_char(columns(chars), a, 0) <= chars.len(),
        0 <= end_char(columns(chars), b, 0) <= chars.len(),
{
    lemma_char_bounds(columns(chars), a, b, 0);
}

/// Where every entry starts at or before a column, the slice that ends there is the whole.
proof fn lemma_end_char_all(prefix: Seq<usize>, target: usize, i: int)
    requires
        0 <= i <= char_count(prefix),
        forall|k: int| i <= k < char_count(prefix) ==> prefix[k] <= target,
    ensures
        end_char(prefix, target, i) == char_count(prefix),
    decreases char_count(prefix) - i,
{
    if i < char_count(prefix) {
        lemma_end_char_all(prefix, target, i + 1);
    }
}

/// A selection from the first column to the last that a column number can name takes the whole
/// line, whatever the width of its glyphs and the marks on them.
pub proof fn law_whole_line_is_selected(chars: Seq<char>)
    requires
        0 < line_cells(chars) <= u16::MAX + 1,
    ensures
        start_char(columns(chars), 0, 0) == 0,
        end_char(columns(chars), u16::MAX as usize, 0) == chars.len(),
{
    let p = columns(chars);
    lemma_columns_rising(chars);
    assert(chars.len() > 0);
    assert(p[0] == 0);
    assert(p.last() == word(line_cells(chars)));
    lemma_span_end(p, 0);
    assert(in_span(p, 0, 0));
    assert forall|k: int| 0 <= k < char_count(p) implies p[k] <= u16::MAX as usize by {
        lemma_starts_before_end(chars, k);
    }
    lemma_end_char_all(p, u16::MAX as usize, 0);
}

/// On a line of one-column characters the characters from column `a` to column `b` are those
/// from index `a` to index `b`.
pub proof fn law_narrow_selection(chars: Seq<char>, a: usize, b: usize)
    requires
        a <= b,
        a < chars.len() < usize::MAX,
        forall|j: int| 0 <= j < chars.len() ==> cells_of(#[trigger] chars[j]) == 1,
    ensures
        start_char(columns(chars), a, 0) == a,
        end_char(columns(chars), b, 0) == (if b < chars.len() {
            b + 1
        } else {
            chars.len() as int
        }),
{
    let p = columns(chars);
    let n = chars.len() as int;
    assert forall|i: int| 0 <= i <= n implies #[trigger] p[i] == i by {
        law_narrow_columns(chars, i);
        if i == n {
            assert(chars.take(i) == chars);
        }
    }
    lemma_start_at(p, a, 0);
    lemma_end_at(p, b, 0);
}

proof fn lemma_start_at(p: Seq<usize>, a: usize, i: int)
    requires
        0 <= i <= a < char_count(p),
        forall|k: int| 0 <= k < p.len() ==> #[trigger] p[k] == k,
    ensures
        start_char(p, a, i) == a,
    decreases a - i,
{
    assert(p[i + 1] != p[i]);
    assert(span_end(p, i) == i + 1);
    if i < a {
        lemma_start_at(p, a, i + 1);
    }
}

proof fn lemma_end_at(p: Seq<usize>, b: usize, i: int)
    requires
        0 <= i <= char_count(p),
        i <= b + 1,
        p.len() > 0,
        forall|k: int| 0 <= k < p.len() ==> #[trigger] p[k] == k,
    ensures
        end_char(p, b, i) == (if b < char_count(p) {
            b + 1
        } else {
            char_count(p) as int
        }),
    decreases char_count(p) - i,
{
    if i < char_count(p) {
        assert(p[i] == i);
        if i <= b {
            lemma_end_at(p, b, i + 1);
        }
    }
}

// ---- Highlights and selections, column by column ----------------------------

proof fn lemma_match_source(rows: Seq<Seq<char>>, query: Seq<char>, n: int, k: int) -> (at: int)
    requires
        0 <= n <= rows.len(),
        n <= i32::MAX,
        0 <= k < find_matches(rows, query, n).len(),
    ensures
        ({
            let m = find_matches(rows, query, n)[k];
            &&& 0 <= m.row < n
            &&& occurs_at(ascii_lower_seq(rows[m.row as int]), ascii_lower_seq(query), at)
            &&& m == cells_at(rows[m.row as int], m.row as int, at, query.len())
        }),
    decreases n,
{
    let before = find_matches(rows, query, n - 1);
    let all = find_matches(rows, query, n);
    if n <= 0 {
        0
    } else if k < before.len() {
        assert(all[k] == before[k]);
        lemma_match_source(rows, query, n - 1, k)
    } else {
        let here = line_matches(rows[n - 1], query, n - 1);
        let ps = places(ascii_lower_seq(rows[n - 1]), ascii_lower_seq(query), 0);
        law_places_are_occurrences(ascii_lower_seq(rows[n - 1]), ascii_lower_seq(query), 0);
        assert(all[k] == here[k - before.len()]);
        assert(here[k - before.len()] == cells_at(
            rows[n - 1],
            n - 1,
            ps[k - before.len()],
            query.len(),
        ));
        ps[k - before.len()]
    }
}

/// What find marks is an occurrence, whatever the case of its ASCII letters: a mark is on the row
/// of one, starts in the column of its first character and ends where its last one ends.
pub proof fn law_marks_are_occurrences(rows: Seq<Seq<char>>, query: Seq<char>, k: int)
    requires
        rows.len() <= i32::MAX,
        0 <= k < find_matches(rows, query, rows.len() as int).len(),
    ensures
        ({
            let m = find_matches(rows, query, rows.len() as int)[k];
            &&& 0 <= m.row < rows.len()
            &&& line_cells(rows[m.row as int]) <= i32::MAX ==> exists|at: int|
                {
                    &&& #[trigger] occurs_at(
                        ascii_lower_seq(rows[m.row as int]),
                        ascii_lower_seq(query),
                        at,
                    )
                    &&& m.col == start_col(rows[m.row as int], at)
                    &&& m.col + m.len == line_cells(rows[m.row as int].take(at + query.len()))
                }
        }),
{
    let at = lemma_match_source(rows, query, rows.len() as int, k);
    let m = find_matches(rows, query, rows.len() as int)[k];
    let line = rows[m.row as int];
    if line_cells(line) <= i32::MAX {
        lemma_cells_grow(line, at + query.len());
        if query.len() > 0 {
            lemma_start_col_in_line(line, at, at + query.len());
        } else {
            lemma_no_query(rows, query, rows.len() as int);
        }
        assert(occurs_at(ascii_lower_seq(line), ascii_lower_seq(query), at));
    }
}

/// On a row of narrow characters the text under a mark is the query, whatever the case of the
/// ASCII letters.
pub proof fn law_text_under_a_mark(rows: Seq<Seq<char>>, query: Seq<char>, k: int)
    requires
        rows.len() <= i32::MAX,
        0 <= k < find_matches(rows, query, rows.len() as int).len(),
        ({
            let line = rows[find_matches(rows, query, rows.len() as int)[k].row as int];
            &&& line.len() <= i32::MAX
            &&& forall|j: int| 0 <= j < line.len() ==> cells_of(#[trigger] line[j]) == 1
        }),
    ensures
        ({
            let m = find_matches(rows, query, rows.len() as int)[k];
            let line = rows[m.row as int];
            &&& m.len == query.len()
            &&& 0 <= m.col && m.col + m.len <= line.len()
            &&& ascii_lower_seq(line.subrange(m.col as int, m.col + m.len)) == ascii_lower_seq(query)
        }),
{
    let m = find_matches(rows, query, rows.len() as int)[k];
    let line = rows[m.row as int];
    law_narrow_columns(line, line.len() as int);
    assert(line.take(line.len() as int) =~= line);
    law_marks_are_occurrences(rows, query, k);
    let at = choose|at: int|
        {
            &&& #[trigger] occurs_at(ascii_lower_seq(line), ascii_lower_seq(query), at)
            &&& m.col == start_col(line, at)
            &&& m.col + m.len == line_cells(line.take(at + query.len()))
        };
    law_narrow_columns(line, at);
    law_narrow_columns(line, at + query.len());
    if query.len() == 0 {
        lemma_no_query(rows, query, rows.len() as int);
    }
    assert(ascii_lower_seq(line.subrange(at, at + query.len())) =~= ascii_lower_seq(line).subrange(
        at,
        at + query.len(),
    ));
}

proof fn lemma_match_met(rows: Seq<Seq<char>>, query: Seq<char>, n: int, r: int, at: int) -> (k: int)
    requires
        0 <= r < n <= rows.len(),
        n <= i32::MAX,
        query.len() > 0,
        occurs_at(ascii_lower_seq(rows[r]), ascii_lower_seq(query), at),
    ensures
        0 <= k < find_matches(rows, query, n).len(),
        find_matches(rows, query, n)[k].row == r,
        exists|p: int|
            p <= at < p + query.len() && 0 <= p && find_matches(rows, query, n)[k]
                == #[trigger] cells_at(rows[r], r, p, query.len()) && p + query.len()
                <= rows[r].len(),
    decreases n,
{
    let before = find_matches(rows, query, n - 1);
    let all = find_matches(rows, query, n);
    if r < n - 1 {
        let k = lemma_match_met(rows, query, n - 1, r, at);
        assert(all[k] == before[k]);
        k
    } else {
        let s = ascii_lower_seq(rows[r]);
        let q = ascii_lower_seq(query);
        let ps = places(s, q, 0);
        law_every_occurrence_is_met(s, q, 0, at);
        law_places_are_occurrences(s, q, 0);
        let j = choose|j: int| 0 <= j < ps.len() && (#[trigger] ps[j]) <= at < ps[j] + q.len();
        let here = line_matches(rows[r], query, r);
        assert(here[j] == cells_at(rows[r], r, ps[j], query.len()));
        assert(all[before.len() + j] == here[j]);
        (before.len() + j) as int
    }
}

/// Find misses nothing: on a row of narrow characters, every place where the query occurs is
/// under a mark on that row.
pub proof fn law_occurrences_are_marked(rows: Seq<Seq<char>>, query: Seq<char>, r: int, at: int)
    requires
        rows.len() <= i32::MAX,
        0 <= r < rows.len(),
        rows[r].len() <= i32::MAX,
        forall|j: int| 0 <= j < rows[r].len() ==> cells_of(#[trigger] rows[r][j]) == 1,
        query.len() > 0,
        0 <= at,
        at + query.len() <= rows[r].len(),
        ascii_lower_seq(rows[r].subrange(at, at + query.len())) == ascii_lower_seq(query),
    ensures
        exists|k: int|
            {
                let m = #[trigger] find_matches(rows, query, rows.len() as int)[k];
                &&& 0 <= k < find_matches(rows, query, rows.len() as int).len()
                &&& m.row == r
                &&& m.col <= at < m.col + m.len
            },
{
    let n = rows.len() as int;
    assert(ascii_lower_seq(rows[r]).subrange(at, at + query.len()) =~= ascii_lower_seq(
        rows[r].subrange(at, at + query.len()),
    ));
    let k = lemma_match_met(rows, query, n, r, at);
    let m = find_matches(rows, query, n)[k];
    let p = choose|p: int|
        p <= at < p + query.len() && 0 <= p && m == #[trigger] cells_at(
            rows[r],
            r,
            p,
            query.len(),
        ) && p + query.len() <= rows[r].len();
    law_narrow_columns(rows[r], p);
    law_narrow_columns(rows[r], p + query.len());
    assert(m.col == p && m.len == query.len());
}

proof fn lemma_span_of_glyph(chars: Seq<char>, k: int, i: int)
    requires
        0 <= k <= i < chars.len(),
        cells_of(chars[k]) > 0,
        line_cells(chars) <= usize::MAX,
        forall|j: int| k < j <= i ==> cells_of(#[trigger] chars[j]) == 0,
    ensures
        columns(chars)[i] == start_col(chars, k),
        start_col(chars, k) == line_cells(chars.take(k)),
        line_cells(chars.take(i + 1)) == start_col(chars, k) + cells_of(chars[k]),
        span_end(columns(chars), i) == start_col(chars, k) + cells_of(chars[k]),
    decreases chars.len() - i,
{
    let p = columns(chars);
    lemma_glyph_start(chars, k, i);
    lemma_cells_grow(chars, k);
    lemma_cells_grow(chars, i + 1);
    if i + 1 < chars.len() {
        if cells_of(chars[i + 1]) == 0 {
            lemma_span_of_glyph(chars, k, i + 1);
            assert(p[i + 1] == p[i]);
        } else {
            assert(start_col(chars, i + 1) == line_cells(chars.take(i + 1)));
            assert(p[i + 1] == line_cells(chars.take(i + 1)));
        }
    } else {
        assert(chars.take(i + 1) =~= chars);
        assert(p[i + 1] == line_cells(chars));
    }
}

proof fn lemma_glyph_start(chars: Seq<char>, k: int, i: int)
    requires
        0 <= k <= i < chars.len(),
        cells_of(chars[k]) > 0,
        forall|j: int| k < j <= i ==> cells_of(#[trigger] chars[j]) == 0,
    ensures
        start_col(chars, k) == line_cells(chars.take(k)),
        start_col(chars, i) == start_col(chars, k),
        line_cells(chars.take(i + 1)) == start_col(chars, k) + cells_of(chars[k]),
    decreases i,
{
    assert(chars.take(i + 1).drop_last() =~= chars.take(i));
    assert(chars.take(i + 1).last() == chars[i]);
    assert(line_cells(chars.take(i + 1)) == line_cells(chars.take(i)) + cells_of(chars[i]));
    if k == 0 {
        assert(chars.take(0) =~= Seq::<char>::empty());
    }
    if k < i {
        lemma_glyph_start(chars, k, i - 1);
    }
}

proof fn lemma_found_start(p: Seq<usize>, a: usize, from: int)
    requires
        0 <= from <= char_count(p),
    ensures
        ({
            let s = start_char(p, a, from);
            &&& from <= s <= char_count(p)
            &&& s < char_count(p) ==> in_span(p, s, a)
            &&& forall|j: int| from <= j < s ==> !#[trigger] in_span(p, j, a)
        }),
    decreases char_count(p) - from,
{
    if from < char_count(p) && !in_span(p, from, a) {
        lemma_found_start(p, a, from + 1);
    }
}

proof fn lemma_found_end(p: Seq<usize>, b: usize, from: int)
    requires
        0 <= from <= char_count(p),
    ensures
        ({
            let e = end_char(p, b, from);
            &&& from <= e <= char_count(p)
            &&& e < char_count(p) ==> p[e] > b
            &&& forall|j: int| from <= j < e ==> #[trigger] p[j] <= b
        }),
    decreases char_count(p) - from,
{
    if from < char_count(p) && p[from] <= b {
        lemma_found_end(p, b, from + 1);
    }
}

/// Below a column there is a character whose span holds it, if a later one starts beyond it.
proof fn lemma_span_before(p: Seq<usize>, a: usize, k: int) -> (j: int)
    requires
        rising(p),
        0 < k < p.len(),
        p[0] <= a < p[k],
    ensures
        0 <= j < k,
        in_span(p, j, a),
    decreases k,
{
    if p[k - 1] <= a {
        assert(p[k] != p[k - 1]);
        k - 1
    } else {
        lemma_span_before(p, a, k - 1)
    }
}

proof fn lemma_span_ends_later(p: Seq<usize>, i: int, j: int)
    requires
        rising(p),
        0 <= i <= j < p.len(),
    ensures
        span_end(p, i) <= span_end(p, j),
        span_end(p, j) >= p[j],
    decreases p.len() - i,
{
    if i < j {
        lemma_span_ends_later(p, i + 1, j);
        if p[i + 1] != p[i] {
            lemma_span_ends_later(p, j, j);
            assert(p[i + 1] <= p[j]);
        }
    } else if i + 1 < p.len() && p[i + 1] == p[i] {
        lemma_span_ends_later(p, i + 1, i + 1);
    }
}

/// A selection takes in a glyph if and only if one of the glyph's columns lies between its
/// first and its last, so that a wide glyph is taken whole by either half.
pub proof fn law_selection_takes_whole_glyphs(chars: Seq<char>, a: usize, b: usize, k: int)
    requires
        a <= b,
        0 <= k < chars.len(),
        cells_of(chars[k]) > 0,
        line_cells(chars) <= usize::MAX,
    ensures
        (start_char(columns(chars), a, 0) <= k < end_char(columns(chars), b, 0)) <==> (start_col(
            chars,
            k,
        ) <= b && a < start_col(chars, k) + cells_of(chars[k])),
{
    let p = columns(chars);
    let s = start_char(p, a, 0);
    let e = end_char(p, b, 0);
    lemma_columns_rising(chars);
    lemma_span_of_glyph(chars, k, k);
    lemma_found_start(p, a, 0);
    lemma_found_end(p, b, 0);
    assert(p[k] == start_col(chars, k));
    if e <= k {
        assert(p[e] <= p[k]);
    }
    if s <= k {
        lemma_span_ends_later(p, s, k);
    } else if a < span_end(p, k) {
        assert(!in_span(p, k, a));
        assert(p[0] == 0) by {
            assert(start_col(chars, 0) == 0);
        }
        let j = lemma_span_before(p, a, k);
    }
}

/// A line takes as many cells as its parts take together, and a glyph starts where what is before
/// it ends.
pub proof fn law_cells_add_up(a: Seq<char>, b: Seq<char>, c: char)
    ensures
        line_cells(a + b) == line_cells(a) + line_cells(b),
        line_cells(seq![c]) == cells_of(c),
        cells_of(c) > 0 ==> start_col(a + seq![c] + b, a.len() as int) == line_cells(a),
    decreases b.len(),
{
    let s = a + seq![c] + b;
    assert(s.take(a.len() as int) =~= a);
    assert(s[a.len() as int] == c);
    if a.len() == 0 {
        assert(line_cells(a) == 0);
    }
    assert(seq![c].drop_last() =~= Seq::<char>::empty());
    assert(line_cells(Seq::<char>::empty()) == 0);
    if b.len() > 0 {
        law_cells_add_up(a, b.drop_last(), c);
        assert((a + b).drop_last() =~= a + b.drop_last());
        assert((a + b).last() == b.last());
    } else {
        assert(a + b =~= a);
    }
}

/// A character takes the cells of its width; one that has no width takes none.
pub proof fn law_cells_are_the_width(c: char)
    ensures
        char_width(c) is None ==> cells_of(c) == 0,
        char_width(c) matches Some(w) ==> cells_of(c) == w,
{
}

} // verus!
