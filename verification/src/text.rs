//! Text as sequences of characters: the small vocabulary the other modules are stated in.

use vstd::prelude::*;

verus! {

/// `String::push` appends one character to the end of the string.
pub assume_specification[ String::push ](s: &mut String, c: char)
    ensures
        final(s)@ == old(s)@.push(c),
;

/// The characters of `s`, in order.
pub fn to_chars(s: &str) -> (r: Vec<char>)
    ensures
        r@ == s@,
{
    let mut r: Vec<char> = Vec::new();
    for c in it: s.chars()
        invariant
            it.seq() == s@,
            r@ == it.seq().take(it.index()),
    {
        r.push(c);
    }
    assert(s@.take(s@.len() as int) == s@);
    r
}

/// The string made of the given characters.
pub fn from_chars(c: &[char]) -> (r: String)
    ensures
        r@ == c@,
{
    let mut r: String = String::new();
    let mut i: usize = 0;
    while i < c.len()
        invariant
            i <= c@.len(),
            r@ == c@.take(i as int),
        decreases c@.len() - i,
    {
        r.push(c[i]);
        i += 1;
        assert(c@.take(i as int) == c@.take(i - 1).push(c@[i - 1]));
    }
    assert(c@.take(c@.len() as int) == c@);
    r
}

/// The characters of each of a list of strings.
pub open spec fn texts(list: Seq<String>) -> Seq<Seq<char>> {
    list.map_values(|s: String| s@)
}

/// Whether two strings hold the same characters.
pub fn same_text(a: &str, b: &str) -> (r: bool)
    ensures
        r == (a@ == b@),
{
    let x = to_chars(a);
    let y = to_chars(b);
    if x.len() != y.len() {
        return false;
    }
    let mut i: usize = 0;
    while i < x.len()
        invariant
            x@ == a@,
            y@ == b@,
            x@.len() == y@.len(),
            i <= x@.len(),
            forall|j: int| 0 <= j < i ==> x@[j] == y@[j],
        decreases x@.len() - i,
    {
        if x[i] != y[i] {
            assert(a@[i as int] != b@[i as int]);
            return false;
        }
        i += 1;
    }
    assert(a@ =~= b@);
    true
}

// ---- White space ----------------------------------------------------------

/// The characters with the Unicode property `White_Space`.
pub open spec fn white_space(c: char) -> bool {
    let n = c as u32;
    ||| 0x09 <= n <= 0x0d
    ||| n == 0x20
    ||| n == 0x85
    ||| n == 0xa0
    ||| n == 0x1680
    ||| 0x2000 <= n <= 0x200a
    ||| n == 0x2028
    ||| n == 0x2029
    ||| n == 0x202f
    ||| n == 0x205f
    ||| n == 0x3000
}

/// Whether `c` is white space.
pub fn is_white_space(c: char) -> (r: bool)
    ensures
        r == white_space(c),
{
    let n: u32 = c as u32;
    (0x09 <= n && n <= 0x0d) || n == 0x20 || n == 0x85 || n == 0xa0 || n == 0x1680 || (0x2000 <= n
        && n <= 0x200a) || n == 0x2028 || n == 0x2029 || n == 0x202f || n == 0x205f || n == 0x3000
}

/// `s` without the white space at its end.
pub open spec fn trimmed_end(s: Seq<char>) -> Seq<char>
    decreases s.len(),
{
    if s.len() > 0 && white_space(s.last()) {
        trimmed_end(s.drop_last())
    } else {
        s
    }
}

/// `s` without the white space at its start.
pub open spec fn trimmed_start(s: Seq<char>) -> Seq<char>
    decreases s.len(),
{
    if s.len() > 0 && white_space(s[0]) {
        trimmed_start(s.drop_first())
    } else {
        s
    }
}

/// `s` without the white space at either end.
pub open spec fn trimmed(s: Seq<char>) -> Seq<char> {
    trimmed_end(trimmed_start(s))
}

/// Trimming the end keeps a prefix that does not end in white space and drops
/// nothing but white space.
pub proof fn lemma_trimmed_end(s: Seq<char>)
    ensures
        trimmed_end(s).len() <= s.len(),
        trimmed_end(s) == s.take(trimmed_end(s).len() as int),
        trimmed_end(s).len() > 0 ==> !white_space(trimmed_end(s).last()),
        forall|i: int| trimmed_end(s).len() <= i < s.len() ==> white_space(#[trigger] s[i]),
    decreases s.len(),
{
    if s.len() > 0 && white_space(s.last()) {
        let d = s.drop_last();
        lemma_trimmed_end(d);
        assert(d.take(trimmed_end(d).len() as int) == s.take(trimmed_end(d).len() as int));
        assert forall|i: int| trimmed_end(s).len() <= i < s.len() implies white_space(
            #[trigger] s[i],
        ) by {
            if i < d.len() {
                assert(s[i] == d[i]);
            }
        }
    } else {
        assert(s.take(s.len() as int) == s);
    }
}

/// `s` without trailing white space.
pub fn trim_end(s: &[char]) -> (r: Vec<char>)
    ensures
        r@ == trimmed_end(s@),
{
    let mut end: usize = s.len();
    assert(s@.take(end as int) == s@);
    while end > 0 && is_white_space(s[end - 1])
        invariant
            end <= s@.len(),
            trimmed_end(s@.take(end as int)) == trimmed_end(s@),
        decreases end,
    {
        assert(s@.take(end as int).drop_last() == s@.take(end - 1));
        end -= 1;
    }
    proof {
        if end > 0 {
            assert(s@.take(end as int).last() == s@[end - 1]);
        }
    }
    copy_range(s, 0, end)
}

/// `s` without white space at either end.
pub fn trim(s: &[char]) -> (r: Vec<char>)
    ensures
        r@ == trimmed(s@),
{
    let mut start: usize = 0;
    assert(s@.skip(0) == s@);
    while start < s.len() && is_white_space(s[start])
        invariant
            start <= s@.len(),
            trimmed_start(s@.skip(start as int)) == trimmed_start(s@),
        decreases s@.len() - start,
    {
        assert(s@.skip(start as int).drop_first() == s@.skip(start + 1));
        start += 1;
    }
    let rest = copy_range(s, start, s.len());
    assert(rest@ == s@.skip(start as int));
    trim_end(rest.as_slice())
}

/// The string `s` without white space at either end.
pub fn trim_text(s: &str) -> (r: String)
    ensures
        r@ == trimmed(s@),
{
    from_chars(trim(to_chars(s).as_slice()).as_slice())
}

/// The string `s` without white space at its end.
pub fn trim_end_text(s: &str) -> (r: String)
    ensures
        r@ == trimmed_end(s@),
{
    from_chars(trim_end(to_chars(s).as_slice()).as_slice())
}

// ---- Pieces ---------------------------------------------------------------

/// The characters of `s` from `from` up to `to`.
pub fn copy_range(s: &[char], from: usize, to: usize) -> (r: Vec<char>)
    requires
        from <= to <= s@.len(),
    ensures
        r@ == s@.subrange(from as int, to as int),
{
    let mut r: Vec<char> = Vec::new();
    let mut i: usize = from;
    while i < to
        invariant
            from <= i <= to <= s@.len(),
            r@ == s@.subrange(from as int, i as int),
        decreases to - i,
    {
        r.push(s[i]);
        i += 1;
        assert(s@.subrange(from as int, i as int) == s@.subrange(from as int, i - 1).push(
            s@[i - 1],
        ));
    }
    r
}

/// The position of the first `sep` at or after `from`, or the length where there is none.
pub open spec fn next_sep(s: Seq<char>, sep: char, from: int) -> int
    decreases s.len() - from,
{
    if from < 0 || from >= s.len() || s[from] == sep {
        from
    } else {
        next_sep(s, sep, from + 1)
    }
}

/// The pieces of `s` that the separator leaves, split in at most `limit` pieces: the last
/// one then keeps what separators it has.
pub open spec fn pieces(s: Seq<char>, sep: char, limit: nat) -> Seq<Seq<char>>
    decreases limit,
{
    let e = next_sep(s, sep, 0);
    if limit <= 1 || e < 0 || e >= s.len() {
        seq![s]
    } else {
        seq![s.take(e)] + pieces(s.skip(e + 1), sep, (limit - 1) as nat)
    }
}

/// All pieces of `s` between separators.
pub open spec fn all_pieces(s: Seq<char>, sep: char) -> Seq<Seq<char>> {
    pieces(s, sep, s.len() + 1)
}

/// A text joined of two without a character is without it.
pub proof fn lemma_joined_without(a: Seq<char>, b: Seq<char>, c: char)
    requires
        !a.contains(c),
        !b.contains(c),
    ensures
        !(a + b).contains(c),
{
    if (a + b).contains(c) {
        let i = choose|i: int| 0 <= i < (a + b).len() && (a + b)[i] == c;
        if i < a.len() {
            assert(a[i] == c);
        } else {
            assert(b[i - a.len()] == c);
        }
    }
}

/// The next separator, for a text that starts with a piece.
proof fn lemma_next_sep(a: Seq<char>, s: Seq<char>, sep: char, from: int)
    requires
        0 <= from <= a.len() <= s.len(),
        s.take(a.len() as int) == a,
        !a.contains(sep),
        a.len() == s.len() || s[a.len() as int] == sep,
    ensures
        next_sep(s, sep, from) == a.len(),
    decreases a.len() - from,
{
    if from < a.len() {
        assert(a[from] == s[from]);
        assert(a.contains(a[from]));
        lemma_next_sep(a, s, sep, from + 1);
    }
}

/// A limit above the length cuts nothing short.
proof fn lemma_enough_pieces(s: Seq<char>, sep: char, limit: nat)
    requires
        limit > s.len(),
    ensures
        pieces(s, sep, limit) == all_pieces(s, sep),
    decreases s.len(),
{
    let e = next_sep(s, sep, 0);
    if 0 <= e < s.len() {
        let rest = s.skip(e + 1);
        lemma_enough_pieces(rest, sep, (limit - 1) as nat);
        lemma_enough_pieces(rest, sep, s.len());
    }
}

/// A text without separators is one piece.
pub proof fn lemma_one_piece(s: Seq<char>, sep: char)
    requires
        !s.contains(sep),
    ensures
        all_pieces(s, sep) == seq![s],
{
    assert(s.take(s.len() as int) == s);
    lemma_next_sep(s, s, sep, 0);
}

/// A piece and a separator in front of a text are one piece more.
pub proof fn lemma_first_piece(a: Seq<char>, rest: Seq<char>, sep: char)
    requires
        !a.contains(sep),
    ensures
        all_pieces(a.push(sep) + rest, sep) == seq![a] + all_pieces(rest, sep),
{
    let s = a.push(sep) + rest;
    assert(s.take(a.len() as int) =~= a);
    lemma_next_sep(a, s, sep, 0);
    assert(s.skip(a.len() as int + 1) =~= rest);
    lemma_enough_pieces(rest, sep, s.len());
}

/// The characters of each of a list of vectors.
pub open spec fn views(v: Seq<Vec<char>>) -> Seq<Seq<char>> {
    v.map_values(|x: Vec<char>| x@)
}

/// Splits `s` at `sep` into at most `limit` pieces.
pub fn split_at_most(s: &[char], sep: char, limit: u128) -> (r: Vec<Vec<char>>)
    requires
        limit >= 1,
    ensures
        views(r@) == pieces(s@, sep, limit as nat),
{
    let mut r: Vec<Vec<char>> = Vec::new();
    let mut from: usize = 0;
    let mut left: u128 = limit;
    assert(s@.skip(0) == s@);
    assert(views(r@) + pieces(s@, sep, limit as nat) == pieces(s@, sep, limit as nat));
    let mut i: usize = 0;
    while left > 1 && i < s.len()
        invariant
            from <= i <= s@.len(),
            1 <= left <= limit,
            next_sep(s@.skip(from as int), sep, 0) == next_sep(
                s@.skip(from as int),
                sep,
                i - from,
            ),
            views(r@) + pieces(s@.skip(from as int), sep, left as nat) == pieces(
                s@,
                sep,
                limit as nat,
            ),
        decreases s@.len() - i,
    {
        let ghost rest = s@.skip(from as int);
        if s[i] == sep {
            let ghost before = r@;
            let piece = copy_range(s, from, i);
            proof {
                assert(rest[i - from] == sep);
                assert(next_sep(rest, sep, 0) == i - from);
                assert(piece@ == rest.take(i - from));
                assert(rest.skip(i - from + 1) == s@.skip(i + 1));
            }
            r.push(piece);
            proof {
                assert(views(r@) == views(before).push(piece@));
                assert(views(r@) + pieces(s@.skip(i + 1), sep, (left - 1) as nat) =~= views(before)
                    + pieces(rest, sep, left as nat));
            }
            left -= 1;
            from = i + 1;
        } else {
            assert(rest[i - from] == s@[i as int]);
        }
        i += 1;
    }
    let ghost before = r@;
    let piece = copy_range(s, from, s.len());
    proof {
        let rest = s@.skip(from as int);
        assert(piece@ == rest);
        if left > 1 {
            assert(next_sep(rest, sep, rest.len() as int) == rest.len());
        }
        assert(pieces(rest, sep, left as nat) == seq![rest]);
    }
    r.push(piece);
    assert(views(r@) =~= views(before) + seq![piece@]);
    r
}

/// Splits `s` at every `sep`.
pub fn split_all(s: &[char], sep: char) -> (r: Vec<Vec<char>>)
    ensures
        views(r@) == all_pieces(s@, sep),
{
    split_at_most(s, sep, s.len() as u128 + 1)
}

/// `s` without the leading characters that are `c`.
pub open spec fn without_leading(s: Seq<char>, c: char) -> Seq<char>
    decreases s.len(),
{
    if s.len() > 0 && s[0] == c {
        without_leading(s.drop_first(), c)
    } else {
        s
    }
}

/// `s` without the trailing characters that are `c`.
pub open spec fn without_trailing(s: Seq<char>, c: char) -> Seq<char>
    decreases s.len(),
{
    if s.len() > 0 && s.last() == c {
        without_trailing(s.drop_last(), c)
    } else {
        s
    }
}

/// `s` without the leading characters that are `c`.
pub fn strip_leading(s: &[char], c: char) -> (r: Vec<char>)
    ensures
        r@ == without_leading(s@, c),
{
    let mut start: usize = 0;
    assert(s@.skip(0) == s@);
    while start < s.len() && s[start] == c
        invariant
            start <= s@.len(),
            without_leading(s@.skip(start as int), c) == without_leading(s@, c),
        decreases s@.len() - start,
    {
        assert(s@.skip(start as int).drop_first() == s@.skip(start + 1));
        start += 1;
    }
    assert(s@.subrange(start as int, s@.len() as int) == s@.skip(start as int));
    copy_range(s, start, s.len())
}

/// `s` without the trailing characters that are `c`.
pub fn strip_trailing(s: &[char], c: char) -> (r: Vec<char>)
    ensures
        r@ == without_trailing(s@, c),
{
    let mut end: usize = s.len();
    assert(s@.take(end as int) == s@);
    while end > 0 && s[end - 1] == c
        invariant
            end <= s@.len(),
            without_trailing(s@.take(end as int), c) == without_trailing(s@, c),
        decreases end,
    {
        assert(s@.take(end as int).drop_last() == s@.take(end - 1));
        end -= 1;
    }
    proof {
        if end > 0 {
            assert(s@.take(end as int).last() == s@[end - 1]);
        }
    }
    copy_range(s, 0, end)
}

// ---- Letters --------------------------------------------------------------

/// `c`, with an ASCII capital made small.
pub open spec fn ascii_lower(c: char) -> char {
    if 'A' <= c <= 'Z' {
        ((c as u32) + 32) as char
    } else {
        c
    }
}

/// `c`, with a small ASCII letter made capital.
pub open spec fn ascii_upper(c: char) -> char {
    if 'a' <= c <= 'z' {
        ((c as u32) - 32) as char
    } else {
        c
    }
}

/// `s`, with every ASCII capital made small.
pub open spec fn ascii_lower_seq(s: Seq<char>) -> Seq<char> {
    s.map_values(|c: char| ascii_lower(c))
}

/// `c` with an ASCII capital made small.
pub fn to_ascii_lower(c: char) -> (r: char)
    ensures
        r == ascii_lower(c),
{
    if 'A' <= c && c <= 'Z' {
        (c as u8 + 32) as char
    } else {
        c
    }
}

/// `c` with a small ASCII letter made capital.
pub fn to_ascii_upper(c: char) -> (r: char)
    ensures
        r == ascii_upper(c),
{
    if 'a' <= c && c <= 'z' {
        (c as u8 - 32) as char
    } else {
        c
    }
}

/// `s` with every ASCII capital made small.
pub fn lower_all(s: &[char]) -> (r: Vec<char>)
    ensures
        r@ == ascii_lower_seq(s@),
{
    let mut r: Vec<char> = Vec::new();
    let mut i: usize = 0;
    while i < s.len()
        invariant
            i <= s@.len(),
            r@ == ascii_lower_seq(s@.take(i as int)),
        decreases s@.len() - i,
    {
        r.push(to_ascii_lower(s[i]));
        i += 1;
        assert(s@.take(i as int) == s@.take(i - 1).push(s@[i - 1]));
        assert(r@ =~= ascii_lower_seq(s@.take(i as int)));
    }
    assert(s@.take(s@.len() as int) == s@);
    r
}

/// The name of what `str::to_lowercase` makes of a text.
pub uninterp spec fn lowercase(s: Seq<char>) -> Seq<char>;

/// `str::to_lowercase`: the text with every character replaced by its Unicode lower-case
/// mapping. The mapping itself is named, not stated.
#[verifier::external_body]
pub(crate) fn to_lowercase(s: &str) -> (r: String)
    ensures
        r@ == lowercase(s@),
{
    s.to_lowercase()
}

// ---- Comparing and searching ----------------------------------------------

/// Whether `q` stands in `s` at position `i`.
pub open spec fn occurs_at(s: Seq<char>, q: Seq<char>, i: int) -> bool {
    0 <= i && i + q.len() <= s.len() && s.subrange(i, i + q.len()) == q
}

/// Whether `q` stands in `s` at position `i`.
pub fn found_at(s: &[char], q: &[char], i: usize) -> (r: bool)
    ensures
        r == occurs_at(s@, q@, i as int),
{
    let n: usize = s.len();
    if i > n || q.len() > n - i {
        return false;
    }
    let mut k: usize = 0;
    while k < q.len()
        invariant
            k <= q@.len(),
            n == s@.len(),
            i + q@.len() <= n,
            forall|j: int| 0 <= j < k ==> s@[i + j] == q@[j],
        decreases q@.len() - k,
    {
        if s[i + k] != q[k] {
            assert(s@.subrange(i as int, i + q@.len())[k as int] != q@[k as int]);
            return false;
        }
        k += 1;
    }
    assert(s@.subrange(i as int, i + q@.len()) =~= q@);
    true
}

/// Whether `q` stands anywhere in `s`.
pub open spec fn contains(s: Seq<char>, q: Seq<char>) -> bool {
    exists|i: int| occurs_at(s, q, i)
}

/// Whether `q` stands anywhere in `s`.
pub fn found_in(s: &[char], q: &[char]) -> (r: bool)
    ensures
        r == contains(s@, q@),
{
    let mut i: usize = 0;
    while i < s.len()
        invariant
            i <= s@.len(),
            forall|j: int| 0 <= j < i ==> !occurs_at(s@, q@, j),
        decreases s@.len() - i,
    {
        if found_at(s, q, i) {
            return true;
        }
        i += 1;
    }
    found_at(s, q, i)
}

/// Whether `s` starts with `q`.
pub fn starts_with(s: &[char], q: &[char]) -> (r: bool)
    ensures
        r == occurs_at(s@, q@, 0),
{
    found_at(s, q, 0)
}

/// Character-by-character order by code point: the order that strings have.
pub open spec fn text_le(a: Seq<char>, b: Seq<char>) -> bool
    decreases a.len(),
{
    if a.len() == 0 {
        true
    } else if b.len() == 0 {
        false
    } else if a[0] == b[0] {
        text_le(a.drop_first(), b.drop_first())
    } else {
        a[0] < b[0]
    }
}

/// Any two texts stand in order one way or the other.
pub proof fn lemma_text_le_total(a: Seq<char>, b: Seq<char>)
    ensures
        text_le(a, b) || text_le(b, a),
    decreases a.len(),
{
    if a.len() > 0 && b.len() > 0 && a[0] == b[0] {
        lemma_text_le_total(a.drop_first(), b.drop_first());
    }
}

/// The order of texts carries over.
pub proof fn lemma_text_le_transitive(a: Seq<char>, b: Seq<char>, c: Seq<char>)
    requires
        text_le(a, b),
        text_le(b, c),
    ensures
        text_le(a, c),
    decreases a.len(),
{
    if a.len() > 0 && b.len() > 0 && c.len() > 0 && a[0] == b[0] && b[0] == c[0] {
        lemma_text_le_transitive(a.drop_first(), b.drop_first(), c.drop_first());
    }
}

/// Whether `a` stands before `b`, or is the same.
pub fn in_order(a: &[char], b: &[char]) -> (r: bool)
    ensures
        r == text_le(a@, b@),
{
    let mut i: usize = 0;
    assert(a@.skip(0) == a@ && b@.skip(0) == b@);
    while i < a.len() && i < b.len()
        invariant
            i <= a@.len(),
            i <= b@.len(),
            text_le(a@, b@) == text_le(a@.skip(i as int), b@.skip(i as int)),
        decreases a@.len() - i,
    {
        assert(a@.skip(i as int).drop_first() == a@.skip(i + 1));
        assert(b@.skip(i as int).drop_first() == b@.skip(i + 1));
        if a[i] != b[i] {
            return a[i] < b[i];
        }
        i += 1;
    }
    i >= a.len()
}

// ---- Numbers --------------------------------------------------------------

/// The decimal digit for `d`, 0 to 9.
pub open spec fn digit(d: nat) -> char {
    (('0' as u32) + d) as char
}

/// A number written in decimal, without leading zeros.
pub open spec fn decimal(n: nat) -> Seq<char>
    decreases n,
{
    if n < 10 {
        seq![digit(n)]
    } else {
        decimal(n / 10).push(digit(n % 10))
    }
}

/// Appends `n` in decimal to `out`.
pub fn push_decimal(out: &mut String, n: u128)
    ensures
        final(out)@ == old(out)@ + decimal(n as nat),
    decreases n,
{
    if n >= 10 {
        push_decimal(out, n / 10);
    }
    out.push((48u8 + (n % 10) as u8) as char);
    proof {
        let d = (n % 10) as nat;
        assert(digit(d) == (48u8 + (n % 10) as u8) as char);
        if n >= 10 {
            assert(out@ =~= old(out)@ + decimal((n / 10) as nat).push(digit(d)));
        } else {
            assert(out@ =~= old(out)@ + seq![digit(d)]);
        }
    }
}

/// `n` in decimal.
pub fn to_decimal(n: u128) -> (r: String)
    ensures
        r@ == decimal(n as nat),
{
    let mut r: String = String::new();
    push_decimal(&mut r, n);
    assert(r@ =~= decimal(n as nat));
    r
}

/// Whether `c` is one of the ten ASCII digits.
pub open spec fn is_digit(c: char) -> bool {
    '0' <= c <= '9'
}

/// The number that a row of digits writes.
pub open spec fn digits_value(s: Seq<char>) -> nat
    decreases s.len(),
{
    if s.len() == 0 {
        0
    } else {
        digits_value(s.drop_last()) * 10 + ((s.last() as u32) - ('0' as u32)) as nat
    }
}

/// The digits of an unsigned number: `s` without one leading plus sign.
pub open spec fn unsigned_digits(s: Seq<char>) -> Seq<char> {
    if s.len() > 0 && s[0] == '+' {
        s.drop_first()
    } else {
        s
    }
}

/// What an unsigned number with the given greatest value reads from `s`: an optional plus
/// sign and at least one digit, nothing else, and not above the greatest value.
pub open spec fn unsigned_value(s: Seq<char>, max: nat) -> Option<nat> {
    let d = unsigned_digits(s);
    if d.len() > 0 && (forall|i: int| 0 <= i < d.len() ==> is_digit(#[trigger] d[i]))
        && digits_value(d) <= max {
        Some(digits_value(d))
    } else {
        None
    }
}

/// The value of a longer row of digits is no smaller.
proof fn lemma_digits_value_grows(s: Seq<char>, i: int)
    requires
        0 <= i <= s.len(),
        forall|j: int| 0 <= j < s.len() ==> is_digit(#[trigger] s[j]),
    ensures
        digits_value(s.take(i)) <= digits_value(s),
    decreases s.len(),
{
    if i < s.len() {
        let d = s.drop_last();
        lemma_digits_value_grows(d, i);
        assert(d.take(i) == s.take(i));
    } else {
        assert(s.take(i) == s);
    }
}

/// Reads an unsigned number no greater than `max`.
pub fn parse_unsigned(s: &[char], max: u32) -> (r: Option<u32>)
    ensures
        r is Some <==> unsigned_value(s@, max as nat) is Some,
        r matches Some(v) ==> unsigned_value(s@, max as nat) == Some(v as nat),
{
    let mut i: usize = 0;
    if s.len() > 0 && s[0] == '+' {
        i = 1;
    }
    let start: usize = i;
    let ghost d = unsigned_digits(s@);
    assert(d == s@.skip(start as int));
    if i == s.len() {
        return None;
    }
    let mut v: u64 = 0;
    assert(d.take(0) =~= Seq::<char>::empty());
    while i < s.len()
        invariant
            start <= i <= s@.len(),
            d == unsigned_digits(s@),
            d == s@.skip(start as int),
            forall|j: int| 0 <= j < i - start ==> is_digit(#[trigger] d[j]),
            v == digits_value(d.take(i - start)),
            v <= max,
        decreases s@.len() - i,
    {
        let c = s[i];
        assert(d[i - start] == c);
        if !('0' <= c && c <= '9') {
            assert(!is_digit(d[i - start]));
            return None;
        }
        proof {
            assert(d.take(i - start + 1).drop_last() == d.take(i - start));
            assert(d.take(i - start + 1).last() == c);
        }
        v = v * 10 + (c as u64 - '0' as u64);
        i += 1;
        if v > max as u64 {
            proof {
                if forall|j: int| 0 <= j < d.len() ==> is_digit(#[trigger] d[j]) {
                    lemma_digits_value_grows(d, i - start);
                }
            }
            return None;
        }
    }
    assert(d.take(i - start) == d);
    Some(v as u32)
}

/// A signed number written in decimal.
pub open spec fn signed_decimal(n: int) -> Seq<char> {
    if n < 0 {
        seq!['-'] + decimal((-n) as nat)
    } else {
        decimal(n as nat)
    }
}

/// `n` in decimal.
pub fn to_signed_decimal(n: i32) -> (r: String)
    ensures
        r@ == signed_decimal(n as int),
{
    let mut r: String = String::new();
    let wide: i128 = n as i128;
    if wide < 0 {
        r.push('-');
        push_decimal(&mut r, (0 - wide) as u128);
        assert(r@ =~= signed_decimal(n as int));
    } else {
        push_decimal(&mut r, wide as u128);
        assert(r@ =~= signed_decimal(n as int));
    }
    r
}

// ---- Languages ------------------------------------------------------------

/// The text for the language of the interface: English or Chinese.
pub open spec fn tr(english: bool, zh: Seq<char>, en: Seq<char>) -> Seq<char> {
    if english {
        en
    } else {
        zh
    }
}

/// Appends the text for the language of the interface.
pub fn push_tr(out: &mut String, english: bool, zh: &str, en: &str)
    ensures
        final(out)@ == old(out)@ + tr(english, zh@, en@),
{
    if english {
        out.append(en);
    } else {
        out.append(zh);
    }
}

/// The text for the language of the interface.
pub fn t(english: bool, zh: &str, en: &str) -> (r: String)
    ensures
        r@ == tr(english, zh@, en@),
{
    if english {
        en.to_owned()
    } else {
        zh.to_owned()
    }
}

// ---- Laws -----------------------------------------------------------------

/// A number written down is read back as that number: it is all digits, and none that is not
/// zero starts with one.
pub proof fn law_decimals_are_read_back(n: nat, max: nat)
    ensures
        digits_value(decimal(n)) == n,
        decimal(n).len() > 0,
        forall|i: int| 0 <= i < decimal(n).len() ==> is_digit(#[trigger] decimal(n)[i]),
        n > 0 ==> decimal(n)[0] != '0',
        unsigned_value(decimal(n), max) == if n <= max {
            Some(n)
        } else {
            None
        },
    decreases n,
{
    let s = decimal(n);
    if n < 10 {
        assert(s.drop_last() =~= Seq::<char>::empty());
        assert(digits_value(s.drop_last()) == 0);
        assert(s.last() == digit(n));
    } else {
        law_decimals_are_read_back(n / 10, max);
        assert(s.drop_last() =~= decimal(n / 10));
        assert(s.last() == digit(n % 10));
        assert(s[0] == decimal(n / 10)[0]);
    }
    assert(is_digit(s[0]));
    assert(unsigned_digits(s) == s);
}

/// Leading zeros and one leading plus sign change nothing of what is read.
pub proof fn law_padding_is_read_over(s: Seq<char>, max: nat)
    requires
        s.len() > 0,
        s[0] != '+',
    ensures
        unsigned_value(seq!['+'] + s, max) == unsigned_value(s, max),
        digits_value(seq!['0'] + s) == digits_value(s),
        unsigned_value(seq!['0'] + s, max) == unsigned_value(s, max),
{
    assert((seq!['+'] + s).drop_first() =~= s);
    lemma_leading_zero(s);
    let z = seq!['0'] + s;
    assert forall|i: int| 0 <= i < s.len() implies z[i + 1] == #[trigger] s[i] by {}
    if forall|i: int| 0 <= i < s.len() ==> is_digit(#[trigger] s[i]) {
        assert forall|i: int| 0 <= i < z.len() implies is_digit(#[trigger] z[i]) by {
            if i > 0 {
                assert(is_digit(s[i - 1]));
            }
        }
    } else {
        let i = choose|i: int| 0 <= i < s.len() && !is_digit(#[trigger] s[i]);
        assert(z[i + 1] == s[i]);
        assert(!is_digit(z[i + 1]));
    }
}

proof fn lemma_leading_zero(s: Seq<char>)
    ensures
        digits_value(seq!['0'] + s) == digits_value(s),
    decreases s.len(),
{
    let z = seq!['0'] + s;
    if s.len() == 0 {
        assert(z.drop_last() =~= Seq::<char>::empty());
        assert(digits_value(z.drop_last()) == 0);
        assert(z.last() == '0');
    } else {
        lemma_leading_zero(s.drop_last());
        assert(z.drop_last() =~= seq!['0'] + s.drop_last());
        assert(z.last() == s.last());
    }
}

/// Nothing but digits is read as a number.
pub proof fn law_only_digits_are_read(s: Seq<char>, max: nat, i: int)
    ensures
        s.len() == 0 ==> unsigned_value(s, max) is None,
        0 <= i < s.len() && !('0' <= s[i] && s[i] <= '9') && !(i == 0 && s[i] == '+')
            ==> unsigned_value(s, max) is None,
        unsigned_value(s, max) matches Some(n) ==> n <= max,
{
    let d = unsigned_digits(s);
    if 0 <= i < s.len() && !('0' <= s[i] && s[i] <= '9') && !(i == 0 && s[i] == '+') {
        if s[0] == '+' {
            assert(d[i - 1] == s[i]);
            assert(!is_digit(d[i - 1]));
        } else {
            assert(!is_digit(d[i]));
        }
    }
}

/// A sign stands before a negative number only.
pub proof fn law_negative_numbers_have_a_sign(n: nat)
    ensures
        signed_decimal(n as int) == decimal(n),
        n > 0 ==> signed_decimal(-(n as int)) == seq!['-'] + decimal(n),
{
}

/// The pieces put together again, the separator between them.
pub open spec fn with_seps(parts: Seq<Seq<char>>, sep: char) -> Seq<char>
    decreases parts.len(),
{
    if parts.len() == 0 {
        Seq::empty()
    } else if parts.len() == 1 {
        parts[0]
    } else {
        parts[0].push(sep) + with_seps(parts.drop_first(), sep)
    }
}

proof fn lemma_sep_found(s: Seq<char>, sep: char, from: int)
    requires
        0 <= from <= s.len(),
    ensures
        from <= next_sep(s, sep, from) <= s.len(),
        next_sep(s, sep, from) < s.len() ==> s[next_sep(s, sep, from)] == sep,
        forall|i: int| from <= i < next_sep(s, sep, from) ==> #[trigger] s[i] != sep,
    decreases s.len() - from,
{
    if from < s.len() && s[from] != sep {
        lemma_sep_found(s, sep, from + 1);
    }
}

/// A text split at a separator loses nothing but the separators: the pieces, the separator put
/// between them again, are the text. There are at most as many pieces as asked for, at least one,
/// and only the last can hold a separator, namely where more pieces were not asked for.
pub proof fn law_pieces_make_up_the_text(s: Seq<char>, sep: char, limit: nat)
    requires
        limit >= 1,
    ensures
        with_seps(pieces(s, sep, limit), sep) == s,
        1 <= pieces(s, sep, limit).len() <= limit,
        forall|k: int|
            0 <= k < pieces(s, sep, limit).len() - 1 ==> !(#[trigger] pieces(
                s,
                sep,
                limit,
            )[k]).contains(sep),
        pieces(s, sep, limit).len() < limit ==> !pieces(s, sep, limit).last().contains(sep),
    decreases limit,
{
    lemma_sep_found(s, sep, 0);
    let e = next_sep(s, sep, 0);
    let all = pieces(s, sep, limit);
    if limit <= 1 || e >= s.len() {
        assert(all == seq![s]);
        if limit > 1 {
            assert(!s.contains(sep));
        }
    } else {
        let rest = pieces(s.skip(e + 1), sep, (limit - 1) as nat);
        law_pieces_make_up_the_text(s.skip(e + 1), sep, (limit - 1) as nat);
        assert(all == seq![s.take(e)] + rest);
        assert(all.drop_first() =~= rest);
        assert(s.take(e).push(sep) + s.skip(e + 1) =~= s);
        assert(!s.take(e).contains(sep));
        assert forall|k: int| 0 <= k < all.len() - 1 implies !(#[trigger] all[k]).contains(sep) by {
            if k > 0 {
                assert(all[k] == rest[k - 1]);
            }
        }
        assert(all.last() == rest.last());
    }
}

/// A text split at every separator has no piece that holds one.
pub proof fn law_all_pieces_are_free_of_the_separator(s: Seq<char>, sep: char, k: int)
    requires
        0 <= k < all_pieces(s, sep).len(),
    ensures
        !all_pieces(s, sep)[k].contains(sep),
        with_seps(all_pieces(s, sep), sep) == s,
{
    lemma_enough_pieces(s, sep, s.len() + 2);
    law_pieces_make_up_the_text(s, sep, s.len() + 2);
    law_pieces_make_up_the_text(s, sep, s.len() + 1);
    assert(all_pieces(s, sep).last() == all_pieces(s, sep)[all_pieces(s, sep).len() - 1]);
}

proof fn lemma_trimmed_start(s: Seq<char>)
    ensures
        trimmed_start(s).len() <= s.len(),
        trimmed_start(s) == s.skip(s.len() - trimmed_start(s).len()),
        trimmed_start(s).len() > 0 ==> !white_space(trimmed_start(s)[0]),
        forall|i: int|
            0 <= i < s.len() - trimmed_start(s).len() ==> white_space(#[trigger] s[i]),
    decreases s.len(),
{
    if s.len() > 0 && white_space(s[0]) {
        let rest = s.drop_first();
        lemma_trimmed_start(rest);
        assert(trimmed_start(s) =~= s.skip(s.len() - trimmed_start(s).len()));
        assert forall|i: int| 0 <= i < s.len() - trimmed_start(s).len() implies white_space(
            #[trigger] s[i],
        ) by {
            if i > 0 {
                assert(rest[i - 1] == s[i]);
            }
        }
    } else {
        assert(s.skip(0) =~= s);
    }
}

/// Trimming takes white space off both ends, all of it and nothing else: what is left is a part
/// of the text that neither starts nor ends in white space, and all before and after it is.
pub proof fn law_trimming(s: Seq<char>) -> (from: int)
    ensures
        0 <= from,
        from + trimmed(s).len() <= s.len(),
        trimmed(s) == s.subrange(from, from + trimmed(s).len()),
        forall|i: int|
            0 <= i < s.len() && (i < from || from + trimmed(s).len() <= i) ==> white_space(
                #[trigger] s[i],
            ),
        trimmed(s).len() > 0 ==> !white_space(trimmed(s)[0]) && !white_space(trimmed(s).last()),
{
    let rest = trimmed_start(s);
    lemma_trimmed_start(s);
    lemma_trimmed_end(rest);
    let from = s.len() - rest.len();
    assert(trimmed(s) =~= s.subrange(from, from + trimmed(s).len()));
    assert forall|i: int|
        0 <= i < s.len() && (i < from || from + trimmed(s).len() <= i) implies white_space(
        #[trigger] s[i],
    ) by {
        if i >= from {
            assert(rest[i - from] == s[i]);
        }
    }
    from
}

/// Stripping a character off one end takes all of it there and nothing else.
pub proof fn law_stripping(s: Seq<char>, c: char)
    ensures
        without_leading(s, c).len() <= s.len(),
        without_leading(s, c) == s.skip(s.len() - without_leading(s, c).len()),
        without_leading(s, c).len() > 0 ==> without_leading(s, c)[0] != c,
        forall|i: int| 0 <= i < s.len() - without_leading(s, c).len() ==> #[trigger] s[i] == c,
        without_trailing(s, c).len() <= s.len(),
        without_trailing(s, c) == s.take(without_trailing(s, c).len() as int),
        without_trailing(s, c).len() > 0 ==> without_trailing(s, c).last() != c,
        forall|i: int| without_trailing(s, c).len() <= i < s.len() ==> #[trigger] s[i] == c,
    decreases s.len(),
{
    if s.len() > 0 {
        let rest = s.drop_first();
        let front = s.drop_last();
        law_stripping(rest, c);
        law_stripping(front, c);
        if s[0] == c {
            assert(without_leading(s, c) =~= s.skip(s.len() - without_leading(s, c).len()));
            assert forall|i: int| 0 <= i < s.len() - without_leading(s, c).len() implies
                #[trigger] s[i] == c by {
                if i > 0 {
                    assert(rest[i - 1] == s[i]);
                }
            }
        } else {
            assert(s.skip(0) =~= s);
        }
        if s.last() == c {
            assert(without_trailing(s, c) =~= s.take(without_trailing(s, c).len() as int));
            assert forall|i: int| without_trailing(s, c).len() <= i < s.len() implies
                #[trigger] s[i] == c by {
                if i < s.len() - 1 {
                    assert(front[i] == s[i]);
                }
            }
        } else {
            assert(s.take(s.len() as int) =~= s);
        }
    } else {
        assert(s.skip(0) =~= s);
        assert(s.take(0) =~= s);
    }
}

/// Changing the case touches the ASCII letters alone, each into the letter of the same place in
/// the alphabet, and one case undoes the other.
pub proof fn law_case_is_of_ascii_letters(c: char)
    ensures
        !('A' <= c && c <= 'Z') ==> ascii_lower(c) == c,
        'A' <= c && c <= 'Z' ==> 'a' <= ascii_lower(c) && ascii_lower(c) <= 'z' && ascii_lower(
            c,
        ) as u32 - 'a' as u32 == c as u32 - 'A' as u32,
        !('a' <= c && c <= 'z') ==> ascii_upper(c) == c,
        'a' <= c && c <= 'z' ==> ascii_lower(ascii_upper(c)) == c && 'A' <= ascii_upper(c)
            && ascii_upper(c) <= 'Z',
        ascii_lower(ascii_lower(c)) == ascii_lower(c),
        ascii_lower(ascii_upper(c)) == ascii_lower(c),
{
}

/// Texts are ordered by the first character in which they differ; one that goes on where the
/// other ends comes after it.
pub proof fn law_first_difference_orders(
    start: Seq<char>,
    x: char,
    y: char,
    a: Seq<char>,
    b: Seq<char>,
)
    ensures
        text_le(start, start + a),
        a.len() > 0 ==> !text_le(start + a, start),
        x != y ==> (text_le(start + seq![x] + a, start + seq![y] + b) <==> (x as u32) < (y as u32)),
    decreases start.len(),
{
    let (sa, xa, yb) = (start + a, start + seq![x] + a, start + seq![y] + b);
    if start.len() > 0 {
        let rest = start.drop_first();
        law_first_difference_orders(rest, x, y, a, b);
        assert(sa.drop_first() =~= rest + a);
        assert(xa.drop_first() =~= rest + seq![x] + a);
        assert(yb.drop_first() =~= rest + seq![y] + b);
    } else {
        assert(xa[0] == x && yb[0] == y);
    }
}

/// Two texts neither of which comes after the other are the same.
pub proof fn law_order_of_texts_is_strict(a: Seq<char>, b: Seq<char>)
    requires
        text_le(a, b),
        text_le(b, a),
    ensures
        a == b,
    decreases a.len(),
{
    if a.len() > 0 && b.len() > 0 {
        law_order_of_texts_is_strict(a.drop_first(), b.drop_first());
        assert(seq![a[0]] + a.drop_first() =~= a);
        assert(seq![b[0]] + b.drop_first() =~= b);
    } else {
        assert(a =~= b);
    }
}

/// A text holds every text that it was put together around, and no other.
pub proof fn law_parts_are_contained(before: Seq<char>, part: Seq<char>, after: Seq<char>)
    ensures
        contains(before + part + after, part),
        forall|s: Seq<char>| #[trigger]
            contains(s, part) ==> exists|i: int|
                0 <= i && i + part.len() <= s.len() && #[trigger] s.take(i) + part + s.skip(
                    i + part.len(),
                ) == s,
{
    let s = before + part + after;
    assert(s.subrange(before.len() as int, before.len() as int + part.len()) =~= part);
    assert(occurs_at(s, part, before.len() as int));
    assert forall|s: Seq<char>| #[trigger] contains(s, part) implies exists|i: int|
        0 <= i && i + part.len() <= s.len() && #[trigger] s.take(i) + part + s.skip(i + part.len())
            == s by {
        let i = choose|i: int| occurs_at(s, part, i);
        assert forall|j: int| 0 <= j < part.len() implies part[j] == s[i + j] by {
            assert(s.subrange(i, i + part.len())[j] == s[i + j]);
        }
        assert(s.take(i) + part + s.skip(i + part.len()) =~= s);
    }
}

/// Of the two wordings that one is shown which is in the chosen language.
pub proof fn law_language_chooses_the_wording(zh: Seq<char>, en: Seq<char>)
    ensures
        tr(true, zh, en) == en,
        tr(false, zh, en) == zh,
{
}

/// The text up to the first separator is the first piece, and the rest is split on its own.
pub proof fn lemma_piece_off(a: Seq<char>, rest: Seq<char>, sep: char, limit: nat)
    requires
        !a.contains(sep),
        limit > 1,
    ensures
        pieces(a.push(sep) + rest, sep, limit) == seq![a] + pieces(rest, sep, (limit - 1) as nat),
{
    let s = a.push(sep) + rest;
    assert(s.take(a.len() as int) =~= a);
    lemma_next_sep(a, s, sep, 0);
    assert(s.skip(a.len() as int + 1) =~= rest);
}

/// A text that neither starts nor ends in white space is its own trimming.
pub proof fn lemma_nothing_to_trim(s: Seq<char>)
    requires
        s.len() > 0 ==> !white_space(s[0]) && !white_space(s.last()),
    ensures
        trimmed(s) == s,
{
    assert(trimmed_start(s) == s);
}

/// A text without the separator is one piece, however many are asked for.
pub proof fn lemma_few_pieces(s: Seq<char>, sep: char, limit: nat)
    requires
        !s.contains(sep),
    ensures
        pieces(s, sep, limit) == seq![s],
{
    assert(s.take(s.len() as int) =~= s);
    lemma_next_sep(s, s, sep, 0);
}

/// Of the ASCII characters the space and those from tab to carriage return are white space; of
/// the others the next-line character, the no-break space, the spaces of typography and the
/// ideographic space are, and no letter is.
pub proof fn law_white_space(c: char)
    ensures
        (c as u32) < 0x80 ==> (white_space(c) <==> c == ' ' || ('\t' <= c && c <= '\r')),
        c as u32 == 0x85 || c as u32 == 0xa0 || c as u32 == 0x3000 ==> white_space(c),
        0x2000 <= c as u32 && c as u32 <= 0x200a ==> white_space(c),
        0xa1 <= c as u32 && c as u32 <= 0x167f ==> !white_space(c),
        0x3001 <= c as u32 ==> !white_space(c),
        0x200b <= c as u32 && c as u32 <= 0x2027 ==> !white_space(c),
{
}

} // verus!
