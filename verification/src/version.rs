//! Release versions: reading them, comparing them, and deciding on the update banner.

use vstd::prelude::*;

use crate::text::{
    all_pieces, decimal, is_digit, law_decimals_are_read_back, law_pieces_make_up_the_text,
    lemma_first_piece, lemma_joined_without, lemma_nothing_to_trim, lemma_one_piece, lemma_trimmed_end,
    parse_unsigned, split_all, strip_leading, to_chars, trim, trimmed, trimmed_start,
    unsigned_value, views, white_space, without_leading,
};

verus! {

/// The digits that a text starts with.
pub open spec fn leading_digits(s: Seq<char>) -> Seq<char>
    decreases s.len(),
{
    if s.len() > 0 && is_digit(s[0]) {
        seq![s[0]] + leading_digits(s.drop_first())
    } else {
        Seq::empty()
    }
}

/// Whether the pieces between the dots of a tag are those of a three-part version: three of them,
/// or more where the further dots belong to a suffix that starts in the third, as in "3-rc.1".
pub open spec fn three_parts(parts: Seq<Seq<char>>) -> bool {
    parts.len() == 3 || (parts.len() > 3 && leading_digits(parts[2]) != parts[2])
}

/// The version that a tag such as "v1.2.3" names: three numbers between dots, the third one as
/// far as it is digits. White space around the tag and any "v" in front are passed over.
pub open spec fn version_of(tag: Seq<char>) -> Option<(nat, nat, nat)> {
    let parts = all_pieces(without_leading(trimmed(tag), 'v'), '.');
    if !three_parts(parts) {
        None
    } else {
        match (
            unsigned_value(parts[0], u32::MAX as nat),
            unsigned_value(parts[1], u32::MAX as nat),
            unsigned_value(leading_digits(parts[2]), u32::MAX as nat),
        ) {
            (Some(a), Some(b), Some(c)) => Some((a, b, c)),
            _ => None,
        }
    }
}

/// A version as three mathematical numbers.
pub open spec fn version_view(v: (u32, u32, u32)) -> (nat, nat, nat) {
    (v.0 as nat, v.1 as nat, v.2 as nat)
}

/// The digits that a text starts with.
fn take_digits(s: &[char]) -> (r: Vec<char>)
    ensures
        r@ == leading_digits(s@),
{
    let mut r: Vec<char> = Vec::new();
    let mut i: usize = 0;
    assert(s@.skip(0) == s@);
    assert(r@ + leading_digits(s@) =~= leading_digits(s@));
    while i < s.len() && '0' <= s[i] && s[i] <= '9'
        invariant
            i <= s@.len(),
            r@ + leading_digits(s@.skip(i as int)) == leading_digits(s@),
        decreases s@.len() - i,
    {
        let ghost rest = s@.skip(i as int);
        let ghost before = r@;
        assert(rest[0] == s@[i as int]);
        assert(rest.drop_first() == s@.skip(i + 1));
        r.push(s[i]);
        assert(r@ + leading_digits(s@.skip(i + 1)) =~= before + leading_digits(rest));
        i += 1;
    }
    proof {
        let rest = s@.skip(i as int);
        if rest.len() > 0 {
            assert(rest[0] == s@[i as int]);
        }
        assert(r@ + leading_digits(rest) =~= r@);
    }
    r
}

/// The leading digits are the whole text exactly where they are as long.
proof fn lemma_leading_digits(s: Seq<char>)
    ensures
        leading_digits(s).len() <= s.len(),
        leading_digits(s) == s <==> leading_digits(s).len() == s.len(),
    decreases s.len(),
{
    if s.len() > 0 && is_digit(s[0]) {
        lemma_leading_digits(s.drop_first());
        if leading_digits(s.drop_first()) == s.drop_first() {
            assert(leading_digits(s) =~= s);
        }
    } else if s.len() == 0 {
        assert(leading_digits(s) =~= s);
    }
}

/// Parse a "vX.Y.Z" / "X.Y.Z" tag into a comparable tuple, or None if it isn't a three-part
/// numeric version. A pre-release suffix on the patch (e.g. "3-rc1") is tolerated by taking its
/// leading digits.
pub fn parse_version(s: &str) -> (r: Option<(u32, u32, u32)>)
    ensures
        r is Some <==> version_of(s@) is Some,
        r matches Some(v) ==> version_of(s@) == Some(version_view(v)),
{
    let text = strip_leading(trim(to_chars(s).as_slice()).as_slice(), 'v');
    let parts = split_all(text.as_slice(), '.');
    assert(views(parts@).len() == parts@.len());
    if parts.len() < 3 {
        return None;
    }
    assert(views(parts@)[0] == parts@[0]@);
    assert(views(parts@)[1] == parts@[1]@);
    assert(views(parts@)[2] == parts@[2]@);
    let major: u32 = match parse_unsigned(parts[0].as_slice(), u32::MAX) {
        Some(n) => n,
        None => return None,
    };
    let minor: u32 = match parse_unsigned(parts[1].as_slice(), u32::MAX) {
        Some(n) => n,
        None => return None,
    };
    let digits = take_digits(parts[2].as_slice());
    proof {
        lemma_leading_digits(parts@[2]@);
    }
    if parts.len() > 3 && digits.len() == parts[2].len() {
        return None;
    }
    let patch: u32 = match parse_unsigned(digits.as_slice(), u32::MAX) {
        Some(n) => n,
        None => return None,
    };
    Some((major, minor, patch))
}

/// Whether version `a` comes before version `b`.
pub open spec fn earlier(a: (nat, nat, nat), b: (nat, nat, nat)) -> bool {
    a.0 < b.0 || (a.0 == b.0 && (a.1 < b.1 || (a.1 == b.1 && a.2 < b.2)))
}

/// Whether a tag names a later version than the running one; false where either is no version.
pub open spec fn newer(tag: Seq<char>, current: Seq<char>) -> bool {
    match (version_of(tag), version_of(current)) {
        (Some(latest), Some(cur)) => earlier(cur, latest),
        _ => false,
    }
}

/// Whether the tag names a later version than the running one.
pub fn is_newer(tag: &str, current: &str) -> (r: bool)
    ensures
        r == newer(tag@, current@),
{
    match (parse_version(tag), parse_version(current)) {
        (Some(latest), Some(cur)) => {
            cur.0 < latest.0 || (cur.0 == latest.0 && (cur.1 < latest.1 || (cur.1 == latest.1
                && cur.2 < latest.2)))
        },
        _ => false,
    }
}

// ---- The update check -----------------------------------------------------

/// `serde_json::Error`: opaque, only told apart from success.
#[verifier::external_type_specification]
#[verifier::external_body]
pub struct ExJsonError(serde_json::Error);

/// The name of what `serde_json` finds under a member name in a JSON text: nothing where the
/// text is no JSON, and otherwise the member's text if it is a string.
pub uninterp spec fn json_member(body: Seq<char>, name: Seq<char>) -> Option<Option<Seq<char>>>;

/// `serde_json::from_str` into a `Value`, indexed by a member name and read with `as_str`: an
/// error where the text is no JSON; otherwise the member's text, or nothing where the value is
/// no object, has no such member, or the member is no string.
#[verifier::external_body]
fn read_member(body: &str, name: &str) -> (r: Result<Option<String>, serde_json::Error>)
    ensures
        r is Ok <==> json_member(body@, name@) is Some,
        r matches Ok(None) ==> json_member(body@, name@) == Some(None::<Seq<char>>),
        r matches Ok(Some(s)) ==> json_member(body@, name@) == Some(Some(s@)),
{
    let value: serde_json::Value = serde_json::from_str(body)?;
    Ok(value[name].as_str().map(|s| s.to_string()))
}

/// The tag to announce, for what was found under `tag_name` in the reply: a missing tag counts
/// as an empty one, and only a later version is announced.
pub open spec fn announced(found: Option<Option<Seq<char>>>, current: Seq<char>) -> Option<
    Seq<char>,
> {
    match found {
        Some(Some(tag)) => if newer(tag, current) {
            Some(tag)
        } else {
            None
        },
        _ => None,
    }
}

/// The tag to announce, given what the reply holds under `tag_name`.
pub fn update_for_tag(found: Option<String>, current: &str) -> (r: Option<String>)
    ensures
        r is Some <==> (found matches Some(tag) && newer(tag@, current@)),
        r matches Some(t) ==> (found matches Some(tag) && t@ == tag@),
{
    match found {
        Some(tag) => if is_newer(tag.as_str(), current) {
            Some(tag)
        } else {
            None
        },
        None => None,
    }
}

/// Decide on the update banner from the body of the release reply: the tag of a later version,
/// if it names one. Anything that cannot be read is silently ignored.
pub fn update_to_announce(body: &str, current: &str) -> (r: Option<String>)
    ensures
        r is Some <==> announced(json_member(body@, "tag_name"@), current@) is Some,
        r matches Some(t) ==> announced(json_member(body@, "tag_name"@), current@) == Some(t@),
{
    match read_member(body, "tag_name") {
        Ok(found) => update_for_tag(found, current),
        Err(_) => None,
    }
}

// ---- Laws -----------------------------------------------------------------

/// No version is announced over itself, and of two versions at most one is announced over the
/// other.
pub proof fn law_updates_go_one_way(a: Seq<char>, b: Seq<char>)
    ensures
        !newer(a, a),
        newer(a, b) ==> !newer(b, a),
{
}

/// Being later carries over.
pub proof fn law_updates_carry_over(a: Seq<char>, b: Seq<char>, c: Seq<char>)
    requires
        newer(a, b),
        newer(b, c),
    ensures
        newer(a, c),
{
}

/// A "v" in front of the tag makes no difference.
pub proof fn law_leading_v_is_ignored(tag: Seq<char>)
    requires
        trimmed(tag) == tag,
    ensures
        version_of(seq!['v'] + tag) == version_of(tag),
{
    let t = seq!['v'] + tag;
    assert(t.drop_first() =~= tag);
    assert(trimmed_start(t) == t);
    lemma_trimmed_end(trimmed_start(tag));
    if tag.len() > 0 {
        assert(t.last() == tag.last());
    } else {
        assert(t.last() == 'v');
    }
    assert(trimmed(t) == t);
    assert(without_leading(t, 'v') == without_leading(tag, 'v'));
}

proof fn lemma_leading_digits_of(d: Seq<char>, rest: Seq<char>)
    requires
        forall|i: int| 0 <= i < d.len() ==> is_digit(#[trigger] d[i]),
        rest.len() > 0 ==> !is_digit(rest[0]),
    ensures
        leading_digits(d + rest) == d,
    decreases d.len(),
{
    let s = d + rest;
    if d.len() > 0 {
        let t = d.drop_first();
        assert forall|i: int| 0 <= i < t.len() implies is_digit(#[trigger] t[i]) by {
            assert(is_digit(d[i + 1]));
        }
        lemma_leading_digits_of(t, rest);
        assert(is_digit(d[0]));
        assert(s[0] == d[0]);
        assert(s.drop_first() =~= t + rest);
        assert(seq![d[0]] + t =~= d);
    } else {
        assert(s =~= rest);
        assert(d =~= Seq::<char>::empty());
    }
}

proof fn lemma_tag_pieces(x: Seq<char>, y: Seq<char>, tail: Seq<char>)
    requires
        x.len() > 0 && is_digit(x[0]),
        tail.len() > 0 && !white_space(tail.last()),
        !x.contains('.') && !y.contains('.') && !tail.contains('.'),
    ensures
        ({
            let tag = x.push('.') + (y.push('.') + tail);
            &&& trimmed(tag) == tag
            &&& all_pieces(without_leading(trimmed(tag), 'v'), '.') == seq![x, y, tail]
        }),
{
    let tag = x.push('.') + (y.push('.') + tail);
    assert(tag[0] == x[0]);
    assert(tag.last() == tail.last());
    lemma_nothing_to_trim(tag);
    assert(without_leading(tag, 'v') == tag);
    lemma_first_piece(x, y.push('.') + tail, '.');
    lemma_first_piece(y, tail, '.');
    lemma_one_piece(tail, '.');
    assert(all_pieces(tag, '.') =~= seq![x, y, tail]);
}

proof fn lemma_digits_hold_no_point(n: nat)
    ensures
        !decimal(n).contains('.'),
        decimal(n).len() > 0,
        is_digit(decimal(n)[0]),
        is_digit(decimal(n).last()),
{
    law_decimals_are_read_back(n, n);
    let d = decimal(n);
    assert forall|i: int| 0 <= i < d.len() implies d[i] != '.' by {
        assert(is_digit(d[i]));
    }
    assert(is_digit(d[d.len() - 1]));
}

/// A version is read as it is written: three numbers with points between them, whatever stands
/// after the last digit, as long as that holds no further point and does not end in white space.
pub proof fn law_versions_are_read(a: nat, b: nat, c: nat, rest: Seq<char>)
    requires
        a <= u32::MAX && b <= u32::MAX && c <= u32::MAX,
        !rest.contains('.'),
        rest.len() > 0 ==> !('0' <= rest[0] && rest[0] <= '9') && !white_space(rest.last()),
    ensures
        version_of(decimal(a) + seq!['.'] + decimal(b) + seq!['.'] + decimal(c) + rest) == Some(
            (a, b, c),
        ),
        version_of(
            seq!['v'] + (decimal(a) + seq!['.'] + decimal(b) + seq!['.'] + decimal(c) + rest),
        ) == Some((a, b, c)),
{
    let max = u32::MAX as nat;
    let (x, y, z) = (decimal(a), decimal(b), decimal(c));
    let tail = z + rest;
    let tag = x.push('.') + (y.push('.') + tail);
    assert(x + seq!['.'] + y + seq!['.'] + z + rest =~= tag);
    lemma_digits_hold_no_point(a);
    lemma_digits_hold_no_point(b);
    lemma_digits_hold_no_point(c);
    lemma_joined_without(z, rest, '.');
    assert(tail.last() == if rest.len() > 0 {
        rest.last()
    } else {
        z.last()
    });
    lemma_tag_pieces(x, y, tail);
    law_leading_v_is_ignored(tag);
    law_decimals_are_read_back(a, max);
    law_decimals_are_read_back(b, max);
    law_decimals_are_read_back(c, max);
    lemma_leading_digits_of(z, rest);
}

/// A version is newer if the first number in which the two differ is greater; something that is
/// no version is newer than nothing, and nothing is newer than it.
pub proof fn law_newer_goes_by_the_first_difference(tag: Seq<char>, current: Seq<char>)
    ensures
        version_of(tag) is None || version_of(current) is None ==> !newer(tag, current),
        version_of(tag) matches Some(l) ==> (version_of(current) matches Some(c) ==> {
            &&& l.0 != c.0 ==> (newer(tag, current) <==> l.0 > c.0)
            &&& l.0 == c.0 && l.1 != c.1 ==> (newer(tag, current) <==> l.1 > c.1)
            &&& l.0 == c.0 && l.1 == c.1 ==> (newer(tag, current) <==> l.2 > c.2)
        }),
{
}

/// An update is announced if and only if one was found and is newer, and it is the one found.
pub proof fn law_only_newer_versions_are_announced(tag: Seq<char>, current: Seq<char>)
    ensures
        newer(tag, current) ==> announced(Some(Some(tag)), current) == Some(tag),
        !newer(tag, current) ==> announced(Some(Some(tag)), current) is None,
        announced(Some(None), current) is None,
        announced(None, current) is None,
{
}

/// A tag with four numbers is no version, and neither is one with fewer than three parts, or one
/// whose first or second part is no number.
pub proof fn law_what_is_no_version(a: nat, b: nat, c: nat, tail: Seq<char>, x: Seq<char>)
    requires
        tail.len() > 0 && !white_space(tail.last()),
        x.len() > 0 && !white_space(x[0]) && !white_space(x.last()) && x[0] != 'v',
        !x.contains('.'),
    ensures
        version_of(
            decimal(a).push('.') + (decimal(b).push('.') + (decimal(c).push('.') + tail)),
        ) is None,
        version_of(x) is None,
        version_of(decimal(a).push('.') + x) is None,
{
    let (p, q, r) = (decimal(a), decimal(b), decimal(c));
    lemma_digits_hold_no_point(a);
    lemma_digits_hold_no_point(b);
    lemma_digits_hold_no_point(c);
    let rest = r.push('.') + tail;
    let tag = p.push('.') + (q.push('.') + rest);
    assert(tag[0] == p[0]);
    assert(tag.last() == tail.last());
    lemma_nothing_to_trim(tag);
    assert(without_leading(tag, 'v') == tag);
    lemma_first_piece(p, q.push('.') + rest, '.');
    lemma_first_piece(q, rest, '.');
    lemma_first_piece(r, tail, '.');
    let parts = all_pieces(tag, '.');
    law_pieces_make_up_the_text(tail, '.', tail.len() + 1);
    assert(parts =~= seq![p, q, r] + all_pieces(tail, '.'));
    assert(parts.len() > 3 && parts[2] == r);
    law_decimals_are_read_back(c, c);
    lemma_leading_digits_of(r, Seq::empty());
    assert(r + Seq::<char>::empty() =~= r);
    lemma_nothing_to_trim(x);
    assert(without_leading(x, 'v') == x);
    lemma_one_piece(x, '.');
    let two = p.push('.') + x;
    assert(two[0] == p[0]);
    assert(two.last() == x.last());
    lemma_nothing_to_trim(two);
    assert(without_leading(two, 'v') == two);
    lemma_first_piece(p, x, '.');
}

} // verus!
