//! Addresses: proxy URLs as the session dialog shows them, hosts as they are copied, and paths
//! on the remote side.

use vstd::prelude::*;

use crate::text::{
    ascii_lower, ascii_lower_seq, copy_range, from_chars, lower_all, occurs_at, starts_with,
    strip_trailing, to_chars, trim, trimmed, trimmed_start, white_space, without_trailing,
};

verus! {

/// Whether a text starts with a scheme, letter case aside.
pub open spec fn has_scheme(s: Seq<char>, scheme: Seq<char>) -> bool {
    occurs_at(ascii_lower_seq(s), scheme, 0)
}

/// The kind of proxy that a URL names, and the length of its scheme. A URL without a known
/// scheme names a SOCKS proxy.
pub open spec fn proxy_kind(s: Seq<char>) -> (Seq<char>, int) {
    if has_scheme(s, "http://"@) {
        ("http"@, 7)
    } else if has_scheme(s, "https://"@) {
        ("http"@, 8)
    } else if has_scheme(s, "socks5h://"@) {
        ("socks5"@, 10)
    } else if has_scheme(s, "socks5://"@) {
        ("socks5"@, 9)
    } else if has_scheme(s, "socks://"@) {
        ("socks5"@, 8)
    } else {
        ("socks5"@, 0)
    }
}

/// A proxy URL as the dialog shows it: its kind, and its host and port without the scheme and
/// without slashes at the end.
pub open spec fn proxy_parts(url: Seq<char>) -> (Seq<char>, Seq<char>) {
    let s = trimmed(url);
    if s.len() == 0 {
        ("none"@, Seq::empty())
    } else {
        let (kind, skip) = proxy_kind(s);
        (kind, without_trailing(s.skip(skip), '/'))
    }
}

/// Whether the text starts with a scheme, letter case aside.
fn begins(lower: &Vec<char>, scheme: &str) -> (r: bool)
    ensures
        r == occurs_at(lower@, scheme@, 0),
        r ==> scheme@.len() <= lower@.len(),
{
    starts_with(lower.as_slice(), to_chars(scheme).as_slice())
}

/// Split a stored proxy URL into `(type, host:port)` for the session dialog.
pub fn split_proxy(url: &str) -> (r: (String, String))
    ensures
        (r.0@, r.1@) == proxy_parts(url@),
{
    let s = trim(to_chars(url).as_slice());
    if s.len() == 0 {
        return ("none".to_owned(), String::new());
    }
    let lower = lower_all(s.as_slice());
    proof {
        reveal_strlit("http://");
        reveal_strlit("https://");
        reveal_strlit("socks5h://");
        reveal_strlit("socks5://");
        reveal_strlit("socks://");
    }
    let (kind, skip): (&str, usize) = if begins(&lower, "http://") {
        ("http", 7)
    } else if begins(&lower, "https://") {
        ("http", 8)
    } else if begins(&lower, "socks5h://") {
        ("socks5", 10)
    } else if begins(&lower, "socks5://") {
        ("socks5", 9)
    } else if begins(&lower, "socks://") {
        ("socks5", 8)
    } else {
        ("socks5", 0)
    };
    let rest = copy_range(s.as_slice(), skip, s.len());
    assert(rest@ == s@.skip(skip as int));
    let hostport = from_chars(strip_trailing(rest.as_slice(), '/').as_slice());
    (kind.to_owned(), hostport)
}

// ---- Hosts ----------------------------------------------------------------

/// What follows the last `sep`, or the whole where there is none.
pub open spec fn after_last(s: Seq<char>, sep: char) -> Seq<char>
    decreases s.len(),
{
    if s.len() == 0 || s.last() == sep {
        Seq::empty()
    } else {
        after_last(s.drop_last(), sep).push(s.last())
    }
}

/// The copyable IP/host from a `user@host` connection label: the part after the last `@`,
/// trimmed. The whole string when there is no `@` (already a bare host/IP).
pub fn conn_ip(host: &str) -> (r: String)
    ensures
        r@ == trimmed(after_last(host@, '@')),
{
    let s = to_chars(host);
    let mut from: usize = s.len();
    assert(s@.skip(from as int) =~= Seq::<char>::empty());
    assert(after_last(s@.take(from as int), '@') + s@.skip(from as int) =~= after_last(s@, '@'))
        by {
        assert(s@.take(from as int) == s@);
    }
    while from > 0 && s[from - 1] != '@'
        invariant
            from <= s@.len(),
            after_last(s@.take(from as int), '@') + s@.skip(from as int) == after_last(s@, '@'),
        decreases from,
    {
        proof {
            assert(s@.take(from as int).drop_last() == s@.take(from - 1));
            assert(s@.take(from as int).last() == s@[from - 1]);
            assert(after_last(s@.take(from - 1), '@').push(s@[from - 1]) + s@.skip(from as int)
                =~= after_last(s@.take(from - 1), '@') + s@.skip(from - 1));
        }
        from -= 1;
    }
    proof {
        if from > 0 {
            assert(s@.take(from as int).last() == s@[from - 1]);
        }
        assert(after_last(s@.take(from as int), '@') =~= Seq::<char>::empty());
        assert(s@.subrange(from as int, s@.len() as int) =~= after_last(s@, '@'));
    }
    let part = copy_range(s.as_slice(), from, s.len());
    from_chars(trim(part.as_slice()).as_slice())
}

// ---- Paths ----------------------------------------------------------------

/// The place of the last slash before `to`, or -1.
pub open spec fn last_slash(s: Seq<char>, to: int) -> int
    decreases to,
{
    if to <= 0 {
        -1
    } else if s[to - 1] == '/' {
        to - 1
    } else {
        last_slash(s, to - 1)
    }
}

/// The parent of a path, slashes at its end aside: what stands before its last slash, and "/"
/// where that is nothing or there is no slash.
pub open spec fn parent_of(path: Seq<char>) -> Seq<char> {
    let t = without_trailing(path, '/');
    let i = last_slash(t, t.len() as int);
    if i <= 0 {
        seq!['/']
    } else {
        t.take(i)
    }
}

/// Return the parent directory of `path`.
/// "/a/b/c" → "/a/b", "/a" → "/", "/" → "/"
pub fn parent_path(path: &str) -> (r: String)
    ensures
        r@ == parent_of(path@),
{
    let t = strip_trailing(to_chars(path).as_slice(), '/');
    let mut to: usize = t.len();
    while to > 0 && t[to - 1] != '/'
        invariant
            to <= t@.len(),
            last_slash(t@, to as int) == last_slash(t@, t@.len() as int),
        decreases to,
    {
        to -= 1;
    }
    if to <= 1 {
        let mut root: String = String::new();
        root.push('/');
        assert(root@ =~= seq!['/']);
        root
    } else {
        assert(t@.subrange(0, to - 1) == t@.take(to - 1));
        from_chars(copy_range(t.as_slice(), 0, to - 1).as_slice())
    }
}

// ---- Laws -----------------------------------------------------------------

/// Nothing is left of slashes at the end.
pub proof fn lemma_no_trailing(s: Seq<char>, c: char)
    ensures
        without_trailing(s, c).len() <= s.len(),
        without_trailing(s, c).len() > 0 ==> without_trailing(s, c).last() != c,
        without_trailing(s, c) == s.take(without_trailing(s, c).len() as int),
    decreases s.len(),
{
    if s.len() > 0 && s.last() == c {
        lemma_no_trailing(s.drop_last(), c);
        let n = without_trailing(s, c).len() as int;
        assert(s.drop_last().take(n) == s.take(n));
    } else {
        assert(s.take(s.len() as int) == s);
    }
}

/// The dialog shows one of three kinds, no host for none, and no host that ends in a slash.
pub proof fn law_proxy_parts(url: Seq<char>)
    ensures
        ({
            let (kind, hostport) = proxy_parts(url);
            &&& kind == "none"@ || kind == "http"@ || kind == "socks5"@
            &&& (trimmed(url).len() == 0 ==> kind == "none"@ && hostport.len() == 0)
            &&& (hostport.len() > 0 ==> hostport.last() != '/')
        }),
{
    let s = trimmed(url);
    if s.len() > 0 {
        let (kind, skip) = proxy_kind(s);
        lemma_no_trailing(s.skip(skip), '/');
    }
}

/// Going up ends at the root: the parent of the root is the root, and the parent of a path is
/// never longer than the path, unless the path was empty.
pub proof fn law_parent_goes_up(path: Seq<char>)
    ensures
        parent_of(seq!['/']) == seq!['/'],
        path.len() > 0 ==> parent_of(path).len() <= path.len(),
        parent_of(path).len() > 0,
{
    let t = without_trailing(path, '/');
    lemma_no_trailing(path, '/');
    lemma_last_slash(t, t.len() as int);
    let root = seq!['/'];
    assert(root.drop_last().len() == 0);
    assert(without_trailing(root, '/') == without_trailing(root.drop_last(), '/'));
    assert(without_trailing(root, '/').len() == 0);
}

proof fn lemma_last_slash(s: Seq<char>, to: int)
    requires
        0 <= to <= s.len(),
    ensures
        -1 <= last_slash(s, to) < to || to == 0 && last_slash(s, to) == -1,
    decreases to,
{
    if to > 0 && s[to - 1] != '/' {
        lemma_last_slash(s, to - 1);
    }
}

/// What stands after the last separator is the part after a separator that is followed by none;
/// the whole text where there is no separator.
pub proof fn law_after_last(before: Seq<char>, sep: char, tail: Seq<char>)
    requires
        !tail.contains(sep),
    ensures
        after_last(before + seq![sep] + tail, sep) == tail,
        after_last(tail, sep) == tail,
    decreases tail.len(),
{
    let s = before + seq![sep] + tail;
    if tail.len() > 0 {
        let front = tail.drop_last();
        assert(tail.contains(tail[tail.len() - 1]));
        assert forall|i: int| 0 <= i < front.len() implies front[i] != sep by {
            assert(tail.contains(tail[i]));
        }
        law_after_last(before, sep, front);
        assert(s.drop_last() =~= before + seq![sep] + front);
        assert(front.push(tail.last()) =~= tail);
    } else {
        assert(s.last() == sep);
        assert(tail =~= Seq::<char>::empty());
    }
}

proof fn lemma_trailing_off(s: Seq<char>, c: char, n: nat)
    requires
        s.len() > 0 ==> s.last() != c,
    ensures
        without_trailing(s + Seq::new(n, |i: int| c), c) == s,
    decreases n,
{
    let whole = s + Seq::new(n, |i: int| c);
    if n > 0 {
        lemma_trailing_off(s, c, (n - 1) as nat);
        assert(whole.last() == c);
        assert(whole.drop_last() =~= s + Seq::new((n - 1) as nat, |i: int| c));
    } else {
        assert(whole =~= s);
    }
}

proof fn lemma_slash_before(a: Seq<char>, name: Seq<char>, to: int)
    requires
        !name.contains('/'),
        a.len() < to <= a.len() + 1 + name.len(),
    ensures
        last_slash(a + seq!['/'] + name, to) == a.len(),
    decreases to,
{
    let s = a + seq!['/'] + name;
    if to > a.len() + 1 {
        assert(s[to - 1] == name[to - 2 - a.len()]);
        assert(name.contains(s[to - 1]));
        lemma_slash_before(a, name, to - 1);
    }
}

proof fn lemma_no_slash(s: Seq<char>, to: int)
    requires
        !s.contains('/'),
        0 <= to <= s.len(),
    ensures
        last_slash(s, to) == -1,
    decreases to,
{
    if to > 0 {
        assert(s.contains(s[to - 1]));
        lemma_no_slash(s, to - 1);
    }
}

/// Going up takes off the last name of a path, with the slashes after it and the one before it:
/// from `dir/name`, however many slashes follow, one gets to `dir`; from a name directly under
/// the root, or from a name alone, to the root.
pub proof fn law_parent_drops_the_last_name(dir: Seq<char>, name: Seq<char>, slashes: nat)
    requires
        name.len() > 0,
        !name.contains('/'),
    ensures
        dir.len() > 0 ==> parent_of(
            dir + seq!['/'] + name + Seq::new(slashes, |i: int| '/'),
        ) == dir,
        parent_of(seq!['/'] + name + Seq::new(slashes, |i: int| '/')) == seq!['/'],
        parent_of(name + Seq::new(slashes, |i: int| '/')) == seq!['/'],
{
    let under = dir + seq!['/'] + name;
    let top = seq!['/'] + name;
    assert(name.contains(name.last()));
    assert(under.last() == name.last() && top.last() == name.last());
    lemma_trailing_off(under, '/', slashes);
    lemma_trailing_off(top, '/', slashes);
    lemma_trailing_off(name, '/', slashes);
    lemma_slash_before(dir, name, under.len() as int);
    assert(Seq::<char>::empty() + seq!['/'] + name =~= top);
    lemma_slash_before(Seq::<char>::empty(), name, top.len() as int);
    lemma_no_slash(name, name.len() as int);
    assert(under.take(dir.len() as int) =~= dir);
}

proof fn lemma_has_scheme(s: Seq<char>, scheme: Seq<char>)
    ensures
        has_scheme(s, scheme) <==> scheme.len() <= s.len() && forall|i: int|
            0 <= i < scheme.len() ==> #[trigger] ascii_lower(s[i]) == scheme[i],
{
    let low = ascii_lower_seq(s);
    if scheme.len() <= s.len() {
        if forall|i: int| 0 <= i < scheme.len() ==> #[trigger] ascii_lower(s[i]) == scheme[i] {
            assert(low.subrange(0, scheme.len() as int) =~= scheme);
        }
        if has_scheme(s, scheme) {
            assert forall|i: int| 0 <= i < scheme.len() implies #[trigger] ascii_lower(s[i])
                == scheme[i] by {
                assert(low.subrange(0, scheme.len() as int)[i] == low[i]);
            }
        }
    }
}

/// A proxy is told by its scheme, in whatever case, and the rest of the URL, without slashes at
/// its end, is where it is: `http://` and `https://` lead to an HTTP proxy, `socks5h://`,
/// `socks5://` and `socks://` to a SOCKS5 one.
pub proof fn law_schemes_tell_the_proxy(url: Seq<char>, at: Seq<char>, slashes: nat)
    requires
        at.len() > 0,
        at.last() != '/',
        !white_space(at.last()),
        url.len() > 0 ==> !white_space(url[0]),
    ensures
        ({
            let rest = at + Seq::new(slashes, |i: int| '/');
            let low = ascii_lower_seq(url);
            &&& low == "http://"@ || low == "https://"@ ==> proxy_parts(url + rest) == ("http"@, at)
            &&& low == "socks5h://"@ || low == "socks5://"@ || low == "socks://"@ ==> proxy_parts(
                url + rest,
            ) == ("socks5"@, at)
        }),
{
    reveal_strlit("http://");
    reveal_strlit("https://");
    reveal_strlit("socks5h://");
    reveal_strlit("socks5://");
    reveal_strlit("socks://");
    let rest = at + Seq::new(slashes, |i: int| '/');
    let s = url + rest;
    let low = ascii_lower_seq(url);
    if low == "http://"@ || low == "https://"@ || low == "socks5h://"@ || low == "socks5://"@
        || low == "socks://"@ {
        assert(url.len() == low.len());
        assert(s.last() == rest.last());
        assert(s[0] == url[0]);
        assert(trimmed_start(s) == s);
        assert(trimmed(s) == s);
        assert forall|i: int| 0 <= i < url.len() implies #[trigger] ascii_lower(s[i]) == low[i] by {
            assert(s[i] == url[i]);
        }
        lemma_has_scheme(s, "http://"@);
        lemma_has_scheme(s, "https://"@);
        lemma_has_scheme(s, "socks5h://"@);
        lemma_has_scheme(s, "socks5://"@);
        lemma_has_scheme(s, "socks://"@);
        assert(ascii_lower(s[0]) == low[0]);
        assert(ascii_lower(s[4]) == low[4]);
        assert(ascii_lower(s[5]) == low[5]);
        assert(ascii_lower(s[6]) == low[6]);
        assert("http://"@[4] == ':' && "https://"@[4] == 's' && "socks5h://"@[6] == 'h'
            && "socks5://"@[6] == ':' && "socks://"@[5] == ':' && "socks5h://"@[5] == '5'
            && "socks5://"@[5] == '5');
        assert("http://"@[0] == 'h' && "https://"@[0] == 'h' && "socks5h://"@[0] == 's'
            && "socks5://"@[0] == 's' && "socks://"@[0] == 's');
        assert(proxy_kind(s).1 == url.len());
        assert(s.skip(url.len() as int) =~= rest);
        lemma_trailing_off(at, '/', slashes);
    }
}

/// A proxy without a scheme is a SOCKS5 one, at what was typed without white space round it and
/// without slashes at its end.
pub proof fn law_proxy_without_a_scheme(at: Seq<char>)
    requires
        at.len() > 0,
        at.last() != '/',
        !white_space(at[0]),
        !white_space(at.last()),
        forall|i: int|
            0 <= i && i + 2 < at.len() ==> !(#[trigger] at[i] == ':' && at[i + 1] == '/' && at[i + 2]
                == '/'),
    ensures
        proxy_parts(at) == ("socks5"@, at),
{
    reveal_strlit("http://");
    reveal_strlit("https://");
    reveal_strlit("socks5h://");
    reveal_strlit("socks5://");
    reveal_strlit("socks://");
    assert(trimmed_start(at) == at);
    assert(trimmed(at) == at);
    lemma_has_scheme(at, "http://"@);
    lemma_has_scheme(at, "https://"@);
    lemma_has_scheme(at, "socks5h://"@);
    lemma_has_scheme(at, "socks5://"@);
    lemma_has_scheme(at, "socks://"@);
    if has_scheme(at, "http://"@) {
        assert(ascii_lower(at[4]) == ':' && ascii_lower(at[5]) == '/' && ascii_lower(at[6]) == '/');
        assert(at[4] == ':');
    }
    if has_scheme(at, "https://"@) {
        assert(ascii_lower(at[5]) == ':' && ascii_lower(at[6]) == '/' && ascii_lower(at[7]) == '/');
        assert(at[5] == ':');
    }
    if has_scheme(at, "socks5h://"@) {
        assert(ascii_lower(at[7]) == ':' && ascii_lower(at[8]) == '/' && ascii_lower(at[9]) == '/');
        assert(at[7] == ':');
    }
    if has_scheme(at, "socks5://"@) {
        assert(ascii_lower(at[6]) == ':' && ascii_lower(at[7]) == '/' && ascii_lower(at[8]) == '/');
        assert(at[6] == ':');
    }
    if has_scheme(at, "socks://"@) {
        assert(ascii_lower(at[5]) == ':' && ascii_lower(at[6]) == '/' && ascii_lower(at[7]) == '/');
        assert(at[5] == ':');
    }
    lemma_trailing_off(at, '/', 0);
    assert(at + Seq::new(0, |i: int| '/') =~= at);
    assert(at.skip(0) =~= at);
}

} // verus!
