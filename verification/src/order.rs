//! Lists of names: no name twice, and stable order by lower-case name.

use vstd::prelude::*;

use crate::text::{
    in_order, lemma_text_le_total, lemma_text_le_transitive, lowercase, same_text, text_le, texts,
    to_chars, to_lowercase,
};

verus! {

// ---- Distinct names -------------------------------------------------------

/// The names of a list, each at its first place only.
pub open spec fn distinct(names: Seq<Seq<char>>) -> Seq<Seq<char>>
    decreases names.len(),
{
    if names.len() == 0 {
        names
    } else {
        let before = distinct(names.drop_last());
        if before.contains(names.last()) {
            before
        } else {
            before.push(names.last())
        }
    }
}

/// Whether a name stands in a list.
pub fn lists(names: &Vec<String>, name: &str) -> (r: bool)
    ensures
        r == texts(names@).contains(name@),
{
    let mut i: usize = 0;
    while i < names.len()
        invariant
            i <= names@.len(),
            forall|j: int| 0 <= j < i ==> #[trigger] texts(names@)[j] != name@,
        decreases names@.len() - i,
    {
        assert(texts(names@)[i as int] == names@[i as int]@);
        if same_text(names[i].as_str(), name) {
            return true;
        }
        i += 1;
    }
    false
}

/// Adds a name to a list unless it is there.
pub fn add_distinct(names: &mut Vec<String>, name: &str)
    ensures
        texts(final(names)@) == (if texts(old(names)@).contains(name@) {
            texts(old(names)@)
        } else {
            texts(old(names)@).push(name@)
        }),
{
    if !lists(names, name) {
        let ghost before = names@;
        let copy = name.to_owned();
        names.push(copy);
        assert(texts(names@) =~= texts(before).push(name@));
    }
}

/// No name stands twice, and the same names stand there.
pub proof fn law_distinct(names: Seq<Seq<char>>)
    ensures
        distinct(names).no_duplicates(),
        forall|n: Seq<char>| #[trigger] distinct(names).contains(n) <==> names.contains(n),
    decreases names.len(),
{
    if names.len() > 0 {
        law_distinct(names.drop_last());
        let before = distinct(names.drop_last());
        let last = names.last();
        assert forall|n: Seq<char>| #[trigger] distinct(names).contains(n) <==> names.contains(
            n,
        ) by {
            assert(names.drop_last().push(last) =~= names);
            if names.contains(n) {
                let i = choose|i: int| 0 <= i < names.len() && names[i] == n;
                if i < names.len() - 1 {
                    assert(names.drop_last()[i] == n);
                    assert(names.drop_last().contains(n));
                    assert(before.contains(n));
                    let k = choose|k: int| 0 <= k < before.len() && before[k] == n;
                    assert(distinct(names)[k] == n);
                } else if !before.contains(last) {
                    assert(distinct(names)[before.len() as int] == n);
                } else {
                    assert(distinct(names) == before);
                }
            }
            if distinct(names).contains(n) {
                let k = choose|k: int| 0 <= k < distinct(names).len() && distinct(names)[k] == n;
                if k < before.len() {
                    assert(before.contains(n));
                    let i = choose|i: int|
                        0 <= i < names.drop_last().len() && names.drop_last()[i] == n;
                    assert(names[i] == n);
                } else {
                    assert(names[names.len() - 1] == n);
                }
            }
        }
    }
}

// ---- Stable order ---------------------------------------------------------

/// The place in a list of indices before which an index with the given key belongs: after every
/// index whose key is not greater.
pub open spec fn place_for(keys: Seq<Seq<char>>, order: Seq<int>, key: Seq<char>, p: int) -> int
    decreases order.len() - p,
{
    if p < 0 || p >= order.len() || !text_le(keys[order[p]], key) {
        p
    } else {
        place_for(keys, order, key, p + 1)
    }
}

/// The indices of the first `n` keys, ordered by key; equal keys keep their order.
pub open spec fn key_order(keys: Seq<Seq<char>>, n: int) -> Seq<int>
    decreases n,
{
    if n <= 0 {
        Seq::empty()
    } else {
        let before = key_order(keys, n - 1);
        before.insert(place_for(keys, before, keys[n - 1], 0), n - 1)
    }
}

/// The texts of a list of character vectors.
pub open spec fn keys_of(keys: Seq<Vec<char>>) -> Seq<Seq<char>> {
    keys.map_values(|k: Vec<char>| k@)
}

/// Machine indices as numbers.
pub open spec fn index_views(order: Seq<usize>) -> Seq<int> {
    order.map_values(|i: usize| i as int)
}

proof fn lemma_place(keys: Seq<Seq<char>>, order: Seq<int>, key: Seq<char>, p: int)
    requires
        0 <= p <= order.len(),
    ensures
        p <= place_for(keys, order, key, p) <= order.len(),
        forall|i: int|
            p <= i < place_for(keys, order, key, p) ==> text_le(keys[#[trigger] order[i]], key),
        place_for(keys, order, key, p) < order.len() ==> !text_le(
            keys[order[place_for(keys, order, key, p)]],
            key,
        ),
    decreases order.len() - p,
{
    if p < order.len() && text_le(keys[order[p]], key) {
        lemma_place(keys, order, key, p + 1);
    }
}

/// Every index below `n` stands in the order exactly once, and nothing else.
pub proof fn law_order_is_complete(keys: Seq<Seq<char>>, n: int)
    requires
        0 <= n,
    ensures
        key_order(keys, n).len() == n,
        key_order(keys, n).no_duplicates(),
        forall|k: int|
            0 <= k < key_order(keys, n).len() ==> 0 <= #[trigger] key_order(keys, n)[k] < n,
        forall|i: int| 0 <= i < n ==> #[trigger] key_order(keys, n).contains(i),
    decreases n,
{
    if n > 0 {
        law_order_is_complete(keys, n - 1);
        let before = key_order(keys, n - 1);
        lemma_place(keys, before, keys[n - 1], 0);
        let p = place_for(keys, before, keys[n - 1], 0);
        let after = key_order(keys, n);
        assert(after == before.insert(p, n - 1));
        assert forall|i: int| 0 <= i < n implies #[trigger] after.contains(i) by {
            if i == n - 1 {
                assert(after[p] == i);
            } else {
                assert(before.contains(i));
                let k = choose|k: int| 0 <= k < before.len() && before[k] == i;
                if k < p {
                    assert(after[k] == i);
                } else {
                    assert(after[k + 1] == i);
                }
            }
        }
    }
}

/// The order goes by key, and equal keys keep the order they came in.
pub proof fn law_order_is_sorted_and_stable(keys: Seq<Seq<char>>, n: int)
    requires
        0 <= n <= keys.len(),
    ensures
        forall|a: int, b: int|
            0 <= a < b < key_order(keys, n).len() ==> text_le(
                keys[#[trigger] key_order(keys, n)[a]],
                keys[#[trigger] key_order(keys, n)[b]],
            ),
        forall|a: int, b: int|
            0 <= a < b < key_order(keys, n).len() && keys[#[trigger] key_order(keys, n)[a]]
                == keys[#[trigger] key_order(keys, n)[b]] ==> key_order(keys, n)[a] < key_order(
                keys,
                n,
            )[b],
    decreases n,
{
    if n > 0 {
        law_order_is_sorted_and_stable(keys, n - 1);
        law_order_is_complete(keys, n - 1);
        let before = key_order(keys, n - 1);
        let key = keys[n - 1];
        lemma_place(keys, before, key, 0);
        let p = place_for(keys, before, key, 0);
        let after = key_order(keys, n);
        assert(after == before.insert(p, n - 1));
        assert forall|a: int, b: int| 0 <= a < b < after.len() implies text_le(
            keys[#[trigger] after[a]],
            keys[#[trigger] after[b]],
        ) && (keys[after[a]] == keys[after[b]] ==> after[a] < after[b]) by {
            if b == p {
                assert(after[a] == before[a]);
            } else if a == p {
                assert(after[b] == before[b - 1]);
                lemma_text_le_total(keys[before[p]], key);
                if b - 1 > p {
                    assert(text_le(keys[before[p]], keys[before[b - 1]]));
                } else {
                    lemma_text_le_total(keys[before[p]], keys[before[p]]);
                }
                lemma_text_le_transitive(key, keys[before[p]], keys[before[b - 1]]);
                if keys[before[b - 1]] == key {
                    assert(text_le(keys[before[p]], key));
                }
            } else {
                let a0 = if a < p {
                    a
                } else {
                    a - 1
                };
                let b0 = if b < p {
                    b
                } else {
                    b - 1
                };
                assert(after[a] == before[a0] && after[b] == before[b0]);
            }
        }
    }
}

/// The indices of a list of keys, ordered by key; equal keys keep their order.
pub fn order_by_key(keys: &Vec<Vec<char>>) -> (order: Vec<usize>)
    ensures
        index_views(order@) == key_order(keys_of(keys@), keys@.len() as int),
        order@.len() == keys@.len(),
        forall|k: int| 0 <= k < order@.len() ==> #[trigger] order@[k] < keys@.len(),
{
    let ghost ks = keys_of(keys@);
    let mut order: Vec<usize> = Vec::new();
    let mut n: usize = 0;
    assert(index_views(order@) =~= key_order(ks, 0));
    while n < keys.len()
        invariant
            n <= keys@.len(),
            ks == keys_of(keys@),
            index_views(order@) == key_order(ks, n as int),
            order@.len() == n,
            forall|k: int| 0 <= k < order@.len() ==> #[trigger] order@[k] < n,
        decreases keys@.len() - n,
    {
        let ghost before = index_views(order@);
        let mut p: usize = 0;
        assert(ks[n as int] == keys@[n as int]@);
        while p < order.len() && in_order(keys[order[p]].as_slice(), keys[n].as_slice())
            invariant
                n < keys@.len(),
                ks == keys_of(keys@),
                ks[n as int] == keys@[n as int]@,
                before == index_views(order@),
                order@.len() == n,
                p <= order@.len(),
                forall|k: int| 0 <= k < order@.len() ==> #[trigger] order@[k] < n,
                place_for(ks, before, ks[n as int], 0) == place_for(
                    ks,
                    before,
                    ks[n as int],
                    p as int,
                ),
            decreases order@.len() - p,
        {
            assert(ks[before[p as int]] == keys@[order@[p as int] as int]@);
            p += 1;
        }
        proof {
            if p < order@.len() {
                assert(ks[before[p as int]] == keys@[order@[p as int] as int]@);
            }
            assert(place_for(ks, before, ks[n as int], 0) == p);
        }
        let ghost old_order = order@;
        order.insert(p, n);
        assert(index_views(order@) =~= before.insert(p as int, n as int));
        assert forall|k: int| 0 <= k < order@.len() implies #[trigger] order@[k] < n + 1 by {
            if k < p {
                assert(order@[k] == old_order[k]);
            } else if k > p {
                assert(order@[k] == old_order[k - 1]);
            }
        }
        n += 1;
    }
    order
}

// ---- Names in order -------------------------------------------------------

/// The lower-case forms of a list of names.
pub open spec fn lower_keys(names: Seq<Seq<char>>) -> Seq<Seq<char>> {
    names.map_values(|n: Seq<char>| lowercase(n))
}

/// The names of a list, each once, ordered by their lower-case form.
pub open spec fn sorted_names(names: Seq<Seq<char>>) -> Seq<Seq<char>> {
    let d = distinct(names);
    key_order(lower_keys(d), d.len() as int).map_values(|i: int| d[i])
}

/// The lower-case forms of a list of names.
pub fn lower_keys_of(names: &Vec<String>) -> (keys: Vec<Vec<char>>)
    ensures
        keys_of(keys@) == lower_keys(texts(names@)),
        keys@.len() == names@.len(),
{
    let mut keys: Vec<Vec<char>> = Vec::new();
    let mut i: usize = 0;
    while i < names.len()
        invariant
            i <= names@.len(),
            keys@.len() == i,
            forall|j: int| 0 <= j < i ==> (#[trigger] keys@[j])@ == lowercase(names@[j]@),
        decreases names@.len() - i,
    {
        keys.push(to_chars(to_lowercase(names[i].as_str()).as_str()));
        i += 1;
    }
    assert(keys_of(keys@) =~= lower_keys(texts(names@)));
    keys
}

/// Orders a list of distinct names by their lower-case form.
pub fn sort_distinct(names: &Vec<String>) -> (r: Vec<String>)
    ensures
        texts(r@) == key_order(
            lower_keys(texts(names@)),
            names@.len() as int,
        ).map_values(|i: int| texts(names@)[i]),
{
    let keys = lower_keys_of(names);
    let order = order_by_key(&keys);
    let ghost d = texts(names@);
    let ghost want = key_order(lower_keys(d), names@.len() as int).map_values(|i: int| d[i]);
    let mut r: Vec<String> = Vec::new();
    let mut k: usize = 0;
    while k < order.len()
        invariant
            k <= order@.len(),
            d == texts(names@),
            order@.len() == names@.len(),
            index_views(order@) == key_order(lower_keys(d), names@.len() as int),
            want == key_order(lower_keys(d), names@.len() as int).map_values(|i: int| d[i]),
            forall|j: int| 0 <= j < order@.len() ==> #[trigger] order@[j] < names@.len(),
            texts(r@) == want.take(k as int),
        decreases order@.len() - k,
    {
        let ghost before = r@;
        let name = names[order[k]].clone();
        r.push(name);
        proof {
            assert(index_views(order@)[k as int] == order@[k as int]);
            assert(want[k as int] == name@);
            assert(texts(r@) =~= texts(before).push(name@));
            assert(want.take(k + 1) =~= want.take(k as int).push(want[k as int]));
        }
        k += 1;
    }
    assert(index_views(order@).len() == order@.len());
    assert(want.take(k as int) =~= want);
    r
}

/// The list has no name twice, has the names that were given and no other, and goes by
/// lower-case name.
pub proof fn law_sorted_names(names: Seq<Seq<char>>)
    ensures
        sorted_names(names).no_duplicates(),
        forall|n: Seq<char>| #[trigger] sorted_names(names).contains(n) <==> names.contains(n),
        forall|a: int, b: int|
            0 <= a < b < sorted_names(names).len() ==> text_le(
                lowercase(#[trigger] sorted_names(names)[a]),
                lowercase(#[trigger] sorted_names(names)[b]),
            ),
{
    let d = distinct(names);
    let keys = lower_keys(d);
    let n = d.len() as int;
    let o = key_order(keys, n);
    let s = sorted_names(names);
    law_distinct(names);
    law_order_is_complete(keys, n);
    law_order_is_sorted_and_stable(keys, n);
    assert forall|a: int, b: int| 0 <= a < b < s.len() implies s[a] != s[b] by {
        assert(s[a] == d[o[a]] && s[b] == d[o[b]]);
        assert(o[a] != o[b]);
    }
    assert forall|x: Seq<char>| #[trigger] s.contains(x) <==> names.contains(x) by {
        if s.contains(x) {
            let k = choose|k: int| 0 <= k < s.len() && s[k] == x;
            assert(d[o[k]] == x);
            assert(d.contains(x));
        }
        if names.contains(x) {
            assert(d.contains(x));
            let i = choose|i: int| 0 <= i < d.len() && d[i] == x;
            assert(o.contains(i));
            let k = choose|k: int| 0 <= k < o.len() && o[k] == i;
            assert(s[k] == x);
        }
    }
    assert forall|a: int, b: int| 0 <= a < b < s.len() implies text_le(
        lowercase(#[trigger] s[a]),
        lowercase(#[trigger] s[b]),
    ) by {
        assert(keys[o[a]] == lowercase(s[a]) && keys[o[b]] == lowercase(s[b]));
    }
}

/// The first of several equal names counts: what the start of a list gives is the start of what
/// the whole list gives.
pub proof fn law_distinct_starts_alike(names: Seq<Seq<char>>, n: int)
    requires
        0 <= n <= names.len(),
    ensures
        distinct(names.take(n)).len() <= distinct(names).len(),
        distinct(names).take(distinct(names.take(n)).len() as int) == distinct(names.take(n)),
    decreases names.len(),
{
    if n < names.len() {
        let front = names.drop_last();
        law_distinct_starts_alike(front, n);
        assert(front.take(n) =~= names.take(n));
        let d = distinct(names.take(n));
        assert(distinct(names).take(d.len() as int) =~= d);
    } else {
        assert(names.take(n) =~= names);
        assert(distinct(names).take(distinct(names).len() as int) =~= distinct(names));
    }
}

/// A name that was not there yet is added at the end, and one that was changes nothing.
pub proof fn law_distinct_adds_what_is_new(names: Seq<Seq<char>>, name: Seq<char>)
    ensures
        names.contains(name) ==> distinct(names.push(name)) == distinct(names),
        !names.contains(name) ==> distinct(names.push(name)) == distinct(names).push(name),
{
    law_distinct(names);
    assert(names.push(name).drop_last() =~= names);
}

} // verus!
