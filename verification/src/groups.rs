//! The welcome list: saved sessions under their groups.

use vstd::prelude::*;

use crate::order::{
    add_distinct, distinct, index_views, key_order, keys_of, law_order_is_complete,
    law_order_is_sorted_and_stable, law_sorted_names, order_by_key, sort_distinct, sorted_names,
};
use crate::session::{session_views, AuthMethod, Session, SessionView};
use crate::text::{lowercase, same_text, text_le, texts, to_chars, to_lowercase};

verus! {

// ---- Group names ----------------------------------------------------------

/// The groups in use, in order, without the ungrouped.
pub open spec fn used_groups(groups: Seq<Seq<char>>, n: int) -> Seq<Seq<char>>
    decreases n,
{
    if n <= 0 {
        Seq::empty()
    } else if groups[n - 1].len() == 0 {
        used_groups(groups, n - 1)
    } else {
        used_groups(groups, n - 1).push(groups[n - 1])
    }
}

/// The named groups: the explicit ones and those in use, each once, ordered by lower-case name.
pub open spec fn named_groups(explicit: Seq<Seq<char>>, groups: Seq<Seq<char>>) -> Seq<Seq<char>> {
    sorted_names(explicit + used_groups(groups, groups.len() as int))
}

/// The groups on display: "default" for the ungrouped if there are any, then the named groups.
pub open spec fn display_groups(explicit: Seq<Seq<char>>, groups: Seq<Seq<char>>) -> Seq<
    Seq<char>,
> {
    if has_ungrouped(groups) {
        seq!["default"@] + named_groups(explicit, groups)
    } else {
        named_groups(explicit, groups)
    }
}

/// Whether something is ungrouped.
pub open spec fn has_ungrouped(groups: Seq<Seq<char>>) -> bool {
    exists|i: int| 0 <= i < groups.len() && (#[trigger] groups[i]).len() == 0
}

/// The named groups: the explicit ones and those in use.
pub fn collect_named(explicit: &Vec<String>, groups: &Vec<String>) -> (r: Vec<String>)
    ensures
        texts(r@) == named_groups(texts(explicit@), texts(groups@)),
{
    let ghost ex = texts(explicit@);
    let ghost gs = texts(groups@);
    let mut names: Vec<String> = Vec::new();
    let mut i: usize = 0;
    assert(texts(names@) =~= distinct(ex.take(0)));
    while i < explicit.len()
        invariant
            i <= explicit@.len(),
            ex == texts(explicit@),
            texts(names@) == distinct(ex.take(i as int)),
        decreases explicit@.len() - i,
    {
        proof {
            assert(ex.take(i + 1).drop_last() =~= ex.take(i as int));
            assert(ex.take(i + 1).last() == explicit@[i as int]@);
        }
        add_distinct(&mut names, explicit[i].as_str());
        i += 1;
    }
    assert(ex.take(i as int) + used_groups(gs, 0) =~= ex.take(i as int));
    assert(ex.take(i as int) =~= ex);
    let mut j: usize = 0;
    while j < groups.len()
        invariant
            j <= groups@.len(),
            gs == texts(groups@),
            texts(names@) == distinct(ex + used_groups(gs, j as int)),
        decreases groups@.len() - j,
    {
        assert(gs[j as int] == groups@[j as int]@);
        if !groups[j].as_str().is_empty() {
            proof {
                let before = ex + used_groups(gs, j as int);
                let after = ex + used_groups(gs, j + 1);
                assert(after.drop_last() =~= before);
                assert(after.last() == gs[j as int]);
            }
            add_distinct(&mut names, groups[j].as_str());
        }
        j += 1;
    }
    assert(gs.len() == groups@.len());
    let r = sort_distinct(&names);
    assert(texts(r@) =~= named_groups(ex, gs)) by {
        assert(names@.len() == texts(names@).len());
    }
    r
}

/// Whether something is ungrouped.
pub fn any_ungrouped(groups: &Vec<String>) -> (r: bool)
    ensures
        r == has_ungrouped(texts(groups@)),
{
    let mut i: usize = 0;
    while i < groups.len()
        invariant
            i <= groups@.len(),
            forall|j: int| 0 <= j < i ==> (#[trigger] texts(groups@)[j]).len() != 0,
        decreases groups@.len() - i,
    {
        assert(texts(groups@)[i as int] == groups@[i as int]@);
        if groups[i].as_str().is_empty() {
            return true;
        }
        i += 1;
    }
    assert(texts(groups@).len() == groups@.len());
    false
}

/// The groups on display.
pub fn collect_displayed(explicit: &Vec<String>, groups: &Vec<String>) -> (r: Vec<String>)
    ensures
        texts(r@) == display_groups(texts(explicit@), texts(groups@)),
{
    let mut named = collect_named(explicit, groups);
    if any_ungrouped(groups) {
        let ghost before = named@;
        let label = "default".to_owned();
        named.insert(0, label);
        assert(texts(named@) =~= seq!["default"@] + texts(before));
    }
    named
}

/// The groups that sessions are filed under.
pub open spec fn groups_of(sessions: Seq<SessionView>) -> Seq<Seq<char>> {
    sessions.map_values(|s: SessionView| s.group)
}

/// The groups that sessions are filed under.
fn session_group_list(sessions: &Vec<Session>) -> (r: Vec<String>)
    ensures
        texts(r@) == groups_of(session_views(sessions@)),
{
    let mut r: Vec<String> = Vec::new();
    let mut i: usize = 0;
    while i < sessions.len()
        invariant
            i <= sessions@.len(),
            r@.len() == i,
            forall|j: int| 0 <= j < i ==> (#[trigger] r@[j])@ == sessions@[j].group@,
        decreases sessions@.len() - i,
    {
        r.push(sessions[i].group.clone());
        i += 1;
    }
    assert(texts(r@) =~= groups_of(session_views(sessions@)));
    r
}

/// Distinct named groups (explicit folders and the groups sessions are filed under),
/// de-duplicated and sorted alphabetically, for the dialog's group dropdown. Ungrouped ("") is
/// excluded; the dialog leaves the field blank for that case.
pub fn session_groups_model(groups: &Vec<String>, sessions: &Vec<Session>) -> (r: Vec<String>)
    ensures
        texts(r@) == named_groups(texts(groups@), groups_of(session_views(sessions@))),
{
    let filed = session_group_list(sessions);
    collect_named(groups, &filed)
}

// ---- Rows -----------------------------------------------------------------

/// One row of the welcome list.
pub struct SessionInfo {
    pub id: String,
    pub name: String,
    pub host: String,
    pub port: i32,
    pub user: String,
    pub auth: Option<AuthMethod>,
    pub last_used: String,
    pub group: String,
    pub group_header: String,
    pub collapsed: bool,
}

/// What one row of the welcome list holds.
#[verifier::ext_equal]
pub ghost struct RowView {
    pub id: Seq<char>,
    pub name: Seq<char>,
    pub host: Seq<char>,
    pub port: i32,
    pub user: Seq<char>,
    pub auth: Option<AuthMethod>,
    pub last_used: Seq<char>,
    pub group: Seq<char>,
    pub group_header: Seq<char>,
    pub collapsed: bool,
}

impl View for SessionInfo {
    type V = RowView;

    open spec fn view(&self) -> RowView {
        RowView {
            id: self.id@,
            name: self.name@,
            host: self.host@,
            port: self.port,
            user: self.user@,
            auth: self.auth,
            last_used: self.last_used@,
            group: self.group@,
            group_header: self.group_header@,
            collapsed: self.collapsed,
        }
    }
}

/// What each of a list of rows holds.
pub open spec fn row_views(rows: Seq<SessionInfo>) -> Seq<RowView> {
    rows.map_values(|r: SessionInfo| r@)
}

/// The placeholder row for an empty group: no identifier, and its own header.
pub open spec fn placeholder_row(group: Seq<char>) -> RowView {
    RowView {
        id: Seq::empty(),
        name: Seq::empty(),
        host: Seq::empty(),
        port: 0,
        user: Seq::empty(),
        auth: None,
        last_used: Seq::empty(),
        group: group,
        group_header: group,
        collapsed: false,
    }
}

/// The row for a session under a group; the first row of a group has its header.
pub open spec fn session_row(s: SessionView, group: Seq<char>, first: bool) -> RowView {
    RowView {
        id: s.id,
        name: s.name,
        host: s.host,
        port: s.port as i32,
        user: s.user,
        auth: Some(s.auth),
        last_used: match s.last_used {
            Some(when) => when,
            None => "never"@,
        },
        group: group,
        group_header: if first {
            group
        } else {
            Seq::empty()
        },
        collapsed: false,
    }
}

/// Whether something filed under `filed` is displayed under `group`: "default" shows the
/// ungrouped.
pub open spec fn displayed_under(filed: Seq<char>, group: Seq<char>) -> bool {
    if group == "default"@ {
        filed.len() == 0
    } else {
        filed == group
    }
}

/// The places, below `n`, of what is displayed under a group, in order.
pub open spec fn members(groups: Seq<Seq<char>>, group: Seq<char>, n: int) -> Seq<int>
    decreases n,
{
    if n <= 0 {
        Seq::empty()
    } else if displayed_under(groups[n - 1], group) {
        members(groups, group, n - 1).push(n - 1)
    } else {
        members(groups, group, n - 1)
    }
}

/// The places of the sessions of a group, ordered by lower-case name.
pub open spec fn ordered_members(sessions: Seq<SessionView>, group: Seq<char>) -> Seq<int> {
    let m = members(groups_of(sessions), group, sessions.len() as int);
    let keys = m.map_values(|i: int| lowercase(sessions[i].name));
    key_order(keys, m.len() as int).map_values(|k: int| m[k])
}

/// The rows of a group.
pub open spec fn group_rows(sessions: Seq<SessionView>, group: Seq<char>) -> Seq<RowView> {
    let o = ordered_members(sessions, group);
    if o.len() == 0 {
        seq![placeholder_row(group)]
    } else {
        Seq::new(o.len(), |k: int| session_row(sessions[o[k]], group, k == 0))
    }
}

/// The rows of the first `n` groups.
pub open spec fn rows_of(sessions: Seq<SessionView>, groups: Seq<Seq<char>>, n: int) -> Seq<RowView>
    decreases n,
{
    if n <= 0 {
        Seq::empty()
    } else {
        rows_of(sessions, groups, n - 1) + group_rows(sessions, groups[n - 1])
    }
}

/// The welcome list.
pub open spec fn welcome_rows(
    explicit: Seq<Seq<char>>,
    sessions: Seq<SessionView>,
) -> Seq<RowView> {
    let groups = display_groups(explicit, groups_of(sessions));
    rows_of(sessions, groups, groups.len() as int)
}

/// The places of what is displayed under a group, in order.
pub fn find_members(groups: &Vec<String>, group: &str) -> (r: Vec<usize>)
    ensures
        index_views(r@) == members(texts(groups@), group@, groups@.len() as int),
        forall|k: int| 0 <= k < r@.len() ==> #[trigger] r@[k] < groups@.len(),
{
    let ghost gs = texts(groups@);
    let is_default: bool = same_text(group, "default");
    let mut r: Vec<usize> = Vec::new();
    let mut i: usize = 0;
    assert(index_views(r@) =~= members(gs, group@, 0));
    while i < groups.len()
        invariant
            i <= groups@.len(),
            gs == texts(groups@),
            is_default == (group@ == "default"@),
            index_views(r@) == members(gs, group@, i as int),
            forall|k: int| 0 <= k < r@.len() ==> #[trigger] r@[k] < groups@.len(),
        decreases groups@.len() - i,
    {
        assert(gs[i as int] == groups@[i as int]@);
        let here: bool = if is_default {
            groups[i].as_str().is_empty()
        } else {
            same_text(groups[i].as_str(), group)
        };
        if here {
            let ghost before = r@;
            r.push(i);
            assert(index_views(r@) =~= index_views(before).push(i as int));
        }
        i += 1;
    }
    r
}

/// The row for a session under a group.
fn make_row(s: &Session, group: &str, first: bool) -> (r: SessionInfo)
    ensures
        r@ == session_row(s@, group@, first),
{
    SessionInfo {
        id: s.id.clone(),
        name: s.name.clone(),
        host: s.host.clone(),
        port: s.port as i32,
        user: s.user.clone(),
        auth: Some(s.auth),
        last_used: match &s.last_used {
            Some(when) => when.clone(),
            None => "never".to_owned(),
        },
        group: group.to_owned(),
        group_header: if first {
            group.to_owned()
        } else {
            String::new()
        },
        collapsed: false,
    }
}

/// The placeholder row for an empty group.
fn make_placeholder(group: &str) -> (r: SessionInfo)
    ensures
        r@ == placeholder_row(group@),
{
    SessionInfo {
        id: String::new(),
        name: String::new(),
        host: String::new(),
        port: 0,
        user: String::new(),
        auth: None,
        last_used: String::new(),
        group: group.to_owned(),
        group_header: group.to_owned(),
        collapsed: false,
    }
}

/// Appends the rows of a group.
fn push_group(
    rows: &mut Vec<SessionInfo>,
    sessions: &Vec<Session>,
    filed: &Vec<String>,
    group: &str,
)
    requires
        texts(filed@) == groups_of(session_views(sessions@)),
    ensures
        row_views(final(rows)@) == row_views(old(rows)@) + group_rows(
            session_views(sessions@),
            group@,
        ),
{
    let ghost views = session_views(sessions@);
    let ghost rows0 = row_views(rows@);
    assert(filed@.len() == texts(filed@).len() == sessions@.len());
    let m = find_members(filed, group);
    let ghost places = index_views(m@);
    if m.len() == 0 {
        let ghost before = rows@;
        let row = make_placeholder(group);
        rows.push(row);
        proof {
            assert(places.len() == 0);
            assert(ordered_members(views, group@).len() == 0);
            assert(row_views(rows@) =~= row_views(before) + seq![row@]);
        }
        return;
    }
    let mut keys: Vec<Vec<char>> = Vec::new();
    let mut i: usize = 0;
    while i < m.len()
        invariant
            i <= m@.len(),
            views == session_views(sessions@),
            forall|k: int| 0 <= k < m@.len() ==> #[trigger] m@[k] < sessions@.len(),
            keys@.len() == i,
            forall|k: int|
                0 <= k < i ==> (#[trigger] keys@[k])@ == lowercase(views[m@[k] as int].name),
        decreases m@.len() - i,
    {
        let s = &sessions[m[i]];
        assert(views[m@[i as int] as int] == s@);
        keys.push(to_chars(to_lowercase(s.name.as_str()).as_str()));
        i += 1;
    }
    let ghost want_keys = places.map_values(|i: int| lowercase(views[i].name));
    assert(keys_of(keys@) =~= want_keys);
    let order = order_by_key(&keys);
    let ghost o = ordered_members(views, group@);
    let ghost group_part = group_rows(views, group@);
    assert(o =~= index_views(order@).map_values(|k: int| places[k]));
    let mut k: usize = 0;
    assert(group_part.take(0).len() == 0);
    assert(rows0 + group_part.take(0) =~= rows0);
    while k < order.len()
        invariant
            k <= order@.len(),
            views == session_views(sessions@),
            order@.len() == m@.len(),
            m@.len() > 0,
            places == index_views(m@),
            o == index_views(order@).map_values(|k: int| places[k]),
            o == ordered_members(views, group@),
            group_part == group_rows(views, group@),
            forall|j: int| 0 <= j < m@.len() ==> #[trigger] m@[j] < sessions@.len(),
            forall|j: int| 0 <= j < order@.len() ==> #[trigger] order@[j] < m@.len(),
            row_views(rows@) == rows0 + group_part.take(k as int),
        decreases order@.len() - k,
    {
        let at: usize = m[order[k]];
        let s = &sessions[at];
        let ghost before = rows@;
        let row = make_row(s, group, k == 0);
        rows.push(row);
        proof {
            assert(o[k as int] == at);
            assert(views[at as int] == s@);
            assert(group_part[k as int] == row@);
            assert(row_views(rows@) =~= row_views(before).push(row@));
            assert(group_part.take(k + 1) =~= group_part.take(k as int).push(row@));
        }
        k += 1;
    }
    assert(group_part.take(k as int) =~= group_part);
}

/// Group sessions by their group, then by name within each group, and tag the first row of every
/// group with a header, so that the welcome list can render a folder heading. The ungrouped come
/// under "default"; explicit folders show even when they are empty.
pub fn sync_sessions_to_model(groups: &Vec<String>, sessions: &Vec<Session>) -> (rows: Vec<
    SessionInfo,
>)
    ensures
        row_views(rows@) == welcome_rows(texts(groups@), session_views(sessions@)),
{
    let filed = session_group_list(sessions);
    let shown = collect_displayed(groups, &filed);
    let ghost views = session_views(sessions@);
    let ghost gs = texts(shown@);
    let mut rows: Vec<SessionInfo> = Vec::new();
    let mut i: usize = 0;
    assert(row_views(rows@) =~= rows_of(views, gs, 0));
    while i < shown.len()
        invariant
            i <= shown@.len(),
            views == session_views(sessions@),
            texts(filed@) == groups_of(views),
            gs == texts(shown@),
            row_views(rows@) == rows_of(views, gs, i as int),
        decreases shown@.len() - i,
    {
        assert(gs[i as int] == shown@[i as int]@);
        push_group(&mut rows, sessions, &filed, shown[i].as_str());
        i += 1;
    }
    assert(gs.len() == shown@.len());
    rows
}

// ---- Collapsing -----------------------------------------------------------

/// The state that a toggle puts a group in: the opposite of its first row's, and open where the
/// group has no row.
pub open spec fn toggled_state(rows: Seq<RowView>, group: Seq<char>, i: int) -> bool
    decreases rows.len() - i,
{
    if i < 0 || i >= rows.len() {
        false
    } else if rows[i].group == group {
        !rows[i].collapsed
    } else {
        toggled_state(rows, group, i + 1)
    }
}

/// The rows with one group collapsed or expanded.
pub open spec fn with_group(rows: Seq<RowView>, group: Seq<char>, collapsed: bool) -> Seq<RowView> {
    rows.map_values(
        |r: RowView|
            if r.group == group {
                RowView { collapsed: collapsed, ..r }
            } else {
                r
            },
    )
}

/// Collapse or expand a group in the welcome list: every row of the group gets the opposite of
/// its first row's state, in place, so that the state stays put until the list is rebuilt.
pub fn toggle_group(rows: &mut Vec<SessionInfo>, group: &str)
    ensures
        row_views(final(rows)@) == with_group(
            row_views(old(rows)@),
            group@,
            toggled_state(row_views(old(rows)@), group@, 0),
        ),
{
    let ghost all = row_views(rows@);
    let n: usize = rows.len();
    let mut state: bool = false;
    let mut i: usize = 0;
    let mut open: bool = true;
    while i < n && open
        invariant
            n == rows@.len(),
            all == row_views(rows@),
            i <= n,
            open ==> toggled_state(all, group@, 0) == toggled_state(all, group@, i as int),
            open ==> !state,
            !open ==> toggled_state(all, group@, 0) == state,
        decreases n - i,
    {
        assert(all[i as int] == rows@[i as int]@);
        if same_text(rows[i].group.as_str(), group) {
            state = !rows[i].collapsed;
            open = false;
        }
        i += 1;
    }
    assert(state == toggled_state(all, group@, 0));
    let ghost want = with_group(all, group@, state);
    let mut k: usize = 0;
    while k < n
        invariant
            n == rows@.len(),
            n == all.len(),
            want == with_group(all, group@, state),
            k <= n,
            forall|j: int| 0 <= j < k ==> (#[trigger] rows@[j])@ == want[j],
            forall|j: int| k <= j < n ==> (#[trigger] rows@[j])@ == all[j],
        decreases n - k,
    {
        if same_text(rows[k].group.as_str(), group) {
            let mut row = rows.remove(k);
            row.collapsed = state;
            rows.insert(k, row);
        }
        k += 1;
    }
    assert(row_views(rows@) =~= want);
}

// ---- Laws -----------------------------------------------------------------

/// The dropdown's names are distinct, are those of the explicit folders and of the groups in use,
/// and go by lower-case name.
pub proof fn law_named_groups(explicit: Seq<Seq<char>>, groups: Seq<Seq<char>>)
    ensures
        named_groups(explicit, groups).no_duplicates(),
        forall|a: int, b: int|
            0 <= a < b < named_groups(explicit, groups).len() ==> text_le(
                lowercase(#[trigger] named_groups(explicit, groups)[a]),
                lowercase(#[trigger] named_groups(explicit, groups)[b]),
            ),
        forall|g: Seq<char>| #[trigger]
            named_groups(explicit, groups).contains(g) <==> explicit.contains(g) || (g.len() > 0
                && groups.contains(g)),
{
    let n = groups.len() as int;
    let all = explicit + used_groups(groups, n);
    law_sorted_names(all);
    assert forall|g: Seq<char>| #[trigger]
        named_groups(explicit, groups).contains(g) <==> explicit.contains(g) || (g.len() > 0
            && groups.contains(g)) by {
        lemma_used(groups, n, g);
        if all.contains(g) {
            let i = choose|i: int| 0 <= i < all.len() && all[i] == g;
            if i < explicit.len() {
                assert(explicit[i] == g);
            } else {
                assert(used_groups(groups, n)[i - explicit.len()] == g);
            }
        }
        if explicit.contains(g) {
            let i = choose|i: int| 0 <= i < explicit.len() && explicit[i] == g;
            assert(all[i] == g);
        }
        if used_groups(groups, n).contains(g) {
            let i = choose|i: int|
                0 <= i < used_groups(groups, n).len() && used_groups(groups, n)[i] == g;
            assert(all[explicit.len() + i] == g);
        }
    }
}

pub proof fn lemma_used(groups: Seq<Seq<char>>, n: int, g: Seq<char>)
    requires
        0 <= n <= groups.len(),
    ensures
        used_groups(groups, n).contains(g) <==> g.len() > 0 && groups.take(n).contains(g),
        groups.take(n).contains(g) ==> groups.contains(g),
        n == groups.len() ==> groups.take(n) == groups,
    decreases n,
{
    assert(n == groups.len() ==> groups.take(n) =~= groups);
    if groups.take(n).contains(g) {
        let i = choose|i: int| 0 <= i < n && groups.take(n)[i] == g;
        assert(groups[i] == g);
    }
    if n > 0 {
        lemma_used(groups, n - 1, g);
        let before = used_groups(groups, n - 1);
        let after = used_groups(groups, n);
        assert(groups.take(n) =~= groups.take(n - 1).push(groups[n - 1]));
        if groups.take(n).contains(g) {
            let i = choose|i: int| 0 <= i < n && groups.take(n)[i] == g;
            if i < n - 1 {
                assert(groups.take(n - 1)[i] == g);
            }
        }
        let shorter = groups.take(n - 1);
        if shorter.contains(g) {
            let i = choose|i: int| 0 <= i < shorter.len() && shorter[i] == g;
            assert(groups.take(n)[i] == g);
        }
        if groups[n - 1] == g {
            assert(groups.take(n)[n - 1] == g);
        }
        if groups[n - 1].len() > 0 {
            assert(after == before.push(groups[n - 1]));
            if before.contains(g) {
                let i = choose|i: int| 0 <= i < before.len() && before[i] == g;
                assert(after[i] == g);
            }
            if groups[n - 1] == g {
                assert(after[before.len() as int] == g);
            }
            if after.contains(g) && groups[n - 1] != g {
                let i = choose|i: int| 0 <= i < after.len() && after[i] == g;
                assert(before[i] == g);
            }
        }
    } else {
        assert(used_groups(groups, 0).len() == 0);
        assert(groups.take(0).len() == 0);
    }
}

/// The members of a group are exactly what is displayed under it.
pub proof fn lemma_members(groups: Seq<Seq<char>>, group: Seq<char>, n: int, i: int)
    requires
        0 <= n <= groups.len(),
    ensures
        members(groups, group, n).contains(i) <==> 0 <= i < n && displayed_under(groups[i], group),
    decreases n,
{
    if n > 0 {
        lemma_members(groups, group, n - 1, i);
        let before = members(groups, group, n - 1);
        let after = members(groups, group, n);
        if displayed_under(groups[n - 1], group) {
            assert(after == before.push(n - 1));
            if before.contains(i) {
                let k = choose|k: int| 0 <= k < before.len() && before[k] == i;
                assert(after[k] == i);
            }
            if i == n - 1 {
                assert(after[before.len() as int] == i);
            }
            if after.contains(i) && i != n - 1 {
                let k = choose|k: int| 0 <= k < after.len() && after[k] == i;
                assert(before[k] == i);
            }
        }
    }
}

/// The members of a group stand in order.
pub proof fn lemma_members_rise(groups: Seq<Seq<char>>, group: Seq<char>, n: int, j: int, k: int)
    requires
        0 <= n <= groups.len(),
        0 <= j < k < members(groups, group, n).len(),
    ensures
        members(groups, group, n)[j] < members(groups, group, n)[k],
    decreases n,
{
    let before = members(groups, group, n - 1);
    if k < before.len() {
        lemma_members_rise(groups, group, n - 1, j, k);
    } else {
        lemma_members(groups, group, n - 1, before[j]);
        assert(before.contains(before[j]));
    }
}

/// The group under which something is displayed.
pub open spec fn display_group(filed: Seq<char>) -> Seq<char> {
    if filed.len() == 0 {
        "default"@
    } else {
        filed
    }
}

/// Every session has a row, under its group, unless it is filed under the literal name of the
/// ungrouped.
pub proof fn law_every_session_is_listed(
    explicit: Seq<Seq<char>>,
    sessions: Seq<SessionView>,
    i: int,
)
    requires
        0 <= i < sessions.len(),
        sessions[i].group != "default"@,
    ensures
        exists|k: int|
            0 <= k < welcome_rows(explicit, sessions).len() && (#[trigger] welcome_rows(
                explicit,
                sessions,
            )[k]) == session_row(
                sessions[i],
                display_group(sessions[i].group),
                welcome_rows(explicit, sessions)[k].group_header.len() > 0,
            ),
{
    let filed = groups_of(sessions);
    let groups = display_groups(explicit, filed);
    let g = display_group(sessions[i].group);
    assert(filed[i] == sessions[i].group);
    law_named_groups(explicit, filed);
    reveal_strlit("default");
    assert(groups.contains(g)) by {
        let named = named_groups(explicit, filed);
        if sessions[i].group.len() == 0 {
            assert(has_ungrouped(filed));
            assert(groups[0] == g);
        } else {
            assert(filed.contains(g));
            assert(named.contains(g));
            let k = choose|k: int| 0 <= k < named.len() && named[k] == g;
            if has_ungrouped(filed) {
                assert(groups[k + 1] == g);
            } else {
                assert(groups[k] == g);
            }
        }
    }
    let at = choose|at: int| 0 <= at < groups.len() && groups[at] == g;
    lemma_members(filed, g, sessions.len() as int, i);
    let m = members(filed, g, sessions.len() as int);
    let keys = m.map_values(|j: int| lowercase(sessions[j].name));
    law_order_is_complete(keys, m.len() as int);
    let o = ordered_members(sessions, g);
    let p = choose|p: int| 0 <= p < m.len() && m[p] == i;
    let ko = key_order(keys, m.len() as int);
    assert(ko.contains(p));
    let q = choose|q: int| 0 <= q < ko.len() && ko[q] == p;
    assert(o[q] == i);
    let part = group_rows(sessions, g);
    assert(part[q] == session_row(sessions[i], g, q == 0));
    assert(g.len() > 0);
    let k = lemma_part_of_rows(sessions, groups, groups.len() as int, at, q);
    assert(welcome_rows(explicit, sessions)[k] == part[q]);
}

/// The rows of a group stand in the list.
proof fn lemma_part_of_rows(
    sessions: Seq<SessionView>,
    groups: Seq<Seq<char>>,
    n: int,
    at: int,
    q: int,
) -> (k: int)
    requires
        0 <= at < n <= groups.len(),
        0 <= q < group_rows(sessions, groups[at]).len(),
    ensures
        0 <= k < rows_of(sessions, groups, n).len(),
        rows_of(sessions, groups, n)[k] == group_rows(sessions, groups[at])[q],
    decreases n,
{
    if at == n - 1 {
        rows_of(sessions, groups, n - 1).len() + q
    } else {
        lemma_part_of_rows(sessions, groups, n - 1, at, q)
    }
}

/// Whether the ungrouped have a heading of their own: no folder and no group in use is named as
/// theirs, and no folder is without a name.
pub open spec fn no_second_default(explicit: Seq<Seq<char>>, groups: Seq<Seq<char>>) -> bool {
    has_ungrouped(groups) ==> !explicit.contains("default"@) && !groups.contains("default"@)
        && !explicit.contains(Seq::empty())
}

/// No group is displayed twice, where the ungrouped have a heading of their own.
pub proof fn law_no_group_is_displayed_twice(explicit: Seq<Seq<char>>, groups: Seq<Seq<char>>)
    requires
        no_second_default(explicit, groups),
    ensures
        display_groups(explicit, groups).no_duplicates(),
{
    let named = named_groups(explicit, groups);
    let shown = display_groups(explicit, groups);
    law_named_groups(explicit, groups);
    if has_ungrouped(groups) {
        assert forall|j: int, k: int| 0 <= j < shown.len() && 0 <= k < shown.len() && j
            != k implies shown[j] != shown[k] by {
            if j > 0 {
                assert(named.contains(named[j - 1]));
            }
            if k > 0 {
                assert(named.contains(named[k - 1]));
            }
        }
    }
}

/// Nothing is displayed under two groups, where the ungrouped have a heading of their own.
pub proof fn lemma_one_heading(explicit: Seq<Seq<char>>, groups: Seq<Seq<char>>)
    requires
        no_second_default(explicit, groups),
    ensures
        forall|i: int, a: int, b: int|
            0 <= i < groups.len() && 0 <= a < display_groups(explicit, groups).len() && 0 <= b
                < display_groups(explicit, groups).len() && #[trigger] displayed_under(
                groups[i],
                display_groups(explicit, groups)[a],
            ) && #[trigger] displayed_under(groups[i], display_groups(explicit, groups)[b])
                ==> display_groups(explicit, groups)[a] == display_groups(explicit, groups)[b],
{
    let named = named_groups(explicit, groups);
    let shown = display_groups(explicit, groups);
    law_named_groups(explicit, groups);
    if has_ungrouped(groups) {
        assert forall|a: int| 0 <= a < shown.len() implies (#[trigger] shown[a]).len() > 0 by {
            reveal_strlit("default");
            if a > 0 {
                assert(named.contains(named[a - 1]));
                if shown[a].len() == 0 {
                    assert(shown[a] =~= Seq::<char>::empty());
                }
            }
        }
    }
}

/// The group and the place in it that a row stands for.
proof fn lemma_row_place(
    sessions: Seq<SessionView>,
    groups: Seq<Seq<char>>,
    n: int,
    k: int,
) -> (r: (int, int))
    requires
        0 <= n <= groups.len(),
        0 <= k < rows_of(sessions, groups, n).len(),
    ensures
        0 <= r.0 < n,
        k == rows_of(sessions, groups, r.0).len() + r.1,
        0 <= r.1 < group_rows(sessions, groups[r.0]).len(),
        rows_of(sessions, groups, n)[k] == group_rows(sessions, groups[r.0])[r.1],
    decreases n,
{
    let before = rows_of(sessions, groups, n - 1);
    if k < before.len() {
        lemma_row_place(sessions, groups, n - 1, k)
    } else {
        (n - 1, k - before.len())
    }
}

/// The ordered members of a group are its members, each once.
proof fn lemma_ordered_members(sessions: Seq<SessionView>, g: Seq<char>)
    ensures
        ordered_members(sessions, g).no_duplicates(),
        forall|q: int|
            0 <= q < ordered_members(sessions, g).len() ==> 0 <= (#[trigger] ordered_members(
                sessions,
                g,
            )[q]) < sessions.len() && displayed_under(
                sessions[ordered_members(sessions, g)[q]].group,
                g,
            ),
{
    let filed = groups_of(sessions);
    let n = sessions.len() as int;
    let m = members(filed, g, n);
    let keys = m.map_values(|i: int| lowercase(sessions[i].name));
    let ko = key_order(keys, m.len() as int);
    let o = ordered_members(sessions, g);
    law_order_is_complete(keys, m.len() as int);
    assert forall|p: int, q: int| 0 <= p < o.len() && 0 <= q < o.len() && p != q implies o[p]
        != o[q] by {
        assert(ko[p] != ko[q]);
        if ko[p] < ko[q] {
            lemma_members_rise(filed, g, n, ko[p], ko[q]);
        } else {
            lemma_members_rise(filed, g, n, ko[q], ko[p]);
        }
    }
    assert forall|q: int| 0 <= q < o.len() implies 0 <= (#[trigger] o[q]) < n && displayed_under(
        sessions[o[q]].group,
        g,
    ) by {
        assert(m.contains(m[ko[q]]));
        lemma_members(filed, g, n, o[q]);
    }
}

/// No session is listed twice: no two rows have the identifier of the same one. Where some are
/// ungrouped, no group has their heading.
pub proof fn law_sessions_are_listed_once(
    explicit: Seq<Seq<char>>,
    sessions: Seq<SessionView>,
    j: int,
    k: int,
)
    requires
        forall|a: int, b: int|
            0 <= a < b < sessions.len() ==> (#[trigger] sessions[a]).id != (
            #[trigger] sessions[b]).id,
        no_second_default(explicit, groups_of(sessions)),
        0 <= j < k < welcome_rows(explicit, sessions).len(),
        welcome_rows(explicit, sessions)[j].id.len() > 0,
    ensures
        welcome_rows(explicit, sessions)[j].id != welcome_rows(explicit, sessions)[k].id,
{
    let filed = groups_of(sessions);
    let groups = display_groups(explicit, filed);
    let n = groups.len() as int;
    let rows = welcome_rows(explicit, sessions);
    if rows[j].id == rows[k].id {
        law_no_group_is_displayed_twice(explicit, filed);
        lemma_one_heading(explicit, filed);
        let (a, p) = lemma_row_place(sessions, groups, n, j);
        let (b, q) = lemma_row_place(sessions, groups, n, k);
        lemma_ordered_members(sessions, groups[a]);
        lemma_ordered_members(sessions, groups[b]);
        let x = ordered_members(sessions, groups[a])[p];
        let y = ordered_members(sessions, groups[b])[q];
        assert(sessions[x].id == sessions[y].id);
        assert(x == y);
        assert(filed[x] == sessions[x].group);
        assert(groups[a] == groups[b]);
        assert(a == b);
    }
}

/// Toggling a group twice restores it, where its rows were in one state.
pub proof fn law_toggling_twice_restores(rows: Seq<RowView>, group: Seq<char>, state: bool)
    requires
        forall|i: int|
            0 <= i < rows.len() && (#[trigger] rows[i]).group == group ==> rows[i].collapsed
                == state,
    ensures
        ({
            let once = with_group(rows, group, toggled_state(rows, group, 0));
            with_group(once, group, toggled_state(once, group, 0)) == rows
        }),
{
    let first = toggled_state(rows, group, 0);
    let once = with_group(rows, group, first);
    let second = toggled_state(once, group, 0);
    let twice = with_group(once, group, second);
    lemma_toggled(rows, group, state, 0);
    if exists|i: int| 0 <= i < rows.len() && (#[trigger] rows[i]).group == group {
        assert(first == !state);
        assert forall|i: int|
            0 <= i < once.len() && (#[trigger] once[i]).group == group implies once[i].collapsed
            == !state by {
            assert(rows[i].group == group);
        }
        lemma_toggled(once, group, !state, 0);
        let i = choose|i: int| 0 <= i < rows.len() && (#[trigger] rows[i]).group == group;
        assert(once[i].group == group);
        assert(second == state);
    }
    assert forall|i: int| 0 <= i < rows.len() implies twice[i] == rows[i] by {
        assert(once[i].group == rows[i].group);
    }
    assert(twice =~= rows);
}

proof fn lemma_toggled(rows: Seq<RowView>, group: Seq<char>, state: bool, i: int)
    requires
        0 <= i <= rows.len(),
        forall|k: int|
            0 <= k < rows.len() && (#[trigger] rows[k]).group == group ==> rows[k].collapsed
                == state,
    ensures
        (exists|k: int| i <= k < rows.len() && (#[trigger] rows[k]).group == group)
            ==> toggled_state(rows, group, i) == !state,
    decreases rows.len() - i,
{
    if i < rows.len() && rows[i].group != group {
        lemma_toggled(rows, group, state, i + 1);
    }
}

/// A row shows its session: every field as it is, `never` where it was not used yet, and the
/// heading of the group on its first row only.
pub proof fn law_rows_show_their_session(s: SessionView, group: Seq<char>, first: bool)
    ensures
        ({
            let row = session_row(s, group, first);
            &&& row.id == s.id
            &&& row.name == s.name
            &&& row.host == s.host
            &&& row.port == s.port
            &&& row.user == s.user
            &&& row.auth == Some(s.auth)
            &&& s.last_used matches Some(when) ==> row.last_used == when
            &&& s.last_used is None ==> row.last_used == seq!['n', 'e', 'v', 'e', 'r']
            &&& row.group == group
            &&& first ==> row.group_header == group
            &&& !first ==> row.group_header.len() == 0
            &&& !row.collapsed
        }),
{
    reveal_strlit("never");
    assert("never"@ =~= seq!['n', 'e', 'v', 'e', 'r']);
}

/// Every session is listed as it is, under the group it is filed under, or under `default` where
/// it is filed under none.
pub proof fn law_sessions_are_listed_under_their_group(
    explicit: Seq<Seq<char>>,
    sessions: Seq<SessionView>,
    i: int,
)
    requires
        0 <= i < sessions.len(),
        sessions[i].group != "default"@,
    ensures
        exists|k: int|
            {
                let row = #[trigger] welcome_rows(explicit, sessions)[k];
                &&& 0 <= k < welcome_rows(explicit, sessions).len()
                &&& row.id == sessions[i].id
                &&& row.name == sessions[i].name
                &&& row.host == sessions[i].host
                &&& row.port == sessions[i].port
                &&& row.user == sessions[i].user
                &&& sessions[i].group.len() > 0 ==> row.group == sessions[i].group
                &&& sessions[i].group.len() == 0 ==> row.group == "default"@
            },
{
    law_every_session_is_listed(explicit, sessions, i);
    let all = welcome_rows(explicit, sessions);
    let k = choose|k: int|
        0 <= k < all.len() && (#[trigger] all[k]) == session_row(
            sessions[i],
            display_group(sessions[i].group),
            all[k].group_header.len() > 0,
        );
    assert(all[k].id == sessions[i].id);
}

/// The rows of a group all bear its name, and the first one its heading. They stand in the order
/// of the names, letter case aside, and each is a session that is filed there: under `default`
/// those without a group, under another name those with that name. A group without a session has
/// one row that shows nothing but the heading.
pub proof fn law_rows_of_a_group(sessions: Seq<SessionView>, group: Seq<char>, k: int)
    ensures
        ({
            let rows = group_rows(sessions, group);
            let none = forall|i: int|
                0 <= i < sessions.len() ==> !(if group == "default"@ {
                    (#[trigger] sessions[i]).group.len() == 0
                } else {
                    sessions[i].group == group
                });
            &&& rows.len() > 0
            &&& rows[0].group_header == group
            &&& 0 <= k < rows.len() ==> rows[k].group == group
            &&& 0 < k < rows.len() ==> rows[k].group_header.len() == 0
            &&& 0 < k < rows.len() ==> text_le(
                lowercase(rows[k - 1].name),
                lowercase(rows[k].name),
            )
            &&& none ==> rows.len() == 1 && rows[0].id.len() == 0 && rows[0].name.len() == 0
                && rows[0].host.len() == 0 && rows[0].auth is None && rows[0].port == 0
                && rows[0].user.len() == 0 && rows[0].last_used.len() == 0 && !rows[0].collapsed
            &&& !none && 0 <= k < rows.len() ==> exists|i: int|
                0 <= i < sessions.len() && (if group == "default"@ {
                    (#[trigger] sessions[i]).group.len() == 0
                } else {
                    sessions[i].group == group
                }) && rows[k].id == sessions[i].id && rows[k].name == sessions[i].name
                    && rows[k].host == sessions[i].host && rows[k].user == sessions[i].user
        }),
{
    let rows = group_rows(sessions, group);
    let groups = groups_of(sessions);
    let n = sessions.len() as int;
    let m = members(groups, group, n);
    let keys = m.map_values(|i: int| lowercase(sessions[i].name));
    let o = key_order(keys, m.len() as int);
    let at = ordered_members(sessions, group);
    law_order_is_complete(keys, m.len() as int);
    law_order_is_sorted_and_stable(keys, m.len() as int);
    lemma_ordered_members(sessions, group);
    assert(at.len() == m.len());
    if m.len() > 0 {
        if 0 < k < rows.len() {
            assert(at[k] == m[o[k]] && at[k - 1] == m[o[k - 1]]);
            assert(keys[o[k]] == lowercase(sessions[at[k]].name));
            assert(keys[o[k - 1]] == lowercase(sessions[at[k - 1]].name));
        }
        if 0 <= k < rows.len() {
            assert(displayed_under(sessions[at[k]].group, group));
            assert(rows[k].id == sessions[at[k]].id);
        }
        assert(displayed_under(sessions[at[0]].group, group));
        assert(rows[0].id == sessions[at[0]].id);
    } else {
        assert forall|i: int| 0 <= i < sessions.len() implies !(if group == "default"@ {
            (#[trigger] sessions[i]).group.len() == 0
        } else {
            sessions[i].group == group
        }) by {
            lemma_members(groups, group, n, i);
            assert(groups[i] == sessions[i].group);
            if displayed_under(groups[i], group) {
                assert(m.contains(i));
            }
        }
    }
}

/// The heading for what has no group comes first, and is there only if there is such a thing;
/// the named groups follow.
pub proof fn law_default_group_comes_first(explicit: Seq<Seq<char>>, groups: Seq<Seq<char>>)
    ensures
        (exists|i: int| 0 <= i < groups.len() && (#[trigger] groups[i]).len() == 0) ==> display_groups(
            explicit,
            groups,
        ).len() == named_groups(explicit, groups).len() + 1 && display_groups(explicit, groups)[0]
            == "default"@ && display_groups(explicit, groups).drop_first() == named_groups(
            explicit,
            groups,
        ),
        (forall|i: int| 0 <= i < groups.len() ==> (#[trigger] groups[i]).len() > 0)
            ==> display_groups(explicit, groups) == named_groups(explicit, groups),
{
    if exists|i: int| 0 <= i < groups.len() && (#[trigger] groups[i]).len() == 0 {
        assert(display_groups(explicit, groups).drop_first() =~= named_groups(explicit, groups));
    }
}

/// The rows come group after group, in the order of the headings.
pub proof fn law_groups_follow_each_other(
    explicit: Seq<Seq<char>>,
    sessions: Seq<SessionView>,
    j: int,
    k: int,
)
    requires
        0 <= j <= k < welcome_rows(explicit, sessions).len(),
    ensures
        exists|a: int, b: int|
            {
                &&& 0 <= a <= b < display_groups(explicit, groups_of(sessions)).len()
                &&& #[trigger] display_groups(explicit, groups_of(sessions))[a] == welcome_rows(
                    explicit,
                    sessions,
                )[j].group
                &&& #[trigger] display_groups(explicit, groups_of(sessions))[b] == welcome_rows(
                    explicit,
                    sessions,
                )[k].group
            },
{
    let groups = display_groups(explicit, groups_of(sessions));
    let n = groups.len() as int;
    let p = lemma_row_place(sessions, groups, n, j);
    let q = lemma_row_place(sessions, groups, n, k);
    law_rows_of_a_group(sessions, groups[p.0], p.1);
    law_rows_of_a_group(sessions, groups[q.0], q.1);
    if q.0 < p.0 {
        lemma_rows_grow(sessions, groups, q.0 + 1, p.0);
        assert(rows_of(sessions, groups, q.0 + 1).len() == rows_of(sessions, groups, q.0).len()
            + group_rows(sessions, groups[q.0]).len());
    }
    assert(groups[p.0] == welcome_rows(explicit, sessions)[j].group);
    assert(groups[q.0] == welcome_rows(explicit, sessions)[k].group);
}

proof fn lemma_rows_grow(sessions: Seq<SessionView>, groups: Seq<Seq<char>>, a: int, b: int)
    requires
        0 <= a <= b <= groups.len(),
    ensures
        rows_of(sessions, groups, a).len() <= rows_of(sessions, groups, b).len(),
    decreases b,
{
    if a < b {
        lemma_rows_grow(sessions, groups, a, b - 1);
    }
}

/// Toggling a group turns all its rows to what its first row was not, and touches no other row.
pub proof fn law_toggling_turns_one_group(rows: Seq<RowView>, group: Seq<char>, i: int, k: int)
    requires
        0 <= i < rows.len(),
        rows[i].group == group,
        forall|j: int| 0 <= j < i ==> (#[trigger] rows[j]).group != group,
        0 <= k < rows.len(),
    ensures
        ({
            let w = with_group(rows, group, toggled_state(rows, group, 0));
            &&& w.len() == rows.len()
            &&& rows[k].group != group ==> w[k] == rows[k]
            &&& rows[k].group == group ==> w[k] == (RowView {
                collapsed: !rows[i].collapsed,
                ..rows[k]
            })
        }),
{
    lemma_first_toggled(rows, group, 0, i);
}

proof fn lemma_first_toggled(rows: Seq<RowView>, group: Seq<char>, from: int, i: int)
    requires
        0 <= from <= i < rows.len(),
        rows[i].group == group,
        forall|j: int| from <= j < i ==> (#[trigger] rows[j]).group != group,
    ensures
        toggled_state(rows, group, from) == !rows[i].collapsed,
    decreases i - from,
{
    if from < i {
        assert(rows[from].group != group);
        lemma_first_toggled(rows, group, from + 1, i);
    }
}

} // verus!
