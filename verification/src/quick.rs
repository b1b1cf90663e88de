//! The command bar: quick commands under their groups, and the command history.

use vstd::prelude::*;

use crate::groups::{
    any_ungrouped, collect_displayed, display_group, display_groups, displayed_under, find_members,
    has_ungrouped, law_named_groups, law_no_group_is_displayed_twice, lemma_members,
    lemma_members_rise, lemma_one_heading, lemma_used, members, named_groups, no_second_default,
    used_groups,
};
use crate::order::{
    add_distinct, distinct, index_views, law_distinct, law_distinct_starts_alike, law_sorted_names,
    lists,
};
use crate::text::{
    contains, found_in, law_trimming, lemma_nothing_to_trim, lowercase, texts, to_chars,
    to_lowercase, trim_text, trimmed,
};

verus! {

// ---- Quick commands -------------------------------------------------------

/// A saved quick command.
pub struct QuickCommand {
    pub name: String,
    pub command: String,
    pub group: String,
    pub send_enter: bool,
}

/// What a quick command holds.
#[verifier::ext_equal]
pub ghost struct CommandView {
    pub name: Seq<char>,
    pub command: Seq<char>,
    pub group: Seq<char>,
    pub send_enter: bool,
}

impl View for QuickCommand {
    type V = CommandView;

    open spec fn view(&self) -> CommandView {
        CommandView {
            name: self.name@,
            command: self.command@,
            group: self.group@,
            send_enter: self.send_enter,
        }
    }
}

/// What each of a list of quick commands holds.
pub open spec fn command_views(list: Seq<QuickCommand>) -> Seq<CommandView> {
    list.map_values(|c: QuickCommand| c@)
}

/// The groups of quick commands, without white space around them.
pub open spec fn command_groups(cmds: Seq<CommandView>) -> Seq<Seq<char>> {
    cmds.map_values(|c: CommandView| trimmed(c.group))
}

/// One row of the quick-command list.
pub struct QuickCmd {
    pub name: String,
    pub command: String,
    pub group: String,
    pub group_header: String,
    pub collapsed: bool,
    pub orig_index: i32,
    pub send_enter: bool,
}

/// What one row of the quick-command list holds.
#[verifier::ext_equal]
pub ghost struct QuickView {
    pub name: Seq<char>,
    pub command: Seq<char>,
    pub group: Seq<char>,
    pub group_header: Seq<char>,
    pub collapsed: bool,
    pub orig_index: i32,
    pub send_enter: bool,
}

impl View for QuickCmd {
    type V = QuickView;

    open spec fn view(&self) -> QuickView {
        QuickView {
            name: self.name@,
            command: self.command@,
            group: self.group@,
            group_header: self.group_header@,
            collapsed: self.collapsed,
            orig_index: self.orig_index,
            send_enter: self.send_enter,
        }
    }
}

/// What each of a list of rows holds.
pub open spec fn quick_views(rows: Seq<QuickCmd>) -> Seq<QuickView> {
    rows.map_values(|r: QuickCmd| r@)
}

/// The placeholder row for an empty group, so that it can still be renamed or deleted.
pub open spec fn empty_group_row(group: Seq<char>, collapsed: bool) -> QuickView {
    QuickView {
        name: Seq::empty(),
        command: Seq::empty(),
        group: group,
        group_header: group,
        collapsed: collapsed,
        orig_index: (-1) as i32,
        send_enter: true,
    }
}

/// The row for a quick command; the first row of a group has its header.
pub open spec fn command_row(
    c: CommandView,
    group: Seq<char>,
    first: bool,
    collapsed: bool,
    index: int,
) -> QuickView {
    QuickView {
        name: c.name,
        command: c.command,
        group: group,
        group_header: if first {
            group
        } else {
            Seq::empty()
        },
        collapsed: collapsed,
        orig_index: index as i32,
        send_enter: c.send_enter,
    }
}

/// The rows of a group, in saved order.
pub open spec fn quick_group_rows(
    cmds: Seq<CommandView>,
    group: Seq<char>,
    collapsed: bool,
) -> Seq<QuickView> {
    let m = members(command_groups(cmds), group, cmds.len() as int);
    if m.len() == 0 {
        seq![empty_group_row(group, collapsed)]
    } else {
        Seq::new(m.len(), |k: int| command_row(cmds[m[k]], group, k == 0, collapsed, m[k]))
    }
}

/// The rows of the first `n` groups.
pub open spec fn quick_rows_of(
    cmds: Seq<CommandView>,
    groups: Seq<Seq<char>>,
    collapsed: Seq<Seq<char>>,
    n: int,
) -> Seq<QuickView>
    decreases n,
{
    if n <= 0 {
        Seq::empty()
    } else {
        quick_rows_of(cmds, groups, collapsed, n - 1) + quick_group_rows(
            cmds,
            groups[n - 1],
            collapsed.contains(groups[n - 1]),
        )
    }
}

/// The quick-command list.
pub open spec fn quick_rows(
    explicit: Seq<Seq<char>>,
    cmds: Seq<CommandView>,
    collapsed: Seq<Seq<char>>,
) -> Seq<QuickView> {
    let groups = display_groups(explicit, command_groups(cmds));
    quick_rows_of(cmds, groups, collapsed, groups.len() as int)
}

/// The groups of quick commands, without white space around them.
fn command_group_list(cmds: &Vec<QuickCommand>) -> (r: Vec<String>)
    ensures
        texts(r@) == command_groups(command_views(cmds@)),
{
    let mut r: Vec<String> = Vec::new();
    let mut i: usize = 0;
    while i < cmds.len()
        invariant
            i <= cmds@.len(),
            r@.len() == i,
            forall|j: int| 0 <= j < i ==> (#[trigger] r@[j])@ == trimmed(cmds@[j].group@),
        decreases cmds@.len() - i,
    {
        r.push(trim_text(cmds[i].group.as_str()));
        i += 1;
    }
    assert(texts(r@) =~= command_groups(command_views(cmds@)));
    r
}

/// Appends the rows of a group.
fn push_quick_group(
    rows: &mut Vec<QuickCmd>,
    cmds: &Vec<QuickCommand>,
    filed: &Vec<String>,
    group: &str,
    collapsed: bool,
)
    requires
        texts(filed@) == command_groups(command_views(cmds@)),
    ensures
        quick_views(final(rows)@) == quick_views(old(rows)@) + quick_group_rows(
            command_views(cmds@),
            group@,
            collapsed,
        ),
{
    let ghost views = command_views(cmds@);
    let ghost rows0 = quick_views(rows@);
    assert(filed@.len() == texts(filed@).len() == cmds@.len());
    let m = find_members(filed, group);
    let ghost places = index_views(m@);
    let ghost part = quick_group_rows(views, group@, collapsed);
    if m.len() == 0 {
        let ghost before = rows@;
        let row = QuickCmd {
            name: String::new(),
            command: String::new(),
            group: group.to_owned(),
            group_header: group.to_owned(),
            collapsed,
            orig_index: -1,
            send_enter: true,
        };
        rows.push(row);
        assert(places.len() == 0);
        assert(row@ =~= empty_group_row(group@, collapsed));
        assert(quick_views(rows@) =~= quick_views(before) + seq![row@]);
        return;
    }
    let mut k: usize = 0;
    assert(rows0 + part.take(0) =~= rows0);
    while k < m.len()
        invariant
            k <= m@.len(),
            m@.len() > 0,
            views == command_views(cmds@),
            places == index_views(m@),
            places == members(command_groups(views), group@, views.len() as int),
            part == quick_group_rows(views, group@, collapsed),
            forall|j: int| 0 <= j < m@.len() ==> #[trigger] m@[j] < cmds@.len(),
            quick_views(rows@) == rows0 + part.take(k as int),
        decreases m@.len() - k,
    {
        let at: usize = m[k];
        let c = &cmds[at];
        let ghost before = rows@;
        let row = QuickCmd {
            name: c.name.clone(),
            command: c.command.clone(),
            group: group.to_owned(),
            group_header: if k == 0 {
                group.to_owned()
            } else {
                String::new()
            },
            collapsed,
            orig_index: at as i32,
            send_enter: c.send_enter,
        };
        rows.push(row);
        proof {
            assert(places[k as int] == at);
            assert(views[at as int] == c@);
            assert(part[k as int] == row@);
            assert(quick_views(rows@) =~= quick_views(before).push(row@));
            assert(part.take(k + 1) =~= part.take(k as int).push(row@));
        }
        k += 1;
    }
    assert(part.take(k as int) =~= part);
}

/// Build the quick-command list for the command bar and the manage dialog.
///
/// Grouped like the welcome session list: the implicit "default" group (entries with an empty
/// group) comes first, then named groups alphabetically. Within a group, entries keep their
/// saved order. `group_header` is set on the first row of each group; `collapsed` reflects
/// `collapsed_groups`; `orig_index` points back into the stored list, so that deletes target the
/// right entry even though the display order differs, and is -1 for an empty group.
pub fn quick_cmd_model(
    quick_groups: &Vec<String>,
    cmds: &Vec<QuickCommand>,
    collapsed_groups: &Vec<String>,
) -> (rows: Vec<QuickCmd>)
    ensures
        quick_views(rows@) == quick_rows(
            texts(quick_groups@),
            command_views(cmds@),
            texts(collapsed_groups@),
        ),
{
    let filed = command_group_list(cmds);
    let shown = collect_displayed(quick_groups, &filed);
    let ghost views = command_views(cmds@);
    let ghost gs = texts(shown@);
    let ghost closed_ones = texts(collapsed_groups@);
    let mut rows: Vec<QuickCmd> = Vec::new();
    let mut i: usize = 0;
    assert(quick_views(rows@) =~= quick_rows_of(views, gs, closed_ones, 0));
    while i < shown.len()
        invariant
            i <= shown@.len(),
            views == command_views(cmds@),
            texts(filed@) == command_groups(views),
            gs == texts(shown@),
            closed_ones == texts(collapsed_groups@),
            quick_views(rows@) == quick_rows_of(views, gs, closed_ones, i as int),
        decreases shown@.len() - i,
    {
        assert(gs[i as int] == shown@[i as int]@);
        let is_collapsed: bool = lists(collapsed_groups, shown[i].as_str());
        push_quick_group(&mut rows, cmds, &filed, shown[i].as_str(), is_collapsed);
        i += 1;
    }
    assert(gs.len() == shown@.len());
    rows
}

/// Every quick-command group name, each once: "default" when any ungrouped command exists, plus
/// explicit quick-groups and any group referenced by a command.
pub open spec fn quick_names(explicit: Seq<Seq<char>>, cmds: Seq<CommandView>) -> Seq<Seq<char>> {
    let filed = command_groups(cmds);
    let first = if has_ungrouped(filed) {
        seq!["default"@]
    } else {
        Seq::empty()
    };
    distinct(first + explicit + used_groups(filed, filed.len() as int))
}

/// Every quick-command group name (used to start with all groups collapsed).
pub fn all_quick_group_names(quick_groups: &Vec<String>, cmds: &Vec<QuickCommand>) -> (names: Vec<
    String,
>)
    ensures
        texts(names@) == quick_names(texts(quick_groups@), command_views(cmds@)),
{
    let filed = command_group_list(cmds);
    let ghost views = command_views(cmds@);
    let ghost fs = command_groups(views);
    let ghost ex = texts(quick_groups@);
    let ghost first: Seq<Seq<char>> = if has_ungrouped(fs) {
        seq!["default"@]
    } else {
        Seq::empty()
    };
    let mut names: Vec<String> = Vec::new();
    assert(texts(names@) =~= Seq::<Seq<char>>::empty());
    if any_ungrouped(&filed) {
        let label = "default".to_owned();
        names.push(label);
        proof {
            assert(first.drop_last() =~= Seq::<Seq<char>>::empty());
            assert(distinct(first.drop_last()) =~= Seq::<Seq<char>>::empty());
            assert(!Seq::<Seq<char>>::empty().contains("default"@));
            assert(distinct(first) =~= seq!["default"@]);
            assert(texts(names@) =~= seq!["default"@]);
        }
    }
    let mut i: usize = 0;
    assert(first + ex.take(0) =~= first);
    while i < quick_groups.len()
        invariant
            i <= quick_groups@.len(),
            ex == texts(quick_groups@),
            texts(names@) == distinct(first + ex.take(i as int)),
        decreases quick_groups@.len() - i,
    {
        proof {
            let after = first + ex.take(i + 1);
            assert(after.drop_last() =~= first + ex.take(i as int));
            assert(after.last() == quick_groups@[i as int]@);
        }
        add_distinct(&mut names, quick_groups[i].as_str());
        i += 1;
    }
    assert(ex.take(i as int) =~= ex);
    let mut j: usize = 0;
    assert(first + ex + used_groups(fs, 0) =~= first + ex);
    while j < filed.len()
        invariant
            j <= filed@.len(),
            fs == texts(filed@),
            texts(names@) == distinct(first + ex + used_groups(fs, j as int)),
        decreases filed@.len() - j,
    {
        assert(fs[j as int] == filed@[j as int]@);
        if !filed[j].as_str().is_empty() {
            proof {
                let after = first + ex + used_groups(fs, j + 1);
                assert(after.drop_last() =~= first + ex + used_groups(fs, j as int));
                assert(after.last() == fs[j as int]);
            }
            add_distinct(&mut names, filed[j].as_str());
        }
        j += 1;
    }
    assert(fs.len() == filed@.len());
    names
}

// ---- Command history ------------------------------------------------------

/// The commands that hold a text, letter case aside; an empty text is held by all.
pub open spec fn history_matches(
    history: Seq<Seq<char>>,
    query: Seq<char>,
    n: int,
) -> Seq<Seq<char>>
    decreases n,
{
    if n <= 0 {
        Seq::empty()
    } else {
        let before = history_matches(history, query, n - 1);
        if query.len() == 0 || contains(lowercase(history[n - 1]), query) {
            before.push(history[n - 1])
        } else {
            before
        }
    }
}

/// Build the command-history list in storage order (oldest first, newest last). The dropdown
/// shows the most-recently-used command at the bottom, and ↑ recalls it first.
pub fn history_model(history: &Vec<String>) -> (rows: Vec<String>)
    ensures
        texts(rows@) == texts(history@),
{
    let mut rows: Vec<String> = Vec::new();
    let mut i: usize = 0;
    while i < history.len()
        invariant
            i <= history@.len(),
            rows@.len() == i,
            forall|j: int| 0 <= j < i ==> (#[trigger] rows@[j])@ == history@[j]@,
        decreases history@.len() - i,
    {
        rows.push(history[i].clone());
        i += 1;
    }
    assert(texts(rows@) =~= texts(history@));
    rows
}

/// The commands of a history that match what was typed, letter case and white space round it
/// aside.
pub open spec fn history_shown(history: Seq<Seq<char>>, query: Seq<char>) -> Seq<Seq<char>> {
    history_matches(history, lowercase(trimmed(query)), history.len() as int)
}

/// Build the filtered history list for the dropdown: case-insensitive substring matches of
/// `query`, in the same order as the full history.
pub fn history_view_model(history: &Vec<String>, query: &str) -> (rows: Vec<String>)
    ensures
        texts(rows@) == history_shown(texts(history@), query@),
{
    let q = to_chars(to_lowercase(trim_text(query).as_str()).as_str());
    let ghost h = texts(history@);
    let mut rows: Vec<String> = Vec::new();
    let mut i: usize = 0;
    assert(texts(rows@) =~= history_matches(h, q@, 0));
    while i < history.len()
        invariant
            i <= history@.len(),
            h == texts(history@),
            q@ == lowercase(trimmed(query@)),
            texts(rows@) == history_matches(h, q@, i as int),
        decreases history@.len() - i,
    {
        assert(h[i as int] == history@[i as int]@);
        let hit: bool = q.len() == 0 || found_in(
            to_chars(to_lowercase(history[i].as_str()).as_str()).as_slice(),
            q.as_slice(),
        );
        if hit {
            let ghost before = rows@;
            let row = history[i].clone();
            rows.push(row);
            assert(texts(rows@) =~= texts(before).push(row@));
        }
        i += 1;
    }
    rows
}

// ---- Laws -----------------------------------------------------------------

/// Each row that stands for a command points back to it: its place in the saved list gives the
/// same name, command and Enter setting, and its group is the one the command is displayed under.
pub proof fn law_rows_point_back(
    explicit: Seq<Seq<char>>,
    cmds: Seq<CommandView>,
    collapsed: Seq<Seq<char>>,
    k: int,
)
    requires
        cmds.len() <= i32::MAX,
        0 <= k < quick_rows(explicit, cmds, collapsed).len(),
        quick_rows(explicit, cmds, collapsed)[k].orig_index != -1,
    ensures
        ({
            let row = quick_rows(explicit, cmds, collapsed)[k];
            &&& 0 <= row.orig_index < cmds.len()
            &&& row.name == cmds[row.orig_index as int].name
            &&& row.command == cmds[row.orig_index as int].command
            &&& row.send_enter == cmds[row.orig_index as int].send_enter
            &&& displayed_under(trimmed(cmds[row.orig_index as int].group), row.group)
            &&& row.collapsed == collapsed.contains(row.group)
        }),
{
    let groups = display_groups(explicit, command_groups(cmds));
    lemma_points_back(cmds, groups, collapsed, groups.len() as int, k);
}

proof fn lemma_points_back(
    cmds: Seq<CommandView>,
    groups: Seq<Seq<char>>,
    collapsed: Seq<Seq<char>>,
    n: int,
    k: int,
)
    requires
        cmds.len() <= i32::MAX,
        0 <= n <= groups.len(),
        0 <= k < quick_rows_of(cmds, groups, collapsed, n).len(),
        quick_rows_of(cmds, groups, collapsed, n)[k].orig_index != -1,
    ensures
        ({
            let row = quick_rows_of(cmds, groups, collapsed, n)[k];
            &&& 0 <= row.orig_index < cmds.len()
            &&& row.name == cmds[row.orig_index as int].name
            &&& row.command == cmds[row.orig_index as int].command
            &&& row.send_enter == cmds[row.orig_index as int].send_enter
            &&& displayed_under(trimmed(cmds[row.orig_index as int].group), row.group)
            &&& row.collapsed == collapsed.contains(row.group)
        }),
    decreases n,
{
    let before = quick_rows_of(cmds, groups, collapsed, n - 1);
    if k < before.len() {
        lemma_points_back(cmds, groups, collapsed, n - 1, k);
    } else {
        let g = groups[n - 1];
        let filed = command_groups(cmds);
        let m = members(filed, g, cmds.len() as int);
        let part = quick_group_rows(cmds, g, collapsed.contains(g));
        let q = k - before.len();
        assert(quick_rows_of(cmds, groups, collapsed, n)[k] == part[q]);
        if m.len() == 0 {
            assert(part[0] == empty_group_row(g, collapsed.contains(g)));
        } else {
            lemma_members(filed, g, cmds.len() as int, m[q]);
            assert(m.contains(m[q]));
            assert(filed[m[q]] == trimmed(cmds[m[q]].group));
        }
    }
}

/// Every quick command has a row, unless its group has the literal name of the ungrouped.
pub proof fn law_every_command_is_listed(
    explicit: Seq<Seq<char>>,
    cmds: Seq<CommandView>,
    collapsed: Seq<Seq<char>>,
    i: int,
)
    requires
        0 <= i < cmds.len() <= i32::MAX,
        trimmed(cmds[i].group) != "default"@,
    ensures
        exists|k: int|
            0 <= k < quick_rows(explicit, cmds, collapsed).len() && (#[trigger] quick_rows(
                explicit,
                cmds,
                collapsed,
            )[k]).orig_index == i,
{
    let filed = command_groups(cmds);
    let groups = display_groups(explicit, filed);
    let g = display_group(filed[i]);
    assert(filed[i] == trimmed(cmds[i].group));
    law_named_groups(explicit, filed);
    reveal_strlit("default");
    assert(groups.contains(g)) by {
        let named = named_groups(explicit, filed);
        if filed[i].len() == 0 {
            assert(has_ungrouped(filed));
            assert(groups[0] == g);
        } else {
            assert(filed.contains(g));
            assert(named.contains(g));
            let k = choose|k: int| 0 <= k < named.len() && named[k] == g;
            if has_ungrouped(filed) {
                assert(groups[k + 1] == g);
            } else {
                assert(groups[k] == g);
            }
        }
    }
    let at = choose|at: int| 0 <= at < groups.len() && groups[at] == g;
    lemma_members(filed, g, cmds.len() as int, i);
    let m = members(filed, g, cmds.len() as int);
    let q = choose|q: int| 0 <= q < m.len() && m[q] == i;
    let part = quick_group_rows(cmds, g, collapsed.contains(g));
    assert(part[q].orig_index == i);
    let k = lemma_part_of_quick(cmds, groups, collapsed, groups.len() as int, at, q);
    assert(quick_rows(explicit, cmds, collapsed)[k] == part[q]);
}

proof fn lemma_part_of_quick(
    cmds: Seq<CommandView>,
    groups: Seq<Seq<char>>,
    collapsed: Seq<Seq<char>>,
    n: int,
    at: int,
    q: int,
) -> (k: int)
    requires
        0 <= at < n <= groups.len(),
        0 <= q < quick_group_rows(cmds, groups[at], collapsed.contains(groups[at])).len(),
    ensures
        0 <= k < quick_rows_of(cmds, groups, collapsed, n).len(),
        quick_rows_of(cmds, groups, collapsed, n)[k] == quick_group_rows(
            cmds,
            groups[at],
            collapsed.contains(groups[at]),
        )[q],
    decreases n,
{
    if at == n - 1 {
        quick_rows_of(cmds, groups, collapsed, n - 1).len() + q
    } else {
        lemma_part_of_quick(cmds, groups, collapsed, n - 1, at, q)
    }
}

/// The group and the place in it that a row stands for.
proof fn lemma_row_place(
    cmds: Seq<CommandView>,
    groups: Seq<Seq<char>>,
    collapsed: Seq<Seq<char>>,
    n: int,
    k: int,
) -> (r: (int, int))
    requires
        0 <= n <= groups.len(),
        0 <= k < quick_rows_of(cmds, groups, collapsed, n).len(),
    ensures
        0 <= r.0 < n,
        k == quick_rows_of(cmds, groups, collapsed, r.0).len() + r.1,
        0 <= r.1 < quick_group_rows(cmds, groups[r.0], collapsed.contains(groups[r.0])).len(),
        quick_rows_of(cmds, groups, collapsed, n)[k] == quick_group_rows(
            cmds,
            groups[r.0],
            collapsed.contains(groups[r.0]),
        )[r.1],
    decreases n,
{
    let before = quick_rows_of(cmds, groups, collapsed, n - 1);
    if k < before.len() {
        lemma_row_place(cmds, groups, collapsed, n - 1, k)
    } else {
        (n - 1, k - before.len())
    }
}

/// No quick command is listed twice: no two rows point back to the same one. Where some are
/// ungrouped, no group has their heading.
pub proof fn law_commands_are_listed_once(
    explicit: Seq<Seq<char>>,
    cmds: Seq<CommandView>,
    collapsed: Seq<Seq<char>>,
    j: int,
    k: int,
)
    requires
        cmds.len() <= i32::MAX,
        no_second_default(explicit, command_groups(cmds)),
        0 <= j < k < quick_rows(explicit, cmds, collapsed).len(),
        quick_rows(explicit, cmds, collapsed)[j].orig_index != -1,
    ensures
        quick_rows(explicit, cmds, collapsed)[j].orig_index != quick_rows(
            explicit,
            cmds,
            collapsed,
        )[k].orig_index,
{
    let filed = command_groups(cmds);
    let groups = display_groups(explicit, filed);
    let n = groups.len() as int;
    let rows = quick_rows(explicit, cmds, collapsed);
    if rows[j].orig_index == rows[k].orig_index {
        law_no_group_is_displayed_twice(explicit, filed);
        lemma_one_heading(explicit, filed);
        let (a, p) = lemma_row_place(cmds, groups, collapsed, n, j);
        let (b, q) = lemma_row_place(cmds, groups, collapsed, n, k);
        let ma = members(filed, groups[a], cmds.len() as int);
        let mb = members(filed, groups[b], cmds.len() as int);
        lemma_members(filed, groups[a], cmds.len() as int, ma[p]);
        lemma_members(filed, groups[b], cmds.len() as int, mb[q]);
        assert(ma.contains(ma[p]));
        assert(mb.contains(mb[q]));
        assert(ma[p] == mb[q]);
        assert(groups[a] == groups[b]);
        assert(a == b);
        lemma_members_rise(filed, groups[a], cmds.len() as int, p, q);
    }
}

/// Starting with all group names collapsed collapses every row.
pub proof fn law_all_names_collapse_everything(
    explicit: Seq<Seq<char>>,
    cmds: Seq<CommandView>,
    k: int,
)
    requires
        0 <= k < quick_rows(explicit, cmds, quick_names(explicit, cmds)).len(),
    ensures
        quick_rows(explicit, cmds, quick_names(explicit, cmds))[k].collapsed,
{
    let groups = display_groups(explicit, command_groups(cmds));
    let names = quick_names(explicit, cmds);
    assert forall|i: int| 0 <= i < groups.len() implies names.contains(#[trigger] groups[i]) by {
        assert(groups.contains(groups[i]));
        lemma_names_cover_groups(explicit, cmds, groups[i]);
    }
    lemma_rows_collapsed(cmds, groups, names, groups.len() as int, k);
}

proof fn lemma_rows_collapsed(
    cmds: Seq<CommandView>,
    groups: Seq<Seq<char>>,
    collapsed: Seq<Seq<char>>,
    n: int,
    k: int,
)
    requires
        0 <= n <= groups.len(),
        forall|i: int| 0 <= i < groups.len() ==> collapsed.contains(#[trigger] groups[i]),
        0 <= k < quick_rows_of(cmds, groups, collapsed, n).len(),
    ensures
        quick_rows_of(cmds, groups, collapsed, n)[k].collapsed,
    decreases n,
{
    let before = quick_rows_of(cmds, groups, collapsed, n - 1);
    if k < before.len() {
        lemma_rows_collapsed(cmds, groups, collapsed, n - 1, k);
    } else {
        let g = groups[n - 1];
        let part = quick_group_rows(cmds, g, collapsed.contains(g));
        assert(quick_rows_of(cmds, groups, collapsed, n)[k] == part[k - before.len()]);
    }
}

/// Every group on display is among the group names, none of which stands twice.
pub proof fn lemma_names_cover_groups(
    explicit: Seq<Seq<char>>,
    cmds: Seq<CommandView>,
    g: Seq<char>,
)
    requires
        display_groups(explicit, command_groups(cmds)).contains(g),
    ensures
        quick_names(explicit, cmds).contains(g),
        quick_names(explicit, cmds).no_duplicates(),
{
    let filed = command_groups(cmds);
    let n = filed.len() as int;
    let used = used_groups(filed, n);
    let first = if has_ungrouped(filed) {
        seq!["default"@]
    } else {
        Seq::empty()
    };
    let all = first + explicit + used;
    law_distinct(all);
    law_named_groups(explicit, filed);
    let named = named_groups(explicit, filed);
    let groups = display_groups(explicit, filed);
    let i = choose|i: int| 0 <= i < groups.len() && groups[i] == g;
    if has_ungrouped(filed) && i == 0 {
        assert(all[0] == g);
    } else {
        assert(named.contains(g)) by {
            if has_ungrouped(filed) {
                assert(named[i - 1] == g);
            } else {
                assert(named[i] == g);
            }
        }
        law_sorted_names(explicit + used);
        assert((explicit + used).contains(g));
        let k = choose|k: int| 0 <= k < (explicit + used).len() && (explicit + used)[k] == g;
        assert(all[first.len() + k] == g);
    }
}

/// The places, below `n`, of the commands that hold a text.
pub open spec fn match_places(history: Seq<Seq<char>>, query: Seq<char>, n: int) -> Seq<int>
    decreases n,
{
    if n <= 0 {
        Seq::empty()
    } else {
        let before = match_places(history, query, n - 1);
        if query.len() == 0 || contains(lowercase(history[n - 1]), query) {
            before.push(n - 1)
        } else {
            before
        }
    }
}

/// Filtering keeps the order of the history, keeps what holds the query and nothing else, and an
/// empty query keeps everything.
pub proof fn law_history_filter(history: Seq<Seq<char>>, query: Seq<char>, n: int)
    requires
        0 <= n <= history.len(),
    ensures
        history_matches(history, query, n) == match_places(history, query, n).map_values(
            |i: int| history[i],
        ),
        forall|j: int, k: int|
            0 <= j < k < match_places(history, query, n).len() ==> (#[trigger] match_places(
                history,
                query,
                n,
            )[j]) < (#[trigger] match_places(history, query, n)[k]),
        forall|i: int| #[trigger]
            match_places(history, query, n).contains(i) <==> 0 <= i < n && (query.len() == 0
                || contains(lowercase(history[i]), query)),
        query.len() == 0 ==> history_matches(history, query, n) == history.take(n),
    decreases n,
{
    let f = |i: int| history[i];
    let after = match_places(history, query, n);
    if n > 0 {
        law_history_filter(history, query, n - 1);
        let before = match_places(history, query, n - 1);
        let hit = query.len() == 0 || contains(lowercase(history[n - 1]), query);
        assert(history.take(n) =~= history.take(n - 1).push(history[n - 1]));
        assert forall|k: int| 0 <= k < before.len() implies 0 <= #[trigger] before[k] < n - 1 by {
            assert(before.contains(before[k]));
        }
        if hit {
            assert(after == before.push(n - 1));
            assert(after.map_values(f) =~= before.map_values(f).push(history[n - 1]));
        }
        assert forall|i: int| #[trigger] after.contains(i) <==> 0 <= i < n && (query.len() == 0
            || contains(lowercase(history[i]), query)) by {
            if before.contains(i) {
                let k = choose|k: int| 0 <= k < before.len() && before[k] == i;
                assert(after[k] == i);
            }
            if hit && i == n - 1 {
                assert(after[before.len() as int] == i);
            }
            if after.contains(i) {
                let k = choose|k: int| 0 <= k < after.len() && after[k] == i;
                if k < before.len() {
                    assert(before[k] == i);
                }
            }
        }
    } else {
        assert(history.take(0) =~= Seq::<Seq<char>>::empty());
        assert(after.map_values(f) =~= Seq::<Seq<char>>::empty());
    }
}

/// The rows of a group of commands all bear its name and are collapsed together; the first one
/// bears its heading, and the commands keep the order in which they were saved. A group without a
/// command has one row that stands for none.
pub proof fn law_rows_of_a_quick_group(
    cmds: Seq<CommandView>,
    group: Seq<char>,
    collapsed: bool,
    k: int,
)
    requires
        cmds.len() <= i32::MAX,
    ensures
        ({
            let rows = quick_group_rows(cmds, group, collapsed);
            let none = forall|i: int|
                0 <= i < cmds.len() ==> !(if group == "default"@ {
                    trimmed((#[trigger] cmds[i]).group).len() == 0
                } else {
                    trimmed(cmds[i].group) == group
                });
            &&& rows.len() > 0
            &&& rows[0].group_header == group
            &&& 0 <= k < rows.len() ==> rows[k].group == group && rows[k].collapsed == collapsed
            &&& 0 < k < rows.len() ==> rows[k].group_header.len() == 0
            &&& 0 < k < rows.len() ==> rows[k - 1].orig_index < rows[k].orig_index
            &&& none ==> rows.len() == 1 && rows[0].orig_index == -1 && rows[0].command.len() == 0
            &&& !none && 0 <= k < rows.len() ==> {
                let c = cmds[rows[k].orig_index as int];
                &&& 0 <= rows[k].orig_index < cmds.len()
                &&& rows[k].name == c.name
                &&& rows[k].command == c.command
                &&& rows[k].send_enter == c.send_enter
                &&& group == "default"@ ==> trimmed(c.group).len() == 0
                &&& group != "default"@ ==> trimmed(c.group) == group
            }
        }),
{
    let filed = command_groups(cmds);
    let n = cmds.len() as int;
    let m = members(filed, group, n);
    let rows = quick_group_rows(cmds, group, collapsed);
    if m.len() > 0 {
        assert(m.contains(m[0]));
        lemma_members(filed, group, n, m[0]);
        assert(filed[m[0]] == trimmed(cmds[m[0]].group));
        if 0 <= k < rows.len() {
            assert(m.contains(m[k]));
            lemma_members(filed, group, n, m[k]);
            assert(filed[m[k]] == trimmed(cmds[m[k]].group));
        }
        if 0 < k < rows.len() {
            assert(m.contains(m[k - 1]));
            lemma_members(filed, group, n, m[k - 1]);
            lemma_members_rise(filed, group, n, k - 1, k);
        }
    } else {
        assert forall|i: int| 0 <= i < cmds.len() implies !(if group == "default"@ {
            trimmed((#[trigger] cmds[i]).group).len() == 0
        } else {
            trimmed(cmds[i].group) == group
        }) by {
            lemma_members(filed, group, n, i);
            assert(filed[i] == trimmed(cmds[i].group));
            if displayed_under(filed[i], group) {
                assert(m.contains(i));
            }
        }
    }
}

/// The groups to choose from are those that were made, those that a command is filed under, and
/// `default` where a command is filed under none; that one comes first.
pub proof fn law_group_names(explicit: Seq<Seq<char>>, cmds: Seq<CommandView>, g: Seq<char>)
    ensures
        quick_names(explicit, cmds).contains(g) <==> {
            ||| explicit.contains(g)
            ||| g.len() > 0 && exists|i: int|
                0 <= i < cmds.len() && trimmed((#[trigger] cmds[i]).group) == g
            ||| g == "default"@ && exists|i: int|
                0 <= i < cmds.len() && trimmed((#[trigger] cmds[i]).group).len() == 0
        },
        (exists|i: int| 0 <= i < cmds.len() && trimmed((#[trigger] cmds[i]).group).len() == 0)
            ==> quick_names(explicit, cmds).len() > 0 && quick_names(explicit, cmds)[0]
            == "default"@,
{
    let filed = command_groups(cmds);
    let n = filed.len() as int;
    let first = if has_ungrouped(filed) {
        seq!["default"@]
    } else {
        Seq::empty()
    };
    let used = used_groups(filed, n);
    let all = first + explicit + used;
    law_distinct(all);
    lemma_used(filed, n, g);
    assert forall|i: int| 0 <= i < cmds.len() implies filed[i] == trimmed(
        (#[trigger] cmds[i]).group,
    ) by {}
    if exists|i: int| 0 <= i < cmds.len() && trimmed((#[trigger] cmds[i]).group).len() == 0 {
        let i = choose|i: int| 0 <= i < cmds.len() && trimmed((#[trigger] cmds[i]).group).len() == 0;
        assert(filed[i].len() == 0);
        assert(has_ungrouped(filed));
        assert(all.take(1) =~= seq!["default"@]);
        law_distinct_starts_alike(all, 1);
        assert(seq!["default"@].drop_last() =~= Seq::<Seq<char>>::empty());
        assert(distinct(seq!["default"@].drop_last()).len() == 0);
        assert(distinct(seq!["default"@]) =~= seq!["default"@]);
        assert(distinct(all).take(1)[0] == distinct(all)[0]);
        assert(all[0] == "default"@);
    }
    if has_ungrouped(filed) {
        let i = choose|i: int| 0 <= i < filed.len() && (#[trigger] filed[i]).len() == 0;
        assert(trimmed(cmds[i].group).len() == 0);
    }
    if g.len() > 0 && exists|i: int| 0 <= i < cmds.len() && trimmed((#[trigger] cmds[i]).group) == g {
        let i = choose|i: int| 0 <= i < cmds.len() && trimmed((#[trigger] cmds[i]).group) == g;
        assert(filed[i] == g);
        assert(filed.take(n) =~= filed);
        assert(filed.contains(g));
        let k = choose|k: int| 0 <= k < used.len() && used[k] == g;
        assert(all[first.len() + explicit.len() + k] == g);
    }
    if explicit.contains(g) {
        let k = choose|k: int| 0 <= k < explicit.len() && explicit[k] == g;
        assert(all[first.len() + k] == g);
    }
    if all.contains(g) {
        let k = choose|k: int| 0 <= k < all.len() && all[k] == g;
        if k < first.len() {
        } else if k < first.len() + explicit.len() {
            assert(explicit[k - first.len()] == g);
        } else {
            assert(used[k - first.len() - explicit.len()] == g);
            assert(used.contains(g));
            let i = choose|i: int| 0 <= i < filed.len() && filed[i] == g;
            assert(trimmed(cmds[i].group) == g);
        }
    }
}

/// The history list shows those commands that hold what was typed, letter case and white space
/// round it aside, and shows them as they are; it has nothing else. What follows a command in the
/// history never comes before it.
pub proof fn law_history_list(history: Seq<Seq<char>>, query: Seq<char>, i: int)
    ensures
        history_shown(history, query) == history_shown(history, trimmed(query)),
        0 <= i < history.len() && contains(lowercase(history[i]), lowercase(trimmed(query)))
            ==> history_shown(history, query).contains(history[i]),
        0 <= i < history_shown(history, query).len() ==> history.contains(
            history_shown(history, query)[i],
        ) && (lowercase(trimmed(query)).len() > 0 ==> contains(
            lowercase(history_shown(history, query)[i]),
            lowercase(trimmed(query)),
        )),
        lowercase(trimmed(query)).len() == 0 ==> history_shown(history, query) == history,
{
    let from = law_trimming(query);
    lemma_nothing_to_trim(trimmed(query));
    let q = lowercase(trimmed(query));
    let n = history.len() as int;
    let m = match_places(history, q, n);
    let shown = history_shown(history, query);
    law_history_filter(history, q, n);
    assert(history.take(n) =~= history);
    if 0 <= i < history.len() && contains(lowercase(history[i]), q) {
        assert(m.contains(i));
        let k = choose|k: int| 0 <= k < m.len() && m[k] == i;
        assert(shown[k] == history[i]);
    }
    if 0 <= i < shown.len() {
        assert(m.contains(m[i]));
        assert(shown[i] == history[m[i]]);
    }
}

} // verus!
