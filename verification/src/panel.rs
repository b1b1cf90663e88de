//! The file panel of a tab: where it stands, and which of its entries are checked.

use vstd::prelude::*;

use crate::apply::{is_row_of, with_state};
use crate::order::lists;
use crate::tabs::lemma_find_id;
use crate::text::{same_text, texts};
use crate::ui::{
    find_id, law_first_of_its_name_is_found, panel_views, state_ids, PanelEntryView, SftpEntry,
    StateView, Ui, UiView,
};

verus! {

// ---- Where the panels stand -----------------------------------------------

/// The directory of a tab's file panel, or nothing if there is no such tab.
pub open spec fn sftp_path_of(u: UiView, tab: Seq<char>) -> Seq<char> {
    let i = find_id(state_ids(u.terminals), tab, 0);
    if i < u.terminals.len() {
        u.terminals[i].sftp_path
    } else {
        Seq::empty()
    }
}

/// A tab and the directory of its file panel.
pub struct TabDir {
    pub tab: String,
    pub dir: String,
}

/// What a tab and the directory of its file panel are.
pub open spec fn tab_dirs(list: Seq<TabDir>) -> Seq<(Seq<char>, Seq<char>)> {
    list.map_values(|d: TabDir| (d.tab@, d.dir@))
}

/// Every tab with the directory of its file panel.
pub open spec fn all_dirs(u: UiView) -> Seq<(Seq<char>, Seq<char>)> {
    u.terminals.map_values(|t: StateView| (t.id, t.sftp_path))
}

// ---- Checked entries ------------------------------------------------------

/// The paths of the checked ones among the first `n` entries, in order.
pub open spec fn checked_paths(entries: Seq<PanelEntryView>, n: int) -> Seq<Seq<char>>
    decreases n,
{
    if n <= 0 {
        Seq::empty()
    } else if entries[n - 1].selected {
        checked_paths(entries, n - 1).push(entries[n - 1].full_path)
    } else {
        checked_paths(entries, n - 1)
    }
}

/// The paths of the checked entries of a tab, or nothing if there is no such tab.
pub open spec fn selected_paths(u: UiView, tab: Seq<char>) -> Seq<Seq<char>> {
    let i = find_id(state_ids(u.terminals), tab, 0);
    if i < u.terminals.len() {
        let entries = u.terminals[i].sftp_entries;
        checked_paths(entries, entries.len() as int)
    } else {
        Seq::empty()
    }
}

/// The entries with none of them checked.
pub open spec fn unchecked(entries: Seq<PanelEntryView>) -> Seq<PanelEntryView> {
    entries.map_values(|e: PanelEntryView| PanelEntryView { selected: false, ..e })
}

/// A tab with no entry of its file panel checked.
pub open spec fn selection_cleared(row: StateView) -> StateView {
    StateView { sftp_entries: unchecked(row.sftp_entries), sftp_selected_count: 0, ..row }
}

impl Ui {
    /// The terminal tab's current SFTP directory ("" if unknown).
    pub fn active_sftp_path(&self, tab: &str) -> (r: String)
        ensures
            r@ == sftp_path_of(self@, tab@),
    {
        let i: usize = self.terminal_at(tab);
        if i < self.terminals.len() {
            self.terminals[i].sftp_path.clone()
        } else {
            String::new()
        }
    }

    /// Every tab with its file panel's current path, the per-session directory for uploads that
    /// are mirrored to all sessions.
    pub fn terminal_sftp_paths(&self) -> (r: Vec<TabDir>)
        ensures
            tab_dirs(r@) == all_dirs(self@),
    {
        let mut r: Vec<TabDir> = Vec::new();
        let mut i: usize = 0;
        while i < self.terminals.len()
            invariant
                i <= self.terminals@.len(),
                r@.len() == i,
                forall|j: int|
                    0 <= j < i ==> (#[trigger] r@[j]).tab@ == self.terminals@[j].id@ && r@[j].dir@
                        == self.terminals@[j].sftp_path@,
            decreases self.terminals@.len() - i,
        {
            let row = &self.terminals[i];
            r.push(TabDir { tab: row.id.clone(), dir: row.sftp_path.clone() });
            i += 1;
        }
        assert(tab_dirs(r@) =~= all_dirs(self@));
        r
    }

    /// Collect the full paths of the checked SFTP entries for a tab.
    pub fn collect_sftp_selected(&self, tab: &str) -> (paths: Vec<String>)
        ensures
            texts(paths@) == selected_paths(self@, tab@),
    {
        let mut paths: Vec<String> = Vec::new();
        assert(texts(paths@) =~= Seq::<Seq<char>>::empty());
        let i: usize = self.terminal_at(tab);
        if i < self.terminals.len() {
            let entries = &self.terminals[i].sftp_entries;
            let ghost all = panel_views(entries@);
            let mut k: usize = 0;
            assert(texts(paths@) =~= checked_paths(all, 0));
            while k < entries.len()
                invariant
                    k <= entries@.len(),
                    all == panel_views(entries@),
                    texts(paths@) == checked_paths(all, k as int),
                decreases entries@.len() - k,
            {
                assert(all[k as int] == entries@[k as int]@);
                if entries[k].selected {
                    let ghost before = paths@;
                    let path = entries[k].full_path.clone();
                    paths.push(path);
                    assert(texts(paths@) =~= texts(before).push(path@));
                }
                k += 1;
            }
            assert(all == self@.terminals[i as int].sftp_entries);
        }
        paths
    }

    /// Uncheck every SFTP entry for a tab and reset its selected-count.
    pub fn clear_sftp_selection(&mut self, tab: &str)
        requires
            old(self).wf(),
        ensures
            final(self).wf(),
            final(self)@ == with_state(
                old(self)@,
                tab@,
                |r: StateView| selection_cleared(r),
            ),
    {
        let ghost u0 = self@;
        let i: usize = self.terminal_at(tab);
        if i < self.terminals.len() {
            let ghost row0 = u0.terminals[i as int];
            let row = &mut self.terminals[i];
            let n: usize = row.sftp_entries.len();
            let mut entries: Vec<SftpEntry> = Vec::new();
            std::mem::swap(&mut entries, &mut row.sftp_entries);
            let ghost all = panel_views(entries@);
            let mut k: usize = 0;
            while k < n
                invariant
                    n == entries@.len(),
                    n == all.len(),
                    k <= n,
                    forall|j: int|
                        0 <= j < k ==> (#[trigger] entries@[j])@ == (PanelEntryView {
                            selected: false,
                            ..all[j]
                        }),
                    forall|j: int| k <= j < n ==> (#[trigger] entries@[j])@ == all[j],
                decreases n - k,
            {
                entries[k].selected = false;
                k += 1;
            }
            assert(panel_views(entries@) =~= unchecked(all));
            row.sftp_entries = entries;
            row.sftp_selected_count = 0;
            assert(self@.terminals =~= u0.terminals.update(i as int, selection_cleared(row0)));
        }
    }

    /// Collapse or expand the file panel of a tab.
    pub fn set_sftp_collapsed(&mut self, tab: &str, collapsed: bool)
        requires
            old(self).wf(),
        ensures
            final(self).wf(),
            final(self)@ == with_state(
                old(self)@,
                tab@,
                |r: StateView| StateView { sftp_collapsed: collapsed, ..r },
            ),
    {
        let ghost u0 = self@;
        let i: usize = self.terminal_at(tab);
        if i < self.terminals.len() {
            self.terminals[i].sftp_collapsed = collapsed;
            assert(self@.terminals =~= u0.terminals.update(
                i as int,
                StateView { sftp_collapsed: collapsed, ..u0.terminals[i as int] },
            ));
        }
    }
}

// ---- Dropped files --------------------------------------------------------

/// A file to upload: the tab whose session takes it, and the directory it goes to.
pub open spec fn mirrored(
    sessions: Seq<Seq<char>>,
    active: Seq<char>,
    dirs: Seq<(Seq<char>, Seq<char>)>,
    n: int,
) -> Seq<(Seq<char>, Seq<char>)>
    decreases n,
{
    if n <= 0 {
        Seq::empty()
    } else {
        let before = mirrored(sessions, active, dirs, n - 1);
        let dir = dir_of(dirs, sessions[n - 1], dirs.len() as int);
        if sessions[n - 1] != active && dir.len() > 0 {
            before.push((sessions[n - 1], dir))
        } else {
            before
        }
    }
}

/// The directory of a tab among the first `n` of a list, the last one counting, or nothing.
pub open spec fn dir_of(dirs: Seq<(Seq<char>, Seq<char>)>, tab: Seq<char>, n: int) -> Seq<char>
    decreases n,
{
    if n <= 0 {
        Seq::empty()
    } else if dirs[n - 1].0 == tab {
        dirs[n - 1].1
    } else {
        dir_of(dirs, tab, n - 1)
    }
}

/// The uploads for a file that was dropped. It has to land on the file list of a session tab
/// whose directory is known. It goes to the active session if that is online and, when sessions
/// are in sync, to every other online session whose panel has a directory, into that directory.
pub open spec fn drop_uploads(
    u: UiView,
    in_file_list: bool,
    sync: bool,
    sessions: Seq<Seq<char>>,
) -> Seq<(Seq<char>, Seq<char>)> {
    let dir = sftp_path_of(u, u.active_tab);
    if u.active_tab == "welcome"@ || !in_file_list || dir.len() == 0 {
        Seq::empty()
    } else {
        let own = if sessions.contains(u.active_tab) {
            seq![(u.active_tab, dir)]
        } else {
            Seq::empty()
        };
        if sync {
            own + mirrored(sessions, u.active_tab, all_dirs(u), sessions.len() as int)
        } else {
            own
        }
    }
}

/// The directory of a tab in a list, the last entry counting.
fn find_dir(dirs: &Vec<TabDir>, tab: &str) -> (r: String)
    ensures
        r@ == dir_of(tab_dirs(dirs@), tab@, dirs@.len() as int),
{
    let ghost all = tab_dirs(dirs@);
    let mut n: usize = dirs.len();
    while n > 0
        invariant
            n <= dirs@.len(),
            all == tab_dirs(dirs@),
            dir_of(all, tab@, dirs@.len() as int) == dir_of(all, tab@, n as int),
        decreases n,
    {
        assert(all[n - 1] == (dirs@[n - 1].tab@, dirs@[n - 1].dir@));
        if same_text(dirs[n - 1].tab.as_str(), tab) {
            return dirs[n - 1].dir.clone();
        }
        n -= 1;
    }
    String::new()
}

impl Ui {
    /// Handle an OS file drop: if it landed over the SFTP file-list area of the active session
    /// tab, the uploads that follow. When sessions are in sync the drop is mirrored to every
    /// other online session, each into its own current SFTP directory.
    pub fn handle_file_drop(
        &self,
        in_file_list: bool,
        sync: bool,
        sessions: &Vec<String>,
    ) -> (r: Vec<TabDir>)
        ensures
            tab_dirs(r@) == drop_uploads(self@, in_file_list, sync, texts(sessions@)),
    {
        let ghost u = self@;
        let ghost ss = texts(sessions@);
        let mut r: Vec<TabDir> = Vec::new();
        assert(tab_dirs(r@) =~= Seq::<(Seq<char>, Seq<char>)>::empty());
        if same_text(self.active_tab.as_str(), "welcome") || !in_file_list {
            return r;
        }
        let dir = self.active_sftp_path(self.active_tab.as_str());
        if dir.as_str().is_empty() {
            return r;
        }
        if lists(sessions, self.active_tab.as_str()) {
            let own = TabDir { tab: self.active_tab.clone(), dir };
            r.push(own);
            assert(tab_dirs(r@) =~= seq![(u.active_tab, sftp_path_of(u, u.active_tab))]);
        }
        if sync {
            let ghost own = tab_dirs(r@);
            let dirs = self.terminal_sftp_paths();
            let ghost ds = all_dirs(u);
            let mut i: usize = 0;
            assert(own + mirrored(ss, u.active_tab, ds, 0) =~= own);
            while i < sessions.len()
                invariant
                    i <= sessions@.len(),
                    ss == texts(sessions@),
                    u == self@,
                    ds == tab_dirs(dirs@),
                    ds == all_dirs(u),
                    tab_dirs(r@) == own + mirrored(ss, u.active_tab, ds, i as int),
                decreases sessions@.len() - i,
            {
                assert(ss[i as int] == sessions@[i as int]@);
                assert(ds.len() == dirs@.len());
                let ghost before = r@;
                if !same_text(sessions[i].as_str(), self.active_tab.as_str()) {
                    let d = find_dir(&dirs, sessions[i].as_str());
                    if !d.as_str().is_empty() {
                        let up = TabDir { tab: sessions[i].clone(), dir: d };
                        r.push(up);
                        assert(tab_dirs(r@) =~= tab_dirs(before).push((up.tab@, up.dir@)));
                        assert(tab_dirs(r@) =~= own + mirrored(ss, u.active_tab, ds, i + 1));
                    }
                }
                i += 1;
            }
            assert(ss.len() == sessions@.len());
        }
        r
    }
}

// ---- Laws -----------------------------------------------------------------

/// After the selection was cleared nothing is collected.
pub proof fn law_cleared_selection_is_empty(entries: Seq<PanelEntryView>, n: int)
    requires
        0 <= n <= entries.len(),
    ensures
        checked_paths(unchecked(entries), n) == Seq::<Seq<char>>::empty(),
    decreases n,
{
    if n > 0 {
        law_cleared_selection_is_empty(entries, n - 1);
    }
}

/// A drop never uploads to the active session twice, nor to a session that is not online.
pub proof fn law_drops_go_to_online_sessions(
    u: UiView,
    in_file_list: bool,
    sync: bool,
    sessions: Seq<Seq<char>>,
)
    ensures
        forall|k: int|
            0 <= k < drop_uploads(u, in_file_list, sync, sessions).len() ==> sessions.contains(
                (#[trigger] drop_uploads(u, in_file_list, sync, sessions)[k]).0,
            ),
        forall|k: int|
            0 < k < drop_uploads(u, in_file_list, sync, sessions).len() ==> (
            #[trigger] drop_uploads(u, in_file_list, sync, sessions)[k]).0 != u.active_tab,
        !in_file_list ==> drop_uploads(u, in_file_list, sync, sessions).len() == 0,
{
    lemma_mirrored(sessions, u.active_tab, all_dirs(u), sessions.len() as int);
    let ups = drop_uploads(u, in_file_list, sync, sessions);
    let m = mirrored(sessions, u.active_tab, all_dirs(u), sessions.len() as int);
    assert forall|k: int| 0 <= k < ups.len() implies sessions.contains((#[trigger] ups[k]).0) && (k
        > 0 ==> ups[k].0 != u.active_tab) by {
        if sessions.contains(u.active_tab) {
            if k > 0 {
                assert(ups[k] == m[k - 1]);
            }
        } else {
            assert(ups[k] == m[k]);
        }
    }
}

proof fn lemma_mirrored(
    sessions: Seq<Seq<char>>,
    active: Seq<char>,
    dirs: Seq<(Seq<char>, Seq<char>)>,
    n: int,
)
    requires
        0 <= n <= sessions.len(),
    ensures
        forall|k: int|
            0 <= k < mirrored(sessions, active, dirs, n).len() ==> (#[trigger] mirrored(
                sessions,
                active,
                dirs,
                n,
            )[k]).0 != active && sessions.contains(mirrored(sessions, active, dirs, n)[k].0)
                && mirrored(sessions, active, dirs, n)[k].1.len() > 0,
    decreases n,
{
    if n > 0 {
        lemma_mirrored(sessions, active, dirs, n - 1);
        assert(sessions.contains(sessions[n - 1]));
        let before = mirrored(sessions, active, dirs, n - 1);
        let after = mirrored(sessions, active, dirs, n);
        assert forall|k: int| 0 <= k < after.len() implies (#[trigger] after[k]).0 != active
            && sessions.contains(after[k].0) && after[k].1.len() > 0 by {
            if k < before.len() {
                assert(after[k] == before[k]);
            }
        }
    }
}

/// The selected paths are those of the checked entries and no others, in the order of the list:
/// an entry that is checked comes right after the checked ones before it.
pub proof fn law_selected_paths_are_the_checked_ones(entries: Seq<PanelEntryView>, n: int, i: int)
    requires
        0 <= i < n <= entries.len(),
    ensures
        entries[i].selected ==> checked_paths(entries, i).len() < checked_paths(entries, n).len()
            && checked_paths(entries, n)[checked_paths(entries, i).len() as int]
            == entries[i].full_path,
        checked_paths(entries, i + 1).len() == checked_paths(entries, i).len() + if
            entries[i].selected {
            1nat
        } else {
            0nat
        },
        checked_paths(entries, 0).len() == 0,
    decreases n,
{
    if i < n - 1 {
        law_selected_paths_are_the_checked_ones(entries, n - 1, i);
        let before = checked_paths(entries, n - 1);
        let all = checked_paths(entries, n);
        assert(all == before || all == before.push(entries[n - 1].full_path));
    }
}

/// Clearing a selection leaves every entry as it was but unchecked, and the count at none.
pub proof fn law_clearing_only_unchecks(row: StateView, i: int)
    requires
        0 <= i < row.sftp_entries.len(),
    ensures
        ({
            let w = selection_cleared(row);
            &&& w.sftp_selected_count == 0
            &&& w.sftp_entries.len() == row.sftp_entries.len()
            &&& !w.sftp_entries[i].selected
            &&& w.sftp_entries[i].name == row.sftp_entries[i].name
            &&& w.sftp_entries[i].full_path == row.sftp_entries[i].full_path
            &&& w.sftp_entries[i].is_dir == row.sftp_entries[i].is_dir
            &&& w.sftp_entries[i].size == row.sftp_entries[i].size
            &&& w.sftp_entries[i].modified == row.sftp_entries[i].modified
            &&& w.sftp_entries[i].mode == row.sftp_entries[i].mode
            &&& w.sftp_path == row.sftp_path
            &&& w.id == row.id
            &&& w.spans == row.spans
            &&& w.sftp_status == row.sftp_status
        }),
{
}

proof fn lemma_dir_of(dirs: Seq<(Seq<char>, Seq<char>)>, tab: Seq<char>, n: int, i: int)
    requires
        0 <= i < n <= dirs.len(),
        dirs[i].0 == tab,
        forall|k: int| i < k < n ==> (#[trigger] dirs[k]).0 != tab,
    ensures
        dir_of(dirs, tab, n) == dirs[i].1,
    decreases n,
{
    if i < n - 1 {
        assert(dirs[n - 1].0 != tab);
        lemma_dir_of(dirs, tab, n - 1, i);
    }
}

proof fn lemma_dir_source(dirs: Seq<(Seq<char>, Seq<char>)>, tab: Seq<char>, n: int) -> (i: int)
    requires
        0 <= n <= dirs.len(),
        dir_of(dirs, tab, n).len() > 0,
    ensures
        0 <= i < n,
        dirs[i].0 == tab,
        dirs[i].1 == dir_of(dirs, tab, n),
    decreases n,
{
    if n > 0 && dirs[n - 1].0 != tab {
        lemma_dir_source(dirs, tab, n - 1)
    } else {
        n - 1
    }
}

proof fn lemma_mirrored_source(
    sessions: Seq<Seq<char>>,
    active: Seq<char>,
    dirs: Seq<(Seq<char>, Seq<char>)>,
    n: int,
    k: int,
)
    requires
        0 <= n <= sessions.len(),
        0 <= k < mirrored(sessions, active, dirs, n).len(),
    ensures
        ({
            let m = mirrored(sessions, active, dirs, n)[k];
            m.1.len() > 0 && m.1 == dir_of(dirs, m.0, dirs.len() as int)
        }),
    decreases n,
{
    let before = mirrored(sessions, active, dirs, n - 1);
    let all = mirrored(sessions, active, dirs, n);
    if n > 0 && k < before.len() {
        lemma_mirrored_source(sessions, active, dirs, n - 1, k);
        assert(all[k] == before[k]);
    }
}

proof fn lemma_mirrored_all(
    sessions: Seq<Seq<char>>,
    active: Seq<char>,
    dirs: Seq<(Seq<char>, Seq<char>)>,
    n: int,
    j: int,
) -> (k: int)
    requires
        0 <= j < n <= sessions.len(),
        sessions[j] != active,
        dir_of(dirs, sessions[j], dirs.len() as int).len() > 0,
    ensures
        0 <= k < mirrored(sessions, active, dirs, n).len(),
        mirrored(sessions, active, dirs, n)[k] == (
            sessions[j],
            dir_of(dirs, sessions[j], dirs.len() as int),
        ),
    decreases n,
{
    let before = mirrored(sessions, active, dirs, n - 1);
    let all = mirrored(sessions, active, dirs, n);
    if j == n - 1 {
        assert(all[before.len() as int] == (
            sessions[j],
            dir_of(dirs, sessions[j], dirs.len() as int),
        ));
        before.len() as int
    } else {
        let k = lemma_mirrored_all(sessions, active, dirs, n - 1, j);
        assert(all[k] == before[k]);
        k
    }
}

/// Every upload goes into the directory that the panel of its tab shows: a row of that tab has
/// that path.
pub proof fn law_uploads_go_where_the_panel_is(
    u: UiView,
    in_file_list: bool,
    sync: bool,
    sessions: Seq<Seq<char>>,
    k: int,
)
    requires
        0 <= k < drop_uploads(u, in_file_list, sync, sessions).len(),
    ensures
        ({
            let to = drop_uploads(u, in_file_list, sync, sessions)[k];
            &&& to.1.len() > 0
            &&& exists|i: int|
                0 <= i < u.terminals.len() && (#[trigger] u.terminals[i]).id == to.0
                    && u.terminals[i].sftp_path == to.1
        }),
{
    let to = drop_uploads(u, in_file_list, sync, sessions)[k];
    let own = if sessions.contains(u.active_tab) {
        1int
    } else {
        0int
    };
    if k < own {
        lemma_find_id(state_ids(u.terminals), u.active_tab, 0);
        let i = find_id(state_ids(u.terminals), u.active_tab, 0);
        assert(u.terminals[i].id == to.0);
    } else {
        let dirs = all_dirs(u);
        let n = sessions.len() as int;
        assert(to == mirrored(sessions, u.active_tab, dirs, n)[k - own]);
        lemma_mirrored_source(sessions, u.active_tab, dirs, n, k - own);
        let i = lemma_dir_source(dirs, to.0, dirs.len() as int);
        assert(u.terminals[i].id == to.0);
    }
}

/// A drop on the file list of an online session uploads there first. Without mirroring it uploads
/// nowhere else; with it, to every other online session whose panel shows a directory too.
pub proof fn law_drops_reach_every_session(
    u: UiView,
    sync: bool,
    sessions: Seq<Seq<char>>,
    i: int,
    j: int,
)
    requires
        u.active_tab != "welcome"@,
        0 <= i < u.terminals.len(),
        u.terminals[i].id == u.active_tab,
        u.terminals[i].sftp_path.len() > 0,
        forall|k: int| 0 <= k < i ==> (#[trigger] u.terminals[k]).id != u.active_tab,
    ensures
        ({
            let to = drop_uploads(u, true, sync, sessions);
            &&& sessions.contains(u.active_tab) ==> to.len() > 0 && to[0] == (
                u.active_tab,
                u.terminals[i].sftp_path,
            )
            &&& !sync ==> to.len() <= 1
            &&& sync && 0 <= j < u.terminals.len() && u.terminals[j].id != u.active_tab
                && sessions.contains(u.terminals[j].id) && u.terminals[j].sftp_path.len() > 0 && (
            forall|k: int| j < k < u.terminals.len() ==> (#[trigger] u.terminals[k]).id
                != u.terminals[j].id) ==> to.contains(
                (u.terminals[j].id, u.terminals[j].sftp_path),
            )
        }),
{
    let ids = state_ids(u.terminals);
    lemma_find_id(ids, u.active_tab, 0);
    let f = find_id(ids, u.active_tab, 0);
    assert(ids[i] == u.active_tab);
    if f < i {
        assert(u.terminals[f].id == u.active_tab);
    }
    assert(f == i);
    let to = drop_uploads(u, true, sync, sessions);
    if sync && 0 <= j < u.terminals.len() && u.terminals[j].id != u.active_tab && sessions.contains(
        u.terminals[j].id,
    ) && u.terminals[j].sftp_path.len() > 0 && (forall|k: int|
        j < k < u.terminals.len() ==> (#[trigger] u.terminals[k]).id != u.terminals[j].id) {
        let dirs = all_dirs(u);
        let tab = u.terminals[j].id;
        assert forall|k: int| j < k < dirs.len() implies (#[trigger] dirs[k]).0 != tab by {
            assert(u.terminals[k].id != tab);
        }
        lemma_dir_of(dirs, tab, dirs.len() as int, j);
        let s = choose|s: int| 0 <= s < sessions.len() && sessions[s] == tab;
        let n = sessions.len() as int;
        let m = mirrored(sessions, u.active_tab, dirs, n);
        let k = lemma_mirrored_all(sessions, u.active_tab, dirs, n, s);
        let own = if sessions.contains(u.active_tab) {
            seq![(u.active_tab, u.terminals[i].sftp_path)]
        } else {
            Seq::empty()
        };
        assert(to == own + m);
        assert(to[own.len() + k] == m[k]);
    }
}

/// On the welcome tab, outside of the file list, or where the panel shows no directory, a drop
/// uploads nothing.
pub proof fn law_other_drops_upload_nothing(
    u: UiView,
    in_file_list: bool,
    sync: bool,
    sessions: Seq<Seq<char>>,
)
    requires
        u.active_tab == "welcome"@ || !in_file_list || forall|i: int|
            0 <= i < u.terminals.len() && (#[trigger] u.terminals[i]).id == u.active_tab
                ==> u.terminals[i].sftp_path.len() == 0,
    ensures
        drop_uploads(u, in_file_list, sync, sessions).len() == 0,
{
    let ids = state_ids(u.terminals);
    lemma_find_id(ids, u.active_tab, 0);
    let f = find_id(ids, u.active_tab, 0);
    if f < u.terminals.len() {
        assert(u.terminals[f].id == u.active_tab);
    }
}

/// What is selected in a tab is what is checked in its row: the path of every checked entry, and
/// no more of them than there are checked entries up to the end of the list.
pub proof fn law_selected_paths_are_of_the_tab(u: UiView, tab: Seq<char>, i: int, k: int)
    requires
        is_row_of(state_ids(u.terminals), tab, i),
        0 <= k < u.terminals[i].sftp_entries.len(),
    ensures
        u.terminals[i].sftp_entries[k].selected ==> selected_paths(u, tab).contains(
            u.terminals[i].sftp_entries[k].full_path,
        ),
        !u.terminals[i].sftp_entries.last().selected ==> selected_paths(u, tab) == checked_paths(
            u.terminals[i].sftp_entries,
            u.terminals[i].sftp_entries.len() - 1,
        ),
        u.terminals[i].sftp_entries.last().selected ==> selected_paths(u, tab) == checked_paths(
            u.terminals[i].sftp_entries,
            u.terminals[i].sftp_entries.len() - 1,
        ).push(u.terminals[i].sftp_entries.last().full_path),
{
    law_first_of_its_name_is_found(state_ids(u.terminals), tab, i);
    let entries = u.terminals[i].sftp_entries;
    law_selected_paths_are_the_checked_ones(entries, entries.len() as int, k);
}

} // verus!
