//! Tabs: opening one for a session, duplicating it, and switching the theme of all of them.

use vstd::prelude::*;

use crate::apply::{
    applied, can_print, closed_hint, is_row_of, open_failed_hint, prints, reshown_at, showing,
    with_buffer, with_output, with_state, with_tab,
};
use crate::buffer::TermBuffer;
use crate::dialog::{connection_label, has_sftp, label_of};
use crate::events::EventView;
use crate::feed::{csi_after, retained, with_cup};
use crate::keys::utf8;
use crate::session::{Session, SessionKind, SessionView};
use crate::sidebar::{
    connecting_status, refresh_sidebar, sidebar_of, Sidebar, StatusView, SystemSnapshot, TabStatus,
};
use crate::term::{
    after_ingest, after_render, fresh, law_feeding_in_batches, rendered, renewed, selection_rects,
    TermView,
};
use crate::text::{same_text, t, tr};
use crate::ui::{
    buffer_tabs, connecting_state, find_id, law_first_of_its_name_is_found, panel_entries,
    panel_nodes, state_ids, status_tabs, tab_views, BufferEntry, BufferEntryView, StateView,
    StatusEntry, StatusEntryView, TabInfo, TabView, TerminalState, Ui, UiView,
};
use crate::vt::{byte_ops, grid_cols, grid_rows, lemma_bytes_keep};

verus! {

// ---- Opening --------------------------------------------------------------

/// The tab that the window opens with.
pub open spec fn welcome_tab(english: bool) -> TabView {
    TabView {
        id: "welcome"@,
        title: tr(english, "新标签页"@, "New tab"@),
        kind: "welcome"@,
        connected: false,
    }
}

/// The interface as it opens: the welcome tab alone, and active.
pub fn open_ui(english: bool) -> (u: Ui)
    ensures
        u.wf(),
        u@.tabs == seq![welcome_tab(english)],
        u@.panes.len() == 0,
        u@.terminals.len() == 0,
        u@.transfers.len() == 0,
        u@.statuses.len() == 0,
        u@.buffers.len() == 0,
        u@.active_tab == "welcome"@,
        u@.english == english,
{
    let tab = TabInfo {
        id: "welcome".to_owned(),
        title: t(english, "新标签页", "New tab"),
        kind: "welcome".to_owned(),
        connected: false,
    };
    let mut tabs: Vec<TabInfo> = Vec::new();
    tabs.push(tab);
    assert(tab_views(tabs@) =~= seq![welcome_tab(english)]);
    Ui {
        tabs,
        panes: Vec::new(),
        terminals: Vec::new(),
        transfers: Vec::new(),
        statuses: Vec::new(),
        buffers: Vec::new(),
        active_tab: "welcome".to_owned(),
        english,
    }
}

/// The statuses with that of one tab set.
pub open spec fn status_put(
    list: Seq<StatusEntryView>,
    e: StatusEntryView,
) -> Seq<StatusEntryView> {
    let i = find_id(status_tabs(list), e.tab, 0);
    if i < list.len() {
        list.update(i, e)
    } else {
        list.push(e)
    }
}

/// The terminals with that of one tab set.
pub open spec fn buffer_put(
    list: Seq<BufferEntryView>,
    e: BufferEntryView,
) -> Seq<BufferEntryView> {
    let i = find_id(buffer_tabs(list), e.tab, 0);
    if i < list.len() {
        list.update(i, e)
    } else {
        list.push(e)
    }
}

/// The interface with a tab opened for a session: it is connecting, its file panel is loading
/// where the session has one, and its terminal is new.
pub open spec fn with_new_tab(
    u: UiView,
    tab: Seq<char>,
    s: SessionView,
    collapsed: bool,
    is_dark: bool,
) -> UiView {
    UiView {
        tabs: u.tabs.push(
            TabView { id: tab, title: s.name, kind: "terminal"@, connected: false },
        ),
        terminals: u.terminals.push(
            connecting_state(tab, s.kind == SessionKind::Ssh, collapsed, u.english),
        ),
        statuses: status_put(
            u.statuses,
            StatusEntryView { tab: tab, status: connecting_status(label_of(s), s.id) },
        ),
        buffers: buffer_put(
            u.buffers,
            BufferEntryView { tab: tab, buffer: fresh(24, 80, is_dark) },
        ),
        ..u
    }
}

impl Ui {
    /// Open a tab for a session: register the tab, its terminal state, its status (so that the
    /// sidebar shows it connecting at once) and its terminal.
    pub fn open_session_tab(&mut self, tab: &str, s: &Session, collapsed: bool, is_dark: bool)
        requires
            old(self).wf(),
        ensures
            final(self).wf(),
            final(self)@ == with_new_tab(old(self)@, tab@, s@, collapsed, is_dark),
    {
        let ghost u0 = self@;
        let status = StatusEntry {
            tab: tab.to_owned(),
            status: TabStatus::connecting(connection_label(s), s.id.clone()),
        };
        let ghost status_view = StatusEntryView {
            tab: tab@,
            status: connecting_status(label_of(s@), s@.id),
        };
        let i: usize = self.status_at(tab);
        if i < self.statuses.len() {
            self.statuses[i] = status;
            assert(self@.statuses =~= u0.statuses.update(i as int, status_view));
        } else {
            self.statuses.push(status);
            assert(self@.statuses =~= u0.statuses.push(status_view));
        }
        let row = TabInfo {
            id: tab.to_owned(),
            title: s.name.clone(),
            kind: "terminal".to_owned(),
            connected: false,
        };
        self.tabs.push(row);
        assert(self@.tabs =~= u0.tabs.push(row@));
        let state = TerminalState::connecting(
            tab.to_owned(),
            has_sftp(s.kind),
            collapsed,
            self.english,
        );
        self.terminals.push(state);
        assert(self@.terminals =~= u0.terminals.push(state@));
        let entry = BufferEntry { tab: tab.to_owned(), buffer: TermBuffer::new(is_dark) };
        let ghost entry_view = BufferEntryView { tab: tab@, buffer: fresh(24, 80, is_dark) };
        let b: usize = self.buffer_at(tab);
        if b < self.buffers.len() {
            self.buffers[b] = entry;
            assert(self@.buffers =~= u0.buffers.update(b as int, entry_view));
        } else {
            self.buffers.push(entry);
            assert(self@.buffers =~= u0.buffers.push(entry_view));
        }
        assert(self@ =~= with_new_tab(u0, tab@, s@, collapsed, is_dark));
    }

    /// The saved session that a tab is connected to, to open another tab for it; nothing where
    /// the tab has none.
    pub fn session_of_tab(&self, tab: &str) -> (id: Option<String>)
        ensures
            ({
                let i = find_id(status_tabs(self@.statuses), tab@, 0);
                let known = i < self@.statuses.len() && self@.statuses[i].status.session_id.len()
                    > 0;
                &&& id is Some <==> known
                &&& id matches Some(s) ==> s@ == self@.statuses[i].status.session_id
            }),
            id matches Some(s) ==> s@.len() > 0 && exists|i: int|
                0 <= i < self@.statuses.len() && (#[trigger] self@.statuses[i]).tab == tab@
                    && self@.statuses[i].status.session_id == s@,
    {
        proof {
            lemma_find_id(status_tabs(self@.statuses), tab@, 0);
            let i = find_id(status_tabs(self@.statuses), tab@, 0);
            if i < self@.statuses.len() {
                assert(self@.statuses[i].tab == tab@);
            }
        }
        let i: usize = self.status_at(tab);
        if i < self.statuses.len() {
            let st = &self.statuses[i].status;
            assert(self@.statuses[i as int].status == st@);
            if !st.session_id.as_str().is_empty() {
                return Some(st.session_id.clone());
            }
        }
        None
    }
}

// ---- Language -------------------------------------------------------------

/// The tabs with every welcome tab titled in a language.
pub open spec fn retitled(tabs: Seq<TabView>, english: bool) -> Seq<TabView> {
    tabs.map_values(
        |tab: TabView|
            if tab.id == "welcome"@ {
                TabView { title: tr(english, "新标签页"@, "New tab"@), ..tab }
            } else {
                tab
            },
    )
}

impl Ui {
    /// Switch the language: the welcome tab's title is translated anew.
    pub fn set_language(&mut self, english: bool)
        requires
            old(self).wf(),
        ensures
            final(self).wf(),
            final(self)@ == (UiView {
                english: english,
                tabs: retitled(old(self)@.tabs, english),
                ..old(self)@
            }),
    {
        let ghost u0 = self@;
        self.english = english;
        let ghost want = retitled(u0.tabs, english);
        let ghost buffers0 = self.buffers@;
        let n: usize = self.tabs.len();
        let mut i: usize = 0;
        while i < n
            invariant
                n == self.tabs@.len(),
                n == u0.tabs.len(),
                i <= n,
                want == retitled(u0.tabs, english),
                self.buffers@ == buffers0,
                self@ == (UiView { english: english, tabs: self@.tabs, ..u0 }),
                forall|k: int| 0 <= k < i ==> (#[trigger] self.tabs@[k])@ == want[k],
                forall|k: int| i <= k < n ==> (#[trigger] self.tabs@[k])@ == u0.tabs[k],
            decreases n - i,
        {
            if same_text(self.tabs[i].id.as_str(), "welcome") {
                self.tabs[i].title = t(english, "新标签页", "New tab");
            }
            i += 1;
        }
        assert(self@.tabs =~= want);
    }
}

// ---- Theme ----------------------------------------------------------------

/// The interface with the terminals from `i` on shown anew, each in its tab.
pub open spec fn reshown(u: UiView, i: int) -> UiView
    decreases u.buffers.len() - i,
{
    if i < 0 || i >= u.buffers.len() {
        u
    } else {
        let x = reshown_at(u, i);
        if x.buffers.len() == u.buffers.len() {
            reshown(x, i + 1)
        } else {
            x
        }
    }
}

/// The terminals with their theme set.
pub open spec fn recoloured(list: Seq<BufferEntryView>, dark: bool) -> Seq<BufferEntryView> {
    list.map_values(
        |e: BufferEntryView|
            BufferEntryView { buffer: TermView { is_dark: dark, ..e.buffer }, ..e },
    )
}

impl Ui {
    /// Recompute what one tab shows of its terminal; nothing happens where it has none.
    pub fn rebuild_tab(&mut self, tab: &str)
        requires
            old(self).wf(),
        ensures
            final(self).wf(),
            ({
                let b = find_id(buffer_tabs(old(self)@.buffers), tab@, 0);
                final(self)@ == (if b < old(self)@.buffers.len() {
                    reshown_at(old(self)@, b)
                } else {
                    old(self)@
                })
            }),
    {
        let b: usize = self.buffer_at(tab);
        if b < self.buffers.len() {
            self.reshow(b);
        }
    }

    /// Renew the terminal of a tab where its emulator was made smaller, so that it can take any
    /// byte; nothing happens where the tab has none.
    pub fn renew_terminal(&mut self, tab: &str)
        requires
            old(self).wf(),
        ensures
            final(self).wf(),
            ({
                let b = find_id(buffer_tabs(old(self)@.buffers), tab@, 0);
                final(self)@ == (if b < old(self)@.buffers.len() {
                    with_buffer(old(self)@, b, renewed(old(self)@.buffers[b].buffer))
                } else {
                    old(self)@
                })
            }),
            can_print(final(self)@, tab@),
    {
        let ghost u0 = self@;
        let b: usize = self.buffer_at(tab);
        if b < self.buffers.len() {
            let ghost v = renewed(u0.buffers[b as int].buffer);
            assert(u0.buffers[b as int].buffer == self.buffers@[b as int].buffer@);
            self.buffers[b].buffer.renew();
            assert(self@.buffers =~= with_buffer(u0, b as int, v).buffers);
            assert(self@ =~= with_buffer(u0, b as int, v));
            assert(buffer_tabs(self@.buffers) =~= buffer_tabs(u0.buffers));
        }
    }

    /// Flip every terminal between light and dark, and show it anew: each one bakes its colours
    /// at render time, so that setting the theme of the window alone would recolour nothing in
    /// it.
    pub fn apply_dark_mode(&mut self, dark: bool)
        requires
            old(self).wf(),
        ensures
            final(self).wf(),
            final(self)@ == reshown(
                UiView { buffers: recoloured(old(self)@.buffers, dark), ..old(self)@ },
                0,
            ),
    {
        let ghost u0 = self@;
        let n: usize = self.buffers.len();
        let ghost want = recoloured(u0.buffers, dark);
        let mut i: usize = 0;
        while i < n
            invariant
                n == self.buffers@.len(),
                n == u0.buffers.len(),
                i <= n,
                self.wf(),
                want == recoloured(u0.buffers, dark),
                self@ == (UiView { buffers: self@.buffers, ..u0 }),
                forall|k: int| 0 <= k < i ==> #[trigger] self@.buffers[k] == want[k],
                forall|k: int| i <= k < n ==> #[trigger] self@.buffers[k] == u0.buffers[k],
            decreases n - i,
        {
            let ghost before = self@.buffers;
            assert(before[i as int] == u0.buffers[i as int]);
            self.buffers[i].buffer.set_dark(dark);
            assert(self@.buffers =~= before.update(i as int, want[i as int]));
            i += 1;
        }
        assert(self@.buffers =~= want);
        let ghost u1 = UiView { buffers: want, ..u0 };
        assert(self@ =~= u1);
        let mut k: usize = 0;
        while k < n
            invariant
                n == self.buffers@.len(),
                k <= n,
                self.wf(),
                reshown(self@, k as int) == reshown(u1, 0),
            decreases n - k,
        {
            self.reshow(k);
            k += 1;
        }
    }
}

// ---- The sidebar of the active tab ----------------------------------------

/// The status of the active tab: none on the welcome tab, or where none is known.
pub open spec fn active_status(u: UiView) -> Option<StatusView> {
    let i = find_id(status_tabs(u.statuses), u.active_tab, 0);
    if u.active_tab == "welcome"@ || i >= u.statuses.len() {
        None
    } else {
        Some(u.statuses[i].status)
    }
}

impl Ui {
    /// The sidebar for whichever tab is active: the local machine on the welcome tab, and that
    /// server on a session tab.
    pub fn sidebar(&self, snap: &SystemSnapshot, local_net_hist: &Vec<u64>) -> (r: Sidebar)
        ensures
            r@ == sidebar_of(active_status(self@), *snap, local_net_hist@, self@.english),
    {
        if same_text(self.active_tab.as_str(), "welcome") {
            return refresh_sidebar(None, snap, local_net_hist, self.english);
        }
        let i: usize = self.status_at(self.active_tab.as_str());
        if i < self.statuses.len() {
            let st = &self.statuses[i].status;
            assert(self@.statuses[i as int].status == st@);
            refresh_sidebar(Some(st), snap, local_net_hist, self.english)
        } else {
            refresh_sidebar(None, snap, local_net_hist, self.english)
        }
    }
}

// ---- Laws -----------------------------------------------------------------

/// Right after a tab was opened for a session, the sidebar shows it connecting.
pub proof fn law_new_tab_is_connecting(
    u: UiView,
    tab: Seq<char>,
    s: SessionView,
    collapsed: bool,
    is_dark: bool,
)
    requires
        tab != "welcome"@,
    ensures
        ({
            let after = UiView {
                active_tab: tab,
                ..with_new_tab(u, tab, s, collapsed, is_dark)
            };
            active_status(after) == Some(connecting_status(label_of(s), s.id))
        }),
{
    let e = StatusEntryView { tab: tab, status: connecting_status(label_of(s), s.id) };
    let i = find_id(status_tabs(u.statuses), tab, 0);
    lemma_find_id(status_tabs(u.statuses), tab, 0);
    let after = status_put(u.statuses, e);
    if i < u.statuses.len() {
        assert(status_tabs(after) =~= status_tabs(u.statuses));
    } else {
        lemma_find_last(status_tabs(u.statuses), tab, 0);
        assert(status_tabs(after) =~= status_tabs(u.statuses).push(tab));
    }
}

/// What is found is where it was found, and before it there is none.
pub proof fn lemma_find_id(ids: Seq<Seq<char>>, id: Seq<char>, i: int)
    requires
        0 <= i <= ids.len(),
    ensures
        i <= find_id(ids, id, i) <= ids.len(),
        find_id(ids, id, i) < ids.len() ==> ids[find_id(ids, id, i)] == id,
        forall|k: int| i <= k < find_id(ids, id, i) ==> ids[k] != id,
    decreases ids.len() - i,
{
    if i < ids.len() && ids[i] != id {
        lemma_find_id(ids, id, i + 1);
    }
}

/// What was not found is found where it is added.
proof fn lemma_find_last(ids: Seq<Seq<char>>, id: Seq<char>, i: int)
    requires
        0 <= i <= ids.len(),
        find_id(ids, id, i) == ids.len(),
    ensures
        find_id(ids.push(id), id, i) == ids.len(),
    decreases ids.len() - i,
{
    if i < ids.len() {
        lemma_find_id(ids, id, i);
        assert(ids.push(id)[i] == ids[i]);
        lemma_find_last(ids, id, i + 1);
    } else {
        assert(ids.push(id)[i] == id);
    }
}

/// An event changes what its own tab shows and nothing of any other tab's terminal.
pub proof fn law_events_stay_in_their_tab(
    u: UiView,
    tab: Seq<char>,
    e: EventView,
    k: int,
)
    requires
        0 <= k < u.buffers.len(),
        u.buffers[k].tab != tab,
    ensures
        applied(u, tab, e).buffers.len() == u.buffers.len(),
        applied(u, tab, e).buffers[k] == u.buffers[k],
{
    lemma_find_id(buffer_tabs(u.buffers), tab, 0);
    assert(buffer_tabs(u.buffers)[k] == u.buffers[k].tab);
}

/// Output keeps a terminal able to take any byte.
proof fn lemma_output_keeps_printing(u: UiView, tab: Seq<char>, text: Seq<char>, other: Seq<char>)
    requires
        can_print(u, other),
        can_print(u, tab),
    ensures
        can_print(with_output(u, tab, text), other),
        buffer_tabs(with_output(u, tab, text).buffers) == buffer_tabs(u.buffers),
{
    let i = find_id(buffer_tabs(u.buffers), tab, 0);
    if i < u.buffers.len() {
        lemma_find_id(buffer_tabs(u.buffers), tab, 0);
        let v = u.buffers[i].buffer;
        let bytes = with_cup(v.csi_state, utf8(text));
        let w = TermView {
            csi_state: csi_after(v.csi_state, utf8(text)),
            raw: retained(v.raw + bytes),
            ..v
        };
        law_feeding_in_batches(w, bytes);
        lemma_bytes_keep(v.log, bytes);
        let after = with_output(u, tab, text).buffers;
        assert(buffer_tabs(after) =~= buffer_tabs(u.buffers));
        assert(after[i].buffer.log == v.log + byte_ops(bytes));
        let k = find_id(buffer_tabs(u.buffers), other, 0);
        lemma_find_id(buffer_tabs(u.buffers), other, 0);
        if k < u.buffers.len() && k != i {
            assert(after[k] == u.buffers[k]);
        }
    }
}

/// No event makes a terminal unable to take bytes: what could be printed before can be printed
/// after.
pub proof fn law_events_keep_printing(
    u: UiView,
    tab: Seq<char>,
    e: EventView,
    other: Seq<char>,
)
    requires
        can_print(u, other),
        prints(e) ==> can_print(u, tab),
    ensures
        can_print(applied(u, tab, e), other),
{
    match e {
        EventView::Output(s) => {
            lemma_output_keeps_printing(u, tab, s, other);
        },
        EventView::Closed(reason) => {
            lemma_output_keeps_printing(u, tab, closed_hint(u.english), other);
        },
        EventView::SftpFileText(f) => {
            if f.error.len() > 0 {
                lemma_output_keeps_printing(u, tab, open_failed_hint(f, u.english), other);
            }
        },
        _ => {},
    }
}

/// Changing what one tab shows keeps the rows of the others, and keeps which row is whose.
proof fn lemma_with_state(u: UiView, tab: Seq<char>, f: spec_fn(StateView) -> StateView, k: int)
    requires
        0 <= k < u.terminals.len(),
        u.terminals[k].id != tab,
        forall|r: StateView| (#[trigger] f(r)).id == r.id,
    ensures
        with_state(u, tab, f).terminals.len() == u.terminals.len(),
        with_state(u, tab, f).terminals[k] == u.terminals[k],
{
    let ids = state_ids(u.terminals);
    lemma_find_id(ids, tab, 0);
    assert(ids[k] == u.terminals[k].id);
}

/// Output for a tab keeps the rows of the others.
proof fn lemma_with_output(u: UiView, tab: Seq<char>, text: Seq<char>, k: int)
    requires
        0 <= k < u.terminals.len(),
        u.terminals[k].id != tab,
    ensures
        with_output(u, tab, text).terminals.len() == u.terminals.len(),
        with_output(u, tab, text).terminals[k] == u.terminals[k],
{
    let i = find_id(buffer_tabs(u.buffers), tab, 0);
    if i < u.buffers.len() {
        let v = after_ingest(u.buffers[i].buffer, utf8(text));
        let w = with_buffer(with_buffer(u, i, v), i, after_render(v));
        let f = |row: StateView| showing(row, v);
        assert forall|r: StateView| (#[trigger] f(r)).id == r.id by {}
        lemma_find_id(buffer_tabs(u.buffers), tab, 0);
        assert(buffer_tabs(u.buffers)[i] == u.buffers[i].tab);
        lemma_with_state(w, tab, f, k);
    }
}

/// An event changes no row of another tab.
pub proof fn law_events_keep_other_rows(u: UiView, tab: Seq<char>, e: EventView, k: int)
    requires
        0 <= k < u.terminals.len(),
        u.terminals[k].id != tab,
    ensures
        applied(u, tab, e).terminals.len() == u.terminals.len(),
        applied(u, tab, e).terminals[k] == u.terminals[k],
{
    match e {
        EventView::Status(s) => {
            lemma_with_state(u, tab, |r: StateView| StateView { status: s, ..r }, k);
        },
        EventView::Output(s) => {
            lemma_with_output(u, tab, s, k);
        },
        EventView::Connected => {
            lemma_with_state(
                with_tab(u, tab, true),
                tab,
                |r: StateView| StateView { status: tr(u.english, "已连接"@, "Connected"@), ..r },
                k,
            );
        },
        EventView::Closed(reason) => {
            lemma_with_output(u, tab, closed_hint(u.english), k);
            lemma_with_state(
                with_tab(with_output(u, tab, closed_hint(u.english)), tab, false),
                tab,
                |r: StateView|
                    StateView {
                        status: tr(u.english, "已断开"@, "Disconnected"@) + " — "@ + reason,
                        ..r
                    },
                k,
            );
        },
        EventView::CwdChanged(path) => {
            lemma_with_state(
                u,
                tab,
                |r: StateView| StateView { sftp_path: path, sftp_loading: true, ..r },
                k,
            );
        },
        EventView::SftpEntries { path, entries } => {
            lemma_with_state(
                u,
                tab,
                |r: StateView|
                    StateView {
                        sftp_path: path,
                        sftp_entries: panel_entries(entries),
                        sftp_loading: false,
                        ..r
                    },
                k,
            );
        },
        EventView::SftpStatus(s) => {
            lemma_with_state(u, tab, |r: StateView| StateView { sftp_status: s, ..r }, k);
        },
        EventView::SftpError(s) => {
            lemma_with_state(
                u,
                tab,
                |r: StateView| StateView { sftp_status: s, sftp_loading: false, ..r },
                k,
            );
        },
        EventView::SftpFileText(f) => {
            if f.error.len() > 0 {
                lemma_with_output(u, tab, open_failed_hint(f, u.english), k);
                lemma_with_state(
                    with_output(u, tab, open_failed_hint(f, u.english)),
                    tab,
                    |r: StateView| StateView { sftp_status: f.error, ..r },
                    k,
                );
            }
        },
        EventView::SftpTreeUpdate(nodes) => {
            lemma_with_state(
                u,
                tab,
                |r: StateView| StateView { sftp_tree_nodes: panel_nodes(nodes), ..r },
                k,
            );
        },
        _ => {},
    }
}

/// Opening a tab for a session adds one tab at the end, named after the session and not yet
/// connected, with a panel that loads for SSH only; its status says where it leads and to which
/// session it belongs, and its terminal is new. Nothing else changes.
pub proof fn law_new_tab(
    u: UiView,
    tab: Seq<char>,
    s: SessionView,
    collapsed: bool,
    is_dark: bool,
    k: int,
)
    ensures
        ({
            let x = with_new_tab(u, tab, s, collapsed, is_dark);
            let n = u.tabs.len() as int;
            let m = u.terminals.len() as int;
            &&& x.tabs.len() == n + 1
            &&& 0 <= k < n ==> x.tabs[k] == u.tabs[k]
            &&& x.tabs[n].id == tab && x.tabs[n].title == s.name && !x.tabs[n].connected
            &&& x.terminals.len() == m + 1
            &&& 0 <= k < m ==> x.terminals[k] == u.terminals[k]
            &&& x.terminals[m].id == tab
            &&& x.terminals[m].sftp_loading <==> s.kind == SessionKind::Ssh
            &&& x.terminals[m].sftp_collapsed == collapsed
            &&& exists|i: int|
                0 <= i < x.statuses.len() && (#[trigger] x.statuses[i]).tab == tab
                    && x.statuses[i].status.session_id == s.id && x.statuses[i].status.host
                    == label_of(s) && x.statuses[i].status.state == 0
                    && x.statuses[i].status.disks.len() == 0
            &&& exists|i: int|
                0 <= i < x.buffers.len() && (#[trigger] x.buffers[i]).tab == tab
                    && grid_rows(x.buffers[i].buffer.log) == 24 && grid_cols(
                    x.buffers[i].buffer.log,
                ) == 80 && x.buffers[i].buffer.is_dark == is_dark && x.buffers[i].buffer.history.len()
                    == 0 && x.buffers[i].buffer.raw.len() == 0
            &&& 0 <= k < u.statuses.len() && u.statuses[k].tab != tab ==> x.statuses[k]
                == u.statuses[k]
            &&& 0 <= k < u.buffers.len() && u.buffers[k].tab != tab ==> x.buffers[k] == u.buffers[k]
            &&& x.transfers == u.transfers && x.panes == u.panes && x.active_tab == u.active_tab
                && x.english == u.english
        }),
{
    let x = with_new_tab(u, tab, s, collapsed, is_dark);
    let i = find_id(status_tabs(u.statuses), tab, 0);
    let b = find_id(buffer_tabs(u.buffers), tab, 0);
    lemma_find_id(status_tabs(u.statuses), tab, 0);
    lemma_find_id(buffer_tabs(u.buffers), tab, 0);
    assert(x.statuses[i].tab == tab);
    assert(x.buffers[b].tab == tab);
    if i < u.statuses.len() {
        assert(u.statuses[i].tab == tab);
    }
    if b < u.buffers.len() {
        assert(u.buffers[b].tab == tab);
    }
}

/// Switching the language renames the welcome tab, and no other.
pub proof fn law_language_renames_the_welcome_tab(tabs: Seq<TabView>, english: bool, k: int)
    requires
        0 <= k < tabs.len(),
    ensures
        retitled(tabs, english).len() == tabs.len(),
        tabs[k].id != "welcome"@ ==> retitled(tabs, english)[k] == tabs[k],
        tabs[k].id == "welcome"@ ==> retitled(tabs, english)[k] == (TabView {
            title: if english {
                "New tab"@
            } else {
                "新标签页"@
            },
            ..tabs[k]
        }),
{
}

proof fn lemma_reshown_at(u: UiView, i: int, k: int, r: int)
    requires
        0 <= i < u.buffers.len(),
        0 <= k < u.buffers.len(),
        i != k ==> u.buffers[i].tab != u.buffers[k].tab,
        is_row_of(state_ids(u.terminals), u.buffers[k].tab, r),
    ensures
        ({
            let x = reshown_at(u, i);
            &&& x.buffers.len() == u.buffers.len()
            &&& forall|j: int|
                0 <= j < u.buffers.len() ==> (#[trigger] x.buffers[j]).tab == u.buffers[j].tab && (j
                    != i ==> x.buffers[j] == u.buffers[j])
            &&& x.buffers[i].buffer == after_render(u.buffers[i].buffer)
            &&& state_ids(x.terminals) == state_ids(u.terminals)
            &&& x.terminals.len() == u.terminals.len()
            &&& i != k ==> x.terminals[r] == u.terminals[r]
            &&& i == k ==> x.terminals[r] == showing(u.terminals[r], u.buffers[i].buffer)
        }),
{
    let x = reshown_at(u, i);
    let f = find_id(state_ids(u.terminals), u.buffers[i].tab, 0);
    lemma_find_id(state_ids(u.terminals), u.buffers[i].tab, 0);
    law_first_of_its_name_is_found(state_ids(u.terminals), u.buffers[k].tab, r);
    if f < u.terminals.len() {
        assert(state_ids(u.terminals)[f] == u.buffers[i].tab);
    }
    assert(state_ids(x.terminals) =~= state_ids(u.terminals));
}

proof fn lemma_reshown(u: UiView, i: int, k: int, r: int)
    requires
        0 <= i <= u.buffers.len(),
        0 <= k < u.buffers.len(),
        forall|j: int|
            0 <= j < u.buffers.len() && j != k ==> (#[trigger] u.buffers[j]).tab
                != u.buffers[k].tab,
        is_row_of(state_ids(u.terminals), u.buffers[k].tab, r),
    ensures
        ({
            let x = reshown(u, i);
            &&& x.buffers.len() == u.buffers.len()
            &&& x.terminals.len() == u.terminals.len()
            &&& x.buffers[k].tab == u.buffers[k].tab
            &&& x.buffers[k].buffer == if k >= i {
                after_render(u.buffers[k].buffer)
            } else {
                u.buffers[k].buffer
            }
            &&& x.terminals[r] == if k >= i {
                showing(u.terminals[r], u.buffers[k].buffer)
            } else {
                u.terminals[r]
            }
        }),
    decreases u.buffers.len() - i,
{
    if i < u.buffers.len() {
        let x = reshown_at(u, i);
        lemma_reshown_at(u, i, k, r);
        assert forall|j: int| 0 <= j < x.buffers.len() && j != k implies (#[trigger] x.buffers[j]).tab
            != x.buffers[k].tab by {
            assert(u.buffers[j].tab != u.buffers[k].tab);
        }
        lemma_reshown(x, i + 1, k, r);
    }
}

/// Switching the theme recolours every terminal: each keeps all it holds but for the theme, and
/// its tab's row shows it in the new colours.
pub proof fn law_theme_recolours_every_terminal(u: UiView, dark: bool, k: int, r: int)
    requires
        0 <= k < u.buffers.len(),
        forall|j: int|
            0 <= j < u.buffers.len() && j != k ==> (#[trigger] u.buffers[j]).tab
                != u.buffers[k].tab,
        is_row_of(state_ids(u.terminals), u.buffers[k].tab, r),
    ensures
        ({
            let x = reshown(UiView { buffers: recoloured(u.buffers, dark), ..u }, 0);
            let v = TermView { is_dark: dark, ..u.buffers[k].buffer };
            let row = x.terminals[r];
            &&& x.buffers.len() == u.buffers.len()
            &&& x.buffers[k].tab == u.buffers[k].tab
            &&& x.buffers[k].buffer == (TermView { displayed: after_render(v).displayed, ..v })
            &&& row.spans == rendered(v).spans
            &&& row.cursor_row == rendered(v).cursor_row
            &&& row.scroll_max == rendered(v).scroll_max
            &&& row.selection == selection_rects(v, grid_cols(v.log))
            &&& row.status == u.terminals[r].status
            &&& row.sftp_path == u.terminals[r].sftp_path
        }),
{
    let w = UiView { buffers: recoloured(u.buffers, dark), ..u };
    assert forall|j: int| 0 <= j < w.buffers.len() && j != k implies (#[trigger] w.buffers[j]).tab
        != w.buffers[k].tab by {
        assert(u.buffers[j].tab != u.buffers[k].tab);
    }
    lemma_reshown(w, 0, k, r);
}

/// The sidebar goes by the status of the active tab; by none on the welcome tab, and by none
/// where the active tab has no status.
pub proof fn law_sidebar_goes_by_the_active_tab(u: UiView, s: int)
    ensures
        u.active_tab != "welcome"@ && is_row_of(status_tabs(u.statuses), u.active_tab, s)
            ==> active_status(u) == Some(u.statuses[s].status),
        u.active_tab == "welcome"@ ==> active_status(u) is None,
        (forall|i: int| 0 <= i < u.statuses.len() ==> (#[trigger] u.statuses[i]).tab
            != u.active_tab) ==> active_status(u) is None,
{
    let ids = status_tabs(u.statuses);
    if is_row_of(ids, u.active_tab, s) {
        law_first_of_its_name_is_found(ids, u.active_tab, s);
    }
    lemma_find_id(ids, u.active_tab, 0);
    let f = find_id(ids, u.active_tab, 0);
    if f < u.statuses.len() {
        assert(u.statuses[f].tab == u.active_tab);
    }
}

} // verus!
