//! Applying session events to the interface.

use vstd::prelude::*;

use crate::buffer::rebuild_tab_display;
use crate::events::{
    entry_views, tree_views, EventView, FileText, FileTextView, RemoteEntry, ResourceSample,
    SampleView, SessionEvent, TreeNode, UpdateView,
};
use crate::grid::find_matches;
use crate::keys::{line_breaks, line_numbers_for, numbered, utf8};
use crate::sidebar::{driving_iface, push_ring, ring_push, selected_iface, StatusView};
use crate::tabs::lemma_find_id;
use crate::term::{after_ingest, after_render, rendered, selection_rects, TermView};
use crate::text::{push_tr, same_text, t, tr};
use crate::ui::{
    buffer_tabs, find_id, law_first_of_its_name_is_found, make_entries, make_nodes, pane_views,
    panel_entries, panel_nodes, record_transfer, set_connected, state_ids, status_tabs, tab_ids,
    tab_views, transfer_ids, transfer_row, with_connected, with_transfer, BufferEntryView,
    StateView, StatusEntryView, TabView, Ui, UiView,
};
use crate::vt::{grid_cols, grid_rows, steady};

verus! {

// ---- Changes --------------------------------------------------------------

/// The interface with what one terminal tab shows changed.
pub open spec fn with_state(
    u: UiView,
    tab: Seq<char>,
    f: spec_fn(StateView) -> StateView,
) -> UiView {
    let i = find_id(state_ids(u.terminals), tab, 0);
    if i < u.terminals.len() {
        UiView { terminals: u.terminals.update(i, f(u.terminals[i])), ..u }
    } else {
        u
    }
}

/// The interface with the status of one tab changed.
pub open spec fn with_status(
    u: UiView,
    tab: Seq<char>,
    f: spec_fn(StatusView) -> StatusView,
) -> UiView {
    let i = find_id(status_tabs(u.statuses), tab, 0);
    if i < u.statuses.len() {
        UiView {
            statuses: u.statuses.update(
                i,
                StatusEntryView { tab: u.statuses[i].tab, status: f(u.statuses[i].status) },
            ),
            ..u
        }
    } else {
        u
    }
}

/// The interface with a tab marked as connected or not, in the tab strip and in every pane.
pub open spec fn with_tab(u: UiView, tab: Seq<char>, connected: bool) -> UiView {
    UiView {
        tabs: with_connected(u.tabs, tab, connected),
        panes: u.panes.map_values(|p: Seq<TabView>| with_connected(p, tab, connected)),
        ..u
    }
}

/// What a terminal tab shows of its terminal.
pub open spec fn showing(row: StateView, v: TermView) -> StateView {
    let b = rendered(v);
    StateView {
        spans: b.spans,
        cursor_row: b.cursor_row,
        cursor_col: b.cursor_col,
        rows_used: b.rows_used,
        is_alt_screen: b.is_alt,
        scroll_max: b.scroll_max,
        scroll_offset: b.scroll_offset,
        find_matches: find_matches(
            after_render(v).displayed,
            v.find_query,
            grid_rows(v.log) as int,
        ),
        selection: selection_rects(v, grid_cols(v.log)),
        ..row
    }
}

/// The interface with one terminal shown anew in its tab.
pub open spec fn reshown_at(u: UiView, i: int) -> UiView {
    let v = u.buffers[i].buffer;
    let w = with_buffer(u, i, after_render(v));
    with_state(w, u.buffers[i].tab, |row: StateView| showing(row, v))
}

/// The interface with one terminal replaced.
pub open spec fn with_buffer(u: UiView, i: int, v: TermView) -> UiView {
    UiView {
        buffers: u.buffers.update(i, BufferEntryView { tab: u.buffers[i].tab, buffer: v }),
        ..u
    }
}

/// The interface after output for a tab: its terminal takes the bytes, and the tab shows it. A
/// tab without a terminal shows nothing of it.
pub open spec fn with_output(u: UiView, tab: Seq<char>, text: Seq<char>) -> UiView {
    let i = find_id(buffer_tabs(u.buffers), tab, 0);
    if i < u.buffers.len() {
        reshown_at(with_buffer(u, i, after_ingest(u.buffers[i].buffer, utf8(text))), i)
    } else {
        u
    }
}

/// Whether the terminal of a tab, if it has one, can take any byte: its emulator was not made
/// smaller.
pub open spec fn can_print(u: UiView, tab: Seq<char>) -> bool {
    let i = find_id(buffer_tabs(u.buffers), tab, 0);
    i < u.buffers.len() ==> steady(u.buffers[i].buffer.log)
}

/// Whether an event prints something into the terminal of its tab.
pub open spec fn prints(e: EventView) -> bool {
    match e {
        EventView::Output(s) => true,
        EventView::Closed(reason) => true,
        EventView::SftpFileText(f) => f.error.len() > 0,
        _ => false,
    }
}

/// The hint printed into a terminal whose connection was lost.
pub open spec fn closed_hint(english: bool) -> Seq<char> {
    "\r\n\x1b[31m"@ + tr(
        english,
        "连接已断开,按 Enter 重新连接"@,
        "Disconnected — press Enter to reconnect"@,
    ) + "\x1b[0m\r\n"@
}

/// The reason printed into a terminal when a file cannot be opened as text.
pub open spec fn open_failed_hint(f: FileTextView, english: bool) -> Seq<char> {
    "\r\n[meatshell] "@ + tr(english, "无法打开"@, "Cannot open"@) + " "@ + f.name + ": "@ + f.error
        + "\r\n"@
}

/// The sum of two rates, as far as a machine word holds it.
pub open spec fn rate_sum(rx: u64, tx: u64) -> u64 {
    if rx + tx <= u64::MAX {
        (rx + tx) as u64
    } else {
        u64::MAX
    }
}

/// The status of a tab after a sample: the channel is alive, so that the tab is connected, and
/// the total rate of the driving interface joins its sparkline.
pub open spec fn sampled(st: StatusView, s: SampleView) -> StatusView {
    let iface = driving_iface(s.net, st.selected_iface);
    StatusView {
        cpu_bits: s.cpu_bits,
        mem_used_kib: s.mem_used_kib,
        mem_total_kib: s.mem_total_kib,
        swap_used_kib: s.swap_used_kib,
        swap_total_kib: s.swap_total_kib,
        net: s.net,
        disks: s.disks,
        procs: s.procs,
        state: 1,
        net_hist: ring_push(st.net_hist, rate_sum(iface.rx, iface.tx)),
        ..st
    }
}

/// The interface after an event for a tab.
pub open spec fn applied(u: UiView, tab: Seq<char>, e: EventView) -> UiView {
    match e {
        EventView::Status(s) => with_state(u, tab, |r: StateView| StateView { status: s, ..r }),
        EventView::Output(s) => with_output(u, tab, s),
        EventView::Connected => with_status(
            with_state(
                with_tab(u, tab, true),
                tab,
                |r: StateView| StateView { status: tr(u.english, "已连接"@, "Connected"@), ..r },
            ),
            tab,
            |st: StatusView| StatusView { state: 1, ..st },
        ),
        EventView::Closed(reason) => with_status(
            with_state(
                with_tab(with_output(u, tab, closed_hint(u.english)), tab, false),
                tab,
                |r: StateView|
                    StateView {
                        status: tr(u.english, "已断开"@, "Disconnected"@) + " — "@ + reason,
                        ..r
                    },
            ),
            tab,
            |st: StatusView| StatusView { state: 2, ..st },
        ),
        EventView::ResourceStats(s) => with_status(u, tab, |st: StatusView| sampled(st, s)),
        EventView::CwdChanged(path) => with_state(
            u,
            tab,
            |r: StateView| StateView { sftp_path: path, sftp_loading: true, ..r },
        ),
        EventView::SftpEntries { path, entries } => with_state(
            u,
            tab,
            |r: StateView|
                StateView {
                    sftp_path: path,
                    sftp_entries: panel_entries(entries),
                    sftp_loading: false,
                    ..r
                },
        ),
        EventView::SftpStatus(s) => with_state(
            u,
            tab,
            |r: StateView| StateView { sftp_status: s, ..r },
        ),
        EventView::SftpError(s) => with_state(
            u,
            tab,
            |r: StateView| StateView { sftp_status: s, sftp_loading: false, ..r },
        ),
        EventView::SftpFileText(f) => if f.error.len() == 0 {
            u
        } else {
            with_state(
                with_output(u, tab, open_failed_hint(f, u.english)),
                tab,
                |r: StateView| StateView { sftp_status: f.error, ..r },
            )
        },
        EventView::SftpTreeUpdate(nodes) => with_state(
            u,
            tab,
            |r: StateView| StateView { sftp_tree_nodes: panel_nodes(nodes), ..r },
        ),
        EventView::SftpTransfer(t) => UiView {
            transfers: with_transfer(u.transfers, transfer_row(t, u.english)),
            ..u
        },
        EventView::Prompt(ticket) => u,
        EventView::CommandRan(cmd) => u,
    }
}

// ---- Effects --------------------------------------------------------------

/// A file to show in the built-in viewer/editor.
pub struct EditorFile {
    pub path: String,
    pub name: String,
    pub content: String,
    pub line_numbers: String,
    pub readonly: bool,
}

/// What an event asks for beyond its changes.
pub enum Effect {
    Nothing,
    RefreshSidebar,
    OpenEditor(EditorFile),
    AskUser(u64),
    RecordCommand(String),
}

/// What an event asks for beyond its changes.
pub ghost enum EffectView {
    Nothing,
    RefreshSidebar,
    OpenEditor {
        path: Seq<char>,
        name: Seq<char>,
        content: Seq<char>,
        line_numbers: Seq<char>,
        readonly: bool,
    },
    AskUser(u64),
    RecordCommand(Seq<char>),
}

impl View for Effect {
    type V = EffectView;

    open spec fn view(&self) -> EffectView {
        match self {
            Effect::Nothing => EffectView::Nothing,
            Effect::RefreshSidebar => EffectView::RefreshSidebar,
            Effect::OpenEditor(f) => EffectView::OpenEditor {
                path: f.path@,
                name: f.name@,
                content: f.content@,
                line_numbers: f.line_numbers@,
                readonly: f.readonly,
            },
            Effect::AskUser(n) => EffectView::AskUser(*n),
            Effect::RecordCommand(s) => EffectView::RecordCommand(s@),
        }
    }
}

/// What an event asks for: connection changes and samples of the active tab refresh the sidebar,
/// a file that could be read opens the editor, prompts ask, and commands are recorded.
pub open spec fn effect_of(u: UiView, tab: Seq<char>, e: EventView) -> EffectView {
    let refresh = if u.active_tab == tab {
        EffectView::RefreshSidebar
    } else {
        EffectView::Nothing
    };
    match e {
        EventView::Connected => refresh,
        EventView::Closed(reason) => refresh,
        EventView::ResourceStats(s) => refresh,
        EventView::SftpFileText(f) => if f.error.len() == 0 {
            EffectView::OpenEditor {
                path: f.path,
                name: f.name,
                content: f.content,
                line_numbers: numbered(line_breaks(f.content) + 1),
                readonly: !f.edit,
            }
        } else {
            EffectView::Nothing
        },
        EventView::Prompt(ticket) => EffectView::AskUser(ticket),
        EventView::CommandRan(cmd) => EffectView::RecordCommand(cmd),
        _ => EffectView::Nothing,
    }
}

impl Ui {
    /// Marks a tab as connected or not, in the tab strip and in every pane.
    fn mark_tab(&mut self, tab: &str, connected: bool)
        requires
            old(self).wf(),
        ensures
            final(self).wf(),
            final(self)@ == with_tab(old(self)@, tab@, connected),
    {
        let ghost u0 = self@;
        set_connected(&mut self.tabs, tab, connected);
        let ghost panes0 = self.panes@;
        let ghost want = u0.panes.map_values(
            |p: Seq<TabView>| with_connected(p, tab@, connected),
        );
        let n: usize = self.panes.len();
        let ghost buffers0 = self.buffers@;
        let mut i: usize = 0;
        while i < n
            invariant
                n == self.panes@.len(),
                n == panes0.len(),
                i <= n,
                self.buffers@ == buffers0,
                pane_views(panes0) == u0.panes,
                want == u0.panes.map_values(
                    |p: Seq<TabView>| with_connected(p, tab@, connected),
                ),
                self@ == (UiView {
                    tabs: with_connected(u0.tabs, tab@, connected),
                    panes: self@.panes,
                    ..u0
                }),
                forall|k: int| 0 <= k < i ==> tab_views((#[trigger] self.panes@[k])@) == want[k],
                forall|k: int| i <= k < n ==> #[trigger] self.panes@[k] == panes0[k],
            decreases n - i,
        {
            proof {
                assert(u0.panes[i as int] == tab_views(panes0[i as int]@));
            }
            set_connected(&mut self.panes[i], tab, connected);
            i += 1;
        }
        assert(self@.panes =~= want);
    }

    /// Shows one terminal anew in its tab.
    pub(crate) fn reshow(&mut self, b: usize)
        requires
            old(self).wf(),
            b < old(self)@.buffers.len(),
        ensures
            final(self).wf(),
            final(self)@.buffers.len() == old(self)@.buffers.len(),
            final(self)@ == reshown_at(old(self)@, b as int),
    {
        let ghost u0 = self@;
        let ghost v = u0.buffers[b as int].buffer;
        let tab: String = self.buffers[b].tab.clone();
        assert(v == self.buffers@[b as int].buffer@);
        let entry = &mut self.buffers[b];
        let display = rebuild_tab_display(&mut entry.buffer);
        assert(self@.buffers =~= with_buffer(u0, b as int, after_render(v)).buffers);
        assert(self@ =~= with_buffer(u0, b as int, after_render(v)));
        let i: usize = self.terminal_at(tab.as_str());
        if i < self.terminals.len() {
            let ghost rows0 = self@.terminals;
            let row = &mut self.terminals[i];
            row.spans = display.screen.spans;
            row.cursor_row = display.screen.cursor_row;
            row.cursor_col = display.screen.cursor_col;
            row.rows_used = display.screen.rows_used;
            row.is_alt_screen = display.screen.is_alt;
            row.scroll_max = display.screen.scroll_max;
            row.scroll_offset = display.screen.scroll_offset;
            row.find_matches = display.find_matches;
            row.selection = display.selection;
            assert(self@.terminals =~= rows0.update(i as int, showing(rows0[i as int], v)));
        }
        assert(self@ =~= reshown_at(u0, b as int));
    }

    /// Brings output to a tab: its terminal takes the bytes, and the tab shows it.
    pub fn apply_output(&mut self, tab: &str, text: &str)
        requires
            old(self).wf(),
            can_print(old(self)@, tab@),
        ensures
            final(self).wf(),
            final(self)@ == with_output(old(self)@, tab@, text@),
    {
        let ghost u0 = self@;
        let b: usize = self.buffer_at(tab);
        if b < self.buffers.len() {
            let ghost v = after_ingest(u0.buffers[b as int].buffer, utf8(text@));
            assert(u0.buffers[b as int].buffer == self.buffers@[b as int].buffer@);
            let entry = &mut self.buffers[b];
            entry.buffer.ingest(text.as_bytes());
            assert(self@.buffers =~= with_buffer(u0, b as int, v).buffers);
            assert(self@ =~= with_buffer(u0, b as int, v));
            self.reshow(b);
        }
    }

    /// Sets the status line of a tab.
    fn set_status_line(&mut self, tab: &str, status: String)
        requires
            old(self).wf(),
        ensures
            final(self).wf(),
            final(self)@ == with_state(
                old(self)@,
                tab@,
                |r: StateView| StateView { status: status@, ..r },
            ),
    {
        let ghost u0 = self@;
        let i: usize = self.terminal_at(tab);
        if i < self.terminals.len() {
            self.terminals[i].status = status;
            assert(self@.terminals =~= u0.terminals.update(
                i as int,
                StateView { status: status@, ..u0.terminals[i as int] },
            ));
        }
    }

    /// Sets the connection state of a tab.
    fn set_state(&mut self, tab: &str, state: u8)
        requires
            old(self).wf(),
        ensures
            final(self).wf(),
            final(self)@ == with_status(
                old(self)@,
                tab@,
                |st: StatusView| StatusView { state: state, ..st },
            ),
    {
        let ghost u0 = self@;
        let i: usize = self.status_at(tab);
        if i < self.statuses.len() {
            self.statuses[i].status.state = state;
            assert(self@.statuses =~= u0.statuses.update(
                i as int,
                StatusEntryView {
                    tab: u0.statuses[i as int].tab,
                    status: StatusView { state: state, ..u0.statuses[i as int].status },
                },
            ));
        }
    }

    /// Takes a sample of the remote machine.
    fn take_sample(&mut self, tab: &str, s: ResourceSample)
        requires
            old(self).wf(),
        ensures
            final(self).wf(),
            final(self)@ == with_status(old(self)@, tab@, |st: StatusView| sampled(st, s@)),
    {
        let ghost u0 = self@;
        let ghost sv = s@;
        let i: usize = self.status_at(tab);
        if i < self.statuses.len() {
            let st = &mut self.statuses[i].status;
            st.cpu_bits = s.cpu_bits;
            st.mem_used_kib = s.mem_used_kib;
            st.mem_total_kib = s.mem_total_kib;
            st.swap_used_kib = s.swap_used_kib;
            st.swap_total_kib = s.swap_total_kib;
            st.net = s.net;
            st.disks = s.disks;
            st.procs = s.procs;
            // A sample means the channel is alive: treat as connected.
            st.state = 1;
            let iface = selected_iface(st);
            push_ring(&mut st.net_hist, iface.rx.saturating_add(iface.tx));
            assert(self@.statuses =~= u0.statuses.update(
                i as int,
                StatusEntryView {
                    tab: u0.statuses[i as int].tab,
                    status: sampled(u0.statuses[i as int].status, sv),
                },
            ));
        }
    }

    /// Changes the file panel of a tab: its path, its listing, its message and whether it is
    /// loading, as far as they are given.
    fn set_panel(
        &mut self,
        tab: &str,
        path: Option<String>,
        entries: Option<&Vec<RemoteEntry>>,
        status: Option<String>,
        loading: Option<bool>,
    )
        requires
            old(self).wf(),
        ensures
            final(self).wf(),
            final(self)@ == with_state(
                old(self)@,
                tab@,
                |r: StateView| panel_changed(r, path, entries, status, loading),
            ),
    {
        let ghost u0 = self@;
        let i: usize = self.terminal_at(tab);
        if i < self.terminals.len() {
            let ghost row0 = u0.terminals[i as int];
            let row = &mut self.terminals[i];
            if let Some(p) = path {
                row.sftp_path = p;
            }
            if let Some(list) = entries {
                row.sftp_entries = make_entries(list);
            }
            if let Some(s) = status {
                row.sftp_status = s;
            }
            if let Some(l) = loading {
                row.sftp_loading = l;
            }
            assert(self@.terminals =~= u0.terminals.update(
                i as int,
                panel_changed(row0, path, entries, status, loading),
            ));
        }
    }

    /// Changes the tree of a tab's file panel.
    fn set_tree(&mut self, tab: &str, nodes: &Vec<TreeNode>)
        requires
            old(self).wf(),
        ensures
            final(self).wf(),
            final(self)@ == with_state(
                old(self)@,
                tab@,
                |r: StateView|
                    StateView { sftp_tree_nodes: panel_nodes(tree_views(nodes@)), ..r },
            ),
    {
        let ghost u0 = self@;
        let i: usize = self.terminal_at(tab);
        if i < self.terminals.len() {
            self.terminals[i].sftp_tree_nodes = make_nodes(nodes);
            assert(self@.terminals =~= u0.terminals.update(
                i as int,
                StateView {
                    sftp_tree_nodes: panel_nodes(tree_views(nodes@)),
                    ..u0.terminals[i as int]
                },
            ));
        }
    }

    /// What refreshing the sidebar for a tab comes to: nothing unless the tab is active.
    fn refresh_if_active(&self, tab: &str) -> (e: Effect)
        ensures
            e@ == (if self@.active_tab == tab@ {
                EffectView::RefreshSidebar
            } else {
                EffectView::Nothing
            }),
    {
        if same_text(self.active_tab.as_str(), tab) {
            Effect::RefreshSidebar
        } else {
            Effect::Nothing
        }
    }

    /// Opens a remote file in the editor, or says in the terminal why it cannot be opened: the
    /// file panel's message alone is easy to miss.
    fn open_file(&mut self, tab: &str, f: FileText) -> (e: Effect)
        requires
            old(self).wf(),
            f@.error.len() > 0 ==> can_print(old(self)@, tab@),
        ensures
            final(self).wf(),
            final(self)@ == applied(old(self)@, tab@, EventView::SftpFileText(f@)),
            e@ == effect_of(old(self)@, tab@, EventView::SftpFileText(f@)),
    {
        let ghost u0 = self@;
        if f.error.as_str().is_empty() {
            let numbers = line_numbers_for(f.content.as_str());
            return Effect::OpenEditor(
                EditorFile {
                    path: f.path,
                    name: f.name,
                    content: f.content,
                    line_numbers: numbers,
                    readonly: !f.edit,
                },
            );
        }
        let mut hint: String = "\r\n[meatshell] ".to_owned();
        push_tr(&mut hint, self.english, "无法打开", "Cannot open");
        hint.append(" ");
        hint.append(f.name.as_str());
        hint.append(": ");
        hint.append(f.error.as_str());
        hint.append("\r\n");
        assert(hint@ =~= open_failed_hint(f@, u0.english));
        self.apply_output(tab, hint.as_str());
        let ghost u1 = self@;
        self.set_panel(tab, None, None, Some(f.error), None);
        proof {
            let g = |r: StateView|
                panel_changed(r, None, None::<&Vec<RemoteEntry>>, Some(f.error), None);
            let h = |r: StateView| StateView { sftp_status: f@.error, ..r };
            assert forall|r: StateView| #[trigger] g(r) == h(r) by {}
            assert(self@ =~= with_state(u1, tab@, h));
        }
        Effect::Nothing
    }

    /// Apply a session event to the interface, and return what it asks for beyond that. What it
    /// prints goes to an emulator that was not made smaller: one that was may stop on it, and is
    /// renewed first.
    pub fn apply_session_event(&mut self, tab: &str, event: SessionEvent) -> (e: Effect)
        requires
            old(self).wf(),
            prints(event@) ==> can_print(old(self)@, tab@),
        ensures
            final(self).wf(),
            final(self)@ == applied(old(self)@, tab@, event@),
            e@ == effect_of(old(self)@, tab@, event@),
    {
        let ghost u0 = self@;
        let ghost ev = event@;
        match event {
            SessionEvent::Status(status) => {
                self.set_status_line(tab, status);
                Effect::Nothing
            },
            SessionEvent::Output(chunk) => {
                self.apply_output(tab, chunk.as_str());
                Effect::Nothing
            },
            SessionEvent::Connected => {
                self.mark_tab(tab, true);
                self.set_status_line(tab, t(self.english, "已连接", "Connected"));
                self.set_state(tab, 1);
                assert(self@ == applied(u0, tab@, ev));
                self.refresh_if_active(tab)
            },
            SessionEvent::Closed(reason) => {
                // Print the hint into the terminal itself, through the normal render path.
                let mut hint: String = "\r\n\x1b[31m".to_owned();
                push_tr(
                    &mut hint,
                    self.english,
                    "连接已断开,按 Enter 重新连接",
                    "Disconnected — press Enter to reconnect",
                );
                hint.append("\x1b[0m\r\n");
                assert(hint@ =~= closed_hint(u0.english));
                self.apply_output(tab, hint.as_str());
                self.mark_tab(tab, false);
                let mut status: String = t(self.english, "已断开", "Disconnected");
                status.append(" — ");
                status.append(reason.as_str());
                self.set_status_line(tab, status);
                self.set_state(tab, 2);
                assert(self@ == applied(u0, tab@, ev));
                self.refresh_if_active(tab)
            },
            SessionEvent::ResourceStats(sample) => {
                self.take_sample(tab, sample);
                self.refresh_if_active(tab)
            },
            SessionEvent::CwdChanged(path) => {
                self.set_panel(tab, Some(path), None, None, Some(true));
                proof {
                    let g = |r: StateView|
                        panel_changed(r, Some(path), None::<&Vec<RemoteEntry>>, None, Some(true));
                    let h = |r: StateView|
                        StateView { sftp_path: path@, sftp_loading: true, ..r };
                    assert forall|r: StateView| #[trigger] g(r) == h(r) by {}
                    assert(self@ =~= with_state(u0, tab@, h));
                }
                Effect::Nothing
            },
            SessionEvent::SftpEntries { path, entries } => {
                self.set_panel(tab, Some(path), Some(&entries), None, Some(false));
                proof {
                    let g = |r: StateView|
                        panel_changed(r, Some(path), Some(&entries), None, Some(false));
                    let h = |r: StateView|
                        StateView {
                            sftp_path: path@,
                            sftp_entries: panel_entries(entry_views(entries@)),
                            sftp_loading: false,
                            ..r
                        };
                    assert forall|r: StateView| #[trigger] g(r) == h(r) by {}
                    assert(self@ =~= with_state(u0, tab@, h));
                }
                Effect::Nothing
            },
            SessionEvent::SftpStatus(msg) => {
                self.set_panel(tab, None, None, Some(msg), None);
                proof {
                    let g = |r: StateView|
                        panel_changed(r, None, None::<&Vec<RemoteEntry>>, Some(msg), None);
                    let h = |r: StateView| StateView { sftp_status: msg@, ..r };
                    assert forall|r: StateView| #[trigger] g(r) == h(r) by {}
                    assert(self@ =~= with_state(u0, tab@, h));
                }
                Effect::Nothing
            },
            SessionEvent::SftpError(msg) => {
                // Show the reason and stop the spinner; the current listing stays in place, so
                // that a failed navigation does not blank the panel.
                self.set_panel(tab, None, None, Some(msg), Some(false));
                proof {
                    let g = |r: StateView|
                        panel_changed(r, None, None::<&Vec<RemoteEntry>>, Some(msg), Some(false));
                    let h = |r: StateView|
                        StateView { sftp_status: msg@, sftp_loading: false, ..r };
                    assert forall|r: StateView| #[trigger] g(r) == h(r) by {}
                    assert(self@ =~= with_state(u0, tab@, h));
                }
                Effect::Nothing
            },
            SessionEvent::SftpFileText(f) => self.open_file(tab, f),
            SessionEvent::SftpTreeUpdate(nodes) => {
                self.set_tree(tab, &nodes);
                Effect::Nothing
            },
            SessionEvent::SftpTransfer(update) => {
                record_transfer(&mut self.transfers, update, self.english);
                assert(self@ =~= applied(u0, tab@, ev));
                Effect::Nothing
            },
            SessionEvent::Prompt(ticket) => Effect::AskUser(ticket),
            SessionEvent::CommandRan(cmd) => Effect::RecordCommand(cmd),
        }
    }
}

/// A terminal tab with its file panel changed as far as the changes are given.
pub open spec fn panel_changed(
    r: StateView,
    path: Option<String>,
    entries: Option<&Vec<RemoteEntry>>,
    status: Option<String>,
    loading: Option<bool>,
) -> StateView {
    StateView {
        sftp_path: match path {
            Some(p) => p@,
            None => r.sftp_path,
        },
        sftp_entries: match entries {
            Some(list) => panel_entries(entry_views(list@)),
            None => r.sftp_entries,
        },
        sftp_status: match status {
            Some(s) => s@,
            None => r.sftp_status,
        },
        sftp_loading: match loading {
            Some(l) => l,
            None => r.sftp_loading,
        },
        ..r
    }
}

// ---- Laws -----------------------------------------------------------------

/// Whether row `i` is the one of a tab: the first that has its name.
pub open spec fn is_row_of(ids: Seq<Seq<char>>, tab: Seq<char>, i: int) -> bool {
    0 <= i < ids.len() && ids[i] == tab && forall|k: int| 0 <= k < i ==> #[trigger] ids[k] != tab
}

/// What an event of the file panel says is what the tab's row shows, and the rest of the row
/// stays: a changed directory is where the panel then is, and it loads; a listing fills it, entry
/// for entry, and ends the loading; so does an error, which is told.
pub proof fn law_panel_events_show_in_their_row(
    u: UiView,
    tab: Seq<char>,
    e: EventView,
    i: int,
    k: int,
)
    requires
        is_row_of(state_ids(u.terminals), tab, i),
    ensures
        ({
            let r = u.terminals[i];
            let w = applied(u, tab, e).terminals[i];
            match e {
                EventView::CwdChanged(path) => w == (StateView {
                    sftp_path: path,
                    sftp_loading: true,
                    ..r
                }),
                EventView::SftpEntries { path, entries } => {
                    &&& w.sftp_path == path
                    &&& !w.sftp_loading
                    &&& w.sftp_entries.len() == entries.len()
                    &&& 0 <= k < entries.len() ==> w.sftp_entries[k].name == entries[k].name
                        && w.sftp_entries[k].full_path == entries[k].full_path
                        && w.sftp_entries[k].is_dir == entries[k].is_dir
                        && w.sftp_entries[k].modified == entries[k].modified
                        && !w.sftp_entries[k].selected
                    &&& w.sftp_status == r.sftp_status && w.spans == r.spans && w.status == r.status
                },
                EventView::SftpStatus(s) => w == (StateView { sftp_status: s, ..r }),
                EventView::SftpError(s) => w == (StateView {
                    sftp_status: s,
                    sftp_loading: false,
                    ..r
                }),
                EventView::SftpTreeUpdate(nodes) => {
                    &&& w.sftp_tree_nodes.len() == nodes.len()
                    &&& 0 <= k < nodes.len() ==> w.sftp_tree_nodes[k].path == nodes[k].path
                        && w.sftp_tree_nodes[k].name == nodes[k].name
                        && w.sftp_tree_nodes[k].expanded == nodes[k].expanded
                    &&& w.sftp_path == r.sftp_path && w.sftp_entries == r.sftp_entries
                },
                EventView::SftpFileText(f) => {
                    &&& f.error.len() == 0 ==> w == r
                    &&& f.error.len() > 0 ==> w.sftp_status == f.error && w.sftp_path == r.sftp_path
                        && w.sftp_loading == r.sftp_loading && w.sftp_entries == r.sftp_entries
                },
                EventView::Status(s) => w == (StateView { status: s, ..r }),
                EventView::ResourceStats(s) => w == r,
                EventView::SftpTransfer(t) => w == r,
                EventView::Prompt(n) => w == r,
                EventView::CommandRan(s) => w == r,
                _ => w.sftp_path == r.sftp_path && w.sftp_entries == r.sftp_entries
                    && w.sftp_status == r.sftp_status && w.sftp_loading == r.sftp_loading
                    && w.sftp_tree_nodes == r.sftp_tree_nodes,
            }
        }),
{
    law_first_of_its_name_is_found(state_ids(u.terminals), tab, i);
    lemma_output_row(u, tab, closed_hint(u.english), i);
    match e {
        EventView::Output(s) => {
            lemma_output_row(u, tab, s, i);
        },
        EventView::SftpFileText(f) => {
            let x = with_output(u, tab, open_failed_hint(f, u.english));
            lemma_output_row(u, tab, open_failed_hint(f, u.english), i);
            law_first_of_its_name_is_found(state_ids(x.terminals), tab, i);
        },
        EventView::Closed(reason) => {
            let x = with_output(u, tab, closed_hint(u.english));
            law_first_of_its_name_is_found(state_ids(x.terminals), tab, i);
        },
        _ => {},
    }
}

/// What is printed into a tab touches the picture of its terminal alone.
proof fn lemma_output_row(u: UiView, tab: Seq<char>, text: Seq<char>, i: int)
    requires
        is_row_of(state_ids(u.terminals), tab, i),
    ensures
        ({
            let x = with_output(u, tab, text);
            let r = u.terminals[i];
            let w = x.terminals[i];
            &&& x.terminals.len() == u.terminals.len()
            &&& state_ids(x.terminals) == state_ids(u.terminals)
            &&& x.statuses == u.statuses && x.tabs == u.tabs && x.panes == u.panes
            &&& x.english == u.english && x.active_tab == u.active_tab
            &&& w.sftp_path == r.sftp_path && w.sftp_entries == r.sftp_entries
            &&& w.sftp_status == r.sftp_status && w.sftp_loading == r.sftp_loading
            &&& w.sftp_tree_nodes == r.sftp_tree_nodes && w.status == r.status && w.id == r.id
        }),
{
    let b = find_id(buffer_tabs(u.buffers), tab, 0);
    lemma_find_id(buffer_tabs(u.buffers), tab, 0);
    law_first_of_its_name_is_found(state_ids(u.terminals), tab, i);
    let x = with_output(u, tab, text);
    if b < u.buffers.len() {
        assert(u.buffers[b].tab == tab);
    }
    assert(state_ids(x.terminals) =~= state_ids(u.terminals));
}

/// Output is drawn into the terminal of its tab, after all that was drawn before, and the tab's
/// row then shows the terminal as rendered: its text, its cursor, its scroll bar, what find marks
/// in what is displayed, and the selection across the width of the grid.
pub proof fn law_output_shows_in_its_row(
    u: UiView,
    tab: Seq<char>,
    text: Seq<char>,
    b: int,
    i: int,
)
    requires
        is_row_of(buffer_tabs(u.buffers), tab, b),
        is_row_of(state_ids(u.terminals), tab, i),
    ensures
        ({
            let x = applied(u, tab, EventView::Output(text));
            let v = after_ingest(u.buffers[b].buffer, utf8(text));
            let row = x.terminals[i];
            &&& x.buffers[b].tab == tab
            &&& x.buffers[b].buffer == after_render(v)
            &&& row.spans == rendered(v).spans
            &&& row.cursor_row == rendered(v).cursor_row
            &&& row.cursor_col == rendered(v).cursor_col
            &&& row.rows_used == rendered(v).rows_used
            &&& row.is_alt_screen == rendered(v).is_alt
            &&& row.scroll_max == rendered(v).scroll_max
            &&& row.scroll_offset == rendered(v).scroll_offset
            &&& row.find_matches == find_matches(
                x.buffers[b].buffer.displayed,
                v.find_query,
                grid_rows(v.log) as int,
            )
            &&& row.selection == selection_rects(v, grid_cols(v.log))
            &&& row.status == u.terminals[i].status
            &&& x.tabs == u.tabs && x.statuses == u.statuses && x.transfers == u.transfers
        }),
{
    law_first_of_its_name_is_found(state_ids(u.terminals), tab, i);
    law_first_of_its_name_is_found(buffer_tabs(u.buffers), tab, b);
}

/// Connecting marks the tab as connected in the strip and in every pane, and its status as
/// connected; closing marks both the other way, and the row tells the reason last.
pub proof fn law_connection_changes_are_marked(
    u: UiView,
    tab: Seq<char>,
    reason: Seq<char>,
    t: int,
    p: int,
    q: int,
    s: int,
    i: int,
)
    requires
        is_row_of(tab_ids(u.tabs), tab, t),
        is_row_of(status_tabs(u.statuses), tab, s),
        is_row_of(state_ids(u.terminals), tab, i),
    ensures
        ({
            let on = applied(u, tab, EventView::Connected);
            let off = applied(u, tab, EventView::Closed(reason));
            &&& on.tabs[t].connected && !off.tabs[t].connected
            &&& on.tabs[t].title == u.tabs[t].title && off.tabs[t].title == u.tabs[t].title
            &&& on.panes.len() == u.panes.len() && off.panes.len() == u.panes.len()
            &&& 0 <= p < u.panes.len() && is_row_of(tab_ids(u.panes[p]), tab, q)
                ==> on.panes[p][q].connected && !off.panes[p][q].connected
            &&& on.statuses[s].status == (StatusView { state: 1, ..u.statuses[s].status })
            &&& off.statuses[s].status == (StatusView { state: 2, ..u.statuses[s].status })
            &&& on.statuses[s].tab == tab && off.statuses[s].tab == tab
            &&& on.terminals[i].status == tr(u.english, "已连接"@, "Connected"@)
            &&& off.terminals[i].status.len() >= reason.len()
            &&& off.terminals[i].status.skip(off.terminals[i].status.len() - reason.len()) == reason
            &&& on.buffers == u.buffers
        }),
{
    let hint = closed_hint(u.english);
    lemma_output_row(u, tab, hint, i);
    let x = with_output(u, tab, hint);
    law_first_of_its_name_is_found(tab_ids(u.tabs), tab, t);
    law_first_of_its_name_is_found(status_tabs(u.statuses), tab, s);
    law_first_of_its_name_is_found(state_ids(u.terminals), tab, i);
    law_first_of_its_name_is_found(state_ids(x.terminals), tab, i);
    if 0 <= p < u.panes.len() && is_row_of(tab_ids(u.panes[p]), tab, q) {
        law_first_of_its_name_is_found(tab_ids(u.panes[p]), tab, q);
    }
    let said = tr(u.english, "已断开"@, "Disconnected"@) + " — "@ + reason;
    assert(said.skip(said.len() - reason.len()) =~= reason);
    let off = applied(u, tab, EventView::Closed(reason));
    assert(off.terminals[i].status == said);
}

/// A sample is what the tab's status then holds, field for field; the tab counts as connected,
/// the sum of what the driving interface receives and sends is the newest point of its graph, and
/// the connection and the choice of interface stay.
pub proof fn law_samples_are_kept(u: UiView, tab: Seq<char>, sample: SampleView, s: int)
    requires
        is_row_of(status_tabs(u.statuses), tab, s),
    ensures
        ({
            let old_st = u.statuses[s].status;
            let x = applied(u, tab, EventView::ResourceStats(sample));
            let st = x.statuses[s].status;
            let iface = driving_iface(sample.net, old_st.selected_iface);
            &&& st.state == 1
            &&& st.cpu_bits == sample.cpu_bits
            &&& st.mem_used_kib == sample.mem_used_kib
            &&& st.mem_total_kib == sample.mem_total_kib
            &&& st.swap_used_kib == sample.swap_used_kib
            &&& st.swap_total_kib == sample.swap_total_kib
            &&& st.net == sample.net
            &&& st.disks == sample.disks
            &&& st.procs == sample.procs
            &&& st.host == old_st.host
            &&& st.session_id == old_st.session_id
            &&& st.selected_iface == old_st.selected_iface
            &&& st.net_hist.len() == 60
            &&& iface.rx + iface.tx <= u64::MAX ==> st.net_hist.last() == iface.rx + iface.tx
            &&& iface.rx + iface.tx > u64::MAX ==> st.net_hist.last() == u64::MAX
            &&& old_st.net_hist.len() == 60 ==> st.net_hist.drop_last()
                == old_st.net_hist.drop_first()
            &&& x.tabs == u.tabs && x.terminals == u.terminals && x.buffers == u.buffers
        }),
{
    law_first_of_its_name_is_found(status_tabs(u.statuses), tab, s);
    let h = u.statuses[s].status.net_hist;
    let after = applied(u, tab, EventView::ResourceStats(sample)).statuses[s].status.net_hist;
    if h.len() == 60 {
        assert(after.drop_last() =~= h.drop_first());
    }
}

/// A transfer event updates the list of transfers alone.
pub proof fn law_transfer_events_update_the_list(u: UiView, tab: Seq<char>, t: UpdateView, i: int)
    requires
        0 <= i <= u.transfers.len(),
        i < u.transfers.len() ==> u.transfers[i].id == t.id,
        forall|j: int| 0 <= j < i ==> (#[trigger] u.transfers[j]).id != t.id,
    ensures
        ({
            let x = applied(u, tab, EventView::SftpTransfer(t));
            let at = if i < u.transfers.len() {
                i
            } else {
                0
            };
            &&& x.transfers[at].id == t.id
            &&& x.transfers[at].name == t.name
            &&& x.transfers[at].is_upload == t.is_upload
            &&& x.transfers[at].state == t.state
            &&& x.transfers.len() == u.transfers.len() + if i < u.transfers.len() {
                0nat
            } else {
                1nat
            }
            &&& x.terminals == u.terminals && x.tabs == u.tabs && x.statuses == u.statuses
                && x.buffers == u.buffers
        }),
{
    let ids = transfer_ids(u.transfers);
    assert forall|j: int| 0 <= j < i implies #[trigger] ids[j] != t.id by {
        assert(u.transfers[j].id != t.id);
    }
    law_first_of_its_name_is_found(ids, t.id, i);
}

/// What changes the connection or the resources of the active tab asks for a new sidebar, and for
/// those of no other tab. A file that could be read opens in the editor, as it is and with its
/// line numbers, read-only unless it is for editing; a prompt asks the user; a command is
/// recorded; nothing else asks for anything.
pub proof fn law_events_ask_for_what_they_need(u: UiView, tab: Seq<char>, e: EventView)
    ensures
        ({
            let asked = effect_of(u, tab, e);
            match e {
                EventView::SftpFileText(f) => if f.error.len() > 0 {
                    asked is Nothing
                } else {
                    match asked {
                        EffectView::OpenEditor { path, name, content, line_numbers, readonly } => {
                            &&& path == f.path
                            &&& name == f.name
                            &&& content == f.content
                            &&& readonly <==> !f.edit
                            &&& line_numbers == numbered(line_breaks(f.content) + 1)
                        },
                        _ => false,
                    }
                },
                EventView::Prompt(n) => asked == EffectView::AskUser(n),
                EventView::CommandRan(s) => asked == EffectView::RecordCommand(s),
                _ => {
                    &&& asked is RefreshSidebar <==> (e is Connected || e is Closed
                        || e is ResourceStats) && tab == u.active_tab
                    &&& !(asked is RefreshSidebar) ==> asked is Nothing
                },
            }
        }),
{
}

/// The hint that a connection was lost is red, stands on a line of its own and leaves the colours
/// as they were; that a file could not be opened is told with its name and the reason.
pub proof fn law_hints_say_what_happened(f: FileTextView, english: bool)
    ensures
        ({
            let said = closed_hint(english);
            let n = said.len() as int;
            &&& n > 13
            &&& said.take(7) == seq!['\r', '\n', '\x1b', '[', '3', '1', 'm']
            &&& said.skip(n - 6) == seq!['\x1b', '[', '0', 'm', '\r', '\n']
        }),
        ({
            let said = open_failed_hint(f, english);
            let n = said.len() as int;
            let end = f.name + seq![':', ' '] + f.error + seq!['\r', '\n'];
            &&& n >= end.len()
            &&& said.skip(n - end.len()) == end
            &&& said.take(2) == seq!['\r', '\n']
        }),
{
    reveal_strlit("\r\n\x1b[31m");
    reveal_strlit("\x1b[0m\r\n");
    reveal_strlit("Disconnected — press Enter to reconnect");
    reveal_strlit("连接已断开,按 Enter 重新连接");
    reveal_strlit("\r\n[meatshell] ");
    reveal_strlit(": ");
    reveal_strlit("\r\n");
    let said = closed_hint(english);
    let n = said.len() as int;
    assert(said.take(7) =~= seq!['\r', '\n', '\x1b', '[', '3', '1', 'm']);
    assert(said.skip(n - 6) =~= seq!['\x1b', '[', '0', 'm', '\r', '\n']);
    let told = open_failed_hint(f, english);
    let end = f.name + seq![':', ' '] + f.error + seq!['\r', '\n'];
    assert(": "@ =~= seq![':', ' ']);
    assert("\r\n"@ =~= seq!['\r', '\n']);
    assert(told.skip(told.len() - end.len()) =~= end);
    assert(told.take(2) =~= seq!['\r', '\n']);
}

} // verus!
