//! What the interface holds of its tabs: the tab strip, what each terminal tab shows, and the
//! list of transfers.

use vstd::prelude::*;

use crate::buffer::{paint_views, TermBuffer, TermSpan};
use crate::events::{
    entry_views, tree_views, EntryView, RemoteEntry, TransferUpdate, TreeNode, TreeView,
    UpdateView,
};
use crate::grid::{find_matches, TermMatch};
use crate::sidebar::{StatusView, TabStatus};
use crate::term::{PaintView, TermView};
use crate::text::{same_text, t, tr};

verus! {

// ---- Rows -----------------------------------------------------------------

/// A tab of the tab strip.
pub struct TabInfo {
    pub id: String,
    pub title: String,
    pub kind: String,
    pub connected: bool,
}

/// What a tab holds.
#[verifier::ext_equal]
pub ghost struct TabView {
    pub id: Seq<char>,
    pub title: Seq<char>,
    pub kind: Seq<char>,
    pub connected: bool,
}

impl View for TabInfo {
    type V = TabView;

    open spec fn view(&self) -> TabView {
        TabView {
            id: self.id@,
            title: self.title@,
            kind: self.kind@,
            connected: self.connected,
        }
    }
}

/// What each of a list of tabs holds.
pub open spec fn tab_views(list: Seq<TabInfo>) -> Seq<TabView> {
    list.map_values(|t: TabInfo| t@)
}

/// The place of the first of a list of identifiers that is the given one, or the length.
pub open spec fn find_id(ids: Seq<Seq<char>>, id: Seq<char>, i: int) -> int
    decreases ids.len() - i,
{
    if i < 0 || i >= ids.len() {
        ids.len() as int
    } else if ids[i] == id {
        i
    } else {
        find_id(ids, id, i + 1)
    }
}

/// The identifiers of a list of tabs.
pub open spec fn tab_ids(list: Seq<TabView>) -> Seq<Seq<char>> {
    list.map_values(|t: TabView| t.id)
}

/// The tabs with the first one of the given identifier marked as connected or not.
pub open spec fn with_connected(
    list: Seq<TabView>,
    id: Seq<char>,
    connected: bool,
) -> Seq<TabView> {
    let i = find_id(tab_ids(list), id, 0);
    if i < list.len() {
        list.update(i, TabView { connected: connected, ..list[i] })
    } else {
        list
    }
}

/// Marks the first tab of the given identifier as connected or not.
pub(crate) fn set_connected(list: &mut Vec<TabInfo>, id: &str, connected: bool)
    ensures
        tab_views(final(list)@) == with_connected(tab_views(old(list)@), id@, connected),
{
    let ghost all = tab_views(list@);
    let ghost ids = tab_ids(all);
    let n: usize = list.len();
    let mut i: usize = 0;
    while i < n && !same_text(list[i].id.as_str(), id)
        invariant
            n == list@.len(),
            i <= n,
            all == tab_views(list@),
            ids == tab_ids(all),
            find_id(ids, id@, 0) == find_id(ids, id@, i as int),
        decreases n - i,
    {
        assert(ids[i as int] == list@[i as int].id@);
        i += 1;
    }
    if i < n {
        assert(ids[i as int] == list@[i as int].id@);
        list[i].connected = connected;
        assert(tab_views(list@) =~= all.update(
            i as int,
            TabView { connected: connected, ..all[i as int] },
        ));
    }
}

/// An entry of the file panel. A directory shows no size.
pub struct SftpEntry {
    pub name: String,
    pub full_path: String,
    pub is_dir: bool,
    pub size: Option<u64>,
    pub modified: u64,
    pub mode: i32,
    pub selected: bool,
}

/// What an entry of the file panel holds.
#[verifier::ext_equal]
pub ghost struct PanelEntryView {
    pub name: Seq<char>,
    pub full_path: Seq<char>,
    pub is_dir: bool,
    pub size: Option<u64>,
    pub modified: u64,
    pub mode: i32,
    pub selected: bool,
}

impl View for SftpEntry {
    type V = PanelEntryView;

    open spec fn view(&self) -> PanelEntryView {
        PanelEntryView {
            name: self.name@,
            full_path: self.full_path@,
            is_dir: self.is_dir,
            size: self.size,
            modified: self.modified,
            mode: self.mode,
            selected: self.selected,
        }
    }
}

/// What each of a list of entries holds.
pub open spec fn panel_views(list: Seq<SftpEntry>) -> Seq<PanelEntryView> {
    list.map_values(|e: SftpEntry| e@)
}

/// The entry of the file panel for an entry of a remote directory: permission bits only, and
/// not selected.
pub open spec fn panel_entry(e: EntryView) -> PanelEntryView {
    PanelEntryView {
        name: e.name,
        full_path: e.full_path,
        is_dir: e.is_dir,
        size: if e.is_dir {
            None
        } else {
            Some(e.size)
        },
        modified: e.modified,
        mode: (e.mode & 0o7777) as i32,
        selected: false,
    }
}

/// The entries of the file panel for a remote directory.
pub open spec fn panel_entries(list: Seq<EntryView>) -> Seq<PanelEntryView> {
    list.map_values(|e: EntryView| panel_entry(e))
}

/// The entries of the file panel for a remote directory.
pub(crate) fn make_entries(list: &Vec<RemoteEntry>) -> (r: Vec<SftpEntry>)
    ensures
        panel_views(r@) == panel_entries(entry_views(list@)),
{
    let mut r: Vec<SftpEntry> = Vec::new();
    let mut i: usize = 0;
    while i < list.len()
        invariant
            i <= list@.len(),
            r@.len() == i,
            forall|j: int| 0 <= j < i ==> (#[trigger] r@[j])@ == panel_entry(list@[j]@),
        decreases list@.len() - i,
    {
        let e = &list[i];
        r.push(
            SftpEntry {
                name: e.name.clone(),
                full_path: e.full_path.clone(),
                is_dir: e.is_dir,
                size: if e.is_dir {
                    None
                } else {
                    Some(e.size)
                },
                modified: e.modified,
                mode: (e.mode & 0o7777) as i32,
                selected: false,
            },
        );
        i += 1;
    }
    assert(panel_views(r@) =~= panel_entries(entry_views(list@)));
    r
}

/// A node of the file panel's tree.
pub struct SftpTreeNode {
    pub path: String,
    pub name: String,
    pub depth: i32,
    pub expanded: bool,
    pub has_children: bool,
}

/// What a node of the file panel's tree holds.
#[verifier::ext_equal]
pub ghost struct NodeView {
    pub path: Seq<char>,
    pub name: Seq<char>,
    pub depth: i32,
    pub expanded: bool,
    pub has_children: bool,
}

impl View for SftpTreeNode {
    type V = NodeView;

    open spec fn view(&self) -> NodeView {
        NodeView {
            path: self.path@,
            name: self.name@,
            depth: self.depth,
            expanded: self.expanded,
            has_children: self.has_children,
        }
    }
}

/// What each of a list of nodes holds.
pub open spec fn node_views(list: Seq<SftpTreeNode>) -> Seq<NodeView> {
    list.map_values(|n: SftpTreeNode| n@)
}

/// The node of the file panel for a node of the remote tree.
pub open spec fn panel_node(n: TreeView) -> NodeView {
    NodeView {
        path: n.path,
        name: n.name,
        depth: n.depth as i32,
        expanded: n.expanded,
        has_children: n.has_children,
    }
}

/// The nodes of the file panel for a remote tree.
pub open spec fn panel_nodes(list: Seq<TreeView>) -> Seq<NodeView> {
    list.map_values(|n: TreeView| panel_node(n))
}

/// The nodes of the file panel for a remote tree.
pub(crate) fn make_nodes(list: &Vec<TreeNode>) -> (r: Vec<SftpTreeNode>)
    ensures
        node_views(r@) == panel_nodes(tree_views(list@)),
{
    let mut r: Vec<SftpTreeNode> = Vec::new();
    let mut i: usize = 0;
    while i < list.len()
        invariant
            i <= list@.len(),
            r@.len() == i,
            forall|j: int| 0 <= j < i ==> (#[trigger] r@[j])@ == panel_node(list@[j]@),
        decreases list@.len() - i,
    {
        let n = &list[i];
        r.push(
            SftpTreeNode {
                path: n.path.clone(),
                name: n.name.clone(),
                depth: n.depth as i32,
                expanded: n.expanded,
                has_children: n.has_children,
            },
        );
        i += 1;
    }
    assert(node_views(r@) =~= panel_nodes(tree_views(list@)));
    r
}

/// All that a terminal tab shows.
pub struct TerminalState {
    pub id: String,
    pub status: String,
    pub spans: Vec<TermSpan>,
    pub cursor_row: i32,
    pub cursor_col: i32,
    pub rows_used: i32,
    pub scroll_max: i32,
    pub scroll_offset: i32,
    pub is_alt_screen: bool,
    pub find_matches: Vec<TermMatch>,
    pub selection: Vec<TermMatch>,
    pub sftp_path: String,
    pub sftp_entries: Vec<SftpEntry>,
    pub sftp_status: String,
    pub sftp_loading: bool,
    pub sftp_tree_nodes: Vec<SftpTreeNode>,
    pub sftp_selected_count: i32,
    pub sftp_collapsed: bool,
}

/// What a terminal tab shows.
#[verifier::ext_equal]
pub ghost struct StateView {
    pub id: Seq<char>,
    pub status: Seq<char>,
    pub spans: Seq<PaintView>,
    pub cursor_row: i32,
    pub cursor_col: i32,
    pub rows_used: i32,
    pub scroll_max: i32,
    pub scroll_offset: i32,
    pub is_alt_screen: bool,
    pub find_matches: Seq<TermMatch>,
    pub selection: Seq<TermMatch>,
    pub sftp_path: Seq<char>,
    pub sftp_entries: Seq<PanelEntryView>,
    pub sftp_status: Seq<char>,
    pub sftp_loading: bool,
    pub sftp_tree_nodes: Seq<NodeView>,
    pub sftp_selected_count: i32,
    pub sftp_collapsed: bool,
}

impl View for TerminalState {
    type V = StateView;

    open spec fn view(&self) -> StateView {
        StateView {
            id: self.id@,
            status: self.status@,
            spans: paint_views(self.spans@),
            cursor_row: self.cursor_row,
            cursor_col: self.cursor_col,
            rows_used: self.rows_used,
            scroll_max: self.scroll_max,
            scroll_offset: self.scroll_offset,
            is_alt_screen: self.is_alt_screen,
            find_matches: self.find_matches@,
            selection: self.selection@,
            sftp_path: self.sftp_path@,
            sftp_entries: panel_views(self.sftp_entries@),
            sftp_status: self.sftp_status@,
            sftp_loading: self.sftp_loading,
            sftp_tree_nodes: node_views(self.sftp_tree_nodes@),
            sftp_selected_count: self.sftp_selected_count,
            sftp_collapsed: self.sftp_collapsed,
        }
    }
}

/// What each of a list of terminal tabs shows.
pub open spec fn state_views(list: Seq<TerminalState>) -> Seq<StateView> {
    list.map_values(|t: TerminalState| t@)
}

/// The identifiers of a list of terminal tabs.
pub open spec fn state_ids(list: Seq<StateView>) -> Seq<Seq<char>> {
    list.map_values(|t: StateView| t.id)
}

/// What a terminal tab shows when it starts to connect.
pub open spec fn connecting_state(
    id: Seq<char>,
    has_sftp: bool,
    collapsed: bool,
    english: bool,
) -> StateView {
    StateView {
        id: id,
        status: tr(english, "连接中..."@, "Connecting..."@),
        spans: Seq::empty(),
        cursor_row: 0,
        cursor_col: 0,
        rows_used: 0,
        scroll_max: 0,
        scroll_offset: 0,
        is_alt_screen: false,
        find_matches: Seq::empty(),
        selection: Seq::empty(),
        sftp_path: "/"@,
        sftp_entries: Seq::empty(),
        sftp_status: if has_sftp {
            tr(english, "SFTP 连接中..."@, "SFTP connecting..."@)
        } else {
            tr(english, "此会话类型不支持 SFTP"@, "SFTP not available for this session"@)
        },
        sftp_loading: has_sftp,
        sftp_tree_nodes: Seq::empty(),
        sftp_selected_count: 0,
        sftp_collapsed: collapsed,
    }
}

impl TerminalState {
    /// What a terminal tab shows when it starts to connect: the file panel is loading where the
    /// session has one.
    pub fn connecting(id: String, has_sftp: bool, collapsed: bool, english: bool) -> (s:
        TerminalState)
        ensures
            s@ == connecting_state(id@, has_sftp, collapsed, english),
    {
        let s = TerminalState {
            id,
            status: t(english, "连接中...", "Connecting..."),
            spans: Vec::new(),
            cursor_row: 0,
            cursor_col: 0,
            rows_used: 0,
            scroll_max: 0,
            scroll_offset: 0,
            is_alt_screen: false,
            find_matches: Vec::new(),
            selection: Vec::new(),
            sftp_path: "/".to_owned(),
            sftp_entries: Vec::new(),
            sftp_status: if has_sftp {
                t(english, "SFTP 连接中...", "SFTP connecting...")
            } else {
                t(english, "此会话类型不支持 SFTP", "SFTP not available for this session")
            },
            sftp_loading: has_sftp,
            sftp_tree_nodes: Vec::new(),
            sftp_selected_count: 0,
            sftp_collapsed: collapsed,
        };
        assert(s@ =~= connecting_state(id@, has_sftp, collapsed, english));
        s
    }
}

// ---- Transfers ------------------------------------------------------------

/// What a transfer says of itself.
pub enum TransferDetail {
    Message(String),
    Progress { transferred: u64, total: u64 },
    Transferred(u64),
}

/// What a transfer says of itself.
pub ghost enum DetailView {
    Message(Seq<char>),
    Progress { transferred: u64, total: u64 },
    Transferred(u64),
}

impl View for TransferDetail {
    type V = DetailView;

    open spec fn view(&self) -> DetailView {
        match self {
            TransferDetail::Message(s) => DetailView::Message(s@),
            TransferDetail::Progress { transferred, total } => DetailView::Progress {
                transferred: *transferred,
                total: *total,
            },
            TransferDetail::Transferred(n) => DetailView::Transferred(*n),
        }
    }
}

/// How far a transfer is.
#[derive(Clone, Copy, Debug, PartialEq, Eq, Structural)]
pub enum TransferPercent {
    Done,
    /// So much, and no more than all, of a total that is not zero.
    Part { transferred: u64, total: u64 },
    Nothing,
}

/// One row of the transfer list.
pub struct TransferInfo {
    pub id: String,
    pub name: String,
    pub detail: TransferDetail,
    pub percent: TransferPercent,
    pub state: i32,
    pub is_upload: bool,
}

/// What one row of the transfer list holds.
#[verifier::ext_equal]
pub ghost struct TransferView {
    pub id: Seq<char>,
    pub name: Seq<char>,
    pub detail: DetailView,
    pub percent: TransferPercent,
    pub state: i32,
    pub is_upload: bool,
}

impl View for TransferInfo {
    type V = TransferView;

    open spec fn view(&self) -> TransferView {
        TransferView {
            id: self.id@,
            name: self.name@,
            detail: self.detail@,
            percent: self.percent,
            state: self.state,
            is_upload: self.is_upload,
        }
    }
}

/// What each of a list of transfers holds.
pub open spec fn transfer_views(list: Seq<TransferInfo>) -> Seq<TransferView> {
    list.map_values(|t: TransferInfo| t@)
}

/// The identifiers of a list of transfers.
pub open spec fn transfer_ids(list: Seq<TransferView>) -> Seq<Seq<char>> {
    list.map_values(|t: TransferView| t.id)
}

/// What a transfer says of itself.
pub open spec fn detail_of(u: UpdateView, english: bool) -> DetailView {
    if u.state == 2 {
        if u.msg.len() == 0 {
            DetailView::Message(tr(english, "失败"@, "Failed"@))
        } else {
            DetailView::Message(u.msg)
        }
    } else if u.state == 1 {
        DetailView::Message(tr(english, "已完成"@, "Done"@))
    } else if u.state == 3 {
        DetailView::Message(tr(english, "文件准备中"@, "Preparing..."@))
    } else if u.state == 4 {
        DetailView::Message(tr(english, "已取消"@, "Cancelled"@))
    } else if u.total > 0 {
        DetailView::Progress { transferred: u.transferred, total: u.total }
    } else {
        DetailView::Transferred(u.transferred)
    }
}

/// How far a transfer is.
pub open spec fn percent_of(u: UpdateView) -> TransferPercent {
    if u.state == 1 {
        TransferPercent::Done
    } else if u.total > 0 {
        TransferPercent::Part {
            transferred: if u.transferred <= u.total {
                u.transferred
            } else {
                u.total
            },
            total: u.total,
        }
    } else {
        TransferPercent::Nothing
    }
}

/// The row for a transfer.
pub open spec fn transfer_row(u: UpdateView, english: bool) -> TransferView {
    TransferView {
        id: u.id,
        name: u.name,
        detail: detail_of(u, english),
        percent: percent_of(u),
        state: u.state as i32,
        is_upload: u.is_upload,
    }
}

/// The transfers with one updated: in its place if it is known, otherwise at the top.
pub open spec fn with_transfer(list: Seq<TransferView>, row: TransferView) -> Seq<TransferView> {
    let i = find_id(transfer_ids(list), row.id, 0);
    if i < list.len() {
        list.update(i, row)
    } else {
        list.insert(0, row)
    }
}

/// The row for a transfer.
fn make_transfer(u: TransferUpdate, english: bool) -> (r: TransferInfo)
    ensures
        r@ == transfer_row(u@, english),
{
    let percent: TransferPercent = if u.state == 1 {
        TransferPercent::Done
    } else if u.total > 0 {
        TransferPercent::Part {
            transferred: if u.transferred <= u.total {
                u.transferred
            } else {
                u.total
            },
            total: u.total,
        }
    } else {
        TransferPercent::Nothing
    };
    let detail: TransferDetail = if u.state == 2 {
        // On error, show the actual message when there is one.
        if u.msg.as_str().is_empty() {
            TransferDetail::Message(t(english, "失败", "Failed"))
        } else {
            TransferDetail::Message(u.msg)
        }
    } else if u.state == 1 {
        TransferDetail::Message(t(english, "已完成", "Done"))
    } else if u.state == 3 {
        // Remote-side preparation (e.g. packing) before bytes start flowing.
        TransferDetail::Message(t(english, "文件准备中", "Preparing..."))
    } else if u.state == 4 {
        TransferDetail::Message(t(english, "已取消", "Cancelled"))
    } else if u.total > 0 {
        TransferDetail::Progress { transferred: u.transferred, total: u.total }
    } else {
        TransferDetail::Transferred(u.transferred)
    };
    TransferInfo {
        id: u.id,
        name: u.name,
        detail,
        percent,
        state: u.state as i32,
        is_upload: u.is_upload,
    }
}

/// Updates a transfer in the list, or puts it at the top.
pub fn record_transfer(list: &mut Vec<TransferInfo>, u: TransferUpdate, english: bool)
    ensures
        transfer_views(final(list)@) == with_transfer(
            transfer_views(old(list)@),
            transfer_row(u@, english),
        ),
{
    let row = make_transfer(u, english);
    let ghost all = transfer_views(list@);
    let ghost ids = transfer_ids(all);
    let n: usize = list.len();
    let mut i: usize = 0;
    while i < n && !same_text(list[i].id.as_str(), row.id.as_str())
        invariant
            n == list@.len(),
            i <= n,
            all == transfer_views(list@),
            ids == transfer_ids(all),
            find_id(ids, row.id@, 0) == find_id(ids, row.id@, i as int),
        decreases n - i,
    {
        assert(ids[i as int] == list@[i as int].id@);
        i += 1;
    }
    if i < n {
        assert(ids[i as int] == list@[i as int].id@);
        list[i] = row;
        assert(transfer_views(list@) =~= all.update(i as int, row@));
    } else {
        list.insert(0, row);
        assert(transfer_views(list@) =~= all.insert(0, row@));
    }
}

// ---- The interface --------------------------------------------------------

/// The status of a tab.
pub struct StatusEntry {
    pub tab: String,
    pub status: TabStatus,
}

/// The terminal of a tab.
pub struct BufferEntry {
    pub tab: String,
    pub buffer: TermBuffer,
}

/// What the interface holds of its tabs: the tab strip, the strips of the panes, what the
/// terminal tabs show, the transfers, and per tab its status and its terminal.
pub struct Ui {
    pub tabs: Vec<TabInfo>,
    pub panes: Vec<Vec<TabInfo>>,
    pub terminals: Vec<TerminalState>,
    pub transfers: Vec<TransferInfo>,
    pub statuses: Vec<StatusEntry>,
    pub buffers: Vec<BufferEntry>,
    pub active_tab: String,
    pub english: bool,
}

/// What the status of a tab is.
#[verifier::ext_equal]
pub ghost struct StatusEntryView {
    pub tab: Seq<char>,
    pub status: StatusView,
}

/// What the terminal of a tab is.
#[verifier::ext_equal]
pub ghost struct BufferEntryView {
    pub tab: Seq<char>,
    pub buffer: TermView,
}

/// What the interface holds.
#[verifier::ext_equal]
pub ghost struct UiView {
    pub tabs: Seq<TabView>,
    pub panes: Seq<Seq<TabView>>,
    pub terminals: Seq<StateView>,
    pub transfers: Seq<TransferView>,
    pub statuses: Seq<StatusEntryView>,
    pub buffers: Seq<BufferEntryView>,
    pub active_tab: Seq<char>,
    pub english: bool,
}

/// What the statuses of a list of tabs are.
pub open spec fn status_views(list: Seq<StatusEntry>) -> Seq<StatusEntryView> {
    list.map_values(|e: StatusEntry| StatusEntryView { tab: e.tab@, status: e.status@ })
}

/// What the terminals of a list of tabs are.
pub open spec fn buffer_views(list: Seq<BufferEntry>) -> Seq<BufferEntryView> {
    list.map_values(|e: BufferEntry| BufferEntryView { tab: e.tab@, buffer: e.buffer@ })
}

/// What the tab strips of a list of panes hold.
pub open spec fn pane_views(list: Seq<Vec<TabInfo>>) -> Seq<Seq<TabView>> {
    list.map_values(|p: Vec<TabInfo>| tab_views(p@))
}

/// The tabs of a list of statuses.
pub open spec fn status_tabs(list: Seq<StatusEntryView>) -> Seq<Seq<char>> {
    list.map_values(|e: StatusEntryView| e.tab)
}

/// The tabs of a list of terminals.
pub open spec fn buffer_tabs(list: Seq<BufferEntryView>) -> Seq<Seq<char>> {
    list.map_values(|e: BufferEntryView| e.tab)
}

impl View for Ui {
    type V = UiView;

    open spec fn view(&self) -> UiView {
        UiView {
            tabs: tab_views(self.tabs@),
            panes: pane_views(self.panes@),
            terminals: state_views(self.terminals@),
            transfers: transfer_views(self.transfers@),
            statuses: status_views(self.statuses@),
            buffers: buffer_views(self.buffers@),
            active_tab: self.active_tab@,
            english: self.english,
        }
    }
}

impl Ui {
    /// What holds of every interface: its terminals are well formed.
    pub open spec fn wf(&self) -> bool {
        forall|i: int| 0 <= i < self.buffers@.len() ==> (#[trigger] self.buffers@[i]).buffer.wf()
    }

    /// The place of the terminal tab with the given identifier, or the number of terminal tabs.
    pub fn terminal_at(&self, tab: &str) -> (i: usize)
        ensures
            i == find_id(state_ids(self@.terminals), tab@, 0),
            i <= self.terminals@.len(),
    {
        let ghost ids = state_ids(self@.terminals);
        let n: usize = self.terminals.len();
        let mut i: usize = 0;
        while i < n && !same_text(self.terminals[i].id.as_str(), tab)
            invariant
                n == self.terminals@.len(),
                i <= n,
                ids == state_ids(self@.terminals),
                find_id(ids, tab@, 0) == find_id(ids, tab@, i as int),
            decreases n - i,
        {
            assert(ids[i as int] == self.terminals@[i as int].id@);
            i += 1;
        }
        proof {
            if i < n {
                assert(ids[i as int] == self.terminals@[i as int].id@);
            }
        }
        i
    }

    /// The place of the status of the given tab, or the number of statuses.
    pub fn status_at(&self, tab: &str) -> (i: usize)
        ensures
            i == find_id(status_tabs(self@.statuses), tab@, 0),
            i <= self.statuses@.len(),
    {
        let ghost ids = status_tabs(self@.statuses);
        let n: usize = self.statuses.len();
        let mut i: usize = 0;
        while i < n && !same_text(self.statuses[i].tab.as_str(), tab)
            invariant
                n == self.statuses@.len(),
                i <= n,
                ids == status_tabs(self@.statuses),
                find_id(ids, tab@, 0) == find_id(ids, tab@, i as int),
            decreases n - i,
        {
            assert(ids[i as int] == self.statuses@[i as int].tab@);
            i += 1;
        }
        proof {
            if i < n {
                assert(ids[i as int] == self.statuses@[i as int].tab@);
            }
        }
        i
    }

    /// The place of the terminal of the given tab, or the number of terminals.
    pub fn buffer_at(&self, tab: &str) -> (i: usize)
        ensures
            i == find_id(buffer_tabs(self@.buffers), tab@, 0),
            i <= self.buffers@.len(),
    {
        let ghost ids = buffer_tabs(self@.buffers);
        let n: usize = self.buffers.len();
        let mut i: usize = 0;
        while i < n && !same_text(self.buffers[i].tab.as_str(), tab)
            invariant
                n == self.buffers@.len(),
                i <= n,
                ids == buffer_tabs(self@.buffers),
                find_id(ids, tab@, 0) == find_id(ids, tab@, i as int),
            decreases n - i,
        {
            assert(ids[i as int] == self.buffers@[i as int].tab@);
            i += 1;
        }
        proof {
            if i < n {
                assert(ids[i as int] == self.buffers@[i as int].tab@);
            }
        }
        i
    }
}

// ---- Laws -----------------------------------------------------------------

/// A search finds the first of the identifiers that is the one sought, or the end.
pub proof fn law_first_of_its_name_is_found(ids: Seq<Seq<char>>, id: Seq<char>, i: int)
    requires
        0 <= i <= ids.len(),
        i < ids.len() ==> ids[i] == id,
        forall|k: int| 0 <= k < i ==> #[trigger] ids[k] != id,
    ensures
        find_id(ids, id, 0) == i,
{
    lemma_found(ids, id, 0, i);
}

proof fn lemma_found(ids: Seq<Seq<char>>, id: Seq<char>, from: int, i: int)
    requires
        0 <= from <= i <= ids.len(),
        i < ids.len() ==> ids[i] == id,
        forall|k: int| from <= k < i ==> #[trigger] ids[k] != id,
    ensures
        find_id(ids, id, from) == i,
    decreases i - from,
{
    if from < i {
        assert(ids[from] != id);
        lemma_found(ids, id, from + 1, i);
    }
}

/// The file panel has one row for each remote entry, in their order: name, path, kind and time as
/// they are, the size of files only, the permission bits without the file type, and none checked.
pub proof fn law_panel_shows_the_directory(list: Seq<EntryView>, i: int)
    requires
        0 <= i < list.len(),
    ensures
        panel_entries(list).len() == list.len(),
        ({
            let row = panel_entries(list)[i];
            let e = list[i];
            &&& row.name == e.name
            &&& row.full_path == e.full_path
            &&& row.is_dir == e.is_dir
            &&& row.modified == e.modified
            &&& !row.selected
            &&& e.is_dir ==> row.size is None
            &&& !e.is_dir ==> row.size == Some(e.size)
            &&& 0 <= row.mode < 0o10000
            &&& row.mode == e.mode as int % 0o10000
        }),
{
    let m = list[i].mode;
    assert(m & 0o7777 == m % 4096) by (bit_vector);
}

/// The directory tree has one row for each node, in their order and as they are.
pub proof fn law_tree_shows_the_nodes(list: Seq<TreeView>, i: int)
    requires
        0 <= i < list.len(),
    ensures
        panel_nodes(list).len() == list.len(),
        ({
            let row = panel_nodes(list)[i];
            let n = list[i];
            &&& row.path == n.path
            &&& row.name == n.name
            &&& n.depth <= i32::MAX ==> row.depth == n.depth
            &&& row.expanded == n.expanded
            &&& row.has_children == n.has_children
        }),
{
}

/// An update of a transfer that is listed takes its place; a new transfer goes on top, and the
/// others move down as they are.
pub proof fn law_transfers_are_updated_in_place(
    list: Seq<TransferView>,
    row: TransferView,
    i: int,
    k: int,
)
    requires
        0 <= i <= list.len(),
        i < list.len() ==> list[i].id == row.id,
        forall|j: int| 0 <= j < i ==> (#[trigger] list[j]).id != row.id,
        0 <= k < list.len(),
    ensures
        i < list.len() ==> ({
            &&& with_transfer(list, row).len() == list.len()
            &&& with_transfer(list, row)[i] == row
            &&& k != i ==> with_transfer(list, row)[k] == list[k]
        }),
        i == list.len() ==> ({
            &&& with_transfer(list, row).len() == list.len() + 1
            &&& with_transfer(list, row)[0] == row
            &&& with_transfer(list, row)[k + 1] == list[k]
        }),
{
    let ids = transfer_ids(list);
    assert forall|j: int| 0 <= j < i implies #[trigger] ids[j] != row.id by {
        assert(list[j].id != row.id);
    }
    law_first_of_its_name_is_found(ids, row.id, i);
}

/// A transfer is shown under its own name and direction. Done it is full; under way it is as full
/// as what has been transferred of the total, and never more than full; without a total there is
/// nothing to tell.
pub proof fn law_transfers_tell_their_progress(u: UpdateView, english: bool)
    ensures
        ({
            let row = transfer_row(u, english);
            &&& row.id == u.id
            &&& row.name == u.name
            &&& row.is_upload == u.is_upload
            &&& row.state == u.state
            &&& row.percent == TransferPercent::Done <==> u.state == 1
            &&& u.state != 1 ==> match row.percent {
                TransferPercent::Done => false,
                TransferPercent::Part { transferred, total } => {
                    &&& total == u.total && total > 0
                    &&& transferred <= total
                    &&& u.transferred <= u.total ==> transferred == u.transferred
                    &&& u.transferred > u.total ==> transferred == total
                },
                TransferPercent::Nothing => u.total == 0,
            }
            &&& u.state == 2 && u.msg.len() > 0 ==> row.detail == DetailView::Message(u.msg)
            &&& u.state == 0 && u.total > 0 ==> row.detail == (DetailView::Progress {
                transferred: u.transferred,
                total: u.total,
            })
            &&& u.state == 0 && u.total == 0 ==> row.detail == DetailView::Transferred(
                u.transferred,
            )
            &&& u.state == 1 ==> row.detail == DetailView::Message(tr(english, "已完成"@, "Done"@))
            &&& u.state == 2 && u.msg.len() == 0 ==> row.detail == DetailView::Message(
                tr(english, "失败"@, "Failed"@),
            )
            &&& u.state == 3 ==> row.detail == DetailView::Message(
                tr(english, "文件准备中"@, "Preparing..."@),
            )
            &&& u.state == 4 ==> row.detail == DetailView::Message(
                tr(english, "已取消"@, "Cancelled"@),
            )
        }),
{
}

/// Marking a tab as connected or not marks the first tab of that name and touches nothing else.
pub proof fn law_one_tab_is_marked(
    list: Seq<TabView>,
    id: Seq<char>,
    connected: bool,
    i: int,
    k: int,
)
    requires
        0 <= i <= list.len(),
        i < list.len() ==> list[i].id == id,
        forall|j: int| 0 <= j < i ==> (#[trigger] list[j]).id != id,
        0 <= k < list.len(),
    ensures
        with_connected(list, id, connected).len() == list.len(),
        k != i ==> with_connected(list, id, connected)[k] == list[k],
        k == i ==> with_connected(list, id, connected)[k].connected == connected,
        with_connected(list, id, connected)[k].id == list[k].id,
        with_connected(list, id, connected)[k].title == list[k].title,
        with_connected(list, id, connected)[k].kind == list[k].kind,
{
    let ids = tab_ids(list);
    assert forall|j: int| 0 <= j < i implies #[trigger] ids[j] != id by {
        assert(list[j].id != id);
    }
    law_first_of_its_name_is_found(ids, id, i);
}

/// A tab that is connecting shows an empty terminal; its file panel is at the root, and loads
/// where there is one and only there.
pub proof fn law_connecting_tab_is_empty(
    id: Seq<char>,
    has_sftp: bool,
    collapsed: bool,
    english: bool,
)
    ensures
        ({
            let row = connecting_state(id, has_sftp, collapsed, english);
            &&& row.id == id
            &&& row.cursor_row == 0 && row.cursor_col == 0 && row.rows_used == 0
            &&& row.spans.len() == 0 && row.find_matches.len() == 0 && row.selection.len() == 0
            &&& row.scroll_max == 0 && row.scroll_offset == 0 && !row.is_alt_screen
            &&& row.sftp_path == seq!['/']
            &&& row.sftp_entries.len() == 0 && row.sftp_tree_nodes.len() == 0
            &&& row.sftp_selected_count == 0
            &&& row.sftp_loading == has_sftp
            &&& has_sftp ==> row.sftp_status == tr(
                english,
                "SFTP 连接中..."@,
                "SFTP connecting..."@,
            )
            &&& row.status == tr(english, "连接中..."@, "Connecting..."@)
            &&& row.sftp_collapsed == collapsed
        }),
{
    reveal_strlit("/");
    assert("/"@ =~= seq!['/']);
}

} // verus!
