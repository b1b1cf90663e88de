//! The sidebar: connection status and resources of whichever tab is active. Percentages that
//! come measured are carried as the bits of a 32-bit float; those that are computed are carried
//! as what is used of what there is.

use vstd::prelude::*;

use crate::addr::{after_last, conn_ip, law_after_last};
use crate::text::{decimal, push_tr, same_text, t, texts, to_decimal, tr, trimmed};

verus! {

/// Number of samples kept for the sparkline.
pub const NET_HISTORY_LEN: usize = 60;

// ---- Samples --------------------------------------------------------------

/// The rates of one network interface, in bytes per second.
pub struct NetRate {
    pub name: String,
    pub rx: u64,
    pub tx: u64,
}

/// What the rates of one network interface are.
#[verifier::ext_equal]
pub ghost struct NetView {
    pub name: Seq<char>,
    pub rx: u64,
    pub tx: u64,
}

impl View for NetRate {
    type V = NetView;

    open spec fn view(&self) -> NetView {
        NetView { name: self.name@, rx: self.rx, tx: self.tx }
    }
}

/// What the rates of each of a list of interfaces are.
pub open spec fn net_views(list: Seq<NetRate>) -> Seq<NetView> {
    list.map_values(|n: NetRate| n@)
}

/// One filesystem: its mount point, and its available and total bytes.
pub struct DiskSpace {
    pub mount: String,
    pub available: u64,
    pub total: u64,
}

/// What a filesystem holds.
#[verifier::ext_equal]
pub ghost struct DiskView {
    pub mount: Seq<char>,
    pub available: u64,
    pub total: u64,
}

impl View for DiskSpace {
    type V = DiskView;

    open spec fn view(&self) -> DiskView {
        DiskView { mount: self.mount@, available: self.available, total: self.total }
    }
}

/// What each of a list of filesystems holds.
pub open spec fn disk_views(list: Seq<DiskSpace>) -> Seq<DiskView> {
    list.map_values(|d: DiskSpace| d@)
}

/// One remote process; `cpu_bits` and `mem_bits` are percentages, as float bits.
pub struct ProcInfo {
    pub pid: u32,
    pub user: String,
    pub cpu_bits: u32,
    pub mem_bits: u32,
    pub command: String,
}

/// What a remote process holds.
#[verifier::ext_equal]
pub ghost struct ProcView {
    pub pid: u32,
    pub user: Seq<char>,
    pub cpu_bits: u32,
    pub mem_bits: u32,
    pub command: Seq<char>,
}

impl View for ProcInfo {
    type V = ProcView;

    open spec fn view(&self) -> ProcView {
        ProcView {
            pid: self.pid,
            user: self.user@,
            cpu_bits: self.cpu_bits,
            mem_bits: self.mem_bits,
            command: self.command@,
        }
    }
}

/// What each of a list of processes holds.
pub open spec fn proc_views(list: Seq<ProcInfo>) -> Seq<ProcView> {
    list.map_values(|p: ProcInfo| p@)
}

/// A sample of the local machine.
pub struct SystemSnapshot {
    pub cpu_bits: u32,
    pub mem_bits: u32,
    pub swap_bits: u32,
    pub mem_used_mib: u64,
    pub mem_total_mib: u64,
    pub swap_used_mib: u64,
    pub swap_total_mib: u64,
    pub net_rx_per_sec: u64,
    pub net_tx_per_sec: u64,
    pub net_bytes_per_sec: u64,
    pub disks: Vec<DiskSpace>,
}

/// Per-tab connection status and latest remote resource sample.
pub struct TabStatus {
    /// "root@192.168.100.2"
    pub host: String,
    /// Saved-session id, used to reconnect in place.
    pub session_id: String,
    /// 0 = connecting, 1 = connected, 2 = disconnected
    pub state: u8,
    pub cpu_bits: u32,
    pub mem_used_kib: u64,
    pub mem_total_kib: u64,
    pub swap_used_kib: u64,
    pub swap_total_kib: u64,
    /// Latest per-interface rates, busiest first.
    pub net: Vec<NetRate>,
    /// Which interface drives the top sparkline (empty = auto = busiest).
    pub selected_iface: String,
    /// Ring buffer of the selected interface's total (rx+tx) bytes/sec.
    pub net_hist: Vec<u64>,
    pub disks: Vec<DiskSpace>,
    /// Top remote processes by CPU, for the process monitor popup.
    pub procs: Vec<ProcInfo>,
}

/// What the status of a tab holds.
#[verifier::ext_equal]
pub ghost struct StatusView {
    pub host: Seq<char>,
    pub session_id: Seq<char>,
    pub state: u8,
    pub cpu_bits: u32,
    pub mem_used_kib: u64,
    pub mem_total_kib: u64,
    pub swap_used_kib: u64,
    pub swap_total_kib: u64,
    pub net: Seq<NetView>,
    pub selected_iface: Seq<char>,
    pub net_hist: Seq<u64>,
    pub disks: Seq<DiskView>,
    pub procs: Seq<ProcView>,
}

impl View for TabStatus {
    type V = StatusView;

    open spec fn view(&self) -> StatusView {
        StatusView {
            host: self.host@,
            session_id: self.session_id@,
            state: self.state,
            cpu_bits: self.cpu_bits,
            mem_used_kib: self.mem_used_kib,
            mem_total_kib: self.mem_total_kib,
            swap_used_kib: self.swap_used_kib,
            swap_total_kib: self.swap_total_kib,
            net: net_views(self.net@),
            selected_iface: self.selected_iface@,
            net_hist: self.net_hist@,
            disks: disk_views(self.disks@),
            procs: proc_views(self.procs@),
        }
    }
}

/// The status of a tab that starts to connect.
pub open spec fn connecting_status(host: Seq<char>, session_id: Seq<char>) -> StatusView {
    StatusView {
        host: host,
        session_id: session_id,
        state: 0,
        cpu_bits: 0,
        mem_used_kib: 0,
        mem_total_kib: 0,
        swap_used_kib: 0,
        swap_total_kib: 0,
        net: Seq::empty(),
        selected_iface: Seq::empty(),
        net_hist: Seq::empty(),
        disks: Seq::empty(),
        procs: Seq::empty(),
    }
}

impl TabStatus {
    /// The status of a tab that starts to connect, so that the sidebar shows it at once.
    pub fn connecting(host: String, session_id: String) -> (s: TabStatus)
        ensures
            s@ == connecting_status(host@, session_id@),
    {
        let s = TabStatus {
            host,
            session_id,
            state: 0,
            cpu_bits: 0,
            mem_used_kib: 0,
            mem_total_kib: 0,
            swap_used_kib: 0,
            swap_total_kib: 0,
            net: Vec::new(),
            selected_iface: String::new(),
            net_hist: Vec::new(),
            disks: Vec::new(),
            procs: Vec::new(),
        };
        assert(s@ =~= connecting_status(host@, session_id@));
        s
    }
}

// ---- Interfaces and sparklines --------------------------------------------

/// The first interface from `i` on with the given name, or none.
pub open spec fn find_iface(net: Seq<NetView>, name: Seq<char>, i: int) -> Option<NetView>
    decreases net.len() - i,
{
    if i < 0 || i >= net.len() {
        None
    } else if net[i].name == name {
        Some(net[i])
    } else {
        find_iface(net, name, i + 1)
    }
}

/// The interface that drives the top sparkline: the user's selection if it still exists,
/// otherwise the busiest, which comes first; nothing where there is none.
pub open spec fn driving_iface(net: Seq<NetView>, selected: Seq<char>) -> NetView {
    let chosen = if selected.len() > 0 {
        find_iface(net, selected, 0)
    } else {
        None
    };
    match chosen {
        Some(n) => n,
        None => if net.len() > 0 {
            net[0]
        } else {
            NetView { name: Seq::empty(), rx: 0, tx: 0 }
        },
    }
}

/// Resolve which interface drives the top sparkline: the user's selection if it still exists,
/// otherwise the busiest (the list is sorted busiest-first).
pub fn selected_iface(st: &TabStatus) -> (r: NetRate)
    ensures
        r@ == driving_iface(st@.net, st@.selected_iface),
{
    let ghost net = st@.net;
    if !st.selected_iface.as_str().is_empty() {
        let mut i: usize = 0;
        while i < st.net.len()
            invariant
                i <= st.net@.len(),
                net == st@.net,
                net.len() == st.net@.len(),
                find_iface(net, st@.selected_iface, 0) == find_iface(
                    net,
                    st@.selected_iface,
                    i as int,
                ),
                st@.selected_iface.len() > 0,
            decreases st.net@.len() - i,
        {
            let e = &st.net[i];
            assert(net[i as int] == e@);
            if same_text(e.name.as_str(), st.selected_iface.as_str()) {
                return NetRate { name: e.name.clone(), rx: e.rx, tx: e.tx };
            }
            i += 1;
        }
    }
    assert(net.len() == st.net@.len());
    if st.net.len() > 0 {
        let e = &st.net[0];
        assert(net[0] == e@);
        NetRate { name: e.name.clone(), rx: e.rx, tx: e.tx }
    } else {
        let r = NetRate { name: String::new(), rx: 0, tx: 0 };
        assert(r@ =~= driving_iface(net, st@.selected_iface));
        r
    }
}

/// A ring of samples in which nothing was measured yet.
pub open spec fn flat_ring() -> Seq<u64> {
    Seq::new(NET_HISTORY_LEN as nat, |i: int| 0u64)
}

/// A ring of samples with one more at its end. A ring of another length starts anew.
pub open spec fn ring_push(ring: Seq<u64>, val: u64) -> Seq<u64> {
    let whole = if ring.len() == NET_HISTORY_LEN {
        ring
    } else {
        flat_ring()
    };
    whole.skip(1).push(val)
}

/// A ring of samples in which nothing was measured yet.
pub fn new_ring() -> (r: Vec<u64>)
    ensures
        r@ == flat_ring(),
{
    let mut r: Vec<u64> = Vec::new();
    while r.len() < NET_HISTORY_LEN
        invariant
            r@.len() <= NET_HISTORY_LEN,
            forall|i: int| 0 <= i < r@.len() ==> #[trigger] r@[i] == 0,
        decreases NET_HISTORY_LEN - r@.len(),
    {
        r.push(0);
    }
    assert(r@ =~= flat_ring());
    r
}

/// Push a value into a fixed-length ring buffer (newest at the end).
pub fn push_ring(buf: &mut Vec<u64>, val: u64)
    ensures
        final(buf)@ == ring_push(old(buf)@, val),
{
    if buf.len() != NET_HISTORY_LEN {
        *buf = new_ring();
    }
    let ghost whole = buf@;
    buf.remove(0);
    buf.push(val);
    assert(buf@ =~= whole.skip(1).push(val));
}

/// The user picks the interface of a tab's sparkline: the graph starts anew.
pub fn select_net_iface(st: &mut TabStatus, iface: &str)
    ensures
        final(st)@ == (StatusView {
            selected_iface: iface@,
            net_hist: flat_ring(),
            ..old(st)@
        }),
{
    st.selected_iface = iface.to_owned();
    st.net_hist = new_ring();
}

// ---- What the sidebar shows -----------------------------------------------

/// How full something is.
#[derive(Clone, Copy, Debug, PartialEq, Eq, Structural)]
pub enum Gauge {
    /// A measured fraction, as float bits.
    Bits(u32),
    /// So much used of a total that is not zero.
    Ratio { used: u64, total: u64 },
    Zero,
}

/// How much of a total is used; zero of none.
pub open spec fn ratio(used: u64, total: u64) -> Gauge {
    if total > 0 {
        Gauge::Ratio { used: used, total: total }
    } else {
        Gauge::Zero
    }
}

/// How much of a total is used.
pub fn pct(used: u64, total: u64) -> (r: Gauge)
    ensures
        r == ratio(used, total),
{
    if total > 0 {
        Gauge::Ratio { used, total }
    } else {
        Gauge::Zero
    }
}

/// One row of the filesystem list.
pub struct DiskInfo {
    pub path: String,
    pub available: u64,
    pub total: u64,
    pub percent: Gauge,
}

/// What one row of the filesystem list holds.
#[verifier::ext_equal]
pub ghost struct DiskInfoView {
    pub path: Seq<char>,
    pub available: u64,
    pub total: u64,
    pub percent: Gauge,
}

impl View for DiskInfo {
    type V = DiskInfoView;

    open spec fn view(&self) -> DiskInfoView {
        DiskInfoView {
            path: self.path@,
            available: self.available,
            total: self.total,
            percent: self.percent,
        }
    }
}

/// What each row of the filesystem list holds.
pub open spec fn disk_info_views(rows: Seq<DiskInfo>) -> Seq<DiskInfoView> {
    rows.map_values(|d: DiskInfo| d@)
}

/// What is used of a filesystem.
pub open spec fn disk_used(d: DiskView) -> u64 {
    if d.total >= d.available {
        (d.total - d.available) as u64
    } else {
        0
    }
}

/// The row for a filesystem.
pub open spec fn disk_row(d: DiskView) -> DiskInfoView {
    DiskInfoView {
        path: d.mount,
        available: d.available,
        total: d.total,
        percent: ratio(disk_used(d), d.total),
    }
}

/// The rows for a list of filesystems.
pub open spec fn disk_rows(disks: Seq<DiskView>) -> Seq<DiskInfoView> {
    disks.map_values(|d: DiskView| disk_row(d))
}

/// Build the filesystem-usage list (path, available and total, used fraction).
pub fn disk_model(disks: &Vec<DiskSpace>) -> (rows: Vec<DiskInfo>)
    ensures
        disk_info_views(rows@) == disk_rows(disk_views(disks@)),
{
    let mut rows: Vec<DiskInfo> = Vec::new();
    let mut i: usize = 0;
    while i < disks.len()
        invariant
            i <= disks@.len(),
            rows@.len() == i,
            forall|j: int| 0 <= j < i ==> (#[trigger] rows@[j])@ == disk_row(disks@[j]@),
        decreases disks@.len() - i,
    {
        let d = &disks[i];
        let used: u64 = d.total.saturating_sub(d.available);
        rows.push(
            DiskInfo {
                path: d.mount.clone(),
                available: d.available,
                total: d.total,
                percent: pct(used, d.total),
            },
        );
        i += 1;
    }
    assert(disk_info_views(rows@) =~= disk_rows(disk_views(disks@)));
    rows
}

/// One row of the process monitor; the load bar and the percentages come from the bits.
pub struct ProcRow {
    pub pid: String,
    pub user: String,
    pub cpu_bits: u32,
    pub mem_bits: u32,
    pub command: String,
}

/// What one row of the process monitor holds.
#[verifier::ext_equal]
pub ghost struct ProcRowView {
    pub pid: Seq<char>,
    pub user: Seq<char>,
    pub cpu_bits: u32,
    pub mem_bits: u32,
    pub command: Seq<char>,
}

impl View for ProcRow {
    type V = ProcRowView;

    open spec fn view(&self) -> ProcRowView {
        ProcRowView {
            pid: self.pid@,
            user: self.user@,
            cpu_bits: self.cpu_bits,
            mem_bits: self.mem_bits,
            command: self.command@,
        }
    }
}

/// What each row of the process monitor holds.
pub open spec fn proc_row_views(rows: Seq<ProcRow>) -> Seq<ProcRowView> {
    rows.map_values(|p: ProcRow| p@)
}

/// The row for a process.
pub open spec fn proc_row(p: ProcView) -> ProcRowView {
    ProcRowView {
        pid: decimal(p.pid as nat),
        user: p.user,
        cpu_bits: p.cpu_bits,
        mem_bits: p.mem_bits,
        command: p.command,
    }
}

/// The rows for a list of processes.
pub open spec fn proc_rows_of(procs: Seq<ProcView>) -> Seq<ProcRowView> {
    procs.map_values(|p: ProcView| proc_row(p))
}

/// Build the process-monitor list for the popup.
pub fn proc_rows(procs: &Vec<ProcInfo>) -> (rows: Vec<ProcRow>)
    ensures
        proc_row_views(rows@) == proc_rows_of(proc_views(procs@)),
{
    let mut rows: Vec<ProcRow> = Vec::new();
    let mut i: usize = 0;
    while i < procs.len()
        invariant
            i <= procs@.len(),
            rows@.len() == i,
            forall|j: int| 0 <= j < i ==> (#[trigger] rows@[j])@ == proc_row(procs@[j]@),
        decreases procs@.len() - i,
    {
        let p = &procs[i];
        rows.push(
            ProcRow {
                pid: to_decimal(p.pid as u128),
                user: p.user.clone(),
                cpu_bits: p.cpu_bits,
                mem_bits: p.mem_bits,
                command: p.command.clone(),
            },
        );
        i += 1;
    }
    assert(proc_row_views(rows@) =~= proc_rows_of(proc_views(procs@)));
    rows
}

/// All that the sidebar shows. Rates are bytes per second, amounts of memory are MiB.
pub struct Sidebar {
    pub conn_state: i32,
    pub connection_state: String,
    pub conn_host: String,
    pub resource_title: String,
    pub cpu: Gauge,
    pub mem: Gauge,
    pub swap: Gauge,
    pub mem_detail: Option<(u64, u64)>,
    pub swap_detail: Option<(u64, u64)>,
    pub top_up: u64,
    pub top_down: u64,
    pub top_history: Vec<u64>,
    pub bottom_up: u64,
    pub bottom_down: u64,
    pub bottom_history: Vec<u64>,
    pub show_selector: bool,
    pub selected: String,
    pub ifaces: Vec<String>,
    pub disks: Vec<DiskInfo>,
    pub proc_available: bool,
    pub procs: Vec<ProcRow>,
}

/// What the sidebar shows.
#[verifier::ext_equal]
pub ghost struct SidebarView {
    pub conn_state: i32,
    pub connection_state: Seq<char>,
    pub conn_host: Seq<char>,
    pub resource_title: Seq<char>,
    pub cpu: Gauge,
    pub mem: Gauge,
    pub swap: Gauge,
    pub mem_detail: Option<(u64, u64)>,
    pub swap_detail: Option<(u64, u64)>,
    pub top_up: u64,
    pub top_down: u64,
    pub top_history: Seq<u64>,
    pub bottom_up: u64,
    pub bottom_down: u64,
    pub bottom_history: Seq<u64>,
    pub show_selector: bool,
    pub selected: Seq<char>,
    pub ifaces: Seq<Seq<char>>,
    pub disks: Seq<DiskInfoView>,
    pub proc_available: bool,
    pub procs: Seq<ProcRowView>,
}

impl View for Sidebar {
    type V = SidebarView;

    open spec fn view(&self) -> SidebarView {
        SidebarView {
            conn_state: self.conn_state,
            connection_state: self.connection_state@,
            conn_host: self.conn_host@,
            resource_title: self.resource_title@,
            cpu: self.cpu,
            mem: self.mem,
            swap: self.swap,
            mem_detail: self.mem_detail,
            swap_detail: self.swap_detail,
            top_up: self.top_up,
            top_down: self.top_down,
            top_history: self.top_history@,
            bottom_up: self.bottom_up,
            bottom_down: self.bottom_down,
            bottom_history: self.bottom_history@,
            show_selector: self.show_selector,
            selected: self.selected@,
            ifaces: texts(self.ifaces@),
            disks: disk_info_views(self.disks@),
            proc_available: self.proc_available,
            procs: proc_row_views(self.procs@),
        }
    }
}

/// The sidebar of the local machine: its resources, and its network on top and at the bottom.
pub open spec fn local_sidebar(snap: SystemSnapshot, hist: Seq<u64>, english: bool) -> SidebarView {
    SidebarView {
        conn_state: 0,
        connection_state: tr(english, "未连接"@, "Not connected"@),
        conn_host: Seq::empty(),
        resource_title: tr(english, "本机资源"@, "Local resources"@),
        cpu: Gauge::Bits(snap.cpu_bits),
        mem: Gauge::Bits(snap.mem_bits),
        swap: Gauge::Bits(snap.swap_bits),
        mem_detail: Some((snap.mem_used_mib, snap.mem_total_mib)),
        swap_detail: Some((snap.swap_used_mib, snap.swap_total_mib)),
        top_up: snap.net_tx_per_sec,
        top_down: snap.net_rx_per_sec,
        top_history: hist,
        bottom_up: snap.net_tx_per_sec,
        bottom_down: snap.net_rx_per_sec,
        bottom_history: hist,
        show_selector: false,
        selected: Seq::empty(),
        ifaces: Seq::empty(),
        disks: disk_rows(disk_views(snap.disks@)),
        proc_available: false,
        procs: Seq::empty(),
    }
}

/// The names of a list of interfaces.
pub open spec fn iface_names(net: Seq<NetView>) -> Seq<Seq<char>> {
    net.map_values(|n: NetView| n.name)
}

/// The sidebar of a session tab. While it is connected it shows the server's resources, network,
/// filesystems and processes; otherwise the server's figures are cleared and the local network
/// and filesystems show.
pub open spec fn session_sidebar(
    st: StatusView,
    snap: SystemSnapshot,
    hist: Seq<u64>,
    english: bool,
) -> SidebarView {
    let here = local_sidebar(snap, hist, english);
    let title = tr(english, "服务器资源"@, "Server resources"@);
    let host = trimmed(after_last(st.host, '@'));
    if st.state == 1 {
        let iface = driving_iface(st.net, st.selected_iface);
        SidebarView {
            conn_state: 1,
            connection_state: st.host,
            conn_host: host,
            resource_title: title,
            cpu: Gauge::Bits(st.cpu_bits),
            mem: ratio(st.mem_used_kib, st.mem_total_kib),
            swap: ratio(st.swap_used_kib, st.swap_total_kib),
            mem_detail: Some((st.mem_used_kib / 1024, st.mem_total_kib / 1024)),
            swap_detail: Some((st.swap_used_kib / 1024, st.swap_total_kib / 1024)),
            top_up: iface.tx,
            top_down: iface.rx,
            top_history: st.net_hist,
            show_selector: st.net.len() > 0,
            selected: iface.name,
            ifaces: iface_names(st.net),
            disks: disk_rows(st.disks),
            proc_available: true,
            procs: proc_rows_of(st.procs),
            ..here
        }
    } else {
        SidebarView {
            conn_state: if st.state == 2 {
                2
            } else {
                0
            },
            connection_state: if st.state == 2 {
                st.host.push(' ') + tr(english, "已断开"@, "disconnected"@)
            } else {
                tr(english, "连接中"@, "Connecting"@).push(' ') + st.host
            },
            conn_host: host,
            resource_title: title,
            cpu: Gauge::Zero,
            mem: Gauge::Zero,
            swap: Gauge::Zero,
            mem_detail: None,
            swap_detail: None,
            ..here
        }
    }
}

/// The sidebar for the active tab, whose status is given if it is a session tab.
pub open spec fn sidebar_of(
    st: Option<StatusView>,
    snap: SystemSnapshot,
    hist: Seq<u64>,
    english: bool,
) -> SidebarView {
    match st {
        Some(s) => session_sidebar(s, snap, hist, english),
        None => local_sidebar(snap, hist, english),
    }
}

/// What the status of a tab holds, if there is one.
pub open spec fn opt_status(st: Option<&TabStatus>) -> Option<StatusView> {
    match st {
        Some(s) => Some(s@),
        None => None,
    }
}

/// A copy of a list of numbers.
fn copy_ring(ring: &Vec<u64>) -> (r: Vec<u64>)
    ensures
        r@ == ring@,
{
    let mut r: Vec<u64> = Vec::new();
    let mut i: usize = 0;
    while i < ring.len()
        invariant
            i <= ring@.len(),
            r@ == ring@.take(i as int),
        decreases ring@.len() - i,
    {
        r.push(ring[i]);
        i += 1;
        assert(ring@.take(i as int) =~= ring@.take(i - 1).push(ring@[i - 1]));
    }
    assert(ring@.take(i as int) =~= ring@);
    r
}

/// The names of a list of interfaces.
fn name_ifaces(net: &Vec<NetRate>) -> (r: Vec<String>)
    ensures
        texts(r@) == iface_names(net_views(net@)),
{
    let mut r: Vec<String> = Vec::new();
    let mut i: usize = 0;
    while i < net.len()
        invariant
            i <= net@.len(),
            r@.len() == i,
            forall|j: int| 0 <= j < i ==> (#[trigger] r@[j])@ == net@[j].name@,
        decreases net@.len() - i,
    {
        r.push(net[i].name.clone());
        i += 1;
    }
    assert(texts(r@) =~= iface_names(net_views(net@)));
    r
}

/// Recompute the whole sidebar (status dot, CPU/mem/swap, dual network panel) for the active
/// tab: the local machine where it is no session tab (`st` is none), and otherwise that server.
/// The bottom network graph is always the local machine.
pub fn refresh_sidebar(
    st: Option<&TabStatus>,
    snap: &SystemSnapshot,
    local_net_hist: &Vec<u64>,
    english: bool,
) -> (r: Sidebar)
    ensures
        r@ == sidebar_of(opt_status(st), *snap, local_net_hist@, english),
        st matches Some(s) ==> (s.state == 1 ==> r@.disks == disk_rows(disk_views(s.disks@))),
{
    let mut r = Sidebar {
        conn_state: 0,
        connection_state: t(english, "未连接", "Not connected"),
        conn_host: String::new(),
        resource_title: t(english, "本机资源", "Local resources"),
        cpu: Gauge::Bits(snap.cpu_bits),
        mem: Gauge::Bits(snap.mem_bits),
        swap: Gauge::Bits(snap.swap_bits),
        mem_detail: Some((snap.mem_used_mib, snap.mem_total_mib)),
        swap_detail: Some((snap.swap_used_mib, snap.swap_total_mib)),
        top_up: snap.net_tx_per_sec,
        top_down: snap.net_rx_per_sec,
        top_history: copy_ring(local_net_hist),
        bottom_up: snap.net_tx_per_sec,
        bottom_down: snap.net_rx_per_sec,
        bottom_history: copy_ring(local_net_hist),
        show_selector: false,
        selected: String::new(),
        ifaces: Vec::new(),
        disks: disk_model(&snap.disks),
        proc_available: false,
        procs: Vec::new(),
    };
    assert(texts(r.ifaces@) =~= Seq::<Seq<char>>::empty());
    assert(proc_row_views(r.procs@) =~= Seq::<ProcRowView>::empty());
    assert(r@ =~= local_sidebar(*snap, local_net_hist@, english));
    match st {
        None => {},
        Some(s) => {
            r.conn_host = conn_ip(s.host.as_str());
            r.resource_title = t(english, "服务器资源", "Server resources");
            if s.state == 1 {
                // A live session tab: remote resources and remote interface on top.
                let iface = selected_iface(s);
                r.conn_state = 1;
                r.connection_state = s.host.clone();
                r.cpu = Gauge::Bits(s.cpu_bits);
                r.mem = pct(s.mem_used_kib, s.mem_total_kib);
                r.swap = pct(s.swap_used_kib, s.swap_total_kib);
                r.mem_detail = Some((s.mem_used_kib / 1024, s.mem_total_kib / 1024));
                r.swap_detail = Some((s.swap_used_kib / 1024, s.swap_total_kib / 1024));
                r.top_up = iface.tx;
                r.top_down = iface.rx;
                r.top_history = copy_ring(&s.net_hist);
                r.show_selector = s.net.len() > 0;
                r.selected = iface.name;
                r.ifaces = name_ifaces(&s.net);
                r.disks = disk_model(&s.disks);
                r.proc_available = true;
                r.procs = proc_rows(&s.procs);
                assert(s@.net.len() == s.net@.len());
            } else {
                // Disconnected, or still connecting.
                let mut text: String = String::new();
                if s.state == 2 {
                    r.conn_state = 2;
                    text.append(s.host.as_str());
                    text.push(' ');
                    push_tr(&mut text, english, "已断开", "disconnected");
                    assert(text@ =~= s.host@.push(' ') + tr(english, "已断开"@, "disconnected"@));
                } else {
                    push_tr(&mut text, english, "连接中", "Connecting");
                    text.push(' ');
                    text.append(s.host.as_str());
                    assert(text@ =~= tr(english, "连接中"@, "Connecting"@).push(' ') + s.host@);
                }
                r.connection_state = text;
                r.cpu = Gauge::Zero;
                r.mem = Gauge::Zero;
                r.swap = Gauge::Zero;
                r.mem_detail = None;
                r.swap_detail = None;
            }
        },
    }
    assert(r@ =~= sidebar_of(opt_status(st), *snap, local_net_hist@, english));
    r
}

// ---- Laws -----------------------------------------------------------------

/// A ring always has its full length once something was pushed, and its newest value last.
pub proof fn law_ring_keeps_its_length(ring: Seq<u64>, val: u64)
    ensures
        ring_push(ring, val).len() == NET_HISTORY_LEN,
        ring_push(ring, val).last() == val,
{
}

/// Each push moves every sample one place towards the front.
pub proof fn law_ring_shifts(ring: Seq<u64>, val: u64, i: int)
    requires
        ring.len() == NET_HISTORY_LEN,
        0 < i < NET_HISTORY_LEN,
    ensures
        ring_push(ring, val)[i - 1] == ring[i],
{
}

/// Whatever the tab, the bottom network graph is that of the local machine; and process data is
/// shown for a connected session only.
pub proof fn law_bottom_graph_is_local(
    st: Option<StatusView>,
    snap: SystemSnapshot,
    hist: Seq<u64>,
    english: bool,
)
    ensures
        sidebar_of(st, snap, hist, english).bottom_history == hist,
        sidebar_of(st, snap, hist, english).bottom_up == snap.net_tx_per_sec,
        sidebar_of(st, snap, hist, english).bottom_down == snap.net_rx_per_sec,
        sidebar_of(st, snap, hist, english).proc_available <==> (st matches Some(s) && s.state
            == 1),
        !(st matches Some(s) && s.state == 1) ==> sidebar_of(st, snap, hist, english).procs.len()
            == 0,
{
}

/// A selection that still exists drives the sparkline; one that is gone gives way to the busiest.
pub proof fn law_selection_drives_while_it_exists(net: Seq<NetView>, selected: Seq<char>)
    ensures
        selected.len() > 0 && (exists|i: int| 0 <= i < net.len() && (#[trigger] net[i]).name
            == selected) ==> driving_iface(net, selected).name == selected,
        net.len() > 0 && (selected.len() == 0 || forall|i: int|
            0 <= i < net.len() ==> (#[trigger] net[i]).name != selected) ==> driving_iface(
            net,
            selected,
        ) == net[0],
{
    lemma_find_iface(net, selected, 0);
}

proof fn lemma_find_iface(net: Seq<NetView>, name: Seq<char>, i: int)
    requires
        0 <= i <= net.len(),
    ensures
        (exists|k: int| i <= k < net.len() && (#[trigger] net[k]).name == name) ==> (find_iface(
            net,
            name,
            i,
        ) matches Some(n) && n.name == name),
        (forall|k: int| i <= k < net.len() ==> (#[trigger] net[k]).name != name) ==> find_iface(
            net,
            name,
            i,
        ) is None,
    decreases net.len() - i,
{
    if i < net.len() && net[i].name != name {
        lemma_find_iface(net, name, i + 1);
    }
}

/// While a session tab is connected the sidebar shows that session's latest sample: the rows of
/// the filesystem list are, one for one and in order, its filesystems; the rows of the process
/// list its processes; the interfaces its interfaces.
pub proof fn law_connected_tab_lists_the_server(
    st: StatusView,
    snap: SystemSnapshot,
    hist: Seq<u64>,
    english: bool,
    i: int,
)
    requires
        st.state == 1,
    ensures
        ({
            let v = sidebar_of(Some(st), snap, hist, english);
            &&& v.disks.len() == st.disks.len()
            &&& 0 <= i < st.disks.len() ==> {
                &&& v.disks[i].path == st.disks[i].mount
                &&& v.disks[i].available == st.disks[i].available
                &&& v.disks[i].total == st.disks[i].total
            }
            &&& v.procs.len() == st.procs.len()
            &&& 0 <= i < st.procs.len() ==> {
                &&& v.procs[i].pid == decimal(st.procs[i].pid as nat)
                &&& v.procs[i].user == st.procs[i].user
                &&& v.procs[i].cpu_bits == st.procs[i].cpu_bits
                &&& v.procs[i].mem_bits == st.procs[i].mem_bits
                &&& v.procs[i].command == st.procs[i].command
            }
            &&& v.ifaces.len() == st.net.len()
            &&& 0 <= i < st.net.len() ==> v.ifaces[i] == st.net[i].name
            &&& v.show_selector <==> st.net.len() > 0
        }),
{
}

/// While a session tab is connected nothing that the sidebar shows but the bottom graph depends on
/// the local machine.
pub proof fn law_connected_tab_ignores_the_local_machine(
    st: StatusView,
    snap: SystemSnapshot,
    hist: Seq<u64>,
    other: SystemSnapshot,
    other_hist: Seq<u64>,
    english: bool,
)
    requires
        st.state == 1,
    ensures
        ({
            let a = sidebar_of(Some(st), snap, hist, english);
            let b = sidebar_of(Some(st), other, other_hist, english);
            a == (SidebarView {
                bottom_up: a.bottom_up,
                bottom_down: a.bottom_down,
                bottom_history: a.bottom_history,
                ..b
            })
        }),
{
}

/// While a session tab is connected the gauges, the details and the top graph are those of the
/// session: kibibytes are told in mebibytes, what was received goes down and what was sent goes
/// up, by the interface that drives the graph.
pub proof fn law_connected_tab_gauges_the_server(
    st: StatusView,
    snap: SystemSnapshot,
    hist: Seq<u64>,
    english: bool,
)
    requires
        st.state == 1,
    ensures
        ({
            let v = sidebar_of(Some(st), snap, hist, english);
            let iface = driving_iface(st.net, st.selected_iface);
            &&& v.conn_state == 1
            &&& v.connection_state == st.host
            &&& v.resource_title == tr(english, "服务器资源"@, "Server resources"@)
            &&& v.cpu == Gauge::Bits(st.cpu_bits)
            &&& st.mem_total_kib > 0 ==> v.mem == (Gauge::Ratio {
                used: st.mem_used_kib,
                total: st.mem_total_kib,
            })
            &&& st.mem_total_kib == 0 ==> v.mem == Gauge::Zero
            &&& st.swap_total_kib > 0 ==> v.swap == (Gauge::Ratio {
                used: st.swap_used_kib,
                total: st.swap_total_kib,
            })
            &&& st.swap_total_kib == 0 ==> v.swap == Gauge::Zero
            &&& v.mem_detail matches Some((used, total)) && used * 1024 <= st.mem_used_kib < used
                * 1024 + 1024 && total * 1024 <= st.mem_total_kib < total * 1024 + 1024
            &&& v.swap_detail matches Some((used, total)) && used * 1024 <= st.swap_used_kib < used
                * 1024 + 1024 && total * 1024 <= st.swap_total_kib < total * 1024 + 1024
            &&& v.top_history == st.net_hist
            &&& v.selected == iface.name
            &&& v.top_up == iface.tx
            &&& v.top_down == iface.rx
        }),
{
}

/// A filesystem is as full as the part of it that is not available.
pub proof fn law_used_and_available_make_the_total(
    st: Option<StatusView>,
    snap: SystemSnapshot,
    hist: Seq<u64>,
    english: bool,
    i: int,
)
    requires
        0 <= i < sidebar_of(st, snap, hist, english).disks.len(),
    ensures
        ({
            let row = sidebar_of(st, snap, hist, english).disks[i];
            match row.percent {
                Gauge::Ratio { used, total } => total == row.total && total > 0 && (row.available
                    <= row.total ==> used + row.available == row.total) && (row.available
                    > row.total ==> used == 0),
                Gauge::Zero => row.total == 0,
                Gauge::Bits(b) => false,
            }
        }),
{
}

/// A tab that is not connected shows no gauge of the server, says that it is connecting or
/// disconnected, and lists the local filesystems; without a session tab the local machine is
/// shown throughout.
pub proof fn law_without_a_connection_the_local_machine_is_shown(
    st: Option<StatusView>,
    snap: SystemSnapshot,
    hist: Seq<u64>,
    english: bool,
    i: int,
)
    requires
        !(st matches Some(s) && s.state == 1),
    ensures
        ({
            let v = sidebar_of(st, snap, hist, english);
            &&& v.disks.len() == snap.disks@.len()
            &&& 0 <= i < v.disks.len() ==> {
                &&& v.disks[i].path == snap.disks@[i].mount@
                &&& v.disks[i].available == snap.disks@[i].available
                &&& v.disks[i].total == snap.disks@[i].total
            }
            &&& v.top_up == snap.net_tx_per_sec
            &&& v.top_down == snap.net_rx_per_sec
            &&& v.top_history == hist
            &&& !v.show_selector && v.ifaces.len() == 0 && v.selected.len() == 0
            &&& st matches Some(s) ==> {
                &&& v.cpu == Gauge::Zero && v.mem == Gauge::Zero && v.swap == Gauge::Zero
                &&& v.mem_detail is None && v.swap_detail is None
                &&& v.conn_state == 2 <==> s.state == 2
                &&& v.conn_state == 0 <==> s.state != 2
                &&& s.state == 2 ==> v.connection_state.take(s.host.len() as int) == s.host
                &&& s.state != 2 ==> v.connection_state.skip(v.connection_state.len() - s.host.len())
                    == s.host
            }
            &&& st is None ==> {
                &&& v.cpu == Gauge::Bits(snap.cpu_bits)
                &&& v.mem == Gauge::Bits(snap.mem_bits)
                &&& v.swap == Gauge::Bits(snap.swap_bits)
                &&& v.mem_detail == Some((snap.mem_used_mib, snap.mem_total_mib))
                &&& v.swap_detail == Some((snap.swap_used_mib, snap.swap_total_mib))
                &&& v.conn_state == 0
                &&& v.conn_host.len() == 0
                &&& v.resource_title == tr(english, "本机资源"@, "Local resources"@)
                &&& v.connection_state == tr(english, "未连接"@, "Not connected"@)
            }
        }),
{
    if let Some(s) = st {
        let v = sidebar_of(st, snap, hist, english);
        if s.state == 2 {
            assert(v.connection_state.take(s.host.len() as int) =~= s.host);
        } else {
            assert(v.connection_state.skip(v.connection_state.len() - s.host.len()) =~= s.host);
        }
    }
}

/// The address under the connection state is the host without its user: after the `@`, without
/// white space round it.
pub proof fn law_host_is_shown_without_the_user(
    user: Seq<char>,
    host: Seq<char>,
    st: StatusView,
    snap: SystemSnapshot,
    hist: Seq<u64>,
    english: bool,
)
    requires
        st.host == user + seq!['@'] + host || (st.host == host && user.len() == 0),
        !host.contains('@'),
    ensures
        sidebar_of(Some(st), snap, hist, english).conn_host == trimmed(host),
{
    law_after_last(user, '@', host);
}

/// A ring that does not have its length yet starts flat.
pub proof fn law_new_rings_start_flat(ring: Seq<u64>, val: u64, i: int)
    requires
        ring.len() != 60,
        0 <= i < 59,
    ensures
        ring_push(ring, val).len() == 60,
        ring_push(ring, val)[i] == 0,
        ring_push(ring, val)[59] == val,
{
}

/// The interface that drives the graph is one of those sampled, where there is any; where there
/// is none it has no name and no traffic.
pub proof fn law_driving_interface_was_sampled(net: Seq<NetView>, selected: Seq<char>)
    ensures
        net.len() > 0 ==> exists|i: int|
            0 <= i < net.len() && #[trigger] net[i] == driving_iface(net, selected),
        net.len() == 0 ==> driving_iface(net, selected).name.len() == 0 && driving_iface(
            net,
            selected,
        ).rx == 0 && driving_iface(net, selected).tx == 0,
{
    if net.len() > 0 {
        lemma_found_iface(net, selected, 0);
        if selected.len() == 0 || find_iface(net, selected, 0) is None {
            assert(net[0] == driving_iface(net, selected));
        }
    }
}

proof fn lemma_found_iface(net: Seq<NetView>, name: Seq<char>, i: int)
    requires
        0 <= i <= net.len(),
    ensures
        find_iface(net, name, i) matches Some(n) ==> exists|k: int|
            i <= k < net.len() && #[trigger] net[k] == n,
    decreases net.len() - i,
{
    if i < net.len() && net[i].name != name {
        lemma_found_iface(net, name, i + 1);
    }
}

/// A tab that is connecting knows where it leads and nothing else yet.
pub proof fn law_connecting_status_is_empty(host: Seq<char>, session_id: Seq<char>)
    ensures
        ({
            let st = connecting_status(host, session_id);
            &&& st.host == host && st.session_id == session_id
            &&& st.state != 1 && st.state != 2
            &&& st.cpu_bits == 0
            &&& st.mem_used_kib == 0 && st.mem_total_kib == 0
            &&& st.swap_used_kib == 0 && st.swap_total_kib == 0
            &&& st.net.len() == 0 && st.disks.len() == 0 && st.procs.len() == 0
            &&& st.selected_iface.len() == 0 && st.net_hist.len() == 0
        }),
{
}

} // verus!
