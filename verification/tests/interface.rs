use meatshell::apply::Effect;
use meatshell::buffer::apply_terminal_resize;
use meatshell::events::{
    coalesce, FileText, RemoteEntry, ResourceSample, SessionEvent, TransferUpdate, TreeNode,
};
use meatshell::fonts::{
    fonts_to_choose, resolve_ui_font_family, system_monospace_fonts, ui_font_candidates, Face,
    Platform,
};
use meatshell::session::{Session, SessionKind};
use meatshell::sidebar::{
    disk_model, new_ring, pct, proc_rows, push_ring, refresh_sidebar, select_net_iface,
    selected_iface, DiskSpace, Gauge, NetRate, ProcInfo, SystemSnapshot, TabStatus,
    NET_HISTORY_LEN,
};
use meatshell::tabs::open_ui;
use meatshell::ui::{TabInfo, TransferDetail, TransferPercent, Ui};
use meatshell::window::{
    apply_wallpaper, c0_letter_key, c0_letter_key_down, center_window, close_requested,
    key_is_down, panel_font, renderer_override, resize_edge, sampler_tick, theme_pref,
    theme_pref_is_dark, ui_scale, CloseAction, ResizeEdge, SystemTheme, Wallpaper, WinActivity,
    WinEvent, WinState, WorkArea,
};

fn net(name: &str, rx: u64, tx: u64) -> NetRate {
    NetRate { name: name.to_string(), rx, tx }
}

fn snapshot() -> SystemSnapshot {
    SystemSnapshot {
        cpu_bits: 0.5f32.to_bits(),
        mem_bits: 0.25f32.to_bits(),
        swap_bits: 0,
        mem_used_mib: 1,
        mem_total_mib: 4,
        swap_used_mib: 0,
        swap_total_mib: 2,
        net_rx_per_sec: 10,
        net_tx_per_sec: 20,
        net_bytes_per_sec: 30,
        disks: vec![DiskSpace { mount: "/".to_string(), available: 3, total: 10 }],
    }
}

fn status(host: &str, state: u8) -> TabStatus {
    let mut st = TabStatus::connecting(host.to_string(), "sid".to_string());
    st.state = state;
    st
}

fn ssh_session(name: &str) -> Session {
    let mut s = Session::blank(format!("id-{name}"));
    s.name = name.to_string();
    s.user = "root".to_string();
    s.host = "h".to_string();
    s
}

fn ui_with_tab(id: &str) -> Ui {
    let mut u = open_ui(true);
    u.open_session_tab(id, &ssh_session("box"), false, true);
    u.active_tab = id.to_string();
    u
}

fn out(s: &str) -> SessionEvent {
    SessionEvent::Output(s.to_string())
}

fn cwd(s: &str) -> SessionEvent {
    SessionEvent::CwdChanged(s.to_string())
}

fn shape(list: &[SessionEvent]) -> Vec<String> {
    list.iter()
        .map(|e| match e {
            SessionEvent::Output(s) => format!("out {s}"),
            SessionEvent::CwdChanged(s) => format!("cwd {s}"),
            SessionEvent::Connected => "connected".to_string(),
            SessionEvent::Prompt(n) => format!("prompt {n}"),
            _ => "other".to_string(),
        })
        .collect()
}

#[test]
fn bursts_are_joined() {
    let events = vec![out("a"), out("b"), SessionEvent::Connected, out("c"), cwd("/x"), out("d")];
    let r = coalesce(events, Some("/x".to_string()), true);
    // The unchanged directory is swallowed, so that the output around it is adjacent.
    assert_eq!(shape(&r.batch), vec!["out ab", "connected", "out cd"]);
    assert_eq!(r.last_cwd, Some("/x".to_string()));
    assert_eq!(r.list_dir, None);
}

#[test]
fn directories_are_followed() {
    let r = coalesce(vec![cwd("/a"), out("x"), cwd("/b"), cwd("/b"), out("y")], None, true);
    assert_eq!(shape(&r.batch), vec!["cwd /a", "out x", "cwd /b", "out y"]);
    assert_eq!(r.list_dir, Some("/b".to_string()));
    assert_eq!(r.last_cwd, Some("/b".to_string()));
    let r = coalesce(vec![cwd("/a"), SessionEvent::Prompt(7)], None, false);
    assert_eq!(shape(&r.batch), vec!["prompt 7"]);
    assert_eq!(r.list_dir, None);
    assert_eq!(r.last_cwd, Some("/a".to_string()));
    let r = coalesce(Vec::new(), Some("/k".to_string()), true);
    assert_eq!(r.batch.len(), 0);
    assert_eq!(r.last_cwd, Some("/k".to_string()));
}

#[test]
fn opening_a_tab() {
    let u = ui_with_tab("t1");
    assert_eq!(u.tabs.len(), 2);
    assert_eq!(u.tabs[0].id, "welcome");
    assert_eq!(u.tabs[0].title, "New tab");
    assert_eq!((u.tabs[1].title.as_str(), u.tabs[1].kind.as_str()), ("box", "terminal"));
    assert_eq!(u.terminals[0].status, "Connecting...");
    assert_eq!(u.terminals[0].sftp_path, "/");
    assert_eq!(u.terminals[0].sftp_status, "SFTP connecting...");
    assert!(u.terminals[0].sftp_loading);
    assert_eq!(u.statuses[0].status.host, "root@h");
    assert_eq!(u.buffers[0].buffer.size(), (24, 80));
    assert_eq!(u.session_of_tab("t1"), Some("id-box".to_string()));
    assert_eq!(u.session_of_tab("welcome"), None);
    let mut serial = ssh_session("s");
    serial.kind = SessionKind::Serial;
    let mut u = u;
    u.open_session_tab("t2", &serial, true, false);
    assert_eq!(u.terminals[1].sftp_status, "SFTP not available for this session");
    assert!(!u.terminals[1].sftp_loading);
    assert!(u.terminals[1].sftp_collapsed);
    let side = u.sidebar(&snapshot(), &new_ring());
    assert_eq!(side.connection_state, "Connecting root@h");
}

#[test]
fn shrunk_terminal_is_renewed_for_output() {
    let mut u = ui_with_tab("t1");
    u.renew_terminal("none");
    u.apply_session_event("t1", SessionEvent::Output("\x1b[24;1Hsh\x1b[?1049hvim".to_string()));
    let b = u.buffer_at("t1");
    apply_terminal_resize(&mut u.buffers[b].buffer, 40, 10);
    u.renew_terminal("t1");
    u.apply_session_event("t1", SessionEvent::Output("\x1b[?1049l\x1b[Hback".to_string()));
    assert_eq!(u.buffers[b].buffer.size(), (10, 40));
    assert_eq!(u.buffers[b].buffer.displayed_row(0), Some("back".to_string()));
}

#[test]
fn output_reaches_its_tab() {
    let mut u = ui_with_tab("t1");
    u.open_session_tab("t2", &ssh_session("other"), false, true);
    assert!(matches!(u.apply_session_event("t1", out("hello\r\n")), Effect::Nothing));
    assert_eq!(u.terminals[0].spans.len(), 1);
    assert_eq!(u.terminals[0].cursor_row, 1);
    assert_eq!(u.terminals[1].spans.len(), 0);
    assert_eq!(u.buffers[1].buffer.displayed_row(0), None);
    // Output for a tab that is gone is dropped.
    u.apply_session_event("gone", out("x"));
    assert_eq!(u.terminals[0].cursor_col, 0);
}

#[test]
fn connecting_and_closing() {
    let mut u = ui_with_tab("t1");
    u.panes.push(vec![TabInfo {
        id: "t1".to_string(),
        title: "".to_string(),
        kind: "".to_string(),
        connected: false,
    }]);
    assert!(matches!(u.apply_session_event("t1", SessionEvent::Connected), Effect::RefreshSidebar));
    assert!(u.tabs[1].connected && u.panes[0][0].connected);
    assert!(!u.tabs[0].connected);
    assert_eq!(u.terminals[0].status, "Connected");
    assert_eq!(u.statuses[0].status.state, 1);
    let e = u.apply_session_event("t1", SessionEvent::Closed("timeout".to_string()));
    assert!(matches!(e, Effect::RefreshSidebar));
    assert!(!u.tabs[1].connected && !u.panes[0][0].connected);
    assert_eq!(u.terminals[0].status, "Disconnected — timeout");
    assert_eq!(u.statuses[0].status.state, 2);
    assert_eq!(
        u.buffers[0].buffer.displayed_row(1),
        Some("Disconnected — press Enter to reconnect".to_string())
    );
    assert_eq!(u.terminals[0].spans[0].row, 1);
    u.active_tab = "welcome".to_string();
    assert!(matches!(u.apply_session_event("t1", SessionEvent::Connected), Effect::Nothing));
}

#[test]
fn samples_make_a_tab_connected() {
    let mut u = ui_with_tab("t1");
    let sample = ResourceSample {
        cpu_bits: 9,
        mem_used_kib: 1,
        mem_total_kib: 2,
        swap_used_kib: 3,
        swap_total_kib: 4,
        net: vec![net("eth0", 5, 6), net("lo", 7, 8)],
        disks: Vec::new(),
        procs: Vec::new(),
    };
    let e = u.apply_session_event("t1", SessionEvent::ResourceStats(sample));
    assert!(matches!(e, Effect::RefreshSidebar));
    let st = &u.statuses[0].status;
    assert_eq!((st.state, st.cpu_bits, st.mem_total_kib), (1, 9, 2));
    assert_eq!(st.net_hist.len(), NET_HISTORY_LEN);
    assert_eq!(st.net_hist[NET_HISTORY_LEN - 1], 11);
    assert_eq!(st.net_hist[0], 0);
}

#[test]
fn file_panel_events() {
    let mut u = ui_with_tab("t1");
    u.apply_session_event("t1", cwd("/etc"));
    assert_eq!(u.active_sftp_path("t1"), "/etc");
    assert!(u.terminals[0].sftp_loading);
    let entry = |name: &str, dir: bool| RemoteEntry {
        name: name.to_string(),
        full_path: format!("/etc/{name}"),
        is_dir: dir,
        size: 12,
        modified: 99,
        mode: 0o100644,
    };
    u.apply_session_event(
        "t1",
        SessionEvent::SftpEntries {
            path: "/etc".to_string(),
            entries: vec![entry("d", true), entry("f", false)],
        },
    );
    assert!(!u.terminals[0].sftp_loading);
    assert_eq!(u.terminals[0].sftp_entries[0].size, None);
    assert_eq!(u.terminals[0].sftp_entries[1].size, Some(12));
    assert_eq!(u.terminals[0].sftp_entries[1].mode, 0o644);
    u.terminals[0].sftp_entries[1].selected = true;
    u.terminals[0].sftp_selected_count = 1;
    assert_eq!(u.collect_sftp_selected("t1"), vec!["/etc/f".to_string()]);
    assert_eq!(u.collect_sftp_selected("t2").len(), 0);
    u.clear_sftp_selection("t1");
    assert_eq!(u.collect_sftp_selected("t1").len(), 0);
    assert_eq!(u.terminals[0].sftp_selected_count, 0);
    u.apply_session_event("t1", cwd("/bad"));
    u.apply_session_event("t1", SessionEvent::SftpError("denied".to_string()));
    assert_eq!(u.terminals[0].sftp_status, "denied");
    assert!(!u.terminals[0].sftp_loading);
    assert_eq!(u.terminals[0].sftp_entries.len(), 2);
    u.apply_session_event("t1", SessionEvent::SftpStatus("ok".to_string()));
    assert_eq!(u.terminals[0].sftp_status, "ok");
    u.apply_session_event(
        "t1",
        SessionEvent::SftpTreeUpdate(vec![TreeNode {
            path: "/".to_string(),
            name: "/".to_string(),
            depth: 3,
            expanded: true,
            has_children: true,
        }]),
    );
    assert_eq!(u.terminals[0].sftp_tree_nodes[0].depth, 3);
    u.apply_session_event("t1", SessionEvent::Status("busy".to_string()));
    assert_eq!(u.terminals[0].status, "busy");
    u.set_sftp_collapsed("t1", true);
    assert!(u.terminals[0].sftp_collapsed);
    assert_eq!(u.terminal_sftp_paths().len(), 1);
}

#[test]
fn opening_files() {
    let mut u = ui_with_tab("t1");
    let file = |error: &str, edit: bool| FileText {
        path: "/f".to_string(),
        name: "f".to_string(),
        content: "a\nb".to_string(),
        edit,
        error: error.to_string(),
    };
    match u.apply_session_event("t1", SessionEvent::SftpFileText(file("", false))) {
        Effect::OpenEditor(f) => {
            assert_eq!(f.line_numbers, "1\n2");
            assert!(f.readonly);
            assert_eq!((f.path.as_str(), f.content.as_str()), ("/f", "a\nb"));
        }
        _ => panic!("no editor"),
    }
    let e = u.apply_session_event("t1", SessionEvent::SftpFileText(file("binary", true)));
    assert!(matches!(e, Effect::Nothing));
    assert_eq!(u.terminals[0].sftp_status, "binary");
    assert_eq!(
        u.buffers[0].buffer.displayed_row(1),
        Some("[meatshell] Cannot open f: binary".to_string())
    );
}

#[test]
fn other_events() {
    let mut u = ui_with_tab("t1");
    assert!(matches!(u.apply_session_event("t1", SessionEvent::Prompt(5)), Effect::AskUser(5)));
    match u.apply_session_event("t1", SessionEvent::CommandRan("ls".to_string())) {
        Effect::RecordCommand(c) => assert_eq!(c, "ls"),
        _ => panic!("not recorded"),
    }
}

#[test]
fn transfers() {
    let mut u = ui_with_tab("t1");
    let update = |id: &str, state: u8, transferred: u64, total: u64, msg: &str| {
        SessionEvent::SftpTransfer(TransferUpdate {
            id: id.to_string(),
            name: "f".to_string(),
            is_upload: true,
            transferred,
            total,
            state,
            msg: msg.to_string(),
        })
    };
    u.apply_session_event("t1", update("a", 0, 5, 10, ""));
    u.apply_session_event("t1", update("b", 0, 5, 0, ""));
    // The newest is at the top; updates stay in place.
    assert_eq!(u.transfers[0].id, "b");
    assert!(matches!(u.transfers[0].detail, TransferDetail::Transferred(5)));
    assert_eq!(u.transfers[0].percent, TransferPercent::Nothing);
    assert!(matches!(u.transfers[1].detail, TransferDetail::Progress { transferred: 5, total: 10 }));
    u.apply_session_event("t1", update("a", 0, 15, 10, ""));
    assert_eq!(u.transfers[1].percent, TransferPercent::Part { transferred: 10, total: 10 });
    let text = |u: &Ui| match &u.transfers[1].detail {
        TransferDetail::Message(s) => s.clone(),
        _ => "".to_string(),
    };
    u.apply_session_event("t1", update("a", 1, 1, 10, ""));
    assert_eq!((text(&u).as_str(), u.transfers[1].percent), ("Done", TransferPercent::Done));
    u.apply_session_event("t1", update("a", 2, 1, 10, ""));
    assert_eq!(text(&u), "Failed");
    u.apply_session_event("t1", update("a", 2, 1, 10, "quota"));
    assert_eq!(text(&u), "quota");
    u.apply_session_event("t1", update("a", 3, 1, 10, ""));
    assert_eq!(text(&u), "Preparing...");
    u.apply_session_event("t1", update("a", 4, 1, 10, ""));
    assert_eq!(text(&u), "Cancelled");
    assert_eq!(u.transfers[1].state, 4);
    assert_eq!(u.transfers.len(), 2);
}

#[test]
fn dropped_files() {
    let mut u = ui_with_tab("t1");
    u.open_session_tab("t2", &ssh_session("b"), false, true);
    u.open_session_tab("t3", &ssh_session("c"), false, true);
    u.apply_session_event("t1", cwd("/one"));
    u.apply_session_event("t2", cwd("/two"));
    u.terminals[2].sftp_path = "".to_string();
    let online: Vec<String> = ["t3", "t2", "t1"].iter().map(|s| s.to_string()).collect();
    let plan = |u: &Ui, hit: bool, sync: bool, on: &Vec<String>| -> Vec<(String, String)> {
        u.handle_file_drop(hit, sync, on).iter().map(|d| (d.tab.clone(), d.dir.clone())).collect()
    };
    let pair = |a: &str, b: &str| (a.to_string(), b.to_string());
    assert_eq!(plan(&u, true, false, &online), vec![pair("t1", "/one")]);
    assert_eq!(plan(&u, true, true, &online), vec![pair("t1", "/one"), pair("t2", "/two")]);
    assert_eq!(plan(&u, false, true, &online), vec![]);
    assert_eq!(plan(&u, true, true, &vec!["t2".to_string()]), vec![pair("t2", "/two")]);
    u.active_tab = "welcome".to_string();
    assert_eq!(plan(&u, true, true, &online), vec![]);
    u.active_tab = "t3".to_string();
    assert_eq!(plan(&u, true, true, &online), vec![]);
}

#[test]
fn language_and_theme() {
    let mut u = ui_with_tab("t1");
    u.apply_session_event("t1", out("x"));
    u.set_language(false);
    assert_eq!(u.tabs[0].title, "新标签页");
    assert_eq!(u.tabs[1].title, "box");
    u.apply_session_event("t1", SessionEvent::Connected);
    assert_eq!(u.terminals[0].status, "已连接");
    let dark = u.terminals[0].spans[0].fg;
    u.apply_dark_mode(false);
    assert_ne!(u.terminals[0].spans[0].fg, dark);
    u.apply_dark_mode(true);
    assert_eq!(u.terminals[0].spans[0].fg, dark);
    u.rebuild_tab("t1");
    assert_eq!(u.terminals[0].spans.len(), 1);
}

#[test]
fn sidebar_of_the_local_machine() {
    let ring = vec![1, 2, 3];
    let s = refresh_sidebar(None, &snapshot(), &ring, true);
    assert_eq!(s.conn_state, 0);
    assert_eq!(s.connection_state, "Not connected");
    assert_eq!(s.conn_host, "");
    assert_eq!(s.resource_title, "Local resources");
    assert_eq!(s.cpu, Gauge::Bits(0.5f32.to_bits()));
    assert_eq!(s.mem_detail, Some((1, 4)));
    assert_eq!((s.top_up, s.top_down, s.bottom_up, s.bottom_down), (20, 10, 20, 10));
    assert_eq!(s.top_history, ring);
    assert!(!s.show_selector);
    assert_eq!(s.disks[0].percent, Gauge::Ratio { used: 7, total: 10 });
    assert!(!s.proc_available);
}

#[test]
fn sidebar_of_a_session() {
    let ring = new_ring();
    let mut st = status("root@10.0.0.2", 1);
    st.mem_used_kib = 2048;
    st.mem_total_kib = 4096;
    st.net = vec![net("eth0", 1, 2), net("wlan0", 3, 4)];
    st.selected_iface = "wlan0".to_string();
    st.procs = vec![ProcInfo {
        pid: 42,
        user: "u".to_string(),
        cpu_bits: 1,
        mem_bits: 2,
        command: "top".to_string(),
    }];
    let s = refresh_sidebar(Some(&st), &snapshot(), &ring, true);
    assert_eq!(s.conn_state, 1);
    assert_eq!(s.connection_state, "root@10.0.0.2");
    assert_eq!(s.conn_host, "10.0.0.2");
    assert_eq!(s.resource_title, "Server resources");
    assert_eq!(s.mem, Gauge::Ratio { used: 2048, total: 4096 });
    assert_eq!(s.swap, Gauge::Zero);
    assert_eq!(s.mem_detail, Some((2, 4)));
    assert_eq!((s.top_up, s.top_down), (4, 3));
    assert_eq!((s.bottom_up, s.bottom_down), (20, 10));
    assert_eq!(s.selected, "wlan0");
    assert_eq!(s.ifaces, vec!["eth0".to_string(), "wlan0".to_string()]);
    assert!(s.show_selector && s.proc_available);
    assert_eq!(s.procs[0].pid, "42");
    st.state = 2;
    let s = refresh_sidebar(Some(&st), &snapshot(), &ring, true);
    assert_eq!((s.conn_state, s.connection_state.as_str()), (2, "root@10.0.0.2 disconnected"));
    assert_eq!((s.cpu, s.mem_detail), (Gauge::Zero, None));
    assert_eq!(s.procs.len(), 0);
    st.state = 0;
    let s = refresh_sidebar(Some(&st), &snapshot(), &ring, false);
    assert_eq!((s.conn_state, s.connection_state.as_str()), (0, "连接中 root@10.0.0.2"));
}

#[test]
fn interfaces_and_rings() {
    let mut st = status("h", 1);
    assert_eq!(selected_iface(&st).name, "");
    st.net = vec![net("a", 1, 1), net("b", 2, 2)];
    assert_eq!(selected_iface(&st).name, "a");
    st.selected_iface = "b".to_string();
    assert_eq!(selected_iface(&st).rx, 2);
    st.selected_iface = "gone".to_string();
    assert_eq!(selected_iface(&st).name, "a");
    st.net_hist = vec![9];
    select_net_iface(&mut st, "b");
    assert_eq!(st.selected_iface, "b");
    assert_eq!(st.net_hist, new_ring());
    let mut ring: Vec<u64> = Vec::new();
    push_ring(&mut ring, 7);
    assert_eq!(ring.len(), 60);
    assert_eq!((ring[58], ring[59]), (0, 7));
    push_ring(&mut ring, 8);
    assert_eq!((ring[58], ring[59]), (7, 8));
    assert_eq!(pct(1, 0), Gauge::Zero);
    assert_eq!(pct(1, 2), Gauge::Ratio { used: 1, total: 2 });
    let odd = vec![DiskSpace { mount: "/x".to_string(), available: 9, total: 3 }];
    assert_eq!(disk_model(&odd)[0].percent, Gauge::Ratio { used: 0, total: 3 });
    assert_eq!(proc_rows(&Vec::new()).len(), 0);
}

#[test]
fn window_activity() {
    let mut w = WinState::opened();
    assert_eq!(w.note(WinEvent::Focused(false)), WinActivity::Background);
    assert_eq!(w.note(WinEvent::Occluded(true)), WinActivity::Hidden);
    assert_eq!(w.note(WinEvent::Focused(true)), WinActivity::Hidden);
    assert_eq!(w.note(WinEvent::Occluded(false)), WinActivity::Active);
    assert_eq!(w.note(WinEvent::Resized { width: 0, height: 5 }), WinActivity::Hidden);
    assert_eq!(w.note(WinEvent::Resized { width: 5, height: 5 }), WinActivity::Active);
}

#[test]
fn sampling() {
    let mut tick = 0u32;
    let hits: Vec<bool> = (0..10).map(|_| sampler_tick(WinActivity::Background, &mut tick)).collect();
    assert_eq!(hits.iter().filter(|h| **h).count(), 2);
    assert!(hits[4] && hits[9]);
    assert!(sampler_tick(WinActivity::Active, &mut tick));
    assert!(!sampler_tick(WinActivity::Hidden, &mut tick));
    assert_eq!(tick, 10);
    let mut last = u32::MAX;
    assert!(sampler_tick(WinActivity::Background, &mut last));
    assert_eq!(last, 0);
}

#[test]
fn window_settings() {
    assert_eq!(close_requested(0), CloseAction::SaveAndClose);
    assert_eq!(close_requested(2), CloseAction::Confirm);
    assert_eq!([ui_scale(-5), ui_scale(79), ui_scale(100), ui_scale(500)], [80, 80, 100, 200]);
    assert_eq!([panel_font(-5), panel_font(120), panel_font(161)], [80, 120, 160]);
    assert_eq!(resize_edge(0), ResizeEdge::North);
    assert_eq!(resize_edge(6), ResizeEdge::SouthEast);
    assert_eq!(resize_edge(7), ResizeEdge::SouthWest);
    assert_eq!(resize_edge(-1), ResizeEdge::SouthWest);
    let area = WorkArea { left: 100, top: 0, right: 1100, bottom: 801 };
    assert_eq!(center_window(area, 500, 400), (350, 200));
    assert_eq!(center_window(area, 5000, 801), (100, 0));
    let odd = WorkArea { left: i32::MIN, top: 5, right: i32::MAX, bottom: 0 };
    assert_eq!(center_window(odd, 1, 1), (-1, 5));
    assert_eq!(renderer_override("winit-skia"), Some("skia".to_string()));
    assert_eq!(renderer_override("winit-"), None);
    assert_eq!(renderer_override("qt"), None);
}

#[test]
fn themes() {
    assert!(!theme_pref_is_dark("light", SystemTheme::Dark));
    assert!(theme_pref_is_dark("dark", SystemTheme::Light));
    assert!(!theme_pref_is_dark("system", SystemTheme::Light));
    assert!(theme_pref_is_dark("", SystemTheme::Dark));
    assert!(theme_pref_is_dark("", SystemTheme::Unknown));
    assert_eq!((theme_pref(true), theme_pref(false)), ("dark".to_string(), "light".to_string()));
    let wp = |builtin: bool| Wallpaper {
        builtin,
        is_dark: true,
        file_name: Some("p.png".to_string()),
    };
    let p = apply_wallpaper("/x/p.png", Some(wp(false)), "light", SystemTheme::Dark);
    assert!(p.active);
    assert_eq!((p.current.as_str(), p.custom_name.as_str(), p.dark), ("/x/p.png", "p.png", None));
    let p = apply_wallpaper("night", Some(wp(true)), "light", SystemTheme::Dark);
    assert_eq!((p.custom_name.as_str(), p.dark), ("", Some(true)));
    let p = apply_wallpaper("gone", None, "light", SystemTheme::Dark);
    assert!(!p.active);
    assert_eq!((p.current.as_str(), p.dark), ("", Some(false)));
}

#[test]
fn injected_control_characters() {
    assert!(key_is_down(i16::MIN));
    assert!(!key_is_down(1));
    assert_eq!(c0_letter_key(0x11), Some('Q' as i32));
    assert_eq!(c0_letter_key(0x01), Some('A' as i32));
    assert_eq!(c0_letter_key(0x1b), None);
    assert_eq!(c0_letter_key(0), None);
    assert!(c0_letter_key_down(0x1b, 0));
    assert!(!c0_letter_key_down(0x11, 0));
    assert!(c0_letter_key_down(0x11, -1));
}

fn face(families: &[&str], monospaced: bool) -> fontdb::FaceInfo {
    fontdb::FaceInfo {
        id: fontdb::ID::dummy(),
        source: fontdb::Source::Binary(std::sync::Arc::new(Vec::<u8>::new())),
        index: 0,
        families: families
            .iter()
            .map(|f| (f.to_string(), fontdb::Language::English_UnitedStates))
            .collect(),
        post_script_name: "x".to_string(),
        style: fontdb::Style::Italic,
        weight: fontdb::Weight::BLACK,
        stretch: fontdb::Stretch::Expanded,
        monospaced,
    }
}

#[test]
fn interface_font() {
    let mut db = fontdb::Database::new();
    assert_eq!(resolve_ui_font_family(&db, None, Platform::Other), "Meatshell Mono");
    db.push_face_info(face(&["Other", "Droid Sans Fallback"], false));
    assert_eq!(resolve_ui_font_family(&db, None, Platform::Other), "Droid Sans Fallback");
    db.push_face_info(face(&["Noto Sans CJK"], false));
    assert_eq!(resolve_ui_font_family(&db, None, Platform::Other), "Noto Sans CJK");
    assert_eq!(resolve_ui_font_family(&db, None, Platform::Windows), "Meatshell Mono");
    assert_eq!(resolve_ui_font_family(&db, Some(" My Font"), Platform::Other), " My Font");
    assert_eq!(resolve_ui_font_family(&db, Some("  "), Platform::Other), "Noto Sans CJK");
    assert_eq!(ui_font_candidates(Platform::MacOs)[0], "Heiti SC");
    assert_eq!(ui_font_candidates(Platform::Windows).len(), 4);
}

#[test]
fn terminal_fonts() {
    let mut db = fontdb::Database::new();
    assert_eq!(system_monospace_fonts(&db), vec!["Meatshell Mono".to_string()]);
    db.push_face_info(face(&["Zed Mono", "Ignored"], true));
    db.push_face_info(face(&["Serif"], false));
    db.push_face_info(face(&["DejaVu Mono"], true));
    db.push_face_info(face(&["Zed Mono"], true));
    db.push_face_info(face(&[], true));
    db.push_face_info(face(&["Meatshell Mono"], true));
    assert_eq!(
        system_monospace_fonts(&db),
        vec!["Meatshell Mono".to_string(), "DejaVu Mono".to_string(), "Zed Mono".to_string()]
    );
    let faces = vec![Face { families: vec!["b".to_string()], monospaced: true }];
    assert_eq!(fonts_to_choose(&faces), vec!["Meatshell Mono".to_string(), "b".to_string()]);
}
