use meatshell::dialog::{
    add_forward, connection_label, delete_forward, duplicate_session, edit_dialog, forward_model,
    has_sftp, move_session, new_session_dialog, new_tab_id, session_from_draft,
    with_forward_slashes, SessionDraft,
};
use meatshell::groups::{session_groups_model, sync_sessions_to_model, toggle_group};
use meatshell::import::{
    batch_import_hint, file_outcome_hint, import_batch, import_ssh_hosts, ssh_import_hint,
    FileOutcome, SshHost,
};
use meatshell::quick::{
    all_quick_group_names, history_model, history_view_model, quick_cmd_model, QuickCommand,
};
use meatshell::session::{parse_batch_import, AuthMethod, PortForward, Session, SessionKind};

fn strings(list: &[&str]) -> Vec<String> {
    list.iter().map(|s| s.to_string()).collect()
}

fn session(name: &str, group: &str) -> Session {
    let mut s = Session::blank(format!("id-{name}"));
    s.name = name.to_string();
    s.group = group.to_string();
    s
}

fn draft() -> SessionDraft {
    SessionDraft {
        id: "7".to_string(),
        name: "".to_string(),
        host: "h".to_string(),
        port: 0,
        user: "u".to_string(),
        auth: AuthMethod::Password,
        password: "".to_string(),
        private_key_path: "C:\\keys\\id".to_string(),
        proxy: "".to_string(),
        group: "g".to_string(),
        kind: SessionKind::Ssh,
        serial_port: "COM3".to_string(),
        baud_rate: 0,
        data_bits: 8,
        stop_bits: 1,
        parity: "none".to_string(),
        flow_control: "none".to_string(),
        disable_shell_integration: true,
        note: "n".to_string(),
    }
}

fn is_uuid(s: &str) -> bool {
    s.len() == 36
        && s.char_indices().all(|(i, c)| {
            if [8, 13, 18, 23].contains(&i) {
                c == '-'
            } else {
                c.is_ascii_digit() || ('a'..='f').contains(&c)
            }
        })
}

#[test]
fn batch_lines() {
    let text = "host|port|username|password|name\n# comment\n\n 10.0.0.1 | 2222 | bob | pw | my|box \r\nexample.com\nsrv|0|||\nsrv2|70000|ann\n|22|root";
    let list = parse_batch_import(text);
    assert_eq!(list.len(), 4);
    assert_eq!(list[0].host, "10.0.0.1");
    assert_eq!(list[0].port, 2222);
    assert_eq!(list[0].user, "bob");
    assert_eq!(list[0].password, "pw");
    assert_eq!(list[0].name, "my|box");
    assert_eq!(list[1].host, "example.com");
    assert_eq!(list[1].port, 22);
    assert_eq!(list[1].user, "root");
    assert_eq!(list[1].password, "");
    assert_eq!(list[1].name, "root@example.com");
    assert_eq!(list[2].port, 22);
    assert_eq!(list[2].name, "root@srv");
    assert_eq!(list[3].port, 22);
    assert_eq!(list[3].name, "ann@srv2");
    assert!(list.iter().all(|s| is_uuid(&s.id)));
    assert!(list.iter().all(|s| s.auth == AuthMethod::Password && s.kind == SessionKind::Ssh));
    assert_ne!(list[0].id, list[1].id);
    assert_eq!(parse_batch_import("").len(), 0);
    assert_eq!(parse_batch_import("HOST|1").len(), 0);
    // Only a leading row is a header: below an entry "host" is a host.
    let below = parse_batch_import("# list\nHost|port\na|22\nhost|2200|bob");
    assert_eq!(below.len(), 2);
    assert_eq!((below[1].host.as_str(), below[1].port), ("host", 2200));
}

#[test]
fn batch_import_skips_known_targets() {
    let have = parse_batch_import("a|22|root");
    let batch = parse_batch_import("a|22|root\nb|22|root\nb|22|root\na|23|root\na|22|ann");
    let added = import_batch(&have, batch);
    let got: Vec<(String, u16, String)> =
        added.iter().map(|s| (s.host.clone(), s.port, s.user.clone())).collect();
    assert_eq!(
        got,
        vec![
            ("b".to_string(), 22, "root".to_string()),
            ("a".to_string(), 23, "root".to_string()),
            ("a".to_string(), 22, "ann".to_string()),
        ]
    );
    let mut all = have;
    all.extend(added);
    let again = parse_batch_import("a|22|root\nb|22|root\na|23|root\na|22|ann");
    assert_eq!(import_batch(&all, again).len(), 0);
}

#[test]
fn ssh_hosts() {
    let host = |alias: &str, name: &str, user: &str, key: &str| SshHost {
        alias: alias.to_string(),
        hostname: name.to_string(),
        port: 2200,
        user: user.to_string(),
        identity_file: key.to_string(),
    };
    let mut known = session("old", "");
    known.host = "h0".to_string();
    known.user = "u0".to_string();
    let hosts = vec![
        host("old", "hx", "ux", ""),
        host("new", "h0", "u0", ""),
        host("a", "h1", "", "~/.ssh/id"),
        host("b", "h1", "root", ""),
        host("c", "h1", "u2", ""),
        host("a", "h9", "u9", ""),
    ];
    let added = import_ssh_hosts(&vec![known], &hosts);
    let names: Vec<&str> = added.iter().map(|s| s.name.as_str()).collect();
    assert_eq!(names, vec!["a", "c"]);
    assert_eq!(added[0].user, "root");
    assert_eq!(added[0].auth, AuthMethod::Key);
    assert_eq!(added[0].private_key_path, "~/.ssh/id");
    assert_eq!(added[0].port, 2200);
    assert_eq!(added[1].user, "u2");
    assert_eq!(added[1].auth, AuthMethod::Password);
    assert!(is_uuid(&added[1].id));
}

#[test]
fn hints() {
    assert_eq!(ssh_import_hint(0, 0, true), "no ~/.ssh/config found");
    assert_eq!(ssh_import_hint(3, 2, true), "imported 2");
    assert_eq!(ssh_import_hint(3, 0, false), "没有新主机可导入");
    assert_eq!(batch_import_hint(0, 0, true), "nothing to import");
    assert_eq!(batch_import_hint(5, 3, true), "imported 3/5");
    assert_eq!(batch_import_hint(5, 3, false), "已导入 3/5");
    assert_eq!(batch_import_hint(5, 0, true), "no new connections (all exist)");
    assert_eq!(file_outcome_hint(&FileOutcome::Exported { count: 4 }, true), "exported 4");
    assert_eq!(
        file_outcome_hint(&FileOutcome::ExportFailed { reason: "full".to_string() }, true),
        "export failed: full"
    );
    assert_eq!(
        file_outcome_hint(&FileOutcome::Imported { added: 2, skipped: 1 }, true),
        "imported 2 / skipped 1"
    );
    assert_eq!(
        file_outcome_hint(&FileOutcome::ImportFailed { reason: "bad".to_string() }, false),
        "导入失败: bad"
    );
}

#[test]
fn dialog_of_a_new_session() {
    let d = new_session_dialog();
    assert!(is_uuid(&d.id));
    assert_eq!((d.port.as_str(), d.baud.as_str()), ("22", "115200"));
    assert_eq!((d.data_bits.as_str(), d.stop_bits.as_str()), ("8", "1"));
    assert_eq!((d.parity.as_str(), d.flow.as_str()), ("none", "none"));
    assert_eq!((d.proxy_type.as_str(), d.proxy_hostport.as_str()), ("none", ""));
    assert_eq!(d.user, "");
    assert!(!d.editing);
    assert_eq!(d.kind, SessionKind::Ssh);
}

#[test]
fn dialog_never_shows_the_password() {
    let mut s = session("x", "g");
    s.password = "secret".to_string();
    s.proxy = "http://p:8080/".to_string();
    s.port = 2022;
    let d = edit_dialog(&s, true);
    assert_eq!(d.password, "");
    assert_eq!(d.port, "2022");
    assert_eq!((d.proxy_type.as_str(), d.proxy_hostport.as_str()), ("http", "p:8080"));
    assert!(d.editing);
    assert_eq!(d.group, "g");
}

#[test]
fn saving_a_dialog() {
    let s = session_from_draft(&draft(), None, &Vec::new());
    assert_eq!(s.name, "u@h");
    assert_eq!(s.port, 22);
    assert_eq!(s.baud_rate, 115_200);
    assert_eq!(s.private_key_path, "C:/keys/id");
    assert_eq!(s.password, "");
    assert!(s.last_used.is_none());
    assert!(s.disable_shell_integration);
    let mut d = draft();
    d.user = "  ".to_string();
    d.kind = SessionKind::Telnet;
    let s = session_from_draft(&d, None, &Vec::new());
    assert_eq!(s.name, "h");
    assert_eq!(s.port, 23);
    let mut d = draft();
    d.kind = SessionKind::Serial;
    d.baud_rate = 9600;
    let s = session_from_draft(&d, None, &Vec::new());
    assert_eq!(s.name, "COM3 @9600");
    assert_eq!(s.port, 22);
    assert_eq!(s.baud_rate, 9600);
    let mut d = draft();
    d.name = "named".to_string();
    d.port = 2222;
    let s = session_from_draft(&d, None, &Vec::new());
    assert_eq!((s.name.as_str(), s.port), ("named", 2222));
}

#[test]
fn blank_password_keeps_the_stored_one() {
    let mut old = session("x", "");
    old.password = "kept".to_string();
    let s = session_from_draft(&draft(), Some(&old), &Vec::new());
    assert_eq!(s.password, "kept");
    let mut d = draft();
    d.password = "new".to_string();
    let s = session_from_draft(&d, Some(&old), &Vec::new());
    assert_eq!(s.password, "new");
}

#[test]
fn copies_and_moves() {
    let mut s = session("x", "g");
    s.last_used = Some("today".to_string());
    s.password = "p".to_string();
    let c = duplicate_session(&s);
    assert_eq!(c.name, "x (copy)");
    assert!(is_uuid(&c.id));
    assert!(c.last_used.is_none());
    assert_eq!((c.group.as_str(), c.password.as_str()), ("g", "p"));
    assert_eq!(move_session(&s, "other").group, "other");
    assert_eq!(move_session(&s, "default").group, "");
    assert_eq!(move_session(&s, "other").last_used, Some("today".to_string()));
}

#[test]
fn forwarded_ports() {
    let mut list: Vec<PortForward> = Vec::new();
    assert!(add_forward(&mut list, " web ", "local", "", 8080, " host ", 80));
    assert!(add_forward(&mut list, "r", "remote", "0.0.0.0", 1, "h", 65536));
    assert!(add_forward(&mut list, "d", "dynamic", " ::1 ", 65535, "", -4));
    assert!(!add_forward(&mut list, "x", "local", "", 0, "h", 1));
    assert!(!add_forward(&mut list, "x", "local", "", 65536, "h", 1));
    assert!(!add_forward(&mut list, "x", "local", "", 80, "  ", 1));
    assert!(!add_forward(&mut list, "x", "remote", "", 80, "h", 0));
    assert_eq!(list.len(), 3);
    assert_eq!((list[0].name.as_str(), list[0].host.as_str()), ("web", "host"));
    assert_eq!(list[1].host_port, 0);
    assert_eq!(list[2].host_port, 0);
    let rows = forward_model(&list);
    assert_eq!(rows[0].summary, "-L 127.0.0.1:8080 → host:80");
    assert_eq!(rows[1].summary, "-R 0.0.0.0:1 → h:0");
    assert_eq!(rows[2].summary, "-D ::1:65535 (SOCKS5)");
    list[0].kind = "odd".to_string();
    assert_eq!(forward_model(&list)[0].summary, "");
    delete_forward(&mut list, -1);
    delete_forward(&mut list, 3);
    assert_eq!(list.len(), 3);
    delete_forward(&mut list, 1);
    assert_eq!(list.len(), 2);
    assert_eq!(list[1].kind, "dynamic");
}

#[test]
fn labels() {
    let mut s = session("x", "");
    s.user = "root".to_string();
    s.host = "h".to_string();
    assert_eq!(connection_label(&s), "root@h");
    s.kind = SessionKind::Telnet;
    s.port = 23;
    assert_eq!(connection_label(&s), "telnet h:23");
    s.kind = SessionKind::Serial;
    s.serial_port = "/dev/ttyUSB0".to_string();
    assert_eq!(connection_label(&s), "/dev/ttyUSB0 @115200");
    assert!(has_sftp(SessionKind::Ssh));
    assert!(!has_sftp(SessionKind::Serial));
    assert!(!has_sftp(SessionKind::Telnet));
    let id = new_tab_id();
    assert!(id.starts_with("term-") && is_uuid(&id[5..]));
    assert_eq!(with_forward_slashes("a\\b/c"), "a/b/c");
}

#[test]
fn group_names_are_distinct_and_ordered() {
    let sessions = vec![
        session("1", "beta"),
        session("2", "Alpha"),
        session("3", ""),
        session("4", "A"),
        session("5", "a"),
        session("6", "A"),
    ];
    let names = session_groups_model(&strings(&["zeta", "beta"]), &sessions);
    assert_eq!(names, strings(&["A", "a", "Alpha", "beta", "zeta"]));
    assert_eq!(session_groups_model(&Vec::new(), &Vec::new()).len(), 0);
}

#[test]
fn welcome_list() {
    let mut used = session("bravo", "work");
    used.last_used = Some("today".to_string());
    let sessions = vec![
        session("Zed", ""),
        used,
        session("alpha", "work"),
        session("Alpha", "work"),
        session("filed", "default"),
    ];
    let rows = sync_sessions_to_model(&strings(&["Empty"]), &sessions);
    let got: Vec<(String, String, String)> = rows
        .iter()
        .map(|r| (r.group.clone(), r.group_header.clone(), r.name.clone()))
        .collect();
    let row = |g: &str, h: &str, n: &str| (g.to_string(), h.to_string(), n.to_string());
    assert_eq!(
        got,
        vec![
            row("default", "default", "Zed"),
            row("default", "default", "Zed"),
            row("Empty", "Empty", ""),
            row("work", "work", "alpha"),
            row("work", "", "Alpha"),
            row("work", "", "bravo"),
        ]
    );
    assert_eq!(rows[2].id, "");
    assert_eq!(rows[2].port, 0);
    assert!(rows[2].auth.is_none());
    assert_eq!(rows[3].last_used, "never");
    assert_eq!(rows[5].last_used, "today");
    assert_eq!(rows[3].port, 22);
    // The heading "default" only ever shows the ungrouped.
    let named = vec![session("a", "alpha"), session("d", "default"), session("z", "zeta")];
    let rows = sync_sessions_to_model(&Vec::new(), &named);
    let got: Vec<(&str, &str)> =
        rows.iter().map(|r| (r.group_header.as_str(), r.name.as_str())).collect();
    assert_eq!(got, vec![("alpha", "a"), ("default", ""), ("zeta", "z")]);
}

#[test]
fn toggling_groups() {
    let sessions = vec![session("a", "g"), session("b", "g"), session("c", "h")];
    let mut rows = sync_sessions_to_model(&Vec::new(), &sessions);
    toggle_group(&mut rows, "g");
    let state: Vec<bool> = rows.iter().map(|r| r.collapsed).collect();
    assert_eq!(state, vec![true, true, false]);
    toggle_group(&mut rows, "none");
    toggle_group(&mut rows, "g");
    assert!(rows.iter().all(|r| !r.collapsed));
}

fn command(name: &str, group: &str) -> QuickCommand {
    QuickCommand {
        name: name.to_string(),
        command: format!("run {name}"),
        group: group.to_string(),
        send_enter: name != "b",
    }
}

#[test]
fn quick_commands() {
    let cmds = vec![command("a", " net "), command("b", ""), command("c", "Disk"), command("d", "net")];
    let names = all_quick_group_names(&strings(&["empty", "net"]), &cmds);
    assert_eq!(names, strings(&["default", "empty", "net", "Disk"]));
    let rows = quick_cmd_model(&strings(&["empty", "net"]), &cmds, &strings(&["net"]));
    let got: Vec<(String, String, String, bool, i32)> = rows
        .iter()
        .map(|r| (r.group.clone(), r.group_header.clone(), r.name.clone(), r.collapsed, r.orig_index))
        .collect();
    let row = |g: &str, h: &str, n: &str, c: bool, i: i32| {
        (g.to_string(), h.to_string(), n.to_string(), c, i)
    };
    assert_eq!(
        got,
        vec![
            row("default", "default", "b", false, 1),
            row("Disk", "Disk", "c", false, 2),
            row("empty", "empty", "", false, -1),
            row("net", "net", "a", true, 0),
            row("net", "", "d", true, 3),
        ]
    );
    for r in &rows {
        if r.orig_index >= 0 {
            assert_eq!(r.command, cmds[r.orig_index as usize].command);
            assert_eq!(r.send_enter, cmds[r.orig_index as usize].send_enter);
        } else {
            assert!(r.send_enter);
        }
    }
    let closed = quick_cmd_model(&strings(&["empty", "net"]), &cmds, &names);
    assert!(closed.iter().all(|r| r.collapsed));
    let closed = quick_cmd_model(&strings(&["empty", "net"]), &cmds, &names);
    assert_eq!(closed.len(), rows.len());
    assert!(closed.iter().all(|r| r.collapsed));
    // A group of that name shows the ungrouped once more.
    let both = vec![command("a", "default"), command("b", "")];
    let rows = quick_cmd_model(&Vec::new(), &both, &Vec::new());
    let got: Vec<(&str, &str, i32)> =
        rows.iter().map(|r| (r.group_header.as_str(), r.name.as_str(), r.orig_index)).collect();
    assert_eq!(got, vec![("default", "b", 1), ("default", "b", 1)]);
    assert_eq!(all_quick_group_names(&Vec::new(), &both), strings(&["default"]));
    assert_eq!(all_quick_group_names(&Vec::new(), &Vec::new()).len(), 0);
    assert_eq!(quick_cmd_model(&Vec::new(), &Vec::new(), &Vec::new()).len(), 0);
}

#[test]
fn command_history() {
    let h = strings(&["ls -la", "GREP foo", "echo Ünï", "ls"]);
    assert_eq!(history_model(&h), h);
    assert_eq!(history_view_model(&h, ""), h);
    assert_eq!(history_view_model(&h, "  "), h);
    assert_eq!(history_view_model(&h, " LS "), strings(&["ls -la", "ls"]));
    assert_eq!(history_view_model(&h, "grep"), strings(&["GREP foo"]));
    assert_eq!(history_view_model(&h, "üNÏ"), strings(&["echo Ünï"]));
    assert_eq!(history_view_model(&h, "nothing").len(), 0);
}
