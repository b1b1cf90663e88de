//! The session dialog: what it shows, what is saved from it, and the list of forwarded ports
//! that it edits.

use vstd::prelude::*;

use crate::addr::{proxy_parts, split_proxy};
use crate::session::{
    blank_session, copy_forwards, forward_views, fresh_id, uuid_shaped, AuthMethod, ForwardView,
    PortForward, Session, SessionKind, SessionView,
};
use crate::text::{
    decimal, law_decimals_are_read_back, push_decimal, same_text, signed_decimal, to_chars,
    to_decimal, to_signed_decimal, trim_text, trimmed, unsigned_value,
};

verus! {

// ---- What the dialog shows ------------------------------------------------

/// The fields of the dialog as it opens.
pub struct DialogFields {
    pub id: String,
    pub name: String,
    pub host: String,
    pub port: String,
    pub user: String,
    pub auth: AuthMethod,
    pub password: String,
    pub key_path: String,
    pub proxy_type: String,
    pub proxy_hostport: String,
    pub group: String,
    pub kind: SessionKind,
    pub serial_port: String,
    pub baud: String,
    pub data_bits: String,
    pub stop_bits: String,
    pub parity: String,
    pub flow: String,
    pub disable_shell_integration: bool,
    pub note: String,
    pub editing: bool,
}

/// The fields of the dialog.
#[verifier::ext_equal]
pub ghost struct DialogView {
    pub id: Seq<char>,
    pub name: Seq<char>,
    pub host: Seq<char>,
    pub port: Seq<char>,
    pub user: Seq<char>,
    pub auth: AuthMethod,
    pub password: Seq<char>,
    pub key_path: Seq<char>,
    pub proxy_type: Seq<char>,
    pub proxy_hostport: Seq<char>,
    pub group: Seq<char>,
    pub kind: SessionKind,
    pub serial_port: Seq<char>,
    pub baud: Seq<char>,
    pub data_bits: Seq<char>,
    pub stop_bits: Seq<char>,
    pub parity: Seq<char>,
    pub flow: Seq<char>,
    pub disable_shell_integration: bool,
    pub note: Seq<char>,
    pub editing: bool,
}

impl View for DialogFields {
    type V = DialogView;

    open spec fn view(&self) -> DialogView {
        DialogView {
            id: self.id@,
            name: self.name@,
            host: self.host@,
            port: self.port@,
            user: self.user@,
            auth: self.auth,
            password: self.password@,
            key_path: self.key_path@,
            proxy_type: self.proxy_type@,
            proxy_hostport: self.proxy_hostport@,
            group: self.group@,
            kind: self.kind,
            serial_port: self.serial_port@,
            baud: self.baud@,
            data_bits: self.data_bits@,
            stop_bits: self.stop_bits@,
            parity: self.parity@,
            flow: self.flow@,
            disable_shell_integration: self.disable_shell_integration,
            note: self.note@,
            editing: self.editing,
        }
    }
}

/// The dialog for a session: its fields as text, and never its password.
pub open spec fn dialog_of(s: SessionView, editing: bool) -> DialogView {
    DialogView {
        id: s.id,
        name: s.name,
        host: s.host,
        port: decimal(s.port as nat),
        user: s.user,
        auth: s.auth,
        password: Seq::empty(),
        key_path: s.private_key_path,
        proxy_type: proxy_parts(s.proxy).0,
        proxy_hostport: proxy_parts(s.proxy).1,
        group: s.group,
        kind: s.kind,
        serial_port: s.serial_port,
        baud: decimal(s.baud_rate as nat),
        data_bits: decimal(s.data_bits as nat),
        stop_bits: decimal(s.stop_bits as nat),
        parity: s.parity,
        flow: s.flow_control,
        disable_shell_integration: s.disable_shell_integration,
        note: s.note,
        editing: editing,
    }
}

/// The dialog prefilled from a session. The stored password is never echoed back: the field
/// stays blank, and a blank field on save keeps the existing one.
pub fn edit_dialog(s: &Session, editing: bool) -> (d: DialogFields)
    ensures
        d@ == dialog_of(s@, editing),
{
    let (proxy_type, proxy_hostport) = split_proxy(s.proxy.as_str());
    DialogFields {
        id: s.id.clone(),
        name: s.name.clone(),
        host: s.host.clone(),
        port: to_decimal(s.port as u128),
        user: s.user.clone(),
        auth: s.auth,
        password: String::new(),
        key_path: s.private_key_path.clone(),
        proxy_type,
        proxy_hostport,
        group: s.group.clone(),
        kind: s.kind,
        serial_port: s.serial_port.clone(),
        baud: to_decimal(s.baud_rate as u128),
        data_bits: to_decimal(s.data_bits as u128),
        stop_bits: to_decimal(s.stop_bits as u128),
        parity: s.parity.clone(),
        flow: s.flow_control.clone(),
        disable_shell_integration: s.disable_shell_integration,
        note: s.note.clone(),
        editing,
    }
}

/// The dialog for a new session, under a new identifier. There is no default user: leaving it
/// blank makes the connect-time prompt ask for it.
pub fn new_session_dialog() -> (d: DialogFields)
    ensures
        uuid_shaped(d@.id),
        d@ == dialog_of(blank_session(d@.id), false),
{
    let s = Session::blank(fresh_id());
    edit_dialog(&s, false)
}

// ---- What is saved --------------------------------------------------------

/// The dialog's fields as they are submitted.
pub struct SessionDraft {
    pub id: String,
    pub name: String,
    pub host: String,
    pub port: i32,
    pub user: String,
    pub auth: AuthMethod,
    pub password: String,
    pub private_key_path: String,
    pub proxy: String,
    pub group: String,
    pub kind: SessionKind,
    pub serial_port: String,
    pub baud_rate: i32,
    pub data_bits: i32,
    pub stop_bits: i32,
    pub parity: String,
    pub flow_control: String,
    pub disable_shell_integration: bool,
    pub note: String,
}

/// What a submitted dialog holds.
#[verifier::ext_equal]
pub ghost struct DraftView {
    pub id: Seq<char>,
    pub name: Seq<char>,
    pub host: Seq<char>,
    pub port: i32,
    pub user: Seq<char>,
    pub auth: AuthMethod,
    pub password: Seq<char>,
    pub private_key_path: Seq<char>,
    pub proxy: Seq<char>,
    pub group: Seq<char>,
    pub kind: SessionKind,
    pub serial_port: Seq<char>,
    pub baud_rate: i32,
    pub data_bits: i32,
    pub stop_bits: i32,
    pub parity: Seq<char>,
    pub flow_control: Seq<char>,
    pub disable_shell_integration: bool,
    pub note: Seq<char>,
}

impl View for SessionDraft {
    type V = DraftView;

    open spec fn view(&self) -> DraftView {
        DraftView {
            id: self.id@,
            name: self.name@,
            host: self.host@,
            port: self.port,
            user: self.user@,
            auth: self.auth,
            password: self.password@,
            private_key_path: self.private_key_path@,
            proxy: self.proxy@,
            group: self.group@,
            kind: self.kind,
            serial_port: self.serial_port@,
            baud_rate: self.baud_rate,
            data_bits: self.data_bits,
            stop_bits: self.stop_bits,
            parity: self.parity@,
            flow_control: self.flow_control@,
            disable_shell_integration: self.disable_shell_integration,
            note: self.note@,
        }
    }
}

/// The name of a session that was given none: the port of a serial line, otherwise user@host,
/// or just the host when no user was given.
pub open spec fn auto_name(d: DraftView) -> Seq<char> {
    if d.kind == SessionKind::Serial {
        d.serial_port + " @"@ + signed_decimal(d.baud_rate as int)
    } else if trimmed(d.user).len() == 0 {
        d.host
    } else {
        d.user.push('@') + d.host
    }
}

/// A path with forward slashes.
pub open spec fn forward_slashes(path: Seq<char>) -> Seq<char> {
    path.map_values(
        |c: char|
            if c == '\\' {
                '/'
            } else {
                c
            },
    )
}

/// The session that a submitted dialog stands for. Telnet defaults to port 23, everything else
/// to 22. A blank password keeps the one that is stored.
pub open spec fn draft_session(
    d: DraftView,
    stored: Option<Seq<char>>,
    forwards: Seq<ForwardView>,
) -> SessionView {
    SessionView {
        id: d.id,
        name: if d.name.len() == 0 {
            auto_name(d)
        } else {
            d.name
        },
        host: d.host,
        port: if d.port > 0 {
            d.port as u16
        } else if d.kind == SessionKind::Telnet {
            23
        } else {
            22
        },
        user: d.user,
        auth: d.auth,
        password: if d.password.len() > 0 {
            d.password
        } else {
            match stored {
                Some(p) => p,
                None => Seq::empty(),
            }
        },
        private_key_path: forward_slashes(d.private_key_path),
        proxy: d.proxy,
        last_used: None,
        group: d.group,
        kind: d.kind,
        serial_port: d.serial_port,
        baud_rate: if d.baud_rate > 0 {
            d.baud_rate as u32
        } else {
            115_200
        },
        data_bits: d.data_bits as u8,
        stop_bits: d.stop_bits as u8,
        parity: d.parity,
        flow_control: d.flow_control,
        forwards: forwards,
        disable_shell_integration: d.disable_shell_integration,
        note: d.note,
    }
}

/// The password of the session that is being edited, if there is one.
pub open spec fn stored_password(existing: Option<&Session>) -> Option<Seq<char>> {
    match existing {
        Some(s) => Some(s@.password),
        None => None,
    }
}

/// The path with forward slashes, which every platform accepts.
pub fn with_forward_slashes(path: &str) -> (r: String)
    ensures
        r@ == forward_slashes(path@),
{
    let s = to_chars(path);
    let mut out: String = String::new();
    let mut i: usize = 0;
    while i < s.len()
        invariant
            s@ == path@,
            i <= s@.len(),
            out@ == forward_slashes(path@).take(i as int),
        decreases s@.len() - i,
    {
        let c: char = if s[i] == '\\' {
            '/'
        } else {
            s[i]
        };
        out.push(c);
        i += 1;
        assert(forward_slashes(path@).take(i as int) =~= forward_slashes(path@).take(i - 1).push(
            forward_slashes(path@)[i - 1],
        ));
    }
    assert(forward_slashes(path@).take(i as int) =~= forward_slashes(path@));
    out
}

/// The session that a submitted dialog stands for. `existing` is the saved session under the
/// same identifier, and `forwards` the working set of forwarded ports.
pub fn session_from_draft(
    draft: &SessionDraft,
    existing: Option<&Session>,
    forwards: &Vec<PortForward>,
) -> (s: Session)
    ensures
        s@ == draft_session(draft@, stored_password(existing), forward_views(forwards@)),
        s.id@ == draft.id@,
        s.host@ == draft.host@,
        s.user@ == draft.user@,
{
    let password: String = if draft.password.as_str().is_empty() {
        match existing {
            Some(s) => s.password.clone(),
            None => String::new(),
        }
    } else {
        draft.password.clone()
    };
    let name: String = if draft.name.as_str().is_empty() {
        match draft.kind {
            SessionKind::Serial => {
                let mut n: String = draft.serial_port.clone();
                n.append(" @");
                n.append(to_signed_decimal(draft.baud_rate).as_str());
                n
            },
            _ => {
                if trim_text(draft.user.as_str()).as_str().is_empty() {
                    draft.host.clone()
                } else {
                    let mut n: String = draft.user.clone();
                    n.push('@');
                    n.append(draft.host.as_str());
                    n
                }
            },
        }
    } else {
        draft.name.clone()
    };
    let port: u16 = if draft.port > 0 {
        draft.port as u16
    } else {
        match draft.kind {
            SessionKind::Telnet => 23,
            _ => 22,
        }
    };
    let s = Session {
        id: draft.id.clone(),
        name,
        host: draft.host.clone(),
        port,
        user: draft.user.clone(),
        auth: draft.auth,
        password,
        private_key_path: with_forward_slashes(draft.private_key_path.as_str()),
        proxy: draft.proxy.clone(),
        last_used: None,
        group: draft.group.clone(),
        kind: draft.kind,
        serial_port: draft.serial_port.clone(),
        baud_rate: if draft.baud_rate > 0 {
            draft.baud_rate as u32
        } else {
            115_200
        },
        data_bits: draft.data_bits as u8,
        stop_bits: draft.stop_bits as u8,
        parity: draft.parity.clone(),
        flow_control: draft.flow_control.clone(),
        forwards: copy_forwards(forwards),
        disable_shell_integration: draft.disable_shell_integration,
        note: draft.note.clone(),
    };
    assert(s@ =~= draft_session(draft@, stored_password(existing), forward_views(forwards@)));
    s
}

// ---- Copies and moves -----------------------------------------------------

/// A copy of a session under another identifier: its name says so, and it was never used.
pub open spec fn copied(s: SessionView, id: Seq<char>) -> SessionView {
    SessionView { id: id, name: s.name + " (copy)"@, last_used: None, ..s }
}

/// A copy of a session under the given identifier.
pub fn duplicate_with_id(orig: &Session, id: String) -> (s: Session)
    ensures
        s@ == copied(orig@, id@),
{
    let mut s = orig.duplicate_of();
    s.id = id;
    s.name.append(" (copy)");
    s.last_used = None;
    assert(s@ =~= copied(orig@, id@));
    s
}

/// Duplicate a session: clone it with a fresh id and a " (copy)" name.
pub fn duplicate_session(orig: &Session) -> (s: Session)
    ensures
        uuid_shaped(s@.id),
        s@ == copied(orig@, s@.id),
{
    duplicate_with_id(orig, fresh_id())
}

/// The stored group for a group as it is displayed: "default" stands for none.
pub open spec fn stored_group(group: Seq<char>) -> Seq<char> {
    if group == "default"@ {
        Seq::empty()
    } else {
        group
    }
}

/// The session moved to another group. "default" is the display label for ungrouped.
pub fn move_session(orig: &Session, group: &str) -> (s: Session)
    ensures
        s@ == (SessionView { group: stored_group(group@), ..orig@ }),
{
    let mut s = orig.duplicate_of();
    s.group = if same_text(group, "default") {
        String::new()
    } else {
        group.to_owned()
    };
    assert(s@ =~= (SessionView { group: stored_group(group@), ..orig@ }));
    s
}

// ---- Forwarded ports ------------------------------------------------------

/// Whether a forwarded port may be added: the bound port is a port, and every kind but
/// "dynamic" names a target host and port.
pub open spec fn forward_ok(
    kind: Seq<char>,
    bind_port: i32,
    host: Seq<char>,
    host_port: i32,
) -> bool {
    1 <= bind_port <= 65535 && (kind == "dynamic"@ || (trimmed(host).len() > 0 && host_port > 0))
}

/// The forwarded port that the fields of the dialog describe.
pub open spec fn typed_forward(
    name: Seq<char>,
    kind: Seq<char>,
    bind_addr: Seq<char>,
    bind_port: i32,
    host: Seq<char>,
    host_port: i32,
) -> ForwardView {
    ForwardView {
        kind: kind,
        name: trimmed(name),
        bind_addr: trimmed(bind_addr),
        bind_port: bind_port as u16,
        host: trimmed(host),
        host_port: if host_port > 0 {
            host_port as u16
        } else {
            0
        },
    }
}

/// Add a port forward to the session being edited. Local/remote need a target host; dynamic does
/// not. Returns whether it was added.
pub fn add_forward(
    forwards: &mut Vec<PortForward>,
    name: &str,
    kind: &str,
    bind_addr: &str,
    bind_port: i32,
    host: &str,
    host_port: i32,
) -> (added: bool)
    ensures
        added == forward_ok(kind@, bind_port, host@, host_port),
        added ==> forward_views(final(forwards)@) == forward_views(old(forwards)@).push(
            typed_forward(name@, kind@, bind_addr@, bind_port, host@, host_port),
        ),
        !added ==> final(forwards)@ == old(forwards)@,
{
    if bind_port <= 0 || bind_port > 65535 {
        return false;
    }
    let target = trim_text(host);
    if !same_text(kind, "dynamic") && (target.as_str().is_empty() || host_port <= 0) {
        return false;
    }
    let ghost before = forwards@;
    let f = PortForward {
        kind: kind.to_owned(),
        name: trim_text(name),
        bind_addr: trim_text(bind_addr),
        bind_port: bind_port as u16,
        host: target,
        host_port: if host_port > 0 {
            host_port as u16
        } else {
            0
        },
    };
    forwards.push(f);
    assert(forward_views(forwards@) =~= forward_views(before).push(f@));
    true
}

/// Delete a port forward by index; an index that is none leaves the list as it is.
pub fn delete_forward(forwards: &mut Vec<PortForward>, index: i32)
    ensures
        final(forwards)@ == (if 0 <= index < old(forwards)@.len() {
            old(forwards)@.remove(index as int)
        } else {
            old(forwards)@
        }),
        0 <= index < old(forwards)@.len() ==> final(forwards)@.len() + 1 == old(forwards)@.len(),
        forall|i: int|
            0 <= i < index && i < old(forwards)@.len() ==> #[trigger] final(forwards)@[i]
                == old(forwards)@[i],
        forall|i: int|
            0 <= index <= i < old(forwards)@.len() - 1 ==> #[trigger] final(forwards)@[i]
                == old(forwards)@[i + 1],
{
    if index >= 0 && (index as usize) < forwards.len() {
        forwards.remove(index as usize);
    }
}

/// One row of the dialog's list of forwarded ports.
pub struct PortFwd {
    pub kind: String,
    pub name: String,
    pub summary: String,
}

/// What one row of the list of forwarded ports holds.
#[verifier::ext_equal]
pub ghost struct PortFwdView {
    pub kind: Seq<char>,
    pub name: Seq<char>,
    pub summary: Seq<char>,
}

impl View for PortFwd {
    type V = PortFwdView;

    open spec fn view(&self) -> PortFwdView {
        PortFwdView { kind: self.kind@, name: self.name@, summary: self.summary@ }
    }
}

/// The bound end of a forwarded port: its address, the loopback one where it has none, and its
/// port.
pub open spec fn bound_end(f: ForwardView) -> Seq<char> {
    let addr = if trimmed(f.bind_addr).len() == 0 {
        "127.0.0.1"@
    } else {
        trimmed(f.bind_addr)
    };
    addr.push(':') + decimal(f.bind_port as nat)
}

/// A one-line human summary of a forwarded port, such as `-L 127.0.0.1:8080 → host:80`.
pub open spec fn forward_summary(f: ForwardView) -> Seq<char> {
    let target = " → "@ + f.host.push(':') + decimal(f.host_port as nat);
    if f.kind == "local"@ {
        "-L "@ + bound_end(f) + target
    } else if f.kind == "remote"@ {
        "-R "@ + bound_end(f) + target
    } else if f.kind == "dynamic"@ {
        "-D "@ + bound_end(f) + " (SOCKS5)"@
    } else {
        Seq::empty()
    }
}

/// The row for a forwarded port.
pub open spec fn forward_row(f: ForwardView) -> PortFwdView {
    PortFwdView { kind: f.kind, name: f.name, summary: forward_summary(f) }
}

/// A one-line summary of a forwarded port.
fn summarize(f: &PortForward) -> (r: String)
    ensures
        r@ == forward_summary(f@),
{
    let mut r: String = String::new();
    let local: bool = same_text(f.kind.as_str(), "local");
    let remote: bool = same_text(f.kind.as_str(), "remote");
    let dynamic: bool = same_text(f.kind.as_str(), "dynamic");
    proof {
        reveal_strlit("local");
        reveal_strlit("remote");
        reveal_strlit("dynamic");
    }
    if !(local || remote || dynamic) {
        return r;
    }
    let mut bind: String = trim_text(f.bind_addr.as_str());
    if bind.as_str().is_empty() {
        bind = "127.0.0.1".to_owned();
    }
    bind.push(':');
    push_decimal(&mut bind, f.bind_port as u128);
    assert(bind@ =~= bound_end(f@));
    if dynamic {
        r.append("-D ");
        r.append(bind.as_str());
        r.append(" (SOCKS5)");
        proof {
            assert("local"@[0] != f@.kind[0]);
            assert("remote"@[0] != f@.kind[0]);
        }
    } else {
        if local {
            r.append("-L ");
        } else {
            r.append("-R ");
        }
        r.append(bind.as_str());
        let mut target: String = " → ".to_owned();
        let mut host: String = f.host.clone();
        host.push(':');
        target.append(host.as_str());
        push_decimal(&mut target, f.host_port as u128);
        r.append(target.as_str());
    }
    assert(r@ =~= forward_summary(f@));
    r
}

/// Build the port-forward list for the session dialog. Each row is a one-line human summary.
pub fn forward_model(forwards: &Vec<PortForward>) -> (rows: Vec<PortFwd>)
    ensures
        rows@.len() == forwards@.len(),
        forall|i: int|
            0 <= i < rows@.len() ==> (#[trigger] rows@[i])@ == forward_row(forwards@[i]@),
{
    let mut rows: Vec<PortFwd> = Vec::new();
    let mut i: usize = 0;
    while i < forwards.len()
        invariant
            i <= forwards@.len(),
            rows@.len() == i,
            forall|j: int| 0 <= j < i ==> (#[trigger] rows@[j])@ == forward_row(forwards@[j]@),
        decreases forwards@.len() - i,
    {
        let f = &forwards[i];
        rows.push(
            PortFwd { kind: f.kind.clone(), name: f.name.clone(), summary: summarize(f) },
        );
        i += 1;
    }
    rows
}

// ---- Connecting -----------------------------------------------------------

/// The connection label shown in the sidebar and status line, per transport.
pub open spec fn label_of(s: SessionView) -> Seq<char> {
    match s.kind {
        SessionKind::Ssh => s.user.push('@') + s.host,
        SessionKind::Serial => s.serial_port + " @"@ + decimal(s.baud_rate as nat),
        SessionKind::Telnet => "telnet "@ + s.host.push(':') + decimal(s.port as nat),
    }
}

/// The connection label shown in the sidebar and status line, per transport.
pub fn connection_label(s: &Session) -> (r: String)
    ensures
        r@ == label_of(s@),
{
    match s.kind {
        SessionKind::Ssh => {
            let mut r: String = s.user.clone();
            r.push('@');
            r.append(s.host.as_str());
            r
        },
        SessionKind::Serial => {
            let mut r: String = s.serial_port.clone();
            r.append(" @");
            push_decimal(&mut r, s.baud_rate as u128);
            r
        },
        SessionKind::Telnet => {
            let mut r: String = "telnet ".to_owned();
            let mut host: String = s.host.clone();
            host.push(':');
            r.append(host.as_str());
            push_decimal(&mut r, s.port as u128);
            r
        },
    }
}

/// Whether a session has an SFTP side-channel: only SSH does.
pub fn has_sftp(kind: SessionKind) -> (r: bool)
    ensures
        r == (kind == SessionKind::Ssh),
{
    match kind {
        SessionKind::Ssh => true,
        _ => false,
    }
}

/// The identifier of a tab for the given random part.
pub fn tab_id_for(id: &str) -> (r: String)
    ensures
        r@ == "term-"@ + id@,
{
    let mut r: String = "term-".to_owned();
    r.append(id);
    r
}

/// The identifier of a new terminal tab.
pub fn new_tab_id() -> (r: String)
    ensures
        exists|id: Seq<char>| #[trigger] uuid_shaped(id) && r@ == "term-"@ + id,
{
    let id = fresh_id();
    let r = tab_id_for(id.as_str());
    assert(uuid_shaped(id@));
    r
}

// ---- Laws -----------------------------------------------------------------

/// The stored password never reaches the dialog: sessions that differ in it alone open the same
/// dialog.
pub proof fn law_dialog_never_shows_the_password(s: SessionView, other: Seq<char>, editing: bool)
    ensures
        dialog_of(s, editing).password.len() == 0,
        dialog_of(SessionView { password: other, ..s }, editing) == dialog_of(s, editing),
{
}

/// Saving with a blank password keeps the stored one; a typed one replaces it.
pub proof fn law_blank_password_keeps_the_stored_one(
    d: DraftView,
    stored: Seq<char>,
    forwards: Seq<ForwardView>,
)
    ensures
        d.password.len() == 0 ==> draft_session(d, Some(stored), forwards).password == stored,
        d.password.len() > 0 ==> draft_session(d, Some(stored), forwards).password == d.password,
{
}

/// Moving a session to the group it is displayed in changes nothing, and a copy of a session
/// differs from it in its identifier, its name and its last use alone.
pub proof fn law_copies_and_moves(s: SessionView, id: Seq<char>)
    ensures
        s.group.len() > 0 && s.group != "default"@ ==> (SessionView {
            group: stored_group(s.group),
            ..s
        }) == s,
        s.group.len() == 0 ==> (SessionView { group: stored_group("default"@), ..s }) == s,
        (SessionView { id: s.id, name: s.name, last_used: s.last_used, ..copied(s, id) }) == s,
{
}

/// Key paths are stored with forward slashes, whatever the platform.
pub proof fn law_key_paths_have_forward_slashes(path: Seq<char>)
    ensures
        forall|i: int| 0 <= i < path.len() ==> #[trigger] forward_slashes(path)[i] != '\\',
        forward_slashes(path).len() == path.len(),
        forward_slashes(forward_slashes(path)) == forward_slashes(path),
{
    assert(forward_slashes(forward_slashes(path)) =~= forward_slashes(path));
}

/// Saving keeps what was typed: every field of the submitted dialog is that field of the session.
/// A name is kept unless it is empty; a port and a rate are kept where they are positive and fit,
/// and where they are not, the usual ones of the kind of session take their place.
pub proof fn law_saving_keeps_what_was_typed(
    d: DraftView,
    stored: Option<Seq<char>>,
    forwards: Seq<ForwardView>,
)
    ensures
        ({
            let s = draft_session(d, stored, forwards);
            &&& s.id == d.id
            &&& s.host == d.host
            &&& s.user == d.user
            &&& s.auth == d.auth
            &&& s.proxy == d.proxy
            &&& s.group == d.group
            &&& s.kind == d.kind
            &&& s.serial_port == d.serial_port
            &&& s.parity == d.parity
            &&& s.flow_control == d.flow_control
            &&& s.disable_shell_integration == d.disable_shell_integration
            &&& s.note == d.note
            &&& s.forwards == forwards
            &&& s.last_used is None
            &&& d.name.len() > 0 ==> s.name == d.name
            &&& 1 <= d.port <= 65535 ==> s.port == d.port
            &&& d.port <= 0 ==> s.port == if d.kind == SessionKind::Telnet {
                23u16
            } else {
                22u16
            }
            &&& d.baud_rate > 0 ==> s.baud_rate == d.baud_rate
            &&& d.baud_rate <= 0 ==> s.baud_rate == 115_200
            &&& 0 <= d.data_bits <= 255 ==> s.data_bits == d.data_bits
            &&& 0 <= d.stop_bits <= 255 ==> s.stop_bits == d.stop_bits
            &&& s.private_key_path.len() == d.private_key_path.len()
            &&& d.password.len() == 0 && stored is None ==> s.password.len() == 0
            &&& d.password.len() > 0 ==> s.password == d.password
        }),
{
}

/// Only backslashes of a key path change, each into a slash.
pub proof fn law_key_paths_keep_their_parts(
    d: DraftView,
    stored: Option<Seq<char>>,
    forwards: Seq<ForwardView>,
    i: int,
)
    requires
        0 <= i < d.private_key_path.len(),
    ensures
        draft_session(d, stored, forwards).private_key_path[i] == if d.private_key_path[i] == '\\' {
            '/'
        } else {
            d.private_key_path[i]
        },
{
}

/// Opening the dialog on a saved session shows what was submitted, field by field, but for the
/// password, which is never shown; numbers are shown so that they read back as what was saved.
pub proof fn law_reopened_dialog_shows_what_was_saved(
    d: DraftView,
    stored: Option<Seq<char>>,
    forwards: Seq<ForwardView>,
    editing: bool,
)
    ensures
        ({
            let w = dialog_of(draft_session(d, stored, forwards), editing);
            &&& w.id == d.id
            &&& w.host == d.host
            &&& w.user == d.user
            &&& w.auth == d.auth
            &&& w.group == d.group
            &&& w.kind == d.kind
            &&& w.serial_port == d.serial_port
            &&& w.parity == d.parity
            &&& w.flow == d.flow_control
            &&& w.disable_shell_integration == d.disable_shell_integration
            &&& w.note == d.note
            &&& w.editing == editing
            &&& d.name.len() > 0 ==> w.name == d.name
            &&& 1 <= d.port <= 65535 ==> unsigned_value(w.port, 65535) == Some(d.port as nat)
            &&& d.baud_rate > 0 ==> unsigned_value(w.baud, u32::MAX as nat) == Some(
                d.baud_rate as nat,
            )
            &&& 0 <= d.data_bits <= 255 ==> unsigned_value(w.data_bits, 255) == Some(
                d.data_bits as nat,
            )
            &&& 0 <= d.stop_bits <= 255 ==> unsigned_value(w.stop_bits, 255) == Some(
                d.stop_bits as nat,
            )
            &&& w.key_path == draft_session(d, stored, forwards).private_key_path
            &&& w.proxy_type == proxy_parts(d.proxy).0
            &&& w.proxy_hostport == proxy_parts(d.proxy).1
        }),
{
    let s = draft_session(d, stored, forwards);
    law_decimals_are_read_back(s.port as nat, 65535);
    law_decimals_are_read_back(s.baud_rate as nat, u32::MAX as nat);
    law_decimals_are_read_back(s.data_bits as nat, 255);
    law_decimals_are_read_back(s.stop_bits as nat, 255);
}

/// A session without a name is named after where it leads: the user and the host, the host alone
/// where no user was typed, or the serial port and its rate.
pub proof fn law_nameless_sessions_are_named_after_their_target(
    d: DraftView,
    stored: Option<Seq<char>>,
    forwards: Seq<ForwardView>,
)
    requires
        d.name.len() == 0,
    ensures
        ({
            let name = draft_session(d, stored, forwards).name;
            &&& d.kind != SessionKind::Serial && trimmed(d.user).len() == 0 ==> name == d.host
            &&& d.kind != SessionKind::Serial && trimmed(d.user).len() > 0 ==> name == d.user
                + seq!['@'] + d.host
            &&& d.kind == SessionKind::Serial && d.baud_rate > 0 ==> name == d.serial_port + seq![
                ' ',
                '@',
            ] + decimal(d.baud_rate as nat)
        }),
{
    reveal_strlit(" @");
    let name = draft_session(d, stored, forwards).name;
    assert(" @"@ =~= seq![' ', '@']);
    assert(d.user.push('@') + d.host =~= d.user + seq!['@'] + d.host);
}

/// A tab is labelled by where it leads: `user@host`, the serial port and its rate, or the telnet
/// host and port.
pub proof fn law_labels_lead_to_the_target(s: SessionView)
    ensures
        s.kind == SessionKind::Ssh ==> label_of(s) == s.user + seq!['@'] + s.host,
        s.kind == SessionKind::Serial ==> label_of(s) == s.serial_port + seq![' ', '@'] + decimal(
            s.baud_rate as nat,
        ),
        s.kind == SessionKind::Telnet ==> label_of(s) == seq!['t', 'e', 'l', 'n', 'e', 't', ' ']
            + s.host + seq![':'] + decimal(s.port as nat),
{
    reveal_strlit(" @");
    reveal_strlit("telnet ");
    assert(" @"@ =~= seq![' ', '@']);
    assert("telnet "@ =~= seq!['t', 'e', 'l', 'n', 'e', 't', ' ']);
    assert(label_of(s) =~= match s.kind {
        SessionKind::Ssh => s.user + seq!['@'] + s.host,
        SessionKind::Serial => s.serial_port + seq![' ', '@'] + decimal(s.baud_rate as nat),
        SessionKind::Telnet => seq!['t', 'e', 'l', 'n', 'e', 't', ' '] + s.host + seq![':']
            + decimal(s.port as nat),
    });
}

/// A port is bound on the loopback address unless another one was typed, and the summary of a
/// forwarded port names the flag of its kind, then the end that is bound, then the target; a
/// dynamic one has no target of its own.
pub proof fn law_forwards_tell_both_ends(f: ForwardView)
    ensures
        forward_row(f).kind == f.kind,
        forward_row(f).name == f.name,
        ({
            let local = if trimmed(f.bind_addr).len() == 0 {
                seq!['1', '2', '7', '.', '0', '.', '0', '.', '1']
            } else {
                trimmed(f.bind_addr)
            };
            let bound = local + seq![':'] + decimal(f.bind_port as nat);
            let target = f.host + seq![':'] + decimal(f.host_port as nat);
            let sum = forward_row(f).summary;
            &&& f.kind == "local"@ ==> sum == seq!['-', 'L', ' '] + bound + " → "@ + target
            &&& f.kind == "remote"@ ==> sum == seq!['-', 'R', ' '] + bound + " → "@ + target
            &&& f.kind == "dynamic"@ ==> sum == seq!['-', 'D', ' '] + bound + " (SOCKS5)"@
            &&& f.kind != "local"@ && f.kind != "remote"@ && f.kind != "dynamic"@ ==> sum.len()
                == 0
        }),
{
    reveal_strlit("local");
    reveal_strlit("remote");
    reveal_strlit("dynamic");
    reveal_strlit("-L ");
    reveal_strlit("-R ");
    reveal_strlit("-D ");
    reveal_strlit("127.0.0.1");
    assert("local"@[0] != "remote"@[0]);
    assert("dynamic"@[0] != "remote"@[0]);
    assert("dynamic"@[0] != "local"@[0]);
    assert("-L "@ =~= seq!['-', 'L', ' ']);
    assert("-R "@ =~= seq!['-', 'R', ' ']);
    assert("-D "@ =~= seq!['-', 'D', ' ']);
    assert("127.0.0.1"@ =~= seq!['1', '2', '7', '.', '0', '.', '0', '.', '1']);
    let local = if trimmed(f.bind_addr).len() == 0 {
        "127.0.0.1"@
    } else {
        trimmed(f.bind_addr)
    };
    let bound = local + seq![':'] + decimal(f.bind_port as nat);
    let target = f.host + seq![':'] + decimal(f.host_port as nat);
    assert(bound_end(f) =~= bound);
    assert(" → "@ + f.host.push(':') + decimal(f.host_port as nat) =~= " → "@ + target);
    assert("-L "@ + bound + (" → "@ + target) =~= "-L "@ + bound + " → "@ + target);
    assert("-R "@ + bound + (" → "@ + target) =~= "-R "@ + bound + " → "@ + target);
}

/// A forwarded port needs a port to bind that exists and, unless it is dynamic, a host and a port
/// to lead to.
pub proof fn law_forwards_need_both_ends(
    kind: Seq<char>,
    bind_port: i32,
    host: Seq<char>,
    host_port: i32,
)
    ensures
        forward_ok(kind, bind_port, host, host_port) ==> 0 < bind_port < 65536,
        forward_ok(kind, bind_port, host, host_port) && kind != "dynamic"@ ==> host_port > 0
            && trimmed(host).len() > 0,
        kind == "dynamic"@ && 0 < bind_port < 65536 ==> forward_ok(
            kind,
            bind_port,
            host,
            host_port,
        ),
        0 < bind_port < 65536 && host_port > 0 && trimmed(host).len() > 0 ==> forward_ok(
            kind,
            bind_port,
            host,
            host_port,
        ),
{
}

/// A copy has its own identifier, a name that tells it from the other, and was never used.
pub proof fn law_copies_are_told_apart(s: SessionView, id: Seq<char>)
    ensures
        copied(s, id).id == id,
        copied(s, id).name == s.name + seq![' ', '(', 'c', 'o', 'p', 'y', ')'],
        copied(s, id).last_used is None,
        copied(s, id).host == s.host && copied(s, id).user == s.user && copied(s, id).port
            == s.port && copied(s, id).password == s.password && copied(s, id).forwards
            == s.forwards,
{
    reveal_strlit(" (copy)");
    assert(" (copy)"@ =~= seq![' ', '(', 'c', 'o', 'p', 'y', ')']);
}

/// A forwarded port is added as it was typed, without white space round the texts: a local one
/// keeps both ends, each port as it is where it exists.
pub proof fn law_forwards_are_added_as_typed(
    name: Seq<char>,
    kind: Seq<char>,
    bind_addr: Seq<char>,
    bind_port: i32,
    host: Seq<char>,
    host_port: i32,
)
    requires
        forward_ok(kind, bind_port, host, host_port),
    ensures
        ({
            let f = typed_forward(name, kind, bind_addr, bind_port, host, host_port);
            &&& f.kind == kind
            &&& f.name == trimmed(name)
            &&& f.bind_addr == trimmed(bind_addr)
            &&& f.bind_port == bind_port
            &&& f.host == trimmed(host)
            &&& 0 <= host_port <= 65535 ==> f.host_port == host_port
            &&& host_port < 0 ==> f.host_port == 0
            &&& kind != "dynamic"@ ==> f.host.len() > 0
        }),
{
}

} // verus!
