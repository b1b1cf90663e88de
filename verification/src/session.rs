//! Saved sessions: what they hold, and how a text that lists hosts becomes sessions.

use vstd::prelude::*;

use crate::text::{
    all_pieces, ascii_lower_seq, decimal, from_chars, is_digit, law_decimals_are_read_back,
    law_trimming, lemma_few_pieces, lemma_first_piece, lemma_nothing_to_trim, lemma_one_piece,
    lemma_piece_off, lower_all, parse_unsigned, pieces, same_text, split_all, split_at_most,
    to_chars, trim, trimmed, unsigned_value, views, white_space,
};

verus! {

// ---- Types ----------------------------------------------------------------

/// How a session authenticates.
#[derive(Clone, Copy, Debug, PartialEq, Eq, Structural)]
pub enum AuthMethod {
    Password,
    Key,
}

/// How a session connects.
#[derive(Clone, Copy, Debug, PartialEq, Eq, Structural)]
pub enum SessionKind {
    Ssh,
    Serial,
    Telnet,
}

/// One forwarded port of a session.
pub struct PortForward {
    pub kind: String,
    pub name: String,
    pub bind_addr: String,
    pub bind_port: u16,
    pub host: String,
    pub host_port: u16,
}

/// What a forwarded port holds.
#[verifier::ext_equal]
pub ghost struct ForwardView {
    pub kind: Seq<char>,
    pub name: Seq<char>,
    pub bind_addr: Seq<char>,
    pub bind_port: u16,
    pub host: Seq<char>,
    pub host_port: u16,
}

impl View for PortForward {
    type V = ForwardView;

    open spec fn view(&self) -> ForwardView {
        ForwardView {
            kind: self.kind@,
            name: self.name@,
            bind_addr: self.bind_addr@,
            bind_port: self.bind_port,
            host: self.host@,
            host_port: self.host_port,
        }
    }
}

/// What each of a list of forwarded ports holds.
pub open spec fn forward_views(list: Seq<PortForward>) -> Seq<ForwardView> {
    list.map_values(|f: PortForward| f@)
}

/// A saved session.
pub struct Session {
    pub id: String,
    pub name: String,
    pub host: String,
    pub port: u16,
    pub user: String,
    pub auth: AuthMethod,
    pub password: String,
    pub private_key_path: String,
    pub proxy: String,
    pub last_used: Option<String>,
    pub group: String,
    pub kind: SessionKind,
    pub serial_port: String,
    pub baud_rate: u32,
    pub data_bits: u8,
    pub stop_bits: u8,
    pub parity: String,
    pub flow_control: String,
    pub forwards: Vec<PortForward>,
    pub disable_shell_integration: bool,
    pub note: String,
}

/// What a saved session holds.
#[verifier::ext_equal]
pub ghost struct SessionView {
    pub id: Seq<char>,
    pub name: Seq<char>,
    pub host: Seq<char>,
    pub port: u16,
    pub user: Seq<char>,
    pub auth: AuthMethod,
    pub password: Seq<char>,
    pub private_key_path: Seq<char>,
    pub proxy: Seq<char>,
    pub last_used: Option<Seq<char>>,
    pub group: Seq<char>,
    pub kind: SessionKind,
    pub serial_port: Seq<char>,
    pub baud_rate: u32,
    pub data_bits: u8,
    pub stop_bits: u8,
    pub parity: Seq<char>,
    pub flow_control: Seq<char>,
    pub forwards: Seq<ForwardView>,
    pub disable_shell_integration: bool,
    pub note: Seq<char>,
}

/// The text of an optional string.
pub open spec fn opt_text(s: Option<String>) -> Option<Seq<char>> {
    match s {
        Some(t) => Some(t@),
        None => None,
    }
}

impl View for Session {
    type V = SessionView;

    open spec fn view(&self) -> SessionView {
        SessionView {
            id: self.id@,
            name: self.name@,
            host: self.host@,
            port: self.port,
            user: self.user@,
            auth: self.auth,
            password: self.password@,
            private_key_path: self.private_key_path@,
            proxy: self.proxy@,
            last_used: opt_text(self.last_used),
            group: self.group@,
            kind: self.kind,
            serial_port: self.serial_port@,
            baud_rate: self.baud_rate,
            data_bits: self.data_bits,
            stop_bits: self.stop_bits,
            parity: self.parity@,
            flow_control: self.flow_control@,
            forwards: forward_views(self.forwards@),
            disable_shell_integration: self.disable_shell_integration,
            note: self.note@,
        }
    }
}

/// What each of a list of sessions holds.
pub open spec fn session_views(list: Seq<Session>) -> Seq<SessionView> {
    list.map_values(|s: Session| s@)
}

/// A copy of a list of forwarded ports.
pub fn copy_forwards(list: &Vec<PortForward>) -> (r: Vec<PortForward>)
    ensures
        forward_views(r@) == forward_views(list@),
{
    let mut r: Vec<PortForward> = Vec::new();
    let mut i: usize = 0;
    while i < list.len()
        invariant
            i <= list@.len(),
            r@.len() == i,
            forall|j: int| 0 <= j < i ==> (#[trigger] r@[j])@ == list@[j]@,
        decreases list@.len() - i,
    {
        let f = &list[i];
        r.push(
            PortForward {
                kind: f.kind.clone(),
                name: f.name.clone(),
                bind_addr: f.bind_addr.clone(),
                bind_port: f.bind_port,
                host: f.host.clone(),
                host_port: f.host_port,
            },
        );
        i += 1;
    }
    assert(forward_views(r@) =~= forward_views(list@));
    r
}

/// A copy of an optional string.
fn copy_opt(s: &Option<String>) -> (r: Option<String>)
    ensures
        opt_text(r) == opt_text(*s),
{
    match s {
        Some(x) => Some(x.clone()),
        None => None,
    }
}

impl Session {
    /// A session as the dialog starts it: SSH on port 22 by password, and the usual settings of
    /// a serial line.
    pub fn blank(id: String) -> (s: Session)
        ensures
            s@ == blank_session(id@),
    {
        let s = Session {
            id,
            name: String::new(),
            host: String::new(),
            port: 22,
            user: String::new(),
            auth: AuthMethod::Password,
            password: String::new(),
            private_key_path: String::new(),
            proxy: String::new(),
            last_used: None,
            group: String::new(),
            kind: SessionKind::Ssh,
            serial_port: String::new(),
            baud_rate: 115_200,
            data_bits: 8,
            stop_bits: 1,
            parity: "none".to_owned(),
            flow_control: "none".to_owned(),
            forwards: Vec::new(),
            disable_shell_integration: false,
            note: String::new(),
        };
        assert(s@ =~= blank_session(id@));
        s
    }

    /// A copy of the session.
    pub fn duplicate_of(&self) -> (s: Session)
        ensures
            s@ == self@,
    {
        Session {
            id: self.id.clone(),
            name: self.name.clone(),
            host: self.host.clone(),
            port: self.port,
            user: self.user.clone(),
            auth: self.auth,
            password: self.password.clone(),
            private_key_path: self.private_key_path.clone(),
            proxy: self.proxy.clone(),
            last_used: copy_opt(&self.last_used),
            group: self.group.clone(),
            kind: self.kind,
            serial_port: self.serial_port.clone(),
            baud_rate: self.baud_rate,
            data_bits: self.data_bits,
            stop_bits: self.stop_bits,
            parity: self.parity.clone(),
            flow_control: self.flow_control.clone(),
            forwards: copy_forwards(&self.forwards),
            disable_shell_integration: self.disable_shell_integration,
            note: self.note.clone(),
        }
    }
}

/// A session as the dialog starts it.
pub open spec fn blank_session(id: Seq<char>) -> SessionView {
    SessionView {
        id: id,
        name: Seq::empty(),
        host: Seq::empty(),
        port: 22,
        user: Seq::empty(),
        auth: AuthMethod::Password,
        password: Seq::empty(),
        private_key_path: Seq::empty(),
        proxy: Seq::empty(),
        last_used: None,
        group: Seq::empty(),
        kind: SessionKind::Ssh,
        serial_port: Seq::empty(),
        baud_rate: 115_200,
        data_bits: 8,
        stop_bits: 1,
        parity: "none"@,
        flow_control: "none"@,
        forwards: Seq::empty(),
        disable_shell_integration: false,
        note: Seq::empty(),
    }
}

// ---- Identifiers ----------------------------------------------------------

/// Whether a text has the form of a UUID: 36 characters, hyphens after the eighth, twelfth,
/// sixteenth and twentieth of 32 lower-case hexadecimal digits.
pub open spec fn uuid_shaped(s: Seq<char>) -> bool {
    s.len() == 36 && forall|i: int|
        0 <= i < 36 ==> if i == 8 || i == 13 || i == 18 || i == 23 {
            #[trigger] s[i] == '-'
        } else {
            '0' <= s[i] <= '9' || 'a' <= s[i] <= 'f'
        }
}

/// `uuid::Uuid::new_v4` and its `to_string`: a random identifier in hyphenated lower-case form.
/// Which one is left open; no two calls need agree.
#[verifier::external_body]
pub(crate) fn fresh_id() -> (r: String)
    ensures
        uuid_shaped(r@),
{
    uuid::Uuid::new_v4().to_string()
}

// ---- Batch import ---------------------------------------------------------

/// One host of a batch import.
pub struct HostEntry {
    pub host: String,
    pub port: u16,
    pub user: String,
    pub password: String,
    pub name: String,
}

/// What one host of a batch import holds.
#[verifier::ext_equal]
pub ghost struct EntryView {
    pub host: Seq<char>,
    pub port: u16,
    pub user: Seq<char>,
    pub password: Seq<char>,
    pub name: Seq<char>,
}

impl View for HostEntry {
    type V = EntryView;

    open spec fn view(&self) -> EntryView {
        EntryView {
            host: self.host@,
            port: self.port,
            user: self.user@,
            password: self.password@,
            name: self.name@,
        }
    }
}

/// What each of a list of hosts holds.
pub open spec fn entry_views(list: Seq<HostEntry>) -> Seq<EntryView> {
    list.map_values(|e: HostEntry| e@)
}

/// A field of an import line, without white space around it; nothing where the line is shorter.
pub open spec fn field(line: Seq<char>, i: int) -> Seq<char> {
    let parts = pieces(line, '|', 5);
    if i < parts.len() {
        trimmed(parts[i])
    } else {
        Seq::empty()
    }
}

/// The port that a field names: a number from 1 to 65535, and 22 for anything else.
pub open spec fn port_field(s: Seq<char>) -> u16 {
    match unsigned_value(s, u16::MAX as nat) {
        Some(p) => if p > 0 {
            p as u16
        } else {
            22
        },
        None => 22,
    }
}

/// The host that a line `host|port|user|password|name` names. A blank line and a comment name
/// none. Trailing fields are optional: port 22, user root, no password, and a
/// name made of user and host. The name may itself hold `|`.
pub open spec fn line_entry(raw: Seq<char>) -> Option<EntryView> {
    let line = trimmed(raw);
    let host = field(line, 0);
    if line.len() == 0 || line[0] == '#' || host.len() == 0 {
        None
    } else {
        let user = if field(line, 2).len() > 0 {
            field(line, 2)
        } else {
            "root"@
        };
        Some(
            EntryView {
                host: host,
                port: port_field(field(line, 1)),
                user: user,
                password: field(line, 3),
                name: if field(line, 4).len() > 0 {
                    field(line, 4)
                } else {
                    user.push('@') + host
                },
            },
        )
    }
}

/// Whether an entry is that of a header row such as `host|port|username|password|name`.
pub open spec fn is_header(e: EntryView) -> bool {
    ascii_lower_seq(e.host) == "host"@
}

/// The hosts that the first `n` lines name, in order. A header row above them names none.
pub open spec fn entries_of(lines: Seq<Seq<char>>, n: int) -> Seq<EntryView>
    decreases n,
{
    if n <= 0 {
        Seq::empty()
    } else {
        let before = entries_of(lines, n - 1);
        match line_entry(lines[n - 1]) {
            Some(e) => if before.len() == 0 && is_header(e) {
                before
            } else {
                before.push(e)
            },
            None => before,
        }
    }
}

/// The hosts that a text names, one per line.
pub open spec fn batch_entries(text: Seq<char>) -> Seq<EntryView> {
    let lines = all_pieces(text, '\n');
    entries_of(lines, lines.len() as int)
}

/// The session for a host of a batch import.
pub open spec fn entry_session(e: EntryView, id: Seq<char>) -> SessionView {
    SessionView {
        name: e.name,
        host: e.host,
        port: e.port,
        user: e.user,
        auth: AuthMethod::Password,
        password: e.password,
        ..blank_session(id)
    }
}

/// A field of a split line, without white space around it.
fn field_of(parts: &Vec<Vec<char>>, i: usize) -> (r: Vec<char>)
    ensures
        r@ == (if i < views(parts@).len() {
            trimmed(views(parts@)[i as int])
        } else {
            Seq::empty()
        }),
{
    if i < parts.len() {
        assert(views(parts@)[i as int] == parts@[i as int]@);
        trim(parts[i].as_slice())
    } else {
        let r: Vec<char> = Vec::new();
        assert(views(parts@).len() == parts@.len());
        assert(r@ =~= Seq::<char>::empty());
        r
    }
}

/// The host that a line names.
fn read_line(raw: &Vec<char>) -> (r: Option<HostEntry>)
    ensures
        r is Some <==> line_entry(raw@) is Some,
        r matches Some(e) ==> line_entry(raw@) == Some(e@),
{
    let line = trim(raw.as_slice());
    if line.len() == 0 || line[0] == '#' {
        return None;
    }
    // At most five pieces, so that the name may itself contain '|'.
    let parts = split_at_most(line.as_slice(), '|', 5);
    let host = field_of(&parts, 0);
    if host.len() == 0 {
        return None;
    }
    let port: u16 = match parse_unsigned(field_of(&parts, 1).as_slice(), 65535) {
        Some(p) => if p > 0 {
            p as u16
        } else {
            22
        },
        None => 22,
    };
    let user_field = field_of(&parts, 2);
    let user: String = if user_field.len() > 0 {
        from_chars(user_field.as_slice())
    } else {
        "root".to_owned()
    };
    let password = from_chars(field_of(&parts, 3).as_slice());
    let name_field = field_of(&parts, 4);
    let host = from_chars(host.as_slice());
    let name: String = if name_field.len() > 0 {
        from_chars(name_field.as_slice())
    } else {
        let mut n: String = user.clone();
        n.push('@');
        n.append(host.as_str());
        n
    };
    let e = HostEntry { host, port, user, password, name };
    assert(e@ =~= line_entry(raw@)->0);
    Some(e)
}

/// The hosts that the batch-import text names. Each non-empty, non-`#` line is
/// `host|port|user|password|name`; trailing fields are optional (port 22, user root, no
/// password, name user@host). A leading header row such as `host|port|username|password|name`
/// is skipped.
pub fn read_batch(text: &str) -> (r: Vec<HostEntry>)
    ensures
        entry_views(r@) == batch_entries(text@),
{
    let lines = split_all(to_chars(text).as_slice(), '\n');
    let ghost ls = views(lines@);
    let mut r: Vec<HostEntry> = Vec::new();
    let mut i: usize = 0;
    assert(entry_views(r@) =~= entries_of(ls, 0));
    while i < lines.len()
        invariant
            i <= lines@.len(),
            ls == views(lines@),
            entry_views(r@) == entries_of(ls, i as int),
        decreases lines@.len() - i,
    {
        assert(ls[i as int] == lines@[i as int]@);
        let ghost before = r@;
        match read_line(&lines[i]) {
            Some(e) => {
                let lower = from_chars(lower_all(to_chars(e.host.as_str()).as_slice()).as_slice());
                if r.len() > 0 || !same_text(lower.as_str(), "host") {
                    r.push(e);
                    assert(entry_views(r@) =~= entry_views(before).push(e@));
                }
            },
            None => {},
        }
        i += 1;
    }
    assert(ls.len() == lines@.len());
    r
}

/// The session for a host of a batch import.
pub fn session_for_entry(e: HostEntry, id: String) -> (s: Session)
    ensures
        s@ == entry_session(e@, id@),
{
    let mut s = Session::blank(id);
    s.name = e.name;
    s.host = e.host;
    s.port = e.port;
    s.user = e.user;
    s.password = e.password;
    assert(s@ =~= entry_session(e@, id@));
    s
}

/// Parse the batch-import text into sessions, each with an identifier of its own. Dedup happens
/// at the call site.
pub fn parse_batch_import(text: &str) -> (out: Vec<Session>)
    ensures
        out@.len() == batch_entries(text@).len(),
        forall|i: int|
            0 <= i < out@.len() ==> uuid_shaped((#[trigger] out@[i]).id@) && out@[i]@
                == entry_session(batch_entries(text@)[i], out@[i].id@),
{
    let mut entries = read_batch(text);
    let ghost all = entry_views(entries@);
    let mut out: Vec<Session> = Vec::new();
    let n: usize = entries.len();
    let mut i: usize = 0;
    while i < n
        invariant
            i <= n,
            n == all.len(),
            entries@.len() == n - i,
            entry_views(entries@) == all.skip(i as int),
            out@.len() == i,
            forall|k: int|
                0 <= k < i ==> uuid_shaped((#[trigger] out@[k]).id@) && out@[k]@ == entry_session(
                    all[k],
                    out@[k].id@,
                ),
        decreases n - i,
    {
        let ghost before = entries@;
        let e = entries.remove(0);
        proof {
            assert(entry_views(before)[0] == e@);
            assert(all.skip(i as int)[0] == all[i as int]);
            assert(entry_views(entries@) =~= entry_views(before).skip(1));
            assert(all.skip(i as int).skip(1) =~= all.skip(i + 1));
        }
        out.push(session_for_entry(e, fresh_id()));
        i += 1;
    }
    out
}

// ---- Laws -----------------------------------------------------------------

/// A port that exists is read as it is written, and anything else is the usual one.
pub proof fn law_ports_are_read(n: nat, s: Seq<char>)
    ensures
        1 <= n <= 65535 ==> port_field(decimal(n)) == n,
        n == 0 || n > 65535 ==> port_field(decimal(n)) == 22,
        unsigned_value(s, 65535) is None ==> port_field(s) == 22,
        port_field(s) >= 1,
{
    law_decimals_are_read_back(n, 65535);
}

proof fn lemma_trimmed_ends(s: Seq<char>)
    requires
        trimmed(s) == s,
        s.len() > 0,
    ensures
        !white_space(s[0]),
        !white_space(s.last()),
{
    let from = law_trimming(s);
}

/// An import line is read field by field: what stands between the bars is the host, the port, the
/// user, the password and the name, in this order; the name may hold bars itself.
pub proof fn law_import_lines_are_read(
    host: Seq<char>,
    port: u16,
    user: Seq<char>,
    password: Seq<char>,
    name: Seq<char>,
)
    requires
        host.len() > 0 && host[0] != '#',
        port > 0,
        user.len() > 0,
        name.len() > 0,
        !host.contains('|') && !user.contains('|') && !password.contains('|'),
        trimmed(host) == host && trimmed(user) == user && trimmed(password) == password && trimmed(
            name,
        ) == name,
    ensures
        line_entry(
            host + seq!['|'] + decimal(port as nat) + seq!['|'] + user + seq!['|'] + password
                + seq!['|'] + name,
        ) == Some(
            (EntryView { host: host, port: port, user: user, password: password, name: name }),
        ),
{
    let p = decimal(port as nat);
    let line = host + seq!['|'] + p + seq!['|'] + user + seq!['|'] + password + seq!['|'] + name;
    law_decimals_are_read_back(port as nat, 65535);
    law_ports_are_read(port as nat, p);
    assert forall|i: int| 0 <= i < p.len() implies p[i] != '|' by {
        assert(is_digit(p[i]));
    }
    assert(!p.contains('|'));
    assert(is_digit(p[0]) && is_digit(p[p.len() - 1]));
    lemma_nothing_to_trim(p);
    lemma_trimmed_ends(host);
    lemma_trimmed_ends(name);
    assert(line[0] == host[0] && line.last() == name.last());
    lemma_nothing_to_trim(line);
    let r4 = name;
    let r3 = password.push('|') + r4;
    let r2 = user.push('|') + r3;
    let r1 = p.push('|') + r2;
    assert(line =~= host.push('|') + r1);
    lemma_piece_off(host, r1, '|', 5);
    lemma_piece_off(p, r2, '|', 4);
    lemma_piece_off(user, r3, '|', 3);
    lemma_piece_off(password, r4, '|', 2);
    assert(pieces(name, '|', 1) == seq![name]);
    let parts = pieces(line, '|', 5);
    assert(parts =~= seq![host, p, user, password, name]);
    assert(field(line, 0) == host && field(line, 1) == p && field(line, 2) == user && field(line, 3)
        == password && field(line, 4) == name);
}

/// A host alone is reached on the usual port as root, without a password, and is named after
/// both.
pub proof fn law_fields_may_be_left_out(host: Seq<char>)
    requires
        host.len() > 0 && host[0] != '#',
        !host.contains('|'),
        trimmed(host) == host,
    ensures
        line_entry(host) == Some(
            (EntryView {
                host: host,
                port: 22,
                user: seq!['r', 'o', 'o', 't'],
                password: Seq::empty(),
                name: seq!['r', 'o', 'o', 't', '@'] + host,
            }),
        ),
{
    reveal_strlit("root");
    assert("root"@ =~= seq!['r', 'o', 'o', 't']);
    assert("root"@.push('@') + host =~= seq!['r', 'o', 'o', 't', '@'] + host);
    lemma_few_pieces(host, '|', 5);
    assert(pieces(host, '|', 5) == seq![host]);
    assert(field(host, 0) == host);
    assert(unsigned_value(Seq::<char>::empty(), 65535) is None);
}

/// White space round a line, blank lines and comments count for nothing, and a line without a
/// host names none.
pub proof fn law_lines_without_a_host(raw: Seq<char>, rest: Seq<char>)
    ensures
        line_entry(raw) == line_entry(trimmed(raw)),
        trimmed(raw).len() == 0 ==> line_entry(raw) is None,
        trimmed(raw).len() > 0 && trimmed(raw)[0] == '#' ==> line_entry(raw) is None,
        trimmed(raw) == seq!['|'] + rest ==> line_entry(raw) is None,
{
    let line = trimmed(raw);
    let from = law_trimming(raw);
    lemma_nothing_to_trim(line);
    if line == seq!['|'] + rest {
        let none = Seq::<char>::empty();
        assert(none.push('|') + rest =~= line);
        lemma_piece_off(none, rest, '|', 5);
        assert(field(line, 0) == trimmed(none));
    }
}

/// Lines are read in their order, each for itself. The one exception is a heading, a line whose
/// host is the word `host` in whatever case, before the first host: it names none.
pub proof fn law_lines_are_read_in_order(lines: Seq<Seq<char>>, n: int)
    requires
        0 <= n < lines.len(),
    ensures
        line_entry(lines[n]) is None ==> entries_of(lines, n + 1) == entries_of(lines, n),
        line_entry(lines[n]) matches Some(e) ==> {
            &&& ascii_lower_seq(e.host) != seq!['h', 'o', 's', 't'] ==> entries_of(lines, n + 1)
                == entries_of(lines, n).push(e)
            &&& entries_of(lines, n).len() > 0 ==> entries_of(lines, n + 1) == entries_of(
                lines,
                n,
            ).push(e)
            &&& entries_of(lines, n).len() == 0 && ascii_lower_seq(e.host) == seq![
                'h',
                'o',
                's',
                't',
            ] ==> entries_of(lines, n + 1).len() == 0
        },
        entries_of(lines, 0).len() == 0,
{
    reveal_strlit("host");
    assert("host"@ =~= seq!['h', 'o', 's', 't']);
}

/// A text without a line feed is one line; what follows a line feed is read on its own lines.
pub proof fn law_a_batch_is_read_by_lines(line: Seq<char>, rest: Seq<char>)
    requires
        !line.contains('\n'),
    ensures
        all_pieces(line, '\n') == seq![line],
        all_pieces(line.push('\n') + rest, '\n') == seq![line] + all_pieces(rest, '\n'),
        batch_entries(line) == entries_of(seq![line], 1),
        batch_entries(line.push('\n') + rest) == entries_of(
            seq![line] + all_pieces(rest, '\n'),
            all_pieces(rest, '\n').len() as int + 1,
        ),
{
    lemma_one_piece(line, '\n');
    lemma_first_piece(line, rest, '\n');
}

/// The session for a host of a batch is reached as the line says, by password.
pub proof fn law_batch_sessions_lead_to_the_host(e: EntryView, id: Seq<char>)
    ensures
        ({
            let s = entry_session(e, id);
            &&& s.id == id
            &&& s.host == e.host
            &&& s.port == e.port
            &&& s.user == e.user
            &&& s.password == e.password
            &&& s.name == e.name
            &&& s.auth == AuthMethod::Password
            &&& s.kind == SessionKind::Ssh
            &&& s.group.len() == 0 && s.private_key_path.len() == 0 && s.last_used is None
        }),
{
}

/// A session starts as an SSH session on the usual port, by password, with nothing filled in and
/// the usual settings of a serial line.
pub proof fn law_blank_sessions(id: Seq<char>)
    ensures
        ({
            let s = blank_session(id);
            &&& s.id == id
            &&& s.name.len() == 0 && s.host.len() == 0 && s.user.len() == 0
            &&& s.password.len() == 0 && s.private_key_path.len() == 0 && s.proxy.len() == 0
            &&& s.group.len() == 0 && s.note.len() == 0 && s.serial_port.len() == 0
            &&& s.last_used is None && s.forwards.len() == 0 && !s.disable_shell_integration
            &&& s.kind == SessionKind::Ssh && s.auth == AuthMethod::Password && s.port == 22
            &&& s.baud_rate == 115_200 && s.data_bits == 8 && s.stop_bits == 1
            &&& s.parity == s.flow_control
        }),
{
}

} // verus!
