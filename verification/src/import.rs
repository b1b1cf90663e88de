//! Importing sessions: which hosts are new, and what the user is told.

use vstd::prelude::*;

use crate::session::{
    blank_session, fresh_id, session_views, uuid_shaped, AuthMethod, Session, SessionKind,
    SessionView,
};
use crate::text::{decimal, push_decimal, push_tr, same_text, t, tr};

verus! {

// ---- Hosts of ~/.ssh/config -----------------------------------------------

/// A host of an OpenSSH client configuration.
pub struct SshHost {
    pub alias: String,
    pub hostname: String,
    pub port: u16,
    pub user: String,
    pub identity_file: String,
}

/// What a host of an OpenSSH client configuration holds.
#[verifier::ext_equal]
pub ghost struct SshHostView {
    pub alias: Seq<char>,
    pub hostname: Seq<char>,
    pub port: u16,
    pub user: Seq<char>,
    pub identity_file: Seq<char>,
}

impl View for SshHost {
    type V = SshHostView;

    open spec fn view(&self) -> SshHostView {
        SshHostView {
            alias: self.alias@,
            hostname: self.hostname@,
            port: self.port,
            user: self.user@,
            identity_file: self.identity_file@,
        }
    }
}

/// What each of a list of hosts holds.
pub open spec fn host_views(list: Seq<SshHost>) -> Seq<SshHostView> {
    list.map_values(|h: SshHost| h@)
}

/// Whether a session already stands for a host: by its alias, or by host and user.
pub open spec fn same_host(s: SessionView, h: SshHostView) -> bool {
    s.name == h.alias || (s.host == h.hostname && s.user == h.user)
}

/// Whether any of a list of sessions already stands for a host.
pub open spec fn known_host(list: Seq<SessionView>, h: SshHostView) -> bool {
    exists|i: int| 0 <= i < list.len() && same_host(#[trigger] list[i], h)
}

/// The session for a host: by key where it names an identity file, by password otherwise; the
/// user is root where it names none.
pub open spec fn host_session(h: SshHostView, id: Seq<char>) -> SessionView {
    SessionView {
        name: h.alias,
        host: h.hostname,
        port: h.port,
        user: if h.user.len() == 0 {
            "root"@
        } else {
            h.user
        },
        auth: if h.identity_file.len() == 0 {
            AuthMethod::Password
        } else {
            AuthMethod::Key
        },
        private_key_path: h.identity_file,
        ..blank_session(id)
    }
}

/// Whether one of a list of hosts, once imported, stands for a host.
pub open spec fn listed_host(list: Seq<SshHostView>, h: SshHostView) -> bool {
    exists|i: int|
        0 <= i < list.len() && same_host(host_session(#[trigger] list[i], Seq::empty()), h)
}

/// The hosts that are new: those for which neither a session nor an earlier new host stands.
pub open spec fn new_hosts(existing: Seq<SessionView>, hosts: Seq<SshHostView>) -> Seq<SshHostView>
    decreases hosts.len(),
{
    if hosts.len() == 0 {
        hosts
    } else {
        let before = new_hosts(existing, hosts.drop_last());
        if known_host(existing, hosts.last()) || listed_host(before, hosts.last()) {
            before
        } else {
            before.push(hosts.last())
        }
    }
}

/// The session for a host.
pub fn session_for_host(h: &SshHost, id: String) -> (s: Session)
    ensures
        s@ == host_session(h@, id@),
{
    let mut s = Session::blank(id);
    s.name = h.alias.clone();
    s.host = h.hostname.clone();
    s.port = h.port;
    s.user = if h.user.as_str().is_empty() {
        "root".to_owned()
    } else {
        h.user.clone()
    };
    s.auth = if h.identity_file.as_str().is_empty() {
        AuthMethod::Password
    } else {
        AuthMethod::Key
    };
    s.private_key_path = h.identity_file.clone();
    assert(s@ =~= host_session(h@, id@));
    s
}

/// Whether any of the sessions already stands for a host.
fn is_known_host(list: &Vec<Session>, h: &SshHost) -> (r: bool)
    ensures
        r == known_host(session_views(list@), h@),
{
    let mut i: usize = 0;
    while i < list.len()
        invariant
            i <= list@.len(),
            forall|j: int| 0 <= j < i ==> !same_host(#[trigger] session_views(list@)[j], h@),
        decreases list@.len() - i,
    {
        let s = &list[i];
        assert(session_views(list@)[i as int] == s@);
        if same_text(s.name.as_str(), h.alias.as_str()) || (same_text(
            s.host.as_str(),
            h.hostname.as_str(),
        ) && same_text(s.user.as_str(), h.user.as_str())) {
            assert(same_host(session_views(list@)[i as int], h@));
            return true;
        }
        i += 1;
    }
    false
}

/// The sessions to add for the hosts of `~/.ssh/config`, each with an identifier of its own. A
/// host is skipped if a session already has its alias, or the same host + user pair; sessions
/// added on the way count.
pub fn import_ssh_hosts(existing: &Vec<Session>, hosts: &Vec<SshHost>) -> (added: Vec<Session>)
    ensures
        added@.len() == new_hosts(session_views(existing@), host_views(hosts@)).len(),
        forall|i: int|
            0 <= i < added@.len() ==> uuid_shaped((#[trigger] added@[i]).id@) && added@[i]@
                == host_session(
                new_hosts(session_views(existing@), host_views(hosts@))[i],
                added@[i].id@,
            ),
{
    let ghost old_ones = session_views(existing@);
    let ghost hs = host_views(hosts@);
    let mut added: Vec<Session> = Vec::new();
    let mut i: usize = 0;
    assert(new_hosts(old_ones, hs.take(0)).len() == 0);
    while i < hosts.len()
        invariant
            i <= hosts@.len(),
            old_ones == session_views(existing@),
            hs == host_views(hosts@),
            added@.len() == new_hosts(old_ones, hs.take(i as int)).len(),
            forall|k: int|
                0 <= k < added@.len() ==> uuid_shaped((#[trigger] added@[k]).id@) && added@[k]@
                    == host_session(new_hosts(old_ones, hs.take(i as int))[k], added@[k].id@),
        decreases hosts@.len() - i,
    {
        let h = &hosts[i];
        let ghost before = new_hosts(old_ones, hs.take(i as int));
        let ghost so_far = added@;
        proof {
            assert(hs.take(i + 1).drop_last() =~= hs.take(i as int));
            assert(hs.take(i + 1).last() == h@);
            let views = session_views(so_far);
            if known_host(views, h@) {
                let k = choose|k: int| 0 <= k < views.len() && same_host(#[trigger] views[k], h@);
                assert(views[k] == so_far[k]@);
                assert(same_host(host_session(before[k], Seq::empty()), h@));
            }
            if listed_host(before, h@) {
                let k = choose|k: int|
                    0 <= k < before.len() && same_host(
                        host_session(#[trigger] before[k], Seq::empty()),
                        h@,
                    );
                assert(views[k] == so_far[k]@);
                assert(same_host(views[k], h@));
            }
        }
        if !is_known_host(existing, h) && !is_known_host(&added, h) {
            added.push(session_for_host(h, fresh_id()));
            assert(new_hosts(old_ones, hs.take(i + 1)) == before.push(h@));
        }
        i += 1;
    }
    assert(hs.take(i as int) =~= hs);
    added
}

// ---- Batches --------------------------------------------------------------

/// Whether a list of sessions already has the host, user and port of one.
pub open spec fn known_target(list: Seq<SessionView>, s: SessionView) -> bool {
    exists|i: int|
        0 <= i < list.len() && (#[trigger] list[i]).host == s.host && list[i].user == s.user
            && list[i].port == s.port
}

/// The sessions of a batch that are new: those whose host, user and port neither the existing
/// ones nor earlier ones of the batch have.
pub open spec fn new_sessions(existing: Seq<SessionView>, batch: Seq<SessionView>) -> Seq<
    SessionView,
>
    decreases batch.len(),
{
    if batch.len() == 0 {
        batch
    } else {
        let before = new_sessions(existing, batch.drop_last());
        if known_target(existing + before, batch.last()) {
            before
        } else {
            before.push(batch.last())
        }
    }
}

/// Whether a list of sessions already has the host, user and port of one.
fn is_known_target(list: &Vec<Session>, s: &Session) -> (r: bool)
    ensures
        r == known_target(session_views(list@), s@),
{
    let mut i: usize = 0;
    let ghost v = session_views(list@);
    while i < list.len()
        invariant
            i <= list@.len(),
            v == session_views(list@),
            forall|j: int|
                0 <= j < i ==> !((#[trigger] v[j]).host == s@.host && v[j].user == s@.user
                    && v[j].port == s@.port),
        decreases list@.len() - i,
    {
        let x = &list[i];
        assert(v[i as int] == x@);
        if same_text(x.host.as_str(), s.host.as_str()) && same_text(
            x.user.as_str(),
            s.user.as_str(),
        ) && x.port == s.port {
            return true;
        }
        i += 1;
    }
    false
}

proof fn lemma_target_joined(a: Seq<SessionView>, b: Seq<SessionView>, s: SessionView)
    ensures
        known_target(a + b, s) == (known_target(a, s) || known_target(b, s)),
{
    let all = a + b;
    if known_target(a, s) {
        let i = choose|i: int|
            0 <= i < a.len() && (#[trigger] a[i]).host == s.host && a[i].user == s.user && a[i].port
                == s.port;
        assert(all[i] == a[i]);
    }
    if known_target(b, s) {
        let i = choose|i: int|
            0 <= i < b.len() && (#[trigger] b[i]).host == s.host && b[i].user == s.user && b[i].port
                == s.port;
        assert(all[a.len() + i] == b[i]);
    }
    if known_target(all, s) {
        let i = choose|i: int|
            0 <= i < all.len() && (#[trigger] all[i]).host == s.host && all[i].user == s.user
                && all[i].port == s.port;
        if i < a.len() {
            assert(a[i] == all[i]);
        } else {
            assert(b[i - a.len()] == all[i]);
        }
    }
}

/// The sessions of a batch to add: a host/user/port that is already there is skipped.
pub fn import_batch(existing: &Vec<Session>, batch: Vec<Session>) -> (added: Vec<Session>)
    ensures
        session_views(added@) == new_sessions(session_views(existing@), session_views(batch@)),
{
    let ghost old_ones = session_views(existing@);
    let ghost all = session_views(batch@);
    let mut rest: Vec<Session> = batch;
    let mut added: Vec<Session> = Vec::new();
    let n: usize = rest.len();
    let mut i: usize = 0;
    assert(session_views(added@) =~= new_sessions(old_ones, all.take(0)));
    assert(all.skip(0) == all);
    while i < n
        invariant
            i <= n,
            n == all.len(),
            rest@.len() == n - i,
            old_ones == session_views(existing@),
            session_views(rest@) == all.skip(i as int),
            session_views(added@) == new_sessions(old_ones, all.take(i as int)),
        decreases n - i,
    {
        let ghost rest0 = rest@;
        let ghost before = session_views(added@);
        let s = rest.remove(0);
        proof {
            assert(session_views(rest0)[0] == s@);
            assert(all.skip(i as int)[0] == all[i as int]);
            assert(session_views(rest@) =~= session_views(rest0).skip(1));
            assert(all.skip(i as int).skip(1) =~= all.skip(i + 1));
            assert(all.take(i + 1).drop_last() =~= all.take(i as int));
            assert(all.take(i + 1).last() == s@);
            lemma_target_joined(old_ones, before, s@);
        }
        if !is_known_target(existing, &s) && !is_known_target(&added, &s) {
            added.push(s);
            assert(session_views(added@) =~= before.push(s@));
        }
        i += 1;
    }
    assert(all.take(i as int) =~= all);
    added
}

// ---- Hints ----------------------------------------------------------------

/// A text, a space and a number.
pub open spec fn counted(what: Seq<char>, n: nat) -> Seq<char> {
    what.push(' ') + decimal(n)
}

/// What the user is told after importing the hosts of `~/.ssh/config`.
pub open spec fn ssh_hint(found: nat, added: nat, english: bool) -> Seq<char> {
    if found == 0 {
        tr(english, "未找到 ~/.ssh/config"@, "no ~/.ssh/config found"@)
    } else if added > 0 {
        counted(tr(english, "已导入"@, "imported"@), added)
    } else {
        tr(english, "没有新主机可导入"@, "no new hosts to import"@)
    }
}

/// What the user is told after importing the hosts of `~/.ssh/config`.
pub fn ssh_import_hint(found: usize, added: usize, english: bool) -> (r: String)
    ensures
        r@ == ssh_hint(found as nat, added as nat, english),
{
    if found == 0 {
        t(english, "未找到 ~/.ssh/config", "no ~/.ssh/config found")
    } else if added > 0 {
        let mut r: String = t(english, "已导入", "imported");
        r.push(' ');
        push_decimal(&mut r, added as u128);
        r
    } else {
        t(english, "没有新主机可导入", "no new hosts to import")
    }
}

/// What the user is told after a batch import.
pub open spec fn batch_hint(total: nat, added: nat, english: bool) -> Seq<char> {
    if total == 0 {
        tr(english, "没有可导入的连接"@, "nothing to import"@)
    } else if added > 0 {
        counted(tr(english, "已导入"@, "imported"@), added).push('/') + decimal(total)
    } else {
        tr(english, "没有新连接可导入(已存在)"@, "no new connections (all exist)"@)
    }
}

/// What the user is told after a batch import.
pub fn batch_import_hint(total: usize, added: usize, english: bool) -> (r: String)
    ensures
        r@ == batch_hint(total as nat, added as nat, english),
{
    if total == 0 {
        t(english, "没有可导入的连接", "nothing to import")
    } else if added > 0 {
        let mut r: String = t(english, "已导入", "imported");
        r.push(' ');
        push_decimal(&mut r, added as u128);
        r.push('/');
        push_decimal(&mut r, total as u128);
        r
    } else {
        t(english, "没有新连接可导入(已存在)", "no new connections (all exist)")
    }
}

/// What came of reading or writing a file of sessions.
pub enum FileOutcome {
    Exported { count: usize },
    ExportFailed { reason: String },
    Imported { added: usize, skipped: usize },
    ImportFailed { reason: String },
}

/// What the user is told of reading or writing a file of sessions.
pub open spec fn file_hint(outcome: FileOutcome, english: bool) -> Seq<char> {
    match outcome {
        FileOutcome::Exported { count } => counted(
            tr(english, "已导出连接"@, "exported"@),
            count as nat,
        ),
        FileOutcome::ExportFailed { reason } => tr(english, "导出失败"@, "export failed"@) + ": "@
            + reason@,
        FileOutcome::Imported { added, skipped } => counted(
            tr(english, "已导入"@, "imported"@),
            added as nat,
        ) + " / "@ + counted(tr(english, "跳过重复"@, "skipped"@), skipped as nat),
        FileOutcome::ImportFailed { reason } => tr(english, "导入失败"@, "import failed"@) + ": "@
            + reason@,
    }
}

/// What the user is told of reading or writing a file of sessions.
pub fn file_outcome_hint(outcome: &FileOutcome, english: bool) -> (r: String)
    ensures
        r@ == file_hint(*outcome, english),
{
    let mut r: String = String::new();
    match outcome {
        FileOutcome::Exported { count } => {
            push_tr(&mut r, english, "已导出连接", "exported");
            r.push(' ');
            push_decimal(&mut r, *count as u128);
        },
        FileOutcome::ExportFailed { reason } => {
            push_tr(&mut r, english, "导出失败", "export failed");
            r.append(": ");
            r.append(reason.as_str());
        },
        FileOutcome::Imported { added, skipped } => {
            push_tr(&mut r, english, "已导入", "imported");
            r.push(' ');
            push_decimal(&mut r, *added as u128);
            r.append(" / ");
            push_tr(&mut r, english, "跳过重复", "skipped");
            r.push(' ');
            push_decimal(&mut r, *skipped as u128);
        },
        FileOutcome::ImportFailed { reason } => {
            push_tr(&mut r, english, "导入失败", "import failed");
            r.append(": ");
            r.append(reason.as_str());
        },
    }
    assert(r@ =~= file_hint(*outcome, english));
    r
}

// ---- Laws -----------------------------------------------------------------

/// Every host is known once it was imported: by alias, or by host and user.
pub proof fn law_imported_hosts_are_known(
    existing: Seq<SessionView>,
    hosts: Seq<SshHostView>,
    n: int,
)
    requires
        0 <= n < hosts.len(),
    ensures
        known_host(existing, hosts[n]) || listed_host(new_hosts(existing, hosts), hosts[n]),
    decreases hosts.len(),
{
    let before = new_hosts(existing, hosts.drop_last());
    let after = new_hosts(existing, hosts);
    let h = hosts[n];
    if n == hosts.len() - 1 {
        if !(known_host(existing, h) || listed_host(before, h)) {
            assert(after.last() == h);
            assert(same_host(host_session(after[after.len() - 1], Seq::empty()), h));
        }
    } else {
        law_imported_hosts_are_known(existing, hosts.drop_last(), n);
        assert(hosts.drop_last()[n] == h);
        if listed_host(before, h) {
            let k = choose|k: int|
                0 <= k < before.len() && same_host(
                    host_session(#[trigger] before[k], Seq::empty()),
                    h,
                );
            assert(after[k] == before[k]);
        }
    }
}

/// Importing the same batch again adds nothing.
pub proof fn law_batch_import_is_idempotent(existing: Seq<SessionView>, batch: Seq<SessionView>)
    ensures
        new_sessions(existing + new_sessions(existing, batch), batch) == Seq::<
            SessionView,
        >::empty(),
{
    lemma_all_known(existing, batch, batch.len() as int);
    assert(batch.take(batch.len() as int) =~= batch);
}

proof fn lemma_all_known(existing: Seq<SessionView>, batch: Seq<SessionView>, n: int)
    requires
        0 <= n <= batch.len(),
    ensures
        new_sessions(existing + new_sessions(existing, batch), batch.take(n)) == Seq::<
            SessionView,
        >::empty(),
    decreases n,
{
    let all = existing + new_sessions(existing, batch);
    if n > 0 {
        lemma_all_known(existing, batch, n - 1);
        assert(batch.take(n).drop_last() =~= batch.take(n - 1));
        let s = batch[n - 1];
        lemma_target_kept(existing, batch, n);
        assert(all + Seq::<SessionView>::empty() =~= all);
        assert(batch.take(n).last() == s);
    } else {
        assert(batch.take(0) =~= Seq::<SessionView>::empty());
    }
}

/// After an import every session of the batch has its host, user and port in the list.
proof fn lemma_target_kept(existing: Seq<SessionView>, batch: Seq<SessionView>, n: int)
    requires
        0 < n <= batch.len(),
    ensures
        known_target(existing + new_sessions(existing, batch), batch[n - 1]),
    decreases batch.len(),
{
    let before = new_sessions(existing, batch.drop_last());
    let after = new_sessions(existing, batch);
    let s = batch[n - 1];
    lemma_target_joined(existing, before, s);
    lemma_target_joined(existing, after, s);
    if n == batch.len() {
        if !known_target(existing + before, s) {
            assert(after.last() == s);
            assert(after[after.len() - 1].host == s.host);
        } else {
            assert(after == before);
        }
    } else {
        lemma_target_kept(existing, batch.drop_last(), n);
        assert(batch.drop_last()[n - 1] == s);
        if known_target(before, s) {
            let i = choose|i: int|
                0 <= i < before.len() && (#[trigger] before[i]).host == s.host && before[i].user
                    == s.user && before[i].port == s.port;
            assert(after[i] == before[i]);
        }
    }
}

/// Once imported, no two sessions of the batch that were added share host, user and port.
pub proof fn law_added_sessions_are_distinct(existing: Seq<SessionView>, batch: Seq<SessionView>)
    ensures
        forall|i: int, j: int|
            0 <= i < j < new_sessions(existing, batch).len() ==> !((#[trigger] new_sessions(
                existing,
                batch,
            )[i]).host == (#[trigger] new_sessions(existing, batch)[j]).host && new_sessions(
                existing,
                batch,
            )[i].user == new_sessions(existing, batch)[j].user && new_sessions(
                existing,
                batch,
            )[i].port == new_sessions(existing, batch)[j].port),
    decreases batch.len(),
{
    if batch.len() > 0 {
        let before = new_sessions(existing, batch.drop_last());
        let after = new_sessions(existing, batch);
        let s = batch.last();
        law_added_sessions_are_distinct(existing, batch.drop_last());
        lemma_target_joined(existing, before, s);
        if !known_target(existing + before, s) {
            assert(after == before.push(s));
            assert forall|i: int, j: int| 0 <= i < j < after.len() implies !((
            #[trigger] after[i]).host == (#[trigger] after[j]).host && after[i].user
                == after[j].user && after[i].port == after[j].port) by {
                assert(after[i] == before[i]);
            }
        }
    }
}

/// The session for a host leads where the configuration says: under the alias as its name, to the
/// host name and port, as the user that is named or else as root, and by the key that is named or
/// else by a password.
pub proof fn law_host_sessions_lead_to_the_host(h: SshHostView, id: Seq<char>)
    ensures
        ({
            let s = host_session(h, id);
            &&& s.id == id
            &&& s.name == h.alias
            &&& s.host == h.hostname
            &&& s.port == h.port
            &&& h.user.len() > 0 ==> s.user == h.user
            &&& h.user.len() == 0 ==> s.user == seq!['r', 'o', 'o', 't']
            &&& s.auth == AuthMethod::Key <==> h.identity_file.len() > 0
            &&& s.private_key_path == h.identity_file
            &&& s.password.len() == 0 && s.group.len() == 0 && s.forwards.len() == 0
            &&& s.kind == SessionKind::Ssh
        }),
{
    reveal_strlit("root");
    assert("root"@ =~= seq!['r', 'o', 'o', 't']);
}

/// Only new hosts are imported: each is one of the hosts, and no session that was there has its
/// alias as its name, or its host name and user together; nor has one imported before it.
pub proof fn law_only_new_hosts_are_imported(
    existing: Seq<SessionView>,
    hosts: Seq<SshHostView>,
    k: int,
)
    requires
        0 <= k < new_hosts(existing, hosts).len(),
    ensures
        ({
            let new = new_hosts(existing, hosts);
            &&& hosts.contains(new[k])
            &&& forall|i: int|
                0 <= i < existing.len() ==> (#[trigger] existing[i]).name != new[k].alias && !(
                existing[i].host == new[k].hostname && existing[i].user == new[k].user)
            &&& forall|j: int|
                0 <= j < k ==> (#[trigger] new[j]).alias != new[k].alias && !(new[j].hostname
                    == new[k].hostname && new[j].user.len() > 0 && new[j].user == new[k].user)
        }),
    decreases hosts.len(),
{
    let before = new_hosts(existing, hosts.drop_last());
    let new = new_hosts(existing, hosts);
    let h = hosts.last();
    if k < before.len() {
        law_only_new_hosts_are_imported(existing, hosts.drop_last(), k);
        assert(new[k] == before[k]);
        let n = choose|n: int| 0 <= n < hosts.drop_last().len() && hosts.drop_last()[n] == before[k];
        assert(hosts[n] == new[k]);
        assert forall|j: int| 0 <= j < k implies (#[trigger] new[j]).alias != new[k].alias && !(
        new[j].hostname == new[k].hostname && new[j].user.len() > 0 && new[j].user
            == new[k].user) by {
            assert(new[j] == before[j]);
        }
    } else {
        assert(new == before.push(h));
        assert(hosts[hosts.len() - 1] == h);
        assert forall|i: int| 0 <= i < existing.len() implies (#[trigger] existing[i]).name
            != h.alias && !(existing[i].host == h.hostname && existing[i].user == h.user) by {
            assert(!same_host(existing[i], h));
        }
        assert forall|j: int| 0 <= j < k implies (#[trigger] new[j]).alias != h.alias && !(
        new[j].hostname == h.hostname && new[j].user.len() > 0 && new[j].user == h.user) by {
            assert(new[j] == before[j]);
            assert(!same_host(host_session(before[j], Seq::empty()), h));
        }
    }
}

/// Every new host is imported: one whose alias and host name no session that was there has, and
/// no host before it.
pub proof fn law_new_hosts_are_imported(
    existing: Seq<SessionView>,
    hosts: Seq<SshHostView>,
    n: int,
)
    requires
        0 <= n < hosts.len(),
        forall|i: int|
            0 <= i < existing.len() ==> (#[trigger] existing[i]).name != hosts[n].alias && !(
            existing[i].host == hosts[n].hostname && existing[i].user == hosts[n].user),
        forall|m: int|
            0 <= m < n ==> (#[trigger] hosts[m]).alias != hosts[n].alias && hosts[m].hostname
                != hosts[n].hostname,
    ensures
        new_hosts(existing, hosts).contains(hosts[n]),
    decreases hosts.len(),
{
    let front = hosts.drop_last();
    let before = new_hosts(existing, front);
    let new = new_hosts(existing, hosts);
    let h = hosts[n];
    if n == hosts.len() - 1 {
        if known_host(existing, h) {
            let i = choose|i: int| 0 <= i < existing.len() && same_host(#[trigger] existing[i], h);
            assert(existing[i].name != h.alias);
        }
        if listed_host(before, h) {
            let j = choose|j: int|
                0 <= j < before.len() && same_host(
                    host_session(#[trigger] before[j], Seq::empty()),
                    h,
                );
            law_only_new_hosts_are_imported(existing, front, j);
            let m = choose|m: int| 0 <= m < front.len() && front[m] == before[j];
            assert(hosts[m] == before[j]);
            assert(hosts[m].alias != h.alias && hosts[m].hostname != h.hostname);
        }
        assert(new == before.push(h));
        assert(new[before.len() as int] == h);
    } else {
        assert(front[n] == h);
        assert forall|m: int| 0 <= m < n implies (#[trigger] front[m]).alias != front[n].alias
            && front[m].hostname != front[n].hostname by {
            assert(hosts[m].alias != h.alias);
        }
        law_new_hosts_are_imported(existing, front, n);
        let j = choose|j: int| 0 <= j < before.len() && before[j] == h;
        assert(new[j] == h);
    }
}

/// Only new sessions of a batch are added: each is one of the batch, as it is, and no session
/// that was there has its host, user and port.
pub proof fn law_only_new_sessions_are_added(
    existing: Seq<SessionView>,
    batch: Seq<SessionView>,
    k: int,
)
    requires
        0 <= k < new_sessions(existing, batch).len(),
    ensures
        batch.contains(new_sessions(existing, batch)[k]),
        forall|i: int|
            0 <= i < existing.len() ==> !((#[trigger] existing[i]).host == new_sessions(
                existing,
                batch,
            )[k].host && existing[i].user == new_sessions(existing, batch)[k].user
                && existing[i].port == new_sessions(existing, batch)[k].port),
    decreases batch.len(),
{
    let before = new_sessions(existing, batch.drop_last());
    let new = new_sessions(existing, batch);
    let s = batch.last();
    if k < before.len() {
        law_only_new_sessions_are_added(existing, batch.drop_last(), k);
        assert(new[k] == before[k]);
        let n = choose|n: int| 0 <= n < batch.drop_last().len() && batch.drop_last()[n] == before[k];
        assert(batch[n] == new[k]);
    } else {
        assert(new == before.push(s));
        assert(batch[batch.len() - 1] == s);
        lemma_target_joined(existing, before, s);
    }
}

/// Every new session of a batch is added: one whose host, user and port together neither a
/// session that was there nor one before it in the batch has.
pub proof fn law_new_sessions_are_added(
    existing: Seq<SessionView>,
    batch: Seq<SessionView>,
    n: int,
)
    requires
        0 <= n < batch.len(),
        forall|i: int|
            0 <= i < existing.len() ==> !((#[trigger] existing[i]).host == batch[n].host
                && existing[i].user == batch[n].user && existing[i].port == batch[n].port),
        forall|m: int|
            0 <= m < n ==> !((#[trigger] batch[m]).host == batch[n].host && batch[m].user
                == batch[n].user && batch[m].port == batch[n].port),
    ensures
        new_sessions(existing, batch).contains(batch[n]),
    decreases batch.len(),
{
    let front = batch.drop_last();
    let before = new_sessions(existing, front);
    let new = new_sessions(existing, batch);
    let s = batch[n];
    if n == batch.len() - 1 {
        lemma_target_joined(existing, before, s);
        if known_target(before, s) {
            let j = choose|j: int|
                0 <= j < before.len() && (#[trigger] before[j]).host == s.host && before[j].user
                    == s.user && before[j].port == s.port;
            law_only_new_sessions_are_added(existing, front, j);
            let m = choose|m: int| 0 <= m < front.len() && front[m] == before[j];
            assert(batch[m] == before[j]);
        }
        assert(new == before.push(s));
        assert(new[before.len() as int] == s);
    } else {
        assert(front[n] == s);
        assert forall|m: int| 0 <= m < n implies !((#[trigger] front[m]).host == front[n].host
            && front[m].user == front[n].user && front[m].port == front[n].port) by {
            assert(front[m] == batch[m]);
        }
        law_new_sessions_are_added(existing, front, n);
        let j = choose|j: int| 0 <= j < before.len() && before[j] == s;
        assert(new[j] == s);
    }
}

/// The hints tell how many sessions were added, and after a batch of how many; that nothing was
/// found is told otherwise than that nothing was new.
pub proof fn law_hints_tell_the_numbers(found: nat, added: nat, english: bool)
    ensures
        ({
            let said = if english {
                "imported"@
            } else {
                "已导入"@
            };
            &&& found > 0 && added > 0 ==> ssh_hint(found, added, english) == said + seq![' ']
                + decimal(added)
            &&& found > 0 && added > 0 ==> batch_hint(found, added, english) == said + seq![' ']
                + decimal(added) + seq!['/'] + decimal(found)
        }),
        found > 0 ==> ssh_hint(0, 0, english) != ssh_hint(found, 0, english),
        found > 0 ==> batch_hint(0, 0, english) != batch_hint(found, 0, english),
        ssh_hint(0, 0, english) == ssh_hint(0, added, english),
        batch_hint(0, 0, english) == batch_hint(0, added, english),
{
    let said = if english {
        "imported"@
    } else {
        "已导入"@
    };
    assert(counted(said, added) =~= said + seq![' '] + decimal(added));
    assert(counted(said, added).push('/') + decimal(found) =~= said + seq![' '] + decimal(added)
        + seq!['/'] + decimal(found));
    reveal_strlit("no ~/.ssh/config found");
    reveal_strlit("no new hosts to import");
    reveal_strlit("未找到 ~/.ssh/config");
    reveal_strlit("没有新主机可导入");
    reveal_strlit("nothing to import");
    reveal_strlit("no new connections (all exist)");
    reveal_strlit("没有可导入的连接");
    reveal_strlit("没有新连接可导入(已存在)");
    assert("no ~/.ssh/config found"@[3] != "no new hosts to import"@[3]);
    assert("未找到 ~/.ssh/config"@[0] != "没有新主机可导入"@[0]);
    assert("nothing to import"@.len() != "no new connections (all exist)"@.len());
    assert("没有可导入的连接"@.len() != "没有新连接可导入(已存在)"@.len());
}

/// What came of a file is told with its numbers, or with the reason why nothing came of it.
pub proof fn law_file_hints_tell_the_outcome(outcome: FileOutcome, english: bool)
    ensures
        ({
            let said = file_hint(outcome, english);
            match outcome {
                FileOutcome::Exported { count } => ({
                    let end = seq![' '] + decimal(count as nat);
                    said.len() > end.len() && said.skip(said.len() - end.len()) == end
                }),
                FileOutcome::Imported { added, skipped } => ({
                    let start = if english {
                        "imported"@
                    } else {
                        "已导入"@
                    } + seq![' '] + decimal(added as nat) + seq![' ', '/', ' '];
                    let end = seq![' '] + decimal(skipped as nat);
                    &&& said.len() > start.len() + end.len()
                    &&& said.take(start.len() as int) == start
                    &&& said.skip(said.len() - end.len()) == end
                }),
                FileOutcome::ExportFailed { reason } => ({
                    let end = seq![':', ' '] + reason@;
                    said.len() > end.len() && said.skip(said.len() - end.len()) == end
                }),
                FileOutcome::ImportFailed { reason } => ({
                    let end = seq![':', ' '] + reason@;
                    said.len() > end.len() && said.skip(said.len() - end.len()) == end
                }),
            }
        }),
{
    reveal_strlit("已导出连接");
    reveal_strlit("exported");
    reveal_strlit("imported");
    reveal_strlit("已导入");
    reveal_strlit("导出失败");
    reveal_strlit("export failed");
    reveal_strlit("导入失败");
    reveal_strlit("import failed");
    reveal_strlit("跳过重复");
    reveal_strlit("skipped");
    reveal_strlit(": ");
    reveal_strlit(" / ");
    assert(": "@ =~= seq![':', ' ']);
    assert(" / "@ =~= seq![' ', '/', ' ']);
    let said = file_hint(outcome, english);
    match outcome {
        FileOutcome::Exported { count } => {
            let end = seq![' '] + decimal(count as nat);
            assert(said.skip(said.len() - end.len()) =~= end);
        },
        FileOutcome::Imported { added, skipped } => {
            let start = if english {
                "imported"@
            } else {
                "已导入"@
            } + seq![' '] + decimal(added as nat) + seq![' ', '/', ' '];
            let end = seq![' '] + decimal(skipped as nat);
            assert(said.take(start.len() as int) =~= start);
            assert(said.skip(said.len() - end.len()) =~= end);
        },
        FileOutcome::ExportFailed { reason } => {
            let end = seq![':', ' '] + reason@;
            assert(said.skip(said.len() - end.len()) =~= end);
        },
        FileOutcome::ImportFailed { reason } => {
            let end = seq![':', ' '] + reason@;
            assert(said.skip(said.len() - end.len()) =~= end);
        },
    }
}

} // verus!
