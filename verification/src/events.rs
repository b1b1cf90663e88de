//! Events of a session, and how a burst of them is brought to the interface.

use vstd::prelude::*;

use crate::sidebar::{
    disk_views, net_views, proc_views, DiskSpace, DiskView, NetRate, NetView, ProcInfo, ProcView,
};
use crate::text::same_text;

verus! {

// ---- Events ---------------------------------------------------------------

/// A sample of the remote machine.
pub struct ResourceSample {
    pub cpu_bits: u32,
    pub mem_used_kib: u64,
    pub mem_total_kib: u64,
    pub swap_used_kib: u64,
    pub swap_total_kib: u64,
    pub net: Vec<NetRate>,
    pub disks: Vec<DiskSpace>,
    pub procs: Vec<ProcInfo>,
}

/// What a sample of the remote machine holds.
#[verifier::ext_equal]
pub ghost struct SampleView {
    pub cpu_bits: u32,
    pub mem_used_kib: u64,
    pub mem_total_kib: u64,
    pub swap_used_kib: u64,
    pub swap_total_kib: u64,
    pub net: Seq<NetView>,
    pub disks: Seq<DiskView>,
    pub procs: Seq<ProcView>,
}

impl View for ResourceSample {
    type V = SampleView;

    open spec fn view(&self) -> SampleView {
        SampleView {
            cpu_bits: self.cpu_bits,
            mem_used_kib: self.mem_used_kib,
            mem_total_kib: self.mem_total_kib,
            swap_used_kib: self.swap_used_kib,
            swap_total_kib: self.swap_total_kib,
            net: net_views(self.net@),
            disks: disk_views(self.disks@),
            procs: proc_views(self.procs@),
        }
    }
}

/// An entry of a remote directory.
pub struct RemoteEntry {
    pub name: String,
    pub full_path: String,
    pub is_dir: bool,
    pub size: u64,
    pub modified: u64,
    pub mode: u32,
}

/// What an entry of a remote directory holds.
#[verifier::ext_equal]
pub ghost struct EntryView {
    pub name: Seq<char>,
    pub full_path: Seq<char>,
    pub is_dir: bool,
    pub size: u64,
    pub modified: u64,
    pub mode: u32,
}

impl View for RemoteEntry {
    type V = EntryView;

    open spec fn view(&self) -> EntryView {
        EntryView {
            name: self.name@,
            full_path: self.full_path@,
            is_dir: self.is_dir,
            size: self.size,
            modified: self.modified,
            mode: self.mode,
        }
    }
}

/// What each of a list of entries holds.
pub open spec fn entry_views(list: Seq<RemoteEntry>) -> Seq<EntryView> {
    list.map_values(|e: RemoteEntry| e@)
}

/// A node of the remote directory tree.
pub struct TreeNode {
    pub path: String,
    pub name: String,
    pub depth: usize,
    pub expanded: bool,
    pub has_children: bool,
}

/// What a node of the remote directory tree holds.
#[verifier::ext_equal]
pub ghost struct TreeView {
    pub path: Seq<char>,
    pub name: Seq<char>,
    pub depth: usize,
    pub expanded: bool,
    pub has_children: bool,
}

impl View for TreeNode {
    type V = TreeView;

    open spec fn view(&self) -> TreeView {
        TreeView {
            path: self.path@,
            name: self.name@,
            depth: self.depth,
            expanded: self.expanded,
            has_children: self.has_children,
        }
    }
}

/// What each of a list of nodes holds.
pub open spec fn tree_views(list: Seq<TreeNode>) -> Seq<TreeView> {
    list.map_values(|n: TreeNode| n@)
}

/// A remote file opened as text, or why it could not be.
pub struct FileText {
    pub path: String,
    pub name: String,
    pub content: String,
    pub edit: bool,
    pub error: String,
}

/// What a remote file opened as text holds.
#[verifier::ext_equal]
pub ghost struct FileTextView {
    pub path: Seq<char>,
    pub name: Seq<char>,
    pub content: Seq<char>,
    pub edit: bool,
    pub error: Seq<char>,
}

impl View for FileText {
    type V = FileTextView;

    open spec fn view(&self) -> FileTextView {
        FileTextView {
            path: self.path@,
            name: self.name@,
            content: self.content@,
            edit: self.edit,
            error: self.error@,
        }
    }
}

/// Progress of an upload or download. `state`: 1 = done, 2 = failed, 3 = preparing,
/// 4 = cancelled, anything else = running.
pub struct TransferUpdate {
    pub id: String,
    pub name: String,
    pub is_upload: bool,
    pub transferred: u64,
    pub total: u64,
    pub state: u8,
    pub msg: String,
}

/// What the progress of a transfer holds.
#[verifier::ext_equal]
pub ghost struct UpdateView {
    pub id: Seq<char>,
    pub name: Seq<char>,
    pub is_upload: bool,
    pub transferred: u64,
    pub total: u64,
    pub state: u8,
    pub msg: Seq<char>,
}

impl View for TransferUpdate {
    type V = UpdateView;

    open spec fn view(&self) -> UpdateView {
        UpdateView {
            id: self.id@,
            name: self.name@,
            is_upload: self.is_upload,
            transferred: self.transferred,
            total: self.total,
            state: self.state,
            msg: self.msg@,
        }
    }
}

/// What happens in a session. A prompt is known by a ticket, under which its asker waits.
pub enum SessionEvent {
    Status(String),
    Output(String),
    Connected,
    Closed(String),
    ResourceStats(ResourceSample),
    CwdChanged(String),
    SftpEntries { path: String, entries: Vec<RemoteEntry> },
    SftpStatus(String),
    SftpError(String),
    SftpFileText(FileText),
    SftpTreeUpdate(Vec<TreeNode>),
    SftpTransfer(TransferUpdate),
    Prompt(u64),
    CommandRan(String),
}

/// What an event says.
pub ghost enum EventView {
    Status(Seq<char>),
    Output(Seq<char>),
    Connected,
    Closed(Seq<char>),
    ResourceStats(SampleView),
    CwdChanged(Seq<char>),
    SftpEntries { path: Seq<char>, entries: Seq<EntryView> },
    SftpStatus(Seq<char>),
    SftpError(Seq<char>),
    SftpFileText(FileTextView),
    SftpTreeUpdate(Seq<TreeView>),
    SftpTransfer(UpdateView),
    Prompt(u64),
    CommandRan(Seq<char>),
}

impl View for SessionEvent {
    type V = EventView;

    open spec fn view(&self) -> EventView {
        match self {
            SessionEvent::Status(s) => EventView::Status(s@),
            SessionEvent::Output(s) => EventView::Output(s@),
            SessionEvent::Connected => EventView::Connected,
            SessionEvent::Closed(s) => EventView::Closed(s@),
            SessionEvent::ResourceStats(s) => EventView::ResourceStats(s@),
            SessionEvent::CwdChanged(s) => EventView::CwdChanged(s@),
            SessionEvent::SftpEntries { path, entries } => EventView::SftpEntries {
                path: path@,
                entries: entry_views(entries@),
            },
            SessionEvent::SftpStatus(s) => EventView::SftpStatus(s@),
            SessionEvent::SftpError(s) => EventView::SftpError(s@),
            SessionEvent::SftpFileText(f) => EventView::SftpFileText(f@),
            SessionEvent::SftpTreeUpdate(n) => EventView::SftpTreeUpdate(tree_views(n@)),
            SessionEvent::SftpTransfer(u) => EventView::SftpTransfer(u@),
            SessionEvent::Prompt(n) => EventView::Prompt(*n),
            SessionEvent::CommandRan(s) => EventView::CommandRan(s@),
        }
    }
}

/// What each of a list of events says.
pub open spec fn event_views(list: Seq<SessionEvent>) -> Seq<EventView> {
    list.map_values(|e: SessionEvent| e@)
}

// ---- Bursts ---------------------------------------------------------------

/// How long a change of directory has to stand before the file panel follows it, in
/// milliseconds.
pub const CWD_DEBOUNCE_MS: u64 = 500;

/// The most events that are swept up before the interface is updated, so that an unending
/// stream still yields to the renderer.
pub const DRAIN_CAP: usize = 2048;

/// How far a burst was gone through: the events for the interface, the directory that the file
/// panel last followed, and the directory to list once the burst settles.
#[verifier::ext_equal]
pub ghost struct Burst {
    pub batch: Seq<EventView>,
    pub last_cwd: Option<Seq<char>>,
    pub list_dir: Option<Seq<char>>,
}

/// A burst after one more event. Output joins the output right before it. A change of directory
/// is remembered; it goes on only where it is a change and the panel follows, and then its
/// directory is the one to list.
pub open spec fn burst_step(b: Burst, e: EventView, follow: bool) -> Burst {
    match e {
        EventView::CwdChanged(cwd) => if b.last_cwd == Some(cwd) || !follow {
            Burst { last_cwd: Some(cwd), ..b }
        } else {
            Burst { batch: b.batch.push(e), last_cwd: Some(cwd), list_dir: Some(cwd) }
        },
        EventView::Output(chunk) => match b.batch.last() {
            EventView::Output(prev) if b.batch.len() > 0 => Burst {
                batch: b.batch.drop_last().push(EventView::Output(prev + chunk)),
                ..b
            },
            _ => Burst { batch: b.batch.push(e), ..b },
        },
        _ => Burst { batch: b.batch.push(e), ..b },
    }
}

/// A whole burst, from the directory that the panel last followed.
pub open spec fn burst_of(
    events: Seq<EventView>,
    last_cwd: Option<Seq<char>>,
    follow: bool,
) -> Burst
    decreases events.len(),
{
    if events.len() == 0 {
        Burst { batch: Seq::empty(), last_cwd: last_cwd, list_dir: None }
    } else {
        burst_step(burst_of(events.drop_last(), last_cwd, follow), events.last(), follow)
    }
}

/// The text of an optional string.
pub open spec fn opt_view(s: Option<String>) -> Option<Seq<char>> {
    match s {
        Some(x) => Some(x@),
        None => None,
    }
}

/// What a burst comes to.
pub struct Settled {
    /// The events for the interface.
    pub batch: Vec<SessionEvent>,
    /// The directory that the file panel last followed.
    pub last_cwd: Option<String>,
    /// The directory to list, once no other follows for a while.
    pub list_dir: Option<String>,
}

/// Whether an optional string is the given text.
fn is_text(a: &Option<String>, b: &str) -> (r: bool)
    ensures
        r == (opt_view(*a) == Some(b@)),
{
    match a {
        Some(x) => same_text(x.as_str(), b),
        None => false,
    }
}

/// Bring a burst of events to the interface: changes of directory that are none, or that are not
/// followed, are swallowed, and runs of output are joined, so that a burst such as `tail -f` on a
/// busy log is one ingest and one render. Only adjacent chunks are joined, so that byte order and
/// interleaved events are preserved exactly.
///
/// An unchanged directory is ignored because every prompt announces it again. When the panel does
/// not follow, passing the change on would mark the panel as loading with no listing to come.
pub fn coalesce(events: Vec<SessionEvent>, last_cwd: Option<String>, follow: bool) -> (r: Settled)
    ensures
        ({
            let b = burst_of(event_views(events@), opt_view(last_cwd), follow);
            &&& event_views(r.batch@) == b.batch
            &&& opt_view(r.last_cwd) == b.last_cwd
            &&& opt_view(r.list_dir) == b.list_dir
        }),
{
    let ghost all = event_views(events@);
    let ghost start = opt_view(last_cwd);
    let mut rest: Vec<SessionEvent> = events;
    let mut batch: Vec<SessionEvent> = Vec::new();
    let mut last: Option<String> = last_cwd;
    let mut list: Option<String> = None;
    let n: usize = rest.len();
    let mut i: usize = 0;
    assert(event_views(batch@) =~= burst_of(all.take(0), start, follow).batch);
    assert(all.skip(0) =~= all);
    while i < n
        invariant
            i <= n,
            n == all.len(),
            rest@.len() == n - i,
            event_views(rest@) == all.skip(i as int),
            event_views(batch@) == burst_of(all.take(i as int), start, follow).batch,
            opt_view(last) == burst_of(all.take(i as int), start, follow).last_cwd,
            opt_view(list) == burst_of(all.take(i as int), start, follow).list_dir,
        decreases n - i,
    {
        let ghost rest0 = rest@;
        let ghost b = burst_of(all.take(i as int), start, follow);
        let e = rest.remove(0);
        let ghost ev = e@;
        proof {
            assert(event_views(rest0)[0] == ev);
            assert(all.skip(i as int)[0] == all[i as int]);
            assert(event_views(rest@) =~= event_views(rest0).skip(1));
            assert(all.skip(i as int).skip(1) =~= all.skip(i + 1));
            assert(all.take(i + 1).drop_last() =~= all.take(i as int));
            assert(all.take(i + 1).last() == ev);
        }
        let ghost before = batch@;
        match e {
            SessionEvent::CwdChanged(cwd) => {
                let changed: bool = !is_text(&last, cwd.as_str());
                last = Some(cwd.clone());
                if changed && follow {
                    list = Some(cwd.clone());
                    batch.push(SessionEvent::CwdChanged(cwd));
                    assert(event_views(batch@) =~= event_views(before).push(ev));
                }
            },
            SessionEvent::Output(chunk) => {
                assert(event_views(before).len() == before.len());
                match batch.pop() {
                    Some(SessionEvent::Output(prev)) => {
                        let mut joined: String = prev;
                        joined.append(chunk.as_str());
                        batch.push(SessionEvent::Output(joined));
                        proof {
                            assert(b.batch.last() == before.last()@);
                            assert(event_views(batch@) =~= b.batch.drop_last().push(
                                EventView::Output(joined@),
                            ));
                        }
                    },
                    Some(other) => {
                        batch.push(other);
                        assert(batch@ =~= before);
                        assert(b.batch.last() == before.last()@);
                        batch.push(SessionEvent::Output(chunk));
                        assert(event_views(batch@) =~= event_views(before).push(ev));
                    },
                    None => {
                        assert(before.len() == 0);
                        batch.push(SessionEvent::Output(chunk));
                        assert(event_views(batch@) =~= event_views(before).push(ev));
                    },
                }
            },
            other => {
                batch.push(other);
                assert(event_views(batch@) =~= event_views(before).push(ev));
            },
        }
        i += 1;
    }
    assert(all.take(i as int) =~= all);
    Settled { batch, last_cwd: last, list_dir: list }
}

// ---- Laws -----------------------------------------------------------------

/// All output of a list of events, joined.
pub open spec fn output_of(events: Seq<EventView>) -> Seq<char>
    decreases events.len(),
{
    if events.len() == 0 {
        Seq::empty()
    } else {
        match events.last() {
            EventView::Output(s) => output_of(events.drop_last()) + s,
            _ => output_of(events.drop_last()),
        }
    }
}

/// The events of a list that are neither output nor changes of directory.
pub open spec fn others_of(events: Seq<EventView>) -> Seq<EventView>
    decreases events.len(),
{
    if events.len() == 0 {
        Seq::empty()
    } else {
        match events.last() {
            EventView::Output(s) => others_of(events.drop_last()),
            EventView::CwdChanged(s) => others_of(events.drop_last()),
            _ => others_of(events.drop_last()).push(events.last()),
        }
    }
}

/// Joining keeps the stream: the interface gets every byte of output, in order, and every other
/// event, in order.
pub proof fn law_burst_keeps_the_stream(
    events: Seq<EventView>,
    last_cwd: Option<Seq<char>>,
    follow: bool,
)
    ensures
        output_of(burst_of(events, last_cwd, follow).batch) == output_of(events),
        others_of(burst_of(events, last_cwd, follow).batch) == others_of(events),
    decreases events.len(),
{
    if events.len() > 0 {
        let before = burst_of(events.drop_last(), last_cwd, follow);
        let after = burst_of(events, last_cwd, follow);
        law_burst_keeps_the_stream(events.drop_last(), last_cwd, follow);
        let e = events.last();
        match e {
            EventView::Output(chunk) => {
                match before.batch.last() {
                    EventView::Output(prev) if before.batch.len() > 0 => {
                        let d = before.batch.drop_last();
                        assert(after.batch.drop_last() =~= d);
                        assert(output_of(after.batch) == output_of(d) + (prev + chunk));
                        assert(output_of(d) + (prev + chunk) =~= (output_of(d) + prev) + chunk);
                    },
                    _ => {
                        assert(after.batch.drop_last() =~= before.batch);
                    },
                }
            },
            EventView::CwdChanged(cwd) => {
                if after.batch != before.batch {
                    assert(after.batch.drop_last() =~= before.batch);
                }
            },
            _ => {
                assert(after.batch.drop_last() =~= before.batch);
            },
        }
    } else {
        assert(burst_of(events, last_cwd, follow).batch =~= events);
    }
}

/// After joining no two outputs stand side by side.
pub proof fn law_no_adjacent_output(
    events: Seq<EventView>,
    last_cwd: Option<Seq<char>>,
    follow: bool,
)
    ensures
        forall|i: int|
            0 <= i && i + 1 < burst_of(events, last_cwd, follow).batch.len() ==> !(
            (#[trigger] burst_of(events, last_cwd, follow).batch[i]) is Output && burst_of(
                events,
                last_cwd,
                follow,
            ).batch[i + 1] is Output),
    decreases events.len(),
{
    if events.len() > 0 {
        law_no_adjacent_output(events.drop_last(), last_cwd, follow);
        let before = burst_of(events.drop_last(), last_cwd, follow).batch;
        let after = burst_of(events, last_cwd, follow).batch;
        assert forall|i: int| 0 <= i && i + 1 < after.len() implies !((#[trigger] after[i]) is Output
            && after[i + 1] is Output) by {
            if i + 1 < before.len() {
                assert(!(before[i] is Output && before[i + 1] is Output));
            }
        }
    }
}

/// Without following, no change of directory reaches the interface and nothing is listed.
pub proof fn law_not_following_lists_nothing(events: Seq<EventView>, last_cwd: Option<Seq<char>>)
    ensures
        burst_of(events, last_cwd, false).list_dir is None,
        forall|i: int|
            0 <= i < burst_of(events, last_cwd, false).batch.len() ==> !((#[trigger] burst_of(
                events,
                last_cwd,
                false,
            ).batch[i]) is CwdChanged),
    decreases events.len(),
{
    if events.len() > 0 {
        law_not_following_lists_nothing(events.drop_last(), last_cwd);
    }
}

/// A directory that is announced again without a change in between is passed on once.
pub proof fn law_repeated_directory_is_swallowed(b: Burst, cwd: Seq<char>, follow: bool)
    ensures
        burst_step(
            burst_step(b, EventView::CwdChanged(cwd), follow),
            EventView::CwdChanged(cwd),
            follow,
        ) == burst_step(b, EventView::CwdChanged(cwd), follow),
{
}

/// Events with output spelled out, one event for each character, and without changes of
/// directory.
pub open spec fn spelled(events: Seq<EventView>) -> Seq<EventView>
    decreases events.len(),
{
    if events.len() == 0 {
        Seq::empty()
    } else {
        match events.last() {
            EventView::Output(s) => spelled(events.drop_last()) + s.map_values(
                |c: char| EventView::Output(seq![c]),
            ),
            EventView::CwdChanged(s) => spelled(events.drop_last()),
            _ => spelled(events.drop_last()).push(events.last()),
        }
    }
}

/// Joining output moves nothing: character for character and event for event, all that is no
/// change of directory stays in its order, output among the other events too.
pub proof fn law_burst_keeps_the_order(
    events: Seq<EventView>,
    last_cwd: Option<Seq<char>>,
    follow: bool,
)
    ensures
        spelled(burst_of(events, last_cwd, follow).batch) == spelled(events),
    decreases events.len(),
{
    if events.len() > 0 {
        law_burst_keeps_the_order(events.drop_last(), last_cwd, follow);
        let b = burst_of(events.drop_last(), last_cwd, follow);
        let e = events.last();
        let after = burst_step(b, e, follow).batch;
        match e {
            EventView::Output(chunk) => {
                let letter = |c: char| EventView::Output(seq![c]);
                if b.batch.len() > 0 && b.batch.last() is Output {
                    let prev = b.batch.last()->Output_0;
                    let front = b.batch.drop_last();
                    assert(after == front.push(EventView::Output(prev + chunk)));
                    assert(after.drop_last() =~= front);
                    assert((prev + chunk).map_values(letter) =~= prev.map_values(letter)
                        + chunk.map_values(letter));
                    assert(spelled(after) =~= spelled(b.batch) + chunk.map_values(letter));
                } else {
                    assert(after == b.batch.push(e));
                    assert(after.drop_last() =~= b.batch);
                }
            },
            _ => {
                if after != b.batch {
                    assert(after == b.batch.push(e));
                    assert(after.drop_last() =~= b.batch);
                }
            },
        }
    }
}

/// The last directory that a list of events announces.
pub open spec fn last_dir(events: Seq<EventView>) -> Option<Seq<char>>
    decreases events.len(),
{
    if events.len() == 0 {
        None
    } else {
        match events.last() {
            EventView::CwdChanged(dir) => Some(dir),
            _ => last_dir(events.drop_last()),
        }
    }
}

/// The directory that is remembered is the last one announced, or the one from before where none
/// was; the one that is listed is the last one that the interface is told of.
pub proof fn law_last_directory_counts(
    events: Seq<EventView>,
    last_cwd: Option<Seq<char>>,
    follow: bool,
)
    ensures
        burst_of(events, last_cwd, follow).last_cwd == match last_dir(events) {
            Some(dir) => Some(dir),
            None => last_cwd,
        },
        burst_of(events, last_cwd, follow).list_dir == last_dir(
            burst_of(events, last_cwd, follow).batch,
        ),
    decreases events.len(),
{
    if events.len() > 0 {
        law_last_directory_counts(events.drop_last(), last_cwd, follow);
        let b = burst_of(events.drop_last(), last_cwd, follow);
        let e = events.last();
        let after = burst_step(b, e, follow).batch;
        if after != b.batch {
            if e is Output && b.batch.len() > 0 && b.batch.last() is Output {
                assert(after.drop_last() =~= b.batch.drop_last());
            } else {
                assert(after == b.batch.push(e));
                assert(after.drop_last() =~= b.batch);
            }
        }
    }
}

/// A directory that is announced and is not the one before it is followed: the interface is told
/// of it after everything else so far, and it is the one to list. It is so wherever following is
/// on, and only there.
pub proof fn law_new_directory_is_followed(
    events: Seq<EventView>,
    last_cwd: Option<Seq<char>>,
    dir: Seq<char>,
)
    requires
        ({
            let before = match last_dir(events) {
                Some(d) => Some(d),
                None => last_cwd,
            };
            before != Some(dir)
        }),
    ensures
        ({
            let b = burst_of(events, last_cwd, true);
            let after = burst_of(events.push(EventView::CwdChanged(dir)), last_cwd, true);
            &&& after.batch == b.batch.push(EventView::CwdChanged(dir))
            &&& after.list_dir == Some(dir)
            &&& after.last_cwd == Some(dir)
        }),
{
    law_last_directory_counts(events, last_cwd, true);
    assert(events.push(EventView::CwdChanged(dir)).drop_last() =~= events);
}

/// A directory that is announced again right away changes nothing.
pub proof fn law_same_directory_is_not_followed(
    events: Seq<EventView>,
    last_cwd: Option<Seq<char>>,
    dir: Seq<char>,
    follow: bool,
)
    requires
        ({
            let before = match last_dir(events) {
                Some(d) => Some(d),
                None => last_cwd,
            };
            before == Some(dir)
        }),
    ensures
        burst_of(events.push(EventView::CwdChanged(dir)), last_cwd, follow) == burst_of(
            events,
            last_cwd,
            follow,
        ),
{
    law_last_directory_counts(events, last_cwd, follow);
    assert(events.push(EventView::CwdChanged(dir)).drop_last() =~= events);
}

} // verus!
