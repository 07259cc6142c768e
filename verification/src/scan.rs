//! The search for the running sessions of a user. The search itself only decides:
//! it asks for one thing after another, the caller looks it up and replies.

use crate::assess::{assess_rollout, judged_time, judgement, log_events, RolloutTail};
use crate::events::EventView;
use crate::process::{
    bytes_view, cmdline_text, cwd_text, is_codex_cmdline, is_codex_comm, is_codex_name, is_own,
    is_own_entry, parent_of, pid_named, process_id, read_cmdline, read_cwd, read_ppid, runs_codex,
};
use crate::session::{
    infer_thread_for_cwd, law_first_thread_of_cwd, session_views, thread_for_cwd, RunningSession,
    SessionStatus, SessionView, Thread,
};
use crate::text::view_of;
use vstd::prelude::*;

verus! {

broadcast use vstd::string::group_string_axioms;

// ---------------------------------------------------------------------------
// Order
// ---------------------------------------------------------------------------

/// `list` with `s` put behind the last session whose process id is not greater.
pub open spec fn placed(list: Seq<SessionView>, s: SessionView) -> Seq<SessionView>
    decreases list.len(),
{
    if list.len() == 0 || list.last().pid <= s.pid {
        list.push(s)
    } else {
        placed(list.drop_last(), s).push(list.last())
    }
}

/// `list` in the order of process ids; sessions of one id keep their order.
pub open spec fn by_pid(list: Seq<SessionView>) -> Seq<SessionView>
    decreases list.len(),
{
    if list.len() == 0 {
        Seq::empty()
    } else {
        placed(by_pid(list.drop_last()), list.last())
    }
}

/// Puts `s` behind the last session whose process id is not greater.
fn place(list: Vec<RunningSession>, s: RunningSession) -> (r: Vec<RunningSession>)
    ensures
        session_views(r@) == placed(session_views(list@), s@),
{
    let ghost all = session_views(list@);
    let mut out = list;
    let mut i: usize = out.len();
    assert(all.take(i as int) =~= all);
    assert(placed(all, s@) + all.skip(i as int) =~= placed(all, s@));
    while i > 0 && out[i - 1].pid > s.pid
        invariant
            i <= out@.len(),
            all == session_views(out@),
            placed(all, s@) == placed(all.take(i as int), s@) + all.skip(i as int),
        decreases i,
    {
        proof {
            let front = all.take(i as int);
            assert(front.last() == out@[i - 1]@);
            assert(front.drop_last() =~= all.take(i - 1));
            assert(placed(front, s@) + all.skip(i as int) =~= placed(all.take(i - 1), s@)
                + all.skip(i - 1));
        }
        i -= 1;
    }
    proof {
        let front = all.take(i as int);
        if i > 0 {
            assert(front.last() == out@[i - 1]@);
        }
        assert(placed(front, s@) == front.push(s@));
        assert(placed(all, s@) =~= all.insert(i as int, s@));
    }
    out.insert(i, s);
    assert(session_views(out@) =~= all.insert(i as int, s@));
    out
}

// ---------------------------------------------------------------------------
// The search
// ---------------------------------------------------------------------------

/// What the search wants to know next. All but the first and the last concern
/// the entry of `/proc` that was handed out last.
#[derive(Debug)]
pub enum ScanRequest {
    /// The name of the next entry of `/proc` and the user it belongs to, or the end
    /// of the search.
    NextEntry,
    /// The contents of `comm`.
    Comm,
    /// The contents of `cmdline`.
    Cmdline,
    /// Where `cwd` points.
    Cwd,
    /// The contents of `status`.
    Status,
    /// The end of the rollout log at this path, and the present time.
    Rollout(String),
}

/// What the caller found; nothing where it could not be read.
#[derive(Debug)]
pub enum ScanReply {
    Entry { name: Vec<u8>, owner: Option<u32> },
    Comm(Option<String>),
    Cmdline(Option<Vec<u8>>),
    Cwd(Option<Vec<u8>>),
    Status(Option<String>),
    Rollout { tail: Option<RolloutTail>, now_ms: i64 },
}

/// What is known so far of the process at hand.
#[derive(Debug)]
enum Stage {
    Idle,
    Numbered { pid: u32 },
    Named { pid: u32 },
    Started { pid: u32, cmdline: String },
    Located { pid: u32, cmdline: String, cwd: String },
    Matched { pid: u32, ppid: u32, cmdline: String, cwd: String, thread: Thread },
}

/// A search for the running sessions of a user.
#[derive(Debug)]
pub struct Scan {
    user: u32,
    threads: Vec<Thread>,
    found: Vec<RunningSession>,
    stage: Stage,
}

/// A `ScanRequest` with its text as a sequence of characters.
pub enum RequestView {
    NextEntry,
    Comm,
    Cmdline,
    Cwd,
    Status,
    Rollout(Seq<char>),
}

/// A `ScanReply` with its texts and bytes as sequences, and the log as events.
pub enum ReplyView {
    Entry { name: Seq<u8>, owner: Option<u32> },
    Comm(Option<Seq<char>>),
    Cmdline(Option<Seq<u8>>),
    Cwd(Option<Seq<u8>>),
    Status(Option<Seq<char>>),
    Rollout { events: Option<Seq<EventView>>, now: i64 },
}

/// What is known so far of the process at hand: nothing, its id, that it bears
/// the name of Codex, its command line, its working directory, or its parent and
/// thread too.
pub enum StageView {
    Idle,
    Numbered { pid: u32 },
    Named { pid: u32 },
    Started { pid: u32, cmdline: Seq<char> },
    Located { pid: u32, cmdline: Seq<char>, cwd: Seq<char> },
    Matched { pid: u32, ppid: u32, cmdline: Seq<char>, cwd: Seq<char>, thread: Thread },
}

/// A search: the user whose processes count, the threads to match against, the
/// sessions found, and the process at hand.
pub struct ScanView {
    pub user: u32,
    pub threads: Seq<Thread>,
    pub found: Seq<SessionView>,
    pub stage: StageView,
}

impl View for ScanRequest {
    type V = RequestView;

    open spec fn view(&self) -> RequestView {
        match *self {
            ScanRequest::NextEntry => RequestView::NextEntry,
            ScanRequest::Comm => RequestView::Comm,
            ScanRequest::Cmdline => RequestView::Cmdline,
            ScanRequest::Cwd => RequestView::Cwd,
            ScanRequest::Status => RequestView::Status,
            ScanRequest::Rollout(path) => RequestView::Rollout(path@),
        }
    }
}

impl View for ScanReply {
    type V = ReplyView;

    open spec fn view(&self) -> ReplyView {
        match *self {
            ScanReply::Entry { name, owner } => ReplyView::Entry { name: name@, owner },
            ScanReply::Comm(text) => ReplyView::Comm(view_of(text)),
            ScanReply::Cmdline(bytes) => ReplyView::Cmdline(bytes_view(bytes)),
            ScanReply::Cwd(bytes) => ReplyView::Cwd(bytes_view(bytes)),
            ScanReply::Status(text) => ReplyView::Status(view_of(text)),
            ScanReply::Rollout { tail, now_ms } => ReplyView::Rollout {
                events: log_events(tail),
                now: now_ms,
            },
        }
    }
}

impl View for Stage {
    type V = StageView;

    closed spec fn view(&self) -> StageView {
        match *self {
            Stage::Idle => StageView::Idle,
            Stage::Numbered { pid } => StageView::Numbered { pid },
            Stage::Named { pid } => StageView::Named { pid },
            Stage::Started { pid, cmdline } => StageView::Started { pid, cmdline: cmdline@ },
            Stage::Located { pid, cmdline, cwd } => StageView::Located {
                pid,
                cmdline: cmdline@,
                cwd: cwd@,
            },
            Stage::Matched { pid, ppid, cmdline, cwd, thread } => StageView::Matched {
                pid,
                ppid,
                cmdline: cmdline@,
                cwd: cwd@,
                thread,
            },
        }
    }
}

impl View for Scan {
    type V = ScanView;

    closed spec fn view(&self) -> ScanView {
        ScanView {
            user: self.user,
            threads: self.threads@,
            found: session_views(self.found@),
            stage: self.stage@,
        }
    }
}

/// What is asked for at each stage.
pub open spec fn asked(stage: StageView) -> RequestView {
    match stage {
        StageView::Idle => RequestView::NextEntry,
        StageView::Numbered { .. } => RequestView::Comm,
        StageView::Named { .. } => RequestView::Cmdline,
        StageView::Started { .. } => RequestView::Cwd,
        StageView::Located { .. } => RequestView::Status,
        StageView::Matched { thread, .. } => RequestView::Rollout(thread.rollout_path@),
    }
}

/// The session of a process that no thread was matched to.
pub open spec fn unmatched(pid: u32, ppid: u32, cmdline: Seq<char>, cwd: Seq<char>) -> SessionView {
    SessionView {
        pid,
        ppid,
        process_cwd: cwd,
        cmdline,
        status: SessionStatus::Malfunction,
        status_detail: "running codex process could not be matched to a saved thread"@,
        last_event_at_ms: None,
        inferred: None,
    }
}

/// The session of a process that `thread` was matched to.
pub open spec fn matched(
    pid: u32,
    ppid: u32,
    cmdline: Seq<char>,
    cwd: Seq<char>,
    thread: Thread,
    events: Option<Seq<EventView>>,
    now: i64,
) -> SessionView {
    SessionView {
        pid,
        ppid,
        process_cwd: cwd,
        cmdline,
        status: judgement(events, now).0,
        status_detail: judgement(events, now).1,
        last_event_at_ms: judged_time(events),
        inferred: Some(thread),
    }
}

/// A parent that is unknown counts as process 0.
pub open spec fn parent_or_zero(status: Option<Seq<char>>) -> u32 {
    match parent_of(status) {
        Some(ppid) => ppid,
        None => 0,
    }
}

/// The search after a reply. An entry is passed over unless it is named by a
/// number and belongs to the user, and a process is given up as soon as its name or
/// its command line shows that it is not Codex. A reply that was not asked for
/// changes nothing.
pub open spec fn told(scan: ScanView, reply: ReplyView) -> ScanView {
    match (scan.stage, reply) {
        (StageView::Idle, ReplyView::Entry { name, owner }) => match pid_named(name) {
            Some(pid) => if is_own(owner, scan.user) {
                ScanView { stage: StageView::Numbered { pid }, ..scan }
            } else {
                scan
            },
            None => scan,
        },
        (StageView::Numbered { pid }, ReplyView::Comm(comm)) => ScanView {
            stage: if is_codex_name(comm) {
                StageView::Named { pid }
            } else {
                StageView::Idle
            },
            ..scan
        },
        (StageView::Named { pid }, ReplyView::Cmdline(bytes)) => ScanView {
            stage: if runs_codex(cmdline_text(bytes)) {
                StageView::Started { pid, cmdline: cmdline_text(bytes) }
            } else {
                StageView::Idle
            },
            ..scan
        },
        (StageView::Started { pid, cmdline }, ReplyView::Cwd(link)) => ScanView {
            stage: StageView::Located { pid, cmdline, cwd: cwd_text(link) },
            ..scan
        },
        (StageView::Located { pid, cmdline, cwd }, ReplyView::Status(text)) => {
            let ppid = parent_or_zero(text);
            match thread_for_cwd(scan.threads, cwd) {
                Some(thread) => ScanView {
                    stage: StageView::Matched { pid, ppid, cmdline, cwd, thread },
                    ..scan
                },
                None => ScanView {
                    found: placed(scan.found, unmatched(pid, ppid, cmdline, cwd)),
                    stage: StageView::Idle,
                    ..scan
                },
            }
        },
        (
            StageView::Matched { pid, ppid, cmdline, cwd, thread },
            ReplyView::Rollout { events, now },
        ) => ScanView {
            found: placed(
                scan.found,
                matched(pid, ppid, cmdline, cwd, thread, events, now),
            ),
            stage: StageView::Idle,
            ..scan
        },
        _ => scan,
    }
}

impl Scan {
    /// A search for the sessions of `user` that matches what it finds against
    /// `threads`.
    pub fn new(user: u32, threads: Vec<Thread>) -> (r: Scan)
        ensures
            r@ == (ScanView {
                user,
                threads: threads@,
                found: Seq::empty(),
                stage: StageView::Idle,
            }),
    {
        let r = Scan { user, threads, found: Vec::new(), stage: Stage::Idle };
        assert(session_views(r.found@) =~= Seq::empty());
        r
    }

    /// What the search wants to know next.
    pub fn request(&self) -> (r: ScanRequest)
        ensures
            r@ == asked(self@.stage),
    {
        match &self.stage {
            Stage::Idle => ScanRequest::NextEntry,
            Stage::Numbered { .. } => ScanRequest::Comm,
            Stage::Named { .. } => ScanRequest::Cmdline,
            Stage::Started { .. } => ScanRequest::Cwd,
            Stage::Located { .. } => ScanRequest::Status,
            Stage::Matched { thread, .. } => ScanRequest::Rollout(thread.rollout_path.clone()),
        }
    }

    /// The search after a reply to its request.
    pub fn reply(self, reply: ScanReply) -> (r: Scan)
        ensures
            r@ == told(self@, reply@),
    {
        let user = self.user;
        let threads = self.threads;
        let found = self.found;
        match (self.stage, reply) {
            (Stage::Idle, ScanReply::Entry { name, owner }) => {
                let stage = match process_id(name.as_slice()) {
                    Some(pid) => if is_own_entry(owner, user) {
                        Stage::Numbered { pid }
                    } else {
                        Stage::Idle
                    },
                    None => Stage::Idle,
                };
                Scan { user, threads, found, stage }
            },
            (Stage::Numbered { pid }, ScanReply::Comm(comm)) => {
                let stage = if is_codex_comm(&comm) {
                    Stage::Named { pid }
                } else {
                    Stage::Idle
                };
                Scan { user, threads, found, stage }
            },
            (Stage::Named { pid }, ScanReply::Cmdline(bytes)) => {
                let cmdline = read_cmdline(&bytes);
                let stage = if is_codex_cmdline(cmdline.as_str()) {
                    Stage::Started { pid, cmdline }
                } else {
                    Stage::Idle
                };
                Scan { user, threads, found, stage }
            },
            (Stage::Started { pid, cmdline }, ScanReply::Cwd(link)) => {
                let cwd = read_cwd(&link);
                Scan { user, threads, found, stage: Stage::Located { pid, cmdline, cwd } }
            },
            (Stage::Located { pid, cmdline, cwd }, ScanReply::Status(text)) => {
                let ppid: u32 = match read_ppid(&text) {
                    Some(ppid) => ppid,
                    None => 0,
                };
                let thread = match infer_thread_for_cwd(threads.as_slice(), cwd.as_str()) {
                    Some(thread) => Some(thread.clone()),
                    None => None,
                };
                match thread {
                    Some(thread) => {
                        Scan {
                            user,
                            threads,
                            found,
                            stage: Stage::Matched { pid, ppid, cmdline, cwd, thread },
                        }
                    },
                    None => {
                        let session = RunningSession {
                            pid,
                            ppid,
                            process_cwd: cwd,
                            cmdline,
                            status: SessionStatus::Malfunction,
                            status_detail:
                                "running codex process could not be matched to a saved thread".to_string(),
                            last_event_at_ms: None,
                            inferred: None,
                        };
                        Scan { user, threads, found: place(found, session), stage: Stage::Idle }
                    },
                }
            },
            (
                Stage::Matched { pid, ppid, cmdline, cwd, thread },
                ScanReply::Rollout { tail, now_ms },
            ) => {
                let (status, status_detail, last_event_at_ms) = assess_rollout(tail, now_ms);
                let session = RunningSession {
                    pid,
                    ppid,
                    process_cwd: cwd,
                    cmdline,
                    status,
                    status_detail,
                    last_event_at_ms,
                    inferred: Some(thread),
                };
                Scan { user, threads, found: place(found, session), stage: Stage::Idle }
            },
            (stage, _) => Scan { user, threads, found, stage },
        }
    }

    /// The sessions found, in the order of their process ids.
    pub fn finish(self) -> (r: Vec<RunningSession>)
        ensures
            session_views(r@) == self@.found,
    {
        self.found
    }
}

// ---------------------------------------------------------------------------
// Laws: what is found
// ---------------------------------------------------------------------------

/// What there is to know of an entry of `/proc`, and when its log was read.
pub struct ProcessFacts {
    pub name: Seq<u8>,
    pub owner: Option<u32>,
    pub comm: Option<Seq<char>>,
    pub cmdline: Option<Seq<u8>>,
    pub cwd: Option<Seq<u8>>,
    pub status: Option<Seq<char>>,
    pub now: i64,
}

/// The session that an entry of `/proc` is: none unless the entry is named by a
/// number, belongs to the user, and both the name and the command line of the
/// process are those of Codex.
pub open spec fn session_at(
    user: u32,
    threads: Seq<Thread>,
    logs: spec_fn(Seq<char>) -> Option<Seq<EventView>>,
    facts: ProcessFacts,
) -> Option<SessionView> {
    let cmdline = cmdline_text(facts.cmdline);
    if pid_named(facts.name) is Some && is_own(facts.owner, user) && is_codex_name(facts.comm)
        && runs_codex(cmdline) {
        let pid = pid_named(facts.name)->0;
        let ppid = parent_or_zero(facts.status);
        let cwd = cwd_text(facts.cwd);
        match thread_for_cwd(threads, cwd) {
            Some(thread) => Some(
                matched(pid, ppid, cmdline, cwd, thread, logs(thread.rollout_path@), facts.now),
            ),
            None => Some(unmatched(pid, ppid, cmdline, cwd)),
        }
    } else {
        None
    }
}

/// The sessions that the entries are, in the order of the entries.
pub open spec fn sessions_at(
    user: u32,
    threads: Seq<Thread>,
    logs: spec_fn(Seq<char>) -> Option<Seq<EventView>>,
    table: Seq<ProcessFacts>,
) -> Seq<SessionView>
    decreases table.len(),
{
    if table.len() == 0 {
        Seq::empty()
    } else {
        let before = sessions_at(user, threads, logs, table.drop_last());
        match session_at(user, threads, logs, table.last()) {
            Some(session) => before.push(session),
            None => before,
        }
    }
}

/// The true reply to what the search asks about an entry.
pub open spec fn true_reply(
    stage: StageView,
    logs: spec_fn(Seq<char>) -> Option<Seq<EventView>>,
    facts: ProcessFacts,
) -> ReplyView {
    match asked(stage) {
        RequestView::NextEntry => ReplyView::Entry { name: facts.name, owner: facts.owner },
        RequestView::Comm => ReplyView::Comm(facts.comm),
        RequestView::Cmdline => ReplyView::Cmdline(facts.cmdline),
        RequestView::Cwd => ReplyView::Cwd(facts.cwd),
        RequestView::Status => ReplyView::Status(facts.status),
        RequestView::Rollout(path) => ReplyView::Rollout { events: logs(path), now: facts.now },
    }
}

/// The search after at most `n` more true replies about an entry, until it is
/// done with the entry.
pub open spec fn answered(
    scan: ScanView,
    logs: spec_fn(Seq<char>) -> Option<Seq<EventView>>,
    facts: ProcessFacts,
    n: nat,
) -> ScanView
    decreases n,
{
    if n == 0 || scan.stage is Idle {
        scan
    } else {
        answered(
            told(scan, true_reply(scan.stage, logs, facts)),
            logs,
            facts,
            (n - 1) as nat,
        )
    }
}

/// The search after an entry was handed out and everything asked about it was
/// answered truly, in at most five replies.
pub open spec fn after_entry(
    scan: ScanView,
    logs: spec_fn(Seq<char>) -> Option<Seq<EventView>>,
    facts: ProcessFacts,
) -> ScanView {
    answered(
        told(scan, ReplyView::Entry { name: facts.name, owner: facts.owner }),
        logs,
        facts,
        5,
    )
}

/// The search after all entries.
pub open spec fn after_table(
    scan: ScanView,
    logs: spec_fn(Seq<char>) -> Option<Seq<EventView>>,
    table: Seq<ProcessFacts>,
) -> ScanView
    decreases table.len(),
{
    if table.len() == 0 {
        scan
    } else {
        after_entry(after_table(scan, logs, table.drop_last()), logs, table.last())
    }
}

/// The search is done with an entry after at most five true replies, and has then
/// found exactly the session that the entry is.
pub proof fn law_entry_is_judged(
    scan: ScanView,
    logs: spec_fn(Seq<char>) -> Option<Seq<EventView>>,
    facts: ProcessFacts,
)
    requires
        scan.stage is Idle,
    ensures
        after_entry(scan, logs, facts) == (ScanView {
            found: match session_at(scan.user, scan.threads, logs, facts) {
                Some(session) => placed(scan.found, session),
                None => scan.found,
            },
            ..scan
        }),
{
    reveal_with_fuel(answered, 6);
}

/// A search that is told the truth finds exactly the sessions that the entries
/// are, in the order of their process ids.
pub proof fn law_scan_discovers(
    user: u32,
    threads: Seq<Thread>,
    logs: spec_fn(Seq<char>) -> Option<Seq<EventView>>,
    table: Seq<ProcessFacts>,
)
    ensures
        after_table(
            ScanView { user, threads, found: Seq::empty(), stage: StageView::Idle },
            logs,
            table,
        ) == (ScanView {
            user,
            threads,
            found: by_pid(sessions_at(user, threads, logs, table)),
            stage: StageView::Idle,
        }),
    decreases table.len(),
{
    let start = ScanView { user, threads, found: Seq::empty(), stage: StageView::Idle };
    if table.len() > 0 {
        let earlier = table.drop_last();
        law_scan_discovers(user, threads, logs, earlier);
        law_entry_is_judged(after_table(start, logs, earlier), logs, table.last());
        let before = sessions_at(user, threads, logs, earlier);
        let now = sessions_at(user, threads, logs, table);
        if session_at(user, threads, logs, table.last()) is Some {
            assert(now.drop_last() =~= before);
        }
    }
}

// ---------------------------------------------------------------------------
// Laws: the order
// ---------------------------------------------------------------------------

/// No session is followed by one with a smaller process id.
pub open spec fn ascending(list: Seq<SessionView>) -> bool {
    forall|i: int, j: int|
        0 <= i < j < list.len() ==> (#[trigger] list[i]).pid <= (#[trigger] list[j]).pid
}

/// Placing a session keeps the order and adds nothing else.
proof fn lemma_placed_ascending(list: Seq<SessionView>, s: SessionView)
    requires
        ascending(list),
    ensures
        ascending(placed(list, s)),
        placed(list, s).to_multiset() == list.to_multiset().insert(s),
        forall|i: int|
            0 <= i < placed(list, s).len() ==> (#[trigger] placed(list, s)[i]) == s
                || list.contains(placed(list, s)[i]),
    decreases list.len(),
{
    broadcast use vstd::seq_lib::group_to_multiset_ensures;

    let r = placed(list, s);
    if list.len() == 0 || list.last().pid <= s.pid {
        assert forall|i: int, j: int| 0 <= i < j < r.len() implies (#[trigger] r[i]).pid <= (
        #[trigger] r[j]).pid by {
            if j == list.len() {
                assert(list[i].pid <= list.last().pid);
            }
        }
        assert forall|i: int| 0 <= i < r.len() implies (#[trigger] r[i]) == s || list.contains(
            r[i],
        ) by {
            if i < list.len() {
                assert(list[i] == r[i]);
            }
        }
    } else {
        let front = list.drop_last();
        let p = placed(front, s);
        lemma_placed_ascending(front, s);
        assert(list =~= front.push(list.last()));
        assert forall|i: int| 0 <= i < r.len() implies (#[trigger] r[i]) == s || list.contains(
            r[i],
        ) by {
            if i < p.len() {
                assert(r[i] == p[i]);
                if p[i] != s {
                    let k = choose|k: int| 0 <= k < front.len() && front[k] == p[i];
                    assert(list[k] == p[i]);
                }
            } else {
                assert(list[list.len() - 1] == r[i]);
            }
        }
        assert forall|i: int, j: int| 0 <= i < j < r.len() implies (#[trigger] r[i]).pid <= (
        #[trigger] r[j]).pid by {
            if j < p.len() {
                assert(r[i] == p[i] && r[j] == p[j]);
            } else {
                assert(r[i] == p[i]);
                if p[i] != s {
                    let k = choose|k: int| 0 <= k < front.len() && front[k] == p[i];
                    assert(list[k] == p[i]);
                }
            }
        }
        assert(r.to_multiset() =~= list.to_multiset().insert(s));
    }
}

/// The sessions come in the order of their process ids, none is lost and none is
/// added.
pub proof fn law_sessions_ordered(list: Seq<SessionView>)
    ensures
        ascending(by_pid(list)),
        by_pid(list).to_multiset() == list.to_multiset(),
    decreases list.len(),
{
    broadcast use vstd::seq_lib::group_to_multiset_ensures;

    if list.len() > 0 {
        let front = list.drop_last();
        law_sessions_ordered(front);
        lemma_placed_ascending(by_pid(front), list.last());
        assert(list =~= front.push(list.last()));
    }
}

/// The sessions of one process id.
pub open spec fn of_pid(list: Seq<SessionView>, pid: u32) -> Seq<SessionView>
    decreases list.len(),
{
    if list.len() == 0 {
        Seq::empty()
    } else if list.last().pid == pid {
        of_pid(list.drop_last(), pid).push(list.last())
    } else {
        of_pid(list.drop_last(), pid)
    }
}

/// Placing a session puts it behind the others of its process id.
proof fn lemma_placed_stable(list: Seq<SessionView>, s: SessionView, pid: u32)
    requires
        ascending(list),
    ensures
        of_pid(placed(list, s), pid) == of_pid(list.push(s), pid),
    decreases list.len(),
{
    assert(list.push(s).drop_last() =~= list);
    if list.len() > 0 && list.last().pid > s.pid {
        let front = list.drop_last();
        let p = placed(front, s);
        lemma_placed_stable(front, s, pid);
        assert(front.push(s).drop_last() =~= front);
        assert(p.push(list.last()).drop_last() =~= p);
        assert(list.push(s).last() == s && front.push(s).last() == s);
        assert(of_pid(front.push(s), pid) == if s.pid == pid {
            of_pid(front, pid).push(s)
        } else {
            of_pid(front, pid)
        });
        assert(of_pid(list, pid) == if list.last().pid == pid {
            of_pid(front, pid).push(list.last())
        } else {
            of_pid(front, pid)
        });
        assert(of_pid(list.push(s), pid) == if s.pid == pid {
            of_pid(list, pid).push(s)
        } else {
            of_pid(list, pid)
        });
        assert(of_pid(placed(list, s), pid) == if list.last().pid == pid {
            of_pid(p, pid).push(list.last())
        } else {
            of_pid(p, pid)
        });
    }
}

/// Sessions of one process id keep the order in which they were found.
pub proof fn law_order_stable(list: Seq<SessionView>, pid: u32)
    ensures
        of_pid(by_pid(list), pid) == of_pid(list, pid),
    decreases list.len(),
{
    if list.len() > 0 {
        let front = list.drop_last();
        let sorted = by_pid(front);
        law_order_stable(front, pid);
        law_sessions_ordered(front);
        lemma_placed_stable(sorted, list.last(), pid);
        assert(sorted.push(list.last()).drop_last() =~= sorted);
    }
}

/// No two entries that are named by a number are named by the same one.
pub open spec fn names_differ(table: Seq<ProcessFacts>) -> bool {
    forall|i: int, j: int|
        0 <= i < j < table.len() && pid_named((#[trigger] table[i]).name) is Some
            ==> pid_named(table[i].name) != pid_named((#[trigger] table[j]).name)
}

/// Where no session has the process id, there are none of it.
proof fn lemma_none_of_pid(list: Seq<SessionView>, pid: u32)
    requires
        forall|i: int| 0 <= i < list.len() ==> (#[trigger] list[i]).pid != pid,
    ensures
        of_pid(list, pid).len() == 0,
    decreases list.len(),
{
    if list.len() > 0 {
        let front = list.drop_last();
        assert forall|i: int| 0 <= i < front.len() implies (#[trigger] front[i]).pid != pid by {
            assert(front[i] == list[i]);
        }
        lemma_none_of_pid(front, pid);
    }
}

/// Entries that are named by different numbers make at most one session for each
/// process id.
proof fn lemma_one_of_pid(
    user: u32,
    threads: Seq<Thread>,
    logs: spec_fn(Seq<char>) -> Option<Seq<EventView>>,
    table: Seq<ProcessFacts>,
    pid: u32,
)
    requires
        names_differ(table),
    ensures
        of_pid(sessions_at(user, threads, logs, table), pid).len() <= 1,
    decreases table.len(),
{
    if table.len() > 0 {
        let earlier = table.drop_last();
        let before = sessions_at(user, threads, logs, earlier);
        assert forall|i: int, j: int|
            0 <= i < j < earlier.len() && pid_named((#[trigger] earlier[i]).name) is Some implies
            pid_named(earlier[i].name) != pid_named((#[trigger] earlier[j]).name) by {
            assert(earlier[i] == table[i] && earlier[j] == table[j]);
        }
        lemma_one_of_pid(user, threads, logs, earlier, pid);
        if let Some(session) = session_at(user, threads, logs, table.last()) {
            assert(before.push(session).drop_last() =~= before);
            if session.pid == pid {
                assert forall|i: int| 0 <= i < before.len() implies (#[trigger] before[i]).pid
                    != pid by {
                    assert(before.contains(before[i]));
                    lemma_sessions_from_entries(user, threads, logs, earlier, before[i]);
                    let k = choose|k: int|
                        0 <= k < earlier.len() && pid_named((#[trigger] earlier[k]).name) == Some(
                            before[i].pid,
                        ) && is_own(earlier[k].owner, user);
                    assert(table[k] == earlier[k]);
                    assert(table[table.len() - 1] == table.last());
                }
                lemma_none_of_pid(before, pid);
            }
        }
    }
}

/// Two sessions of one process id count as two of it.
proof fn lemma_two_of_pid(list: Seq<SessionView>, i: int, j: int)
    requires
        0 <= i < j < list.len(),
        list[i].pid == list[j].pid,
    ensures
        of_pid(list, list[i].pid).len() >= 2,
    decreases list.len(),
{
    let front = list.drop_last();
    let pid = list[i].pid;
    if j == list.len() - 1 {
        if of_pid(front, pid).len() == 0 {
            lemma_some_of_pid(front, i);
        }
    } else {
        assert(front[i] == list[i] && front[j] == list[j]);
        lemma_two_of_pid(front, i, j);
    }
}

/// A session is among those of its process id.
proof fn lemma_some_of_pid(list: Seq<SessionView>, i: int)
    requires
        0 <= i < list.len(),
    ensures
        of_pid(list, list[i].pid).len() >= 1,
    decreases list.len(),
{
    if i < list.len() - 1 {
        assert(list.drop_last()[i] == list[i]);
        lemma_some_of_pid(list.drop_last(), i);
    }
}

/// A process is listed once: where the entries of `/proc` are named by different
/// numbers, each session found has a greater process id than the one before it.
pub proof fn law_process_ids_differ(
    user: u32,
    threads: Seq<Thread>,
    logs: spec_fn(Seq<char>) -> Option<Seq<EventView>>,
    table: Seq<ProcessFacts>,
)
    requires
        names_differ(table),
    ensures
        forall|i: int, j: int|
            0 <= i < j < by_pid(sessions_at(user, threads, logs, table)).len() ==> (
            #[trigger] by_pid(sessions_at(user, threads, logs, table))[i]).pid < (
            #[trigger] by_pid(sessions_at(user, threads, logs, table))[j]).pid,
{
    let list = sessions_at(user, threads, logs, table);
    let sorted = by_pid(list);
    law_sessions_ordered(list);
    assert forall|i: int, j: int| 0 <= i < j < sorted.len() implies (#[trigger] sorted[i]).pid < (
    #[trigger] sorted[j]).pid by {
        if sorted[i].pid == sorted[j].pid {
            lemma_two_of_pid(sorted, i, j);
            law_order_stable(list, sorted[i].pid);
            lemma_one_of_pid(user, threads, logs, table, sorted[i].pid);
        }
    }
}

// ---------------------------------------------------------------------------
// Laws: whose sessions
// ---------------------------------------------------------------------------

/// Every session comes from an entry of its process id that belongs to the user.
proof fn lemma_sessions_from_entries(
    user: u32,
    threads: Seq<Thread>,
    logs: spec_fn(Seq<char>) -> Option<Seq<EventView>>,
    table: Seq<ProcessFacts>,
    s: SessionView,
)
    requires
        sessions_at(user, threads, logs, table).contains(s),
    ensures
        exists|i: int|
            0 <= i < table.len() && pid_named((#[trigger] table[i]).name) == Some(s.pid) && is_own(
                table[i].owner,
                user,
            ),
    decreases table.len(),
{
    let all = sessions_at(user, threads, logs, table);
    if table.len() > 0 {
        let earlier = table.drop_last();
        let before = sessions_at(user, threads, logs, earlier);
        let k = choose|k: int| 0 <= k < all.len() && all[k] == s;
        if session_at(user, threads, logs, table.last()) == Some(s) {
            assert(pid_named(table[table.len() - 1].name) == Some(s.pid));
        } else {
            assert(before[k] == s);
            lemma_sessions_from_entries(user, threads, logs, earlier, s);
            let i = choose|i: int|
                0 <= i < earlier.len() && pid_named((#[trigger] earlier[i]).name) == Some(s.pid)
                    && is_own(earlier[i].owner, user);
            assert(table[i] == earlier[i]);
        }
    }
}

/// Only the user's own sessions are discovered: where no entry of a process id
/// belongs to the user, no session has that id.
pub proof fn law_only_own_sessions(
    user: u32,
    threads: Seq<Thread>,
    logs: spec_fn(Seq<char>) -> Option<Seq<EventView>>,
    table: Seq<ProcessFacts>,
    pid: u32,
    i: int,
)
    requires
        forall|j: int|
            0 <= j < table.len() && pid_named((#[trigger] table[j]).name) == Some(pid) ==> !is_own(
                table[j].owner,
                user,
            ),
        0 <= i < by_pid(sessions_at(user, threads, logs, table)).len(),
    ensures
        by_pid(sessions_at(user, threads, logs, table))[i].pid != pid,
{
    broadcast use vstd::seq_lib::group_to_multiset_ensures;

    let list = sessions_at(user, threads, logs, table);
    let sorted = by_pid(list);
    let s = sorted[i];
    law_sessions_ordered(list);
    assert(sorted.contains(s));
    assert(list.to_multiset().count(s) > 0);
    assert(list.contains(s));
    lemma_sessions_from_entries(user, threads, logs, table, s);
}

// ---------------------------------------------------------------------------
// Laws: what makes a session
// ---------------------------------------------------------------------------

/// An entry is a session exactly where it is named by a number, belongs to the
/// user, and has the short name and the command line of Codex. The session tells
/// the number, the parent or 0, the command line and the working directory as they
/// were read, and the thread of that directory. With a thread it has the status
/// that the thread's own log gives, without one it malfunctions.
pub proof fn law_entry_makes_session(
    user: u32,
    threads: Seq<Thread>,
    logs: spec_fn(Seq<char>) -> Option<Seq<EventView>>,
    facts: ProcessFacts,
)
    ensures
        session_at(user, threads, logs, facts) is Some <==> pid_named(facts.name) is Some
            && facts.owner == Some(user) && is_codex_name(facts.comm) && runs_codex(
            cmdline_text(facts.cmdline),
        ),
        session_at(user, threads, logs, facts) matches Some(session) ==> {
            &&& pid_named(facts.name) == Some(session.pid)
            &&& session.ppid == (match parent_of(facts.status) {
                Some(ppid) => ppid,
                None => 0,
            })
            &&& session.cmdline == cmdline_text(facts.cmdline)
            &&& session.process_cwd == cwd_text(facts.cwd)
            &&& session.inferred == thread_for_cwd(threads, cwd_text(facts.cwd))
            &&& session.inferred matches Some(thread) ==> {
                let log = logs(thread.rollout_path@);
                &&& thread.cwd@ == session.process_cwd
                &&& session.status == judgement(log, facts.now).0
                &&& session.status_detail == judgement(log, facts.now).1
                &&& session.last_event_at_ms == judged_time(log)
            }
            &&& session.inferred is None ==> {
                &&& session.status == SessionStatus::Malfunction
                &&& session.status_detail
                    == "running codex process could not be matched to a saved thread"@
                &&& session.last_event_at_ms is None
            }
        },
{
    law_first_thread_of_cwd(threads, cwd_text(facts.cwd));
}

/// What the entries of two stretches of `/proc` are follows one another, and a
/// single entry is its session or nothing, so that no entry hides another.
pub proof fn law_entries_are_judged_alone(
    user: u32,
    threads: Seq<Thread>,
    logs: spec_fn(Seq<char>) -> Option<Seq<EventView>>,
    first: Seq<ProcessFacts>,
    second: Seq<ProcessFacts>,
    facts: ProcessFacts,
)
    ensures
        sessions_at(user, threads, logs, first + second) == sessions_at(user, threads, logs, first)
            + sessions_at(user, threads, logs, second),
        sessions_at(user, threads, logs, seq![facts]) == (match session_at(
            user,
            threads,
            logs,
            facts,
        ) {
            Some(session) => seq![session],
            None => Seq::empty(),
        }),
        sessions_at(user, threads, logs, Seq::empty()).len() == 0,
    decreases second.len(),
{
    let one = seq![facts];
    assert(one.drop_last() =~= Seq::empty());
    assert(sessions_at(user, threads, logs, one.drop_last()) =~= Seq::empty());
    assert(one.last() == facts);
    let all = first + second;
    if second.len() == 0 {
        assert(all =~= first);
        assert(sessions_at(user, threads, logs, first) + sessions_at(user, threads, logs, second)
            =~= sessions_at(user, threads, logs, first));
    } else {
        let front = second.drop_last();
        assert(all.drop_last() =~= first + front);
        assert(all.last() == second.last());
        law_entries_are_judged_alone(user, threads, logs, first, front, facts);
        assert(sessions_at(user, threads, logs, all) =~= sessions_at(user, threads, logs, first)
            + sessions_at(user, threads, logs, second));
    }
}

/// Every entry that is a session is found by the search, and nothing is found that
/// no entry is.
pub proof fn law_search_finds_all(
    user: u32,
    threads: Seq<Thread>,
    logs: spec_fn(Seq<char>) -> Option<Seq<EventView>>,
    table: Seq<ProcessFacts>,
    session: SessionView,
)
    ensures
        by_pid(sessions_at(user, threads, logs, table)).contains(session) <==> exists|i: int|
            0 <= i < table.len() && session_at(user, threads, logs, #[trigger] table[i]) == Some(
                session,
            ),
{
    broadcast use vstd::seq_lib::group_to_multiset_ensures;

    let list = sessions_at(user, threads, logs, table);
    let sorted = by_pid(list);
    law_sessions_ordered(list);
    lemma_sessions_are_entries(user, threads, logs, table, session);
    assert(sorted.contains(session) <==> sorted.to_multiset().count(session) > 0);
    assert(list.contains(session) <==> list.to_multiset().count(session) > 0);
}

/// The sessions are those that the entries are.
proof fn lemma_sessions_are_entries(
    user: u32,
    threads: Seq<Thread>,
    logs: spec_fn(Seq<char>) -> Option<Seq<EventView>>,
    table: Seq<ProcessFacts>,
    session: SessionView,
)
    ensures
        sessions_at(user, threads, logs, table).contains(session) <==> exists|i: int|
            0 <= i < table.len() && session_at(user, threads, logs, #[trigger] table[i]) == Some(
                session,
            ),
    decreases table.len(),
{
    let all = sessions_at(user, threads, logs, table);
    if table.len() > 0 {
        let front = table.drop_last();
        let n = table.len() - 1;
        let before = sessions_at(user, threads, logs, front);
        lemma_sessions_are_entries(user, threads, logs, front, session);
        if all.contains(session) {
            let k = choose|k: int| 0 <= k < all.len() && all[k] == session;
            if k < before.len() {
                assert(before[k] == session);
                assert(before.contains(session));
                let i = choose|i: int|
                    0 <= i < front.len() && session_at(user, threads, logs, #[trigger] front[i])
                        == Some(session);
                assert(table[i] == front[i]);
            } else {
                assert(session_at(user, threads, logs, table[n]) == Some(session));
            }
        }
        if exists|i: int|
            0 <= i < table.len() && session_at(user, threads, logs, #[trigger] table[i]) == Some(
                session,
            ) {
            let i = choose|i: int|
                0 <= i < table.len() && session_at(user, threads, logs, #[trigger] table[i])
                    == Some(session);
            if i == n {
                assert(all[before.len() as int] == session);
            } else {
                assert(front[i] == table[i]);
                let k = choose|k: int| 0 <= k < before.len() && before[k] == session;
                assert(all[k] == session);
            }
        }
    }
}

/// A reply changes nothing unless it is to what the search has asked for: an entry
/// between two processes, and of a process its name, its command line, its
/// directory, its status and its log, one after another.
pub proof fn law_replies_out_of_turn(scan: ScanView, reply: ReplyView)
    ensures
        (reply is Entry && !(scan.stage is Idle)) || (reply is Comm && !(scan.stage is Numbered))
            || (reply is Cmdline && !(scan.stage is Named)) || (reply is Cwd
            && !(scan.stage is Started)) || (reply is Status && !(scan.stage is Located)) || (
        reply is Rollout && !(scan.stage is Matched)) ==> told(scan, reply) == scan,
        told(scan, reply).user == scan.user,
        told(scan, reply).threads == scan.threads,
{
}

/// What the search asks for is what it does not know yet of the process at hand,
/// and of a thread the log at the path that the thread itself records.
pub proof fn law_requests_in_turn(scan: ScanView)
    ensures
        scan.stage is Idle <==> asked(scan.stage) is NextEntry,
        scan.stage is Numbered <==> asked(scan.stage) is Comm,
        scan.stage is Named <==> asked(scan.stage) is Cmdline,
        scan.stage is Started <==> asked(scan.stage) is Cwd,
        scan.stage is Located <==> asked(scan.stage) is Status,
        scan.stage matches StageView::Matched { thread, .. } ==> asked(scan.stage)
            == RequestView::Rollout(thread.rollout_path@),
{
}

} // verus!
