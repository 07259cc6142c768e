//! Which session a target means.

use crate::events::EventView;
use crate::process::{law_utf8_is_shown_as_it_is, shown, text_of_bytes};
use crate::scan::{by_pid, law_process_ids_differ, names_differ, sessions_at, ProcessFacts};
use crate::session::{
    copy_thread, infer_thread_for_cwd, law_first_thread_of_cwd, session_views, thread_for_cwd,
    RunningSession, Thread,
};
use crate::text::{
    decimal, decimal_text, followed_by, law_decimal_reads_back, law_numbers_grow_by_digits,
    number_in, parse_number, same_text,
};
use vstd::prelude::*;
use vstd::utf8::encode_utf8;

verus! {

broadcast use vstd::string::group_string_axioms;

/// What a target is: the id of a process, the current directory, or the id or
/// title of a thread.
#[derive(Debug, Clone, Copy, PartialEq, Eq, Structural)]
pub enum TargetKind {
    Pid(u32),
    CurrentDir,
    Name,
}

/// Why a target means no session.
#[derive(Debug)]
pub enum TargetError {
    /// The working directory of the process could not be read.
    UnreadableCwd { pid: u32 },
    /// The current directory could not be read, for this reason.
    UnreadableCurrentDir { reason: String },
    /// No thread has the working directory of the process.
    NoThreadForPid { pid: u32, cwd: String },
    /// No thread has the current directory.
    NoThreadForCurrentDir { cwd: String },
    /// No thread has this id or title.
    UnknownThread { target: String },
    /// The process is no running Codex process.
    NotRunning { pid: u32 },
    /// The process runs Codex but was matched to no thread.
    NotMatched { pid: u32 },
    /// No running session has the current directory.
    NoSessionForCurrentDir { cwd: String },
    /// No running session has a thread of this id or title.
    NoSession { target: String },
}

/// A `TargetError` with its texts as sequences of characters.
pub enum TargetErrorView {
    UnreadableCwd { pid: u32 },
    UnreadableCurrentDir { reason: Seq<char> },
    NoThreadForPid { pid: u32, cwd: Seq<char> },
    NoThreadForCurrentDir { cwd: Seq<char> },
    UnknownThread { target: Seq<char> },
    NotRunning { pid: u32 },
    NotMatched { pid: u32 },
    NoSessionForCurrentDir { cwd: Seq<char> },
    NoSession { target: Seq<char> },
}

impl View for TargetError {
    type V = TargetErrorView;

    open spec fn view(&self) -> TargetErrorView {
        match *self {
            TargetError::UnreadableCwd { pid } => TargetErrorView::UnreadableCwd { pid },
            TargetError::UnreadableCurrentDir { reason } => TargetErrorView::UnreadableCurrentDir {
                reason: reason@,
            },
            TargetError::NoThreadForPid { pid, cwd } => TargetErrorView::NoThreadForPid {
                pid,
                cwd: cwd@,
            },
            TargetError::NoThreadForCurrentDir { cwd } => TargetErrorView::NoThreadForCurrentDir {
                cwd: cwd@,
            },
            TargetError::UnknownThread { target } => TargetErrorView::UnknownThread {
                target: target@,
            },
            TargetError::NotRunning { pid } => TargetErrorView::NotRunning { pid },
            TargetError::NotMatched { pid } => TargetErrorView::NotMatched { pid },
            TargetError::NoSessionForCurrentDir { cwd } => {
                TargetErrorView::NoSessionForCurrentDir { cwd: cwd@ }
            },
            TargetError::NoSession { target } => TargetErrorView::NoSession { target: target@ },
        }
    }
}

/// What is said of an error.
pub open spec fn error_text(error: TargetErrorView) -> Seq<char> {
    match error {
        TargetErrorView::UnreadableCwd { pid } => "read cwd for pid "@ + decimal(pid as nat),
        TargetErrorView::UnreadableCurrentDir { reason } => reason,
        TargetErrorView::NoThreadForPid { pid, cwd } => "no Codex thread found for pid "@
            + decimal(pid as nat) + " cwd "@ + cwd,
        TargetErrorView::NoThreadForCurrentDir { cwd } =>
            "no Codex thread found for current cwd "@ + cwd,
        TargetErrorView::UnknownThread { target } => "resolve Codex session "@ + target,
        TargetErrorView::NotRunning { pid } => "pid "@ + decimal(pid as nat)
            + " is not a running Codex process"@,
        TargetErrorView::NotMatched { pid } => "pid "@ + decimal(pid as nat)
            + " is not matched to a Codex session"@,
        TargetErrorView::NoSessionForCurrentDir { cwd } =>
            "no running Codex session found for current cwd "@ + cwd,
        TargetErrorView::NoSession { target } => "no running Codex session matched "@ + target,
    }
}

/// `before`, then `n` in decimal, then `after`.
fn around_number(before: &str, n: u32, after: &str) -> (r: String)
    ensures
        r@ == before@ + decimal(n as nat) + after@,
{
    let mut out = before.to_string();
    let number = decimal_text(n as u64);
    out.append(number.as_str());
    out.append(after);
    out
}

impl TargetError {
    /// What is said of the error.
    pub fn message(&self) -> (r: String)
        ensures
            r@ == error_text(self@),
    {
        match self {
            TargetError::UnreadableCwd { pid } => {
                let r = around_number("read cwd for pid ", *pid, "");
                proof {
                    reveal_strlit("");
                }
                assert(r@ =~= error_text(self@));
                r
            },
            TargetError::UnreadableCurrentDir { reason } => reason.clone(),
            TargetError::NoThreadForPid { pid, cwd } => {
                let mut r = around_number("no Codex thread found for pid ", *pid, " cwd ");
                r.append(cwd.as_str());
                r
            },
            TargetError::NoThreadForCurrentDir { cwd } => followed_by(
                "no Codex thread found for current cwd ",
                cwd.as_str(),
            ),
            TargetError::UnknownThread { target } => followed_by(
                "resolve Codex session ",
                target.as_str(),
            ),
            TargetError::NotRunning { pid } => around_number(
                "pid ",
                *pid,
                " is not a running Codex process",
            ),
            TargetError::NotMatched { pid } => around_number(
                "pid ",
                *pid,
                " is not matched to a Codex session",
            ),
            TargetError::NoSessionForCurrentDir { cwd } => followed_by(
                "no running Codex session found for current cwd ",
                cwd.as_str(),
            ),
            TargetError::NoSession { target } => followed_by(
                "no running Codex session matched ",
                target.as_str(),
            ),
        }
    }
}

/// What a target is. A number is always the id of a process.
pub open spec fn kind_of(target: Seq<char>) -> TargetKind {
    match number_in(target) {
        Some(pid) => TargetKind::Pid(pid),
        None => if target == ":cwd"@ {
            TargetKind::CurrentDir
        } else {
            TargetKind::Name
        },
    }
}

/// What a target is.
pub fn target_kind(target: &str) -> (r: TargetKind)
    ensures
        r == kind_of(target@),
{
    match parse_number(target) {
        Some(pid) => TargetKind::Pid(pid),
        None => if same_text(target, ":cwd") {
            TargetKind::CurrentDir
        } else {
            TargetKind::Name
        },
    }
}

// ---------------------------------------------------------------------------
// Saved threads
// ---------------------------------------------------------------------------

/// A directory that was looked up, as text, or why it could not be read.
pub open spec fn directory_view(directory: Result<Vec<u8>, String>) -> Result<
    Seq<char>,
    Seq<char>,
> {
    match directory {
        Ok(path) => Ok(shown(path@)),
        Err(reason) => Err(reason@),
    }
}

/// The thread that a target means. For a process, and for the current directory,
/// that is the first of `threads` with the directory that was looked up; for a
/// name it is the `named` thread.
pub open spec fn saved_target(
    target: Seq<char>,
    directory: Result<Seq<char>, Seq<char>>,
    threads: Seq<Thread>,
    named: Option<Thread>,
) -> Result<Thread, TargetErrorView> {
    match kind_of(target) {
        TargetKind::Pid(pid) => match directory {
            Ok(cwd) => match thread_for_cwd(threads, cwd) {
                Some(thread) => Ok(thread),
                None => Err(TargetErrorView::NoThreadForPid { pid, cwd }),
            },
            Err(_) => Err(TargetErrorView::UnreadableCwd { pid }),
        },
        TargetKind::CurrentDir => match directory {
            Ok(cwd) => match thread_for_cwd(threads, cwd) {
                Some(thread) => Ok(thread),
                None => Err(TargetErrorView::NoThreadForCurrentDir { cwd }),
            },
            Err(reason) => Err(TargetErrorView::UnreadableCurrentDir { reason }),
        },
        TargetKind::Name => match named {
            Some(thread) => Ok(thread),
            None => Err(TargetErrorView::UnknownThread { target }),
        },
    }
}

/// The thread that `target` means. `directory` is the working directory of the
/// process that the target names, or the current directory, as the target's kind
/// has it, and `named` the newest thread whose id or title the target is; what a
/// kind has no use for is not looked at.
pub fn resolve_target(
    target: &str,
    directory: Result<Vec<u8>, String>,
    threads: &[Thread],
    named: Option<Thread>,
) -> (r: Result<Thread, TargetError>)
    ensures
        match r {
            Ok(thread) => saved_target(target@, directory_view(directory), threads@, named) == Ok::<
                Thread,
                TargetErrorView,
            >(thread),
            Err(error) => saved_target(target@, directory_view(directory), threads@, named) == Err::<
                Thread,
                TargetErrorView,
            >(error@),
        },
{
    match target_kind(target) {
        TargetKind::Pid(pid) => match directory {
            Ok(path) => {
                let cwd = text_of_bytes(path.as_slice());
                match infer_thread_for_cwd(threads, cwd.as_str()) {
                    Some(thread) => Ok(thread.clone()),
                    None => Err(TargetError::NoThreadForPid { pid, cwd }),
                }
            },
            Err(_) => Err(TargetError::UnreadableCwd { pid }),
        },
        TargetKind::CurrentDir => match directory {
            Ok(path) => {
                let cwd = text_of_bytes(path.as_slice());
                match infer_thread_for_cwd(threads, cwd.as_str()) {
                    Some(thread) => Ok(thread.clone()),
                    None => Err(TargetError::NoThreadForCurrentDir { cwd }),
                }
            },
            Err(reason) => Err(TargetError::UnreadableCurrentDir { reason }),
        },
        TargetKind::Name => match named {
            Some(thread) => Ok(thread),
            None => Err(TargetError::UnknownThread { target: target.to_string() }),
        },
    }
}

// ---------------------------------------------------------------------------
// Running sessions
// ---------------------------------------------------------------------------

/// The session is one that a target of this kind means: by its process id, by the
/// working directory of its thread, or by the id or title of its thread.
pub open spec fn is_meant(session: RunningSession, kind: TargetKind, text: Seq<char>) -> bool {
    match kind {
        TargetKind::Pid(pid) => session.pid == pid,
        TargetKind::CurrentDir => session.inferred matches Some(thread) && thread.cwd@ == text,
        TargetKind::Name => session.inferred matches Some(thread) && (thread.id@ == text
            || thread.title@ == text),
    }
}

/// The first of `sessions` that is meant.
pub open spec fn first_meant(
    sessions: Seq<RunningSession>,
    kind: TargetKind,
    text: Seq<char>,
) -> Option<RunningSession>
    decreases sessions.len(),
{
    if sessions.len() == 0 {
        None
    } else if is_meant(sessions[0], kind, text) {
        Some(sessions[0])
    } else {
        first_meant(sessions.drop_first(), kind, text)
    }
}

/// The process and the thread of a session, where it has a thread.
pub open spec fn process_and_thread(
    session: Option<RunningSession>,
    absent: TargetErrorView,
) -> Result<(u32, Thread), TargetErrorView> {
    match session {
        Some(s) => match s.inferred {
            Some(thread) => Ok((s.pid, thread)),
            None => Err(TargetErrorView::NotMatched { pid: s.pid }),
        },
        None => Err(absent),
    }
}

/// The process and the thread of the running session that a target means.
pub open spec fn running_target(
    sessions: Seq<RunningSession>,
    target: Seq<char>,
    current_dir: Result<Seq<char>, Seq<char>>,
) -> Result<(u32, Thread), TargetErrorView> {
    let kind = kind_of(target);
    match kind {
        TargetKind::Pid(pid) => process_and_thread(
            first_meant(sessions, kind, target),
            TargetErrorView::NotRunning { pid },
        ),
        TargetKind::CurrentDir => match current_dir {
            Ok(cwd) => process_and_thread(
                first_meant(sessions, kind, cwd),
                TargetErrorView::NoSessionForCurrentDir { cwd },
            ),
            Err(reason) => Err(TargetErrorView::UnreadableCurrentDir { reason }),
        },
        TargetKind::Name => process_and_thread(
            first_meant(sessions, kind, target),
            TargetErrorView::NoSession { target },
        ),
    }
}

/// The first of `sessions` that is meant.
fn find_meant<'a>(sessions: &'a [RunningSession], kind: TargetKind, text: &str) -> (r: Option<
    &'a RunningSession,
>)
    ensures
        match r {
            Some(session) => first_meant(sessions@, kind, text@) == Some(*session),
            None => first_meant(sessions@, kind, text@) is None,
        },
{
    let mut i: usize = 0;
    assert(sessions@.skip(0) =~= sessions@);
    while i < sessions.len()
        invariant
            i <= sessions@.len(),
            first_meant(sessions@.skip(i as int), kind, text@) == first_meant(
                sessions@,
                kind,
                text@,
            ),
        decreases sessions@.len() - i,
    {
        let ghost rest = sessions@.skip(i as int);
        assert(rest[0] == sessions@[i as int]);
        assert(rest.drop_first() =~= sessions@.skip(i + 1));
        let session = &sessions[i];
        let meant = match kind {
            TargetKind::Pid(pid) => session.pid == pid,
            TargetKind::CurrentDir => match &session.inferred {
                Some(thread) => same_text(thread.cwd.as_str(), text),
                None => false,
            },
            TargetKind::Name => match &session.inferred {
                Some(thread) => same_text(thread.id.as_str(), text) || same_text(
                    thread.title.as_str(),
                    text,
                ),
                None => false,
            },
        };
        if meant {
            return Some(session);
        }
        i += 1;
    }
    None
}

/// The process and the thread of the running session that `target` means.
/// `current_dir` is not looked at unless the target is the current directory.
pub fn resolve_running_target(
    sessions: &[RunningSession],
    target: &str,
    current_dir: Result<Vec<u8>, String>,
) -> (r: Result<(u32, Thread), TargetError>)
    ensures
        match r {
            Ok(found) => running_target(sessions@, target@, directory_view(current_dir)) == Ok::<
                (u32, Thread),
                TargetErrorView,
            >(found),
            Err(error) => running_target(sessions@, target@, directory_view(current_dir)) == Err::<
                (u32, Thread),
                TargetErrorView,
            >(error@),
        },
{
    let kind = target_kind(target);
    let (session, absent) = match kind {
        TargetKind::Pid(pid) => (
            find_meant(sessions, kind, target),
            TargetError::NotRunning { pid },
        ),
        TargetKind::CurrentDir => match current_dir {
            Ok(path) => {
                let cwd = text_of_bytes(path.as_slice());
                let session = find_meant(sessions, kind, cwd.as_str());
                (session, TargetError::NoSessionForCurrentDir { cwd })
            },
            Err(reason) => {
                return Err(TargetError::UnreadableCurrentDir { reason });
            },
        },
        TargetKind::Name => (
            find_meant(sessions, kind, target),
            TargetError::NoSession { target: target.to_string() },
        ),
    };
    match session {
        Some(s) => match copy_thread(&s.inferred) {
            Some(thread) => Ok((s.pid, thread)),
            None => Err(TargetError::NotMatched { pid: s.pid }),
        },
        None => Err(absent),
    }
}

// ---------------------------------------------------------------------------
// Laws
// ---------------------------------------------------------------------------

/// A session that is first meant is one of the sessions, and is meant.
proof fn lemma_first_meant(sessions: Seq<RunningSession>, kind: TargetKind, text: Seq<char>)
    ensures
        first_meant(sessions, kind, text) matches Some(session) ==> sessions.contains(session)
            && is_meant(session, kind, text),
    decreases sessions.len(),
{
    if sessions.len() > 0 {
        let tail = sessions.drop_first();
        lemma_first_meant(tail, kind, text);
        if is_meant(sessions[0], kind, text) {
            assert(sessions.contains(sessions[0]));
        } else if let Some(session) = first_meant(tail, kind, text) {
            let k = choose|k: int| 0 <= k < tail.len() && tail[k] == session;
            assert(sessions[k + 1] == session);
        }
    }
}

/// Whatever the target, the process that is taken over is that of a listed
/// session, and the thread that is resumed is the one matched to it.
pub proof fn law_taken_over_session_is_listed(
    sessions: Seq<RunningSession>,
    target: Seq<char>,
    current_dir: Result<Seq<char>, Seq<char>>,
)
    ensures
        running_target(sessions, target, current_dir) matches Ok(found) ==> exists|i: int|
            0 <= i < sessions.len() && (#[trigger] sessions[i]).pid == found.0
                && sessions[i].inferred == Some(found.1),
{
    let kind = kind_of(target);
    let text = if kind is CurrentDir && current_dir is Ok {
        current_dir->Ok_0
    } else {
        target
    };
    lemma_first_meant(sessions, kind, text);
    if let Some(session) = first_meant(sessions, kind, text) {
        let i = choose|i: int| 0 <= i < sessions.len() && sessions[i] == session;
        assert(sessions[i] == session);
    }
}

/// Only for a process id is a session found that has no thread.
pub proof fn law_only_pids_find_unmatched(
    sessions: Seq<RunningSession>,
    target: Seq<char>,
    current_dir: Result<Seq<char>, Seq<char>>,
    pid: u32,
)
    requires
        running_target(sessions, target, current_dir) == Err::<(u32, Thread), TargetErrorView>(
            TargetErrorView::NotMatched { pid },
        ),
    ensures
        kind_of(target) == TargetKind::Pid(pid),
{
    let kind = kind_of(target);
    lemma_first_meant(sessions, kind, target);
    if kind is CurrentDir {
        lemma_first_meant(sessions, kind, current_dir->Ok_0);
    }
}

/// The process id that is listed for a session, written in decimal, is a target
/// that means this session, as long as no other session has the same id.
pub proof fn law_listed_pid_resolves(
    sessions: Seq<RunningSession>,
    i: int,
    current_dir: Result<Seq<char>, Seq<char>>,
)
    requires
        0 <= i < sessions.len(),
        forall|j: int|
            0 <= j < sessions.len() && j != i ==> (#[trigger] sessions[j]).pid != sessions[i].pid,
    ensures
        running_target(sessions, decimal(sessions[i].pid as nat), current_dir) == (
        match sessions[i].inferred {
            Some(thread) => Ok::<(u32, Thread), TargetErrorView>((sessions[i].pid, thread)),
            None => Err::<(u32, Thread), TargetErrorView>(
                TargetErrorView::NotMatched { pid: sessions[i].pid },
            ),
        }),
{
    let pid = sessions[i].pid;
    let target = decimal(pid as nat);
    law_decimal_reads_back(pid);
    lemma_meant_at(sessions, i, TargetKind::Pid(pid), target);
}

/// The process id that is listed for a session means this session wherever the
/// sessions are those that a search found among entries that are named by
/// different numbers.
pub proof fn law_found_pid_resolves(
    user: u32,
    threads: Seq<Thread>,
    logs: spec_fn(Seq<char>) -> Option<Seq<EventView>>,
    table: Seq<ProcessFacts>,
    sessions: Seq<RunningSession>,
    i: int,
    current_dir: Result<Seq<char>, Seq<char>>,
)
    requires
        names_differ(table),
        session_views(sessions) == by_pid(sessions_at(user, threads, logs, table)),
        0 <= i < sessions.len(),
    ensures
        running_target(sessions, decimal(sessions[i].pid as nat), current_dir) == (
        match sessions[i].inferred {
            Some(thread) => Ok::<(u32, Thread), TargetErrorView>((sessions[i].pid, thread)),
            None => Err::<(u32, Thread), TargetErrorView>(
                TargetErrorView::NotMatched { pid: sessions[i].pid },
            ),
        }),
{
    let found = session_views(sessions);
    law_process_ids_differ(user, threads, logs, table);
    assert forall|j: int| 0 <= j < sessions.len() && j != i implies (#[trigger] sessions[j]).pid
        != sessions[i].pid by {
        assert(found[i].pid == sessions[i].pid && found[j].pid == sessions[j].pid);
        if i < j {
            assert(found[i].pid < found[j].pid);
        } else {
            assert(found[j].pid < found[i].pid);
        }
    }
    law_listed_pid_resolves(sessions, i, current_dir);
}

/// The only session that is meant is the first.
proof fn lemma_meant_at(sessions: Seq<RunningSession>, i: int, kind: TargetKind, text: Seq<char>)
    requires
        0 <= i < sessions.len(),
        is_meant(sessions[i], kind, text),
        forall|j: int|
            0 <= j < sessions.len() && j != i ==> !is_meant(#[trigger] sessions[j], kind, text),
    ensures
        first_meant(sessions, kind, text) == Some(sessions[i]),
    decreases sessions.len(),
{
    if i > 0 {
        let tail = sessions.drop_first();
        assert(!is_meant(sessions[0], kind, text));
        assert(tail[i - 1] == sessions[i]);
        assert forall|j: int| 0 <= j < tail.len() && j != i - 1 implies !is_meant(
            #[trigger] tail[j],
            kind,
            text,
        ) by {
            assert(tail[j] == sessions[j + 1]);
        }
        lemma_meant_at(tail, i - 1, kind, text);
    }
}

/// A number is always the id of a process, `:cwd` and nothing else is the current
/// directory, and any other text is a name.
pub proof fn law_kinds_of_targets(target: Seq<char>, pid: u32)
    ensures
        kind_of(decimal(pid as nat)) == TargetKind::Pid(pid),
        kind_of(target) == TargetKind::Pid(pid) <==> number_in(target) == Some(pid),
        kind_of(target) == TargetKind::CurrentDir <==> target == ":cwd"@,
        kind_of(target) == TargetKind::Name <==> number_in(target) is None && target != ":cwd"@,
{
    law_decimal_reads_back(pid);
    reveal_strlit(":cwd");
    let cwd = ":cwd"@;
    law_numbers_grow_by_digits(cwd.drop_last(), cwd.last());
    assert(cwd.drop_last().push(cwd.last()) =~= cwd);
}

/// The thread that is resumed for a process is the first of the recent threads
/// whose working directory is exactly that of the process, and there is none
/// exactly where no recent thread has it. A process whose directory could not be
/// read means no thread.
pub proof fn law_process_resumes_in_its_directory(
    target: Seq<char>,
    pid: u32,
    cwd: Seq<char>,
    reason: Seq<char>,
    threads: Seq<Thread>,
    named: Option<Thread>,
)
    requires
        number_in(target) == Some(pid),
    ensures
        saved_target(target, Ok(cwd), threads, named) matches Ok(thread) ==> thread.cwd@ == cwd
            && exists|i: int|
            0 <= i < threads.len() && #[trigger] threads[i] == thread && forall|j: int|
                0 <= j < i ==> (#[trigger] threads[j]).cwd@ != cwd,
        saved_target(target, Ok(cwd), threads, named) is Err <==> forall|i: int|
            0 <= i < threads.len() ==> (#[trigger] threads[i]).cwd@ != cwd,
        saved_target(target, Ok(cwd), threads, named) matches Err(error) ==> error_text(error)
            == "no Codex thread found for pid "@ + decimal(pid as nat) + " cwd "@ + cwd,
        saved_target(target, Err(reason), threads, named) matches Err(error) && error_text(error)
            == "read cwd for pid "@ + decimal(pid as nat),
{
    law_first_thread_of_cwd(threads, cwd);
}

/// The thread that is resumed for `:cwd` is the first of the recent threads whose
/// working directory is exactly the current one, and there is none exactly where
/// no recent thread has it. Where the current directory could not be read, the
/// reason is given.
pub proof fn law_current_dir_resumes_its_thread(
    cwd: Seq<char>,
    reason: Seq<char>,
    threads: Seq<Thread>,
    named: Option<Thread>,
)
    ensures
        saved_target(":cwd"@, Ok(cwd), threads, named) matches Ok(thread) ==> thread.cwd@ == cwd
            && exists|i: int|
            0 <= i < threads.len() && #[trigger] threads[i] == thread && forall|j: int|
                0 <= j < i ==> (#[trigger] threads[j]).cwd@ != cwd,
        saved_target(":cwd"@, Ok(cwd), threads, named) is Err <==> forall|i: int|
            0 <= i < threads.len() ==> (#[trigger] threads[i]).cwd@ != cwd,
        saved_target(":cwd"@, Ok(cwd), threads, named) matches Err(error) ==> error_text(error)
            == "no Codex thread found for current cwd "@ + cwd,
        saved_target(":cwd"@, Err(reason), threads, named) matches Err(error) && error_text(error)
            == reason,
{
    law_kinds_of_targets(":cwd"@, 0);
    law_first_thread_of_cwd(threads, cwd);
}

/// A name means the thread that was found by it and no other, whatever the
/// directories of the recent threads; where none was found, the name is given.
pub proof fn law_name_resumes_the_named(
    target: Seq<char>,
    directory: Result<Seq<char>, Seq<char>>,
    threads: Seq<Thread>,
    thread: Thread,
)
    requires
        number_in(target) is None,
        target != ":cwd"@,
    ensures
        saved_target(target, directory, threads, Some(thread)) == Ok::<Thread, TargetErrorView>(
            thread,
        ),
        saved_target(target, directory, threads, None) matches Err(error) && error_text(error)
            == "resolve Codex session "@ + target,
{
}

/// The target is the id of the session's process, or `:cwd` where the thread of
/// the session has the current directory, or the id or title of that thread.
pub open spec fn has_target(
    session: RunningSession,
    target: Seq<char>,
    current_dir: Result<Seq<char>, Seq<char>>,
) -> bool {
    match number_in(target) {
        Some(pid) => session.pid == pid,
        None => session.inferred matches Some(thread) && if target == ":cwd"@ {
            current_dir == Ok::<Seq<char>, Seq<char>>(thread.cwd@)
        } else {
            thread.id@ == target || thread.title@ == target
        },
    }
}

/// The session at `i` is first meant where it is meant and none before it is.
proof fn lemma_first_meant_at(
    sessions: Seq<RunningSession>,
    i: int,
    kind: TargetKind,
    text: Seq<char>,
)
    requires
        0 <= i < sessions.len(),
        is_meant(sessions[i], kind, text),
        forall|j: int| 0 <= j < i ==> !is_meant(#[trigger] sessions[j], kind, text),
    ensures
        first_meant(sessions, kind, text) == Some(sessions[i]),
    decreases sessions.len(),
{
    if i > 0 {
        let tail = sessions.drop_first();
        assert(!is_meant(sessions[0], kind, text));
        assert(tail[i - 1] == sessions[i]);
        assert forall|j: int| 0 <= j < i - 1 implies !is_meant(#[trigger] tail[j], kind, text) by {
            assert(tail[j] == sessions[j + 1]);
        }
        lemma_first_meant_at(tail, i - 1, kind, text);
    }
}

/// No session is first meant where none is meant.
proof fn lemma_none_meant(sessions: Seq<RunningSession>, kind: TargetKind, text: Seq<char>)
    requires
        forall|j: int| 0 <= j < sessions.len() ==> !is_meant(#[trigger] sessions[j], kind, text),
    ensures
        first_meant(sessions, kind, text) is None,
{
    lemma_first_meant(sessions, kind, text);
    if let Some(session) = first_meant(sessions, kind, text) {
        let k = choose|k: int| 0 <= k < sessions.len() && sessions[k] == session;
        assert(!is_meant(sessions[k], kind, text));
    }
}

/// The first session that has the target is taken over: its process is ended and
/// its thread resumed. Where it has no thread, that is said.
pub proof fn law_first_with_target_is_taken_over(
    sessions: Seq<RunningSession>,
    target: Seq<char>,
    current_dir: Result<Seq<char>, Seq<char>>,
    i: int,
)
    requires
        0 <= i < sessions.len(),
        has_target(sessions[i], target, current_dir),
        forall|j: int| 0 <= j < i ==> !has_target(#[trigger] sessions[j], target, current_dir),
    ensures
        sessions[i].inferred matches Some(thread) ==> running_target(sessions, target, current_dir)
            == Ok::<(u32, Thread), TargetErrorView>((sessions[i].pid, thread)),
        sessions[i].inferred is None ==> (running_target(sessions, target, current_dir) matches Err(
            error,
        ) && error_text(error) == "pid "@ + decimal(sessions[i].pid as nat)
            + " is not matched to a Codex session"@),
{
    law_kinds_of_targets(target, sessions[i].pid);
    let kind = kind_of(target);
    let text = if kind is CurrentDir {
        current_dir->Ok_0
    } else {
        target
    };
    assert forall|j: int| 0 <= j < i implies !is_meant(#[trigger] sessions[j], kind, text) by {
        assert(!has_target(sessions[j], target, current_dir));
    }
    lemma_first_meant_at(sessions, i, kind, text);
}

/// Where no session has the target, none is taken over, and what was looked for
/// in vain is said.
pub proof fn law_none_with_target(
    sessions: Seq<RunningSession>,
    target: Seq<char>,
    current_dir: Result<Seq<char>, Seq<char>>,
)
    requires
        forall|j: int|
            0 <= j < sessions.len() ==> !has_target(#[trigger] sessions[j], target, current_dir),
    ensures
        running_target(sessions, target, current_dir) matches Err(error) && error_text(error) == (
        match number_in(target) {
            Some(pid) => "pid "@ + decimal(pid as nat) + " is not a running Codex process"@,
            None => if target != ":cwd"@ {
                "no running Codex session matched "@ + target
            } else {
                match current_dir {
                    Ok(cwd) => "no running Codex session found for current cwd "@ + cwd,
                    Err(reason) => reason,
                }
            },
        }),
{
    law_kinds_of_targets(target, 0);
    let kind = kind_of(target);
    let text = if kind is CurrentDir && current_dir is Ok {
        current_dir->Ok_0
    } else {
        target
    };
    if !(kind is CurrentDir && current_dir is Err) {
        assert forall|j: int| 0 <= j < sessions.len() implies !is_meant(
            #[trigger] sessions[j],
            kind,
            text,
        ) by {
            assert(!has_target(sessions[j], target, current_dir));
        }
        lemma_none_meant(sessions, kind, text);
    }
}

/// Whatever is taken over is what was asked for: the process of that id, a thread
/// whose working directory is exactly the current one, or a thread whose id or
/// title is exactly the target.
pub proof fn law_taken_over_is_asked_for(
    sessions: Seq<RunningSession>,
    target: Seq<char>,
    current_dir: Result<Seq<char>, Seq<char>>,
)
    ensures
        running_target(sessions, target, current_dir) matches Ok(found) ==> {
            &&& number_in(target) matches Some(pid) ==> found.0 == pid
            &&& target == ":cwd"@ ==> current_dir == Ok::<Seq<char>, Seq<char>>(found.1.cwd@)
            &&& number_in(target) is None && target != ":cwd"@ ==> found.1.id@ == target
                || found.1.title@ == target
        },
{
    law_kinds_of_targets(target, 0);
    let kind = kind_of(target);
    let text = if kind is CurrentDir && current_dir is Ok {
        current_dir->Ok_0
    } else {
        target
    };
    lemma_first_meant(sessions, kind, text);
}

/// A directory that was looked up is taken as the text that its bytes encode, and
/// the reason for which there is none as it was given.
pub proof fn law_directories_are_decoded(path: Vec<u8>, text: Seq<char>, reason: String)
    ensures
        path@ == encode_utf8(text) ==> directory_view(Ok(path)) == Ok::<Seq<char>, Seq<char>>(text),
        directory_view(Ok(path)) == Ok::<Seq<char>, Seq<char>>(shown(path@)),
        directory_view(Err(reason)) == Err::<Seq<char>, Seq<char>>(reason@),
{
    law_utf8_is_shown_as_it_is(text, path@);
}

/// For `:cwd` the first session is taken over whose thread has exactly the current
/// directory, and none exactly where no session has such a thread.
pub proof fn law_current_dir_is_taken_over(sessions: Seq<RunningSession>, cwd: Seq<char>)
    ensures
        running_target(sessions, ":cwd"@, Ok(cwd)) matches Ok(found) ==> found.1.cwd@ == cwd
            && exists|i: int|
            0 <= i < sessions.len() && (#[trigger] sessions[i]).pid == found.0
                && sessions[i].inferred == Some(found.1) && forall|j: int|
                0 <= j < i ==> ((#[trigger] sessions[j]).inferred matches Some(thread)
                    ==> thread.cwd@ != cwd),
        running_target(sessions, ":cwd"@, Ok(cwd)) is Err <==> forall|i: int|
            0 <= i < sessions.len() ==> ((#[trigger] sessions[i]).inferred matches Some(thread)
                ==> thread.cwd@ != cwd),
{
    law_kinds_of_targets(":cwd"@, 0);
    lemma_meant_first(sessions, TargetKind::CurrentDir, cwd);
}

/// For a name the first session is taken over whose thread has exactly that id or
/// title, and none exactly where no session has such a thread.
pub proof fn law_named_thread_is_taken_over(
    sessions: Seq<RunningSession>,
    target: Seq<char>,
    current_dir: Result<Seq<char>, Seq<char>>,
)
    requires
        number_in(target) is None,
        target != ":cwd"@,
    ensures
        running_target(sessions, target, current_dir) matches Ok(found) ==> (found.1.id@ == target
            || found.1.title@ == target) && exists|i: int|
            0 <= i < sessions.len() && (#[trigger] sessions[i]).pid == found.0
                && sessions[i].inferred == Some(found.1) && forall|j: int|
                0 <= j < i ==> ((#[trigger] sessions[j]).inferred matches Some(thread)
                    ==> thread.id@ != target && thread.title@ != target),
        running_target(sessions, target, current_dir) is Err <==> forall|i: int|
            0 <= i < sessions.len() ==> ((#[trigger] sessions[i]).inferred matches Some(thread)
                ==> thread.id@ != target && thread.title@ != target),
{
    lemma_meant_first(sessions, TargetKind::Name, target);
}

/// For a number the first session of that process id is taken over, and none
/// exactly where no session has that id or the first that has it has no thread.
pub proof fn law_process_is_taken_over(
    sessions: Seq<RunningSession>,
    target: Seq<char>,
    pid: u32,
    current_dir: Result<Seq<char>, Seq<char>>,
)
    requires
        number_in(target) == Some(pid),
    ensures
        running_target(sessions, target, current_dir) matches Ok(found) ==> found.0 == pid
            && exists|i: int|
            0 <= i < sessions.len() && (#[trigger] sessions[i]).pid == pid && sessions[i].inferred
                == Some(found.1) && forall|j: int|
                0 <= j < i ==> (#[trigger] sessions[j]).pid != pid,
        running_target(sessions, target, current_dir) is Err <==> (forall|i: int|
            0 <= i < sessions.len() ==> (#[trigger] sessions[i]).pid != pid) || exists|i: int|
            0 <= i < sessions.len() && (#[trigger] sessions[i]).pid == pid
                && sessions[i].inferred is None && forall|j: int|
                0 <= j < i ==> (#[trigger] sessions[j]).pid != pid,
{
    lemma_meant_first(sessions, TargetKind::Pid(pid), target);
}

/// Where a session is first meant, it stands at a place before which none is
/// meant; where none is first meant, none is meant.
proof fn lemma_meant_first(sessions: Seq<RunningSession>, kind: TargetKind, text: Seq<char>)
    ensures
        match first_meant(sessions, kind, text) {
            Some(session) => exists|i: int|
                0 <= i < sessions.len() && #[trigger] sessions[i] == session && is_meant(
                    session,
                    kind,
                    text,
                ) && forall|j: int| 0 <= j < i ==> !is_meant(#[trigger] sessions[j], kind, text),
            None => forall|j: int|
                0 <= j < sessions.len() ==> !is_meant(#[trigger] sessions[j], kind, text),
        },
    decreases sessions.len(),
{
    if sessions.len() > 0 {
        let tail = sessions.drop_first();
        lemma_meant_first(tail, kind, text);
        if is_meant(sessions[0], kind, text) {
            assert(sessions[0] == first_meant(sessions, kind, text)->0);
        } else {
            match first_meant(tail, kind, text) {
                Some(session) => {
                    let k = choose|k: int|
                        0 <= k < tail.len() && #[trigger] tail[k] == session && is_meant(
                            session,
                            kind,
                            text,
                        ) && forall|j: int|
                            0 <= j < k ==> !is_meant(#[trigger] tail[j], kind, text);
                    assert(sessions[k + 1] == session);
                    assert forall|j: int| 0 <= j < k + 1 implies !is_meant(
                        #[trigger] sessions[j],
                        kind,
                        text,
                    ) by {
                        if j > 0 {
                            assert(sessions[j] == tail[j - 1]);
                        }
                    }
                },
                None => {
                    assert forall|j: int| 0 <= j < sessions.len() implies !is_meant(
                        #[trigger] sessions[j],
                        kind,
                        text,
                    ) by {
                        if j > 0 {
                            assert(sessions[j] == tail[j - 1]);
                        }
                    }
                },
            }
        }
    }
}

} // verus!
