//! Saved threads and running sessions.

use crate::text::{copy_text, same_text};
use vstd::prelude::*;

verus! {

broadcast use vstd::string::group_string_axioms;

/// How many of the threads that were updated last processes are matched against.
pub const RECENT_THREADS: u32 = 500;

/// What a session appears to be doing.
#[derive(Debug, Clone, Copy, PartialEq, Eq, Structural)]
pub enum SessionStatus {
    Working,
    WaitingUserInput,
    Malfunction,
}

/// A thread as the state database has it.
#[derive(Debug)]
pub struct Thread {
    pub id: String,
    pub rollout_path: String,
    pub cwd: String,
    pub title: String,
    pub updated_at: i64,
    pub updated_at_ms: Option<i64>,
    pub model: Option<String>,
    pub model_provider: String,
    pub sandbox_policy: String,
    pub approval_mode: String,
    pub cli_version: String,
}

impl Clone for Thread {
    fn clone(&self) -> (r: Self)
        ensures
            r == *self,
    {
        Thread {
            id: self.id.clone(),
            rollout_path: self.rollout_path.clone(),
            cwd: self.cwd.clone(),
            title: self.title.clone(),
            updated_at: self.updated_at,
            updated_at_ms: self.updated_at_ms,
            model: copy_text(&self.model),
            model_provider: self.model_provider.clone(),
            sandbox_policy: self.sandbox_policy.clone(),
            approval_mode: self.approval_mode.clone(),
            cli_version: self.cli_version.clone(),
        }
    }
}

/// A running Codex process, with the thread it was matched to.
#[derive(Debug)]
pub struct RunningSession {
    pub pid: u32,
    pub ppid: u32,
    pub process_cwd: String,
    pub cmdline: String,
    pub status: SessionStatus,
    pub status_detail: String,
    pub last_event_at_ms: Option<i64>,
    pub inferred: Option<Thread>,
}

impl Clone for RunningSession {
    fn clone(&self) -> (r: Self)
        ensures
            r == *self,
    {
        RunningSession {
            pid: self.pid,
            ppid: self.ppid,
            process_cwd: self.process_cwd.clone(),
            cmdline: self.cmdline.clone(),
            status: self.status,
            status_detail: self.status_detail.clone(),
            last_event_at_ms: self.last_event_at_ms,
            inferred: copy_thread(&self.inferred),
        }
    }
}

/// A `RunningSession` with its own texts as sequences of characters.
pub struct SessionView {
    pub pid: u32,
    pub ppid: u32,
    pub process_cwd: Seq<char>,
    pub cmdline: Seq<char>,
    pub status: SessionStatus,
    pub status_detail: Seq<char>,
    pub last_event_at_ms: Option<i64>,
    pub inferred: Option<Thread>,
}

impl View for RunningSession {
    type V = SessionView;

    open spec fn view(&self) -> SessionView {
        SessionView {
            pid: self.pid,
            ppid: self.ppid,
            process_cwd: self.process_cwd@,
            cmdline: self.cmdline@,
            status: self.status,
            status_detail: self.status_detail@,
            last_event_at_ms: self.last_event_at_ms,
            inferred: self.inferred,
        }
    }
}

/// The views of a list of sessions.
pub open spec fn session_views(list: Seq<RunningSession>) -> Seq<SessionView> {
    list.map_values(|s: RunningSession| s@)
}

/// A copy of an optional thread.
pub fn copy_thread(thread: &Option<Thread>) -> (r: Option<Thread>)
    ensures
        r == *thread,
{
    match thread {
        Some(t) => Some(t.clone()),
        None => None,
    }
}

/// The first of `threads` whose working directory is `cwd`.
pub open spec fn thread_for_cwd(threads: Seq<Thread>, cwd: Seq<char>) -> Option<Thread>
    decreases threads.len(),
{
    if threads.len() == 0 {
        None
    } else if threads[0].cwd@ == cwd {
        Some(threads[0])
    } else {
        thread_for_cwd(threads.drop_first(), cwd)
    }
}

/// The first of `threads` whose working directory is `cwd`.
pub fn infer_thread_for_cwd<'a>(threads: &'a [Thread], cwd: &str) -> (r: Option<&'a Thread>)
    ensures
        match r {
            Some(thread) => thread_for_cwd(threads@, cwd@) == Some(*thread),
            None => thread_for_cwd(threads@, cwd@) is None,
        },
{
    let mut i: usize = 0;
    assert(threads@.skip(0) =~= threads@);
    while i < threads.len()
        invariant
            i <= threads@.len(),
            thread_for_cwd(threads@.skip(i as int), cwd@) == thread_for_cwd(threads@, cwd@),
        decreases threads@.len() - i,
    {
        let ghost rest = threads@.skip(i as int);
        assert(rest[0] == threads@[i as int]);
        assert(rest.drop_first() =~= threads@.skip(i + 1));
        if same_text(threads[i].cwd.as_str(), cwd) {
            return Some(&threads[i]);
        }
        i += 1;
    }
    None
}

// ---------------------------------------------------------------------------
// Laws
// ---------------------------------------------------------------------------

/// When a thread was last updated, in milliseconds since the Unix epoch.
pub open spec fn recency(thread: Thread) -> int {
    match thread.updated_at_ms {
        Some(ms) => ms as int,
        None => thread.updated_at * 1000,
    }
}

/// No thread is followed by a newer one.
pub open spec fn newest_first(threads: Seq<Thread>) -> bool {
    forall|i: int, j: int|
        0 <= i < j < threads.len() ==> recency(#[trigger] threads[i]) >= recency(
            #[trigger] threads[j],
        )
}

/// The thread found for a working directory is one of the threads and has that
/// directory; none is found exactly where no thread has it.
pub proof fn law_found_thread_has_cwd(threads: Seq<Thread>, cwd: Seq<char>)
    ensures
        match thread_for_cwd(threads, cwd) {
            Some(found) => threads.contains(found) && found.cwd@ == cwd,
            None => forall|i: int|
                0 <= i < threads.len() ==> (#[trigger] threads[i]).cwd@ != cwd,
        },
    decreases threads.len(),
{
    if threads.len() > 0 {
        let tail = threads.drop_first();
        law_found_thread_has_cwd(tail, cwd);
        if threads[0].cwd@ == cwd {
            assert(threads.contains(threads[0]));
        } else {
            match thread_for_cwd(tail, cwd) {
                Some(found) => {
                    let k = choose|k: int| 0 <= k < tail.len() && tail[k] == found;
                    assert(threads[k + 1] == found);
                },
                None => {
                    assert forall|i: int| 0 <= i < threads.len() implies (
                    #[trigger] threads[i]).cwd@ != cwd by {
                        if i > 0 {
                            assert(threads[i] == tail[i - 1]);
                        }
                    }
                },
            }
        }
    }
}

/// Where the threads come newest first, the thread found for a working directory
/// is the newest one that has it.
pub proof fn law_newest_matching_cwd(threads: Seq<Thread>, cwd: Seq<char>, i: int)
    requires
        newest_first(threads),
        0 <= i < threads.len(),
        threads[i].cwd@ == cwd,
    ensures
        thread_for_cwd(threads, cwd) is Some,
        recency(thread_for_cwd(threads, cwd)->0) >= recency(threads[i]),
    decreases threads.len(),
{
    if threads[0].cwd@ == cwd {
        assert(i == 0 || recency(threads[0]) >= recency(threads[i]));
    } else {
        let tail = threads.drop_first();
        assert forall|a: int, b: int| 0 <= a < b < tail.len() implies recency(
            #[trigger] tail[a],
        ) >= recency(#[trigger] tail[b]) by {
            assert(tail[a] == threads[a + 1]);
            assert(tail[b] == threads[b + 1]);
        }
        assert(tail[i - 1] == threads[i]);
        law_newest_matching_cwd(tail, cwd, i - 1);
    }
}

/// The thread found for a working directory stands at the first place where a
/// thread has exactly that directory.
pub proof fn law_first_thread_of_cwd(threads: Seq<Thread>, cwd: Seq<char>)
    ensures
        thread_for_cwd(threads, cwd) matches Some(found) ==> exists|i: int|
            0 <= i < threads.len() && #[trigger] threads[i] == found && threads[i].cwd@ == cwd
                && forall|j: int| 0 <= j < i ==> (#[trigger] threads[j]).cwd@ != cwd,
        thread_for_cwd(threads, cwd) is None <==> forall|i: int|
            0 <= i < threads.len() ==> (#[trigger] threads[i]).cwd@ != cwd,
    decreases threads.len(),
{
    law_found_thread_has_cwd(threads, cwd);
    if threads.len() > 0 {
        let tail = threads.drop_first();
        if threads[0].cwd@ == cwd {
            assert(threads[0] == thread_for_cwd(threads, cwd)->0);
        } else {
            law_first_thread_of_cwd(tail, cwd);
            if let Some(found) = thread_for_cwd(tail, cwd) {
                let k = choose|k: int|
                    0 <= k < tail.len() && #[trigger] tail[k] == found && tail[k].cwd@ == cwd
                        && forall|j: int| 0 <= j < k ==> (#[trigger] tail[j]).cwd@ != cwd;
                assert(threads[k + 1] == found);
                assert forall|j: int| 0 <= j < k + 1 implies (#[trigger] threads[j]).cwd@
                    != cwd by {
                    if j > 0 {
                        assert(threads[j] == tail[j - 1]);
                    }
                }
            }
        }
    }
}

/// A thread was last updated at the milliseconds it records, else at its seconds.
pub proof fn law_recency(thread: Thread)
    ensures
        thread.updated_at_ms matches Some(ms) ==> recency(thread) == ms,
        thread.updated_at_ms is None ==> recency(thread) == 1000 * thread.updated_at,
{
}

} // verus!
