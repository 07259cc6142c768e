//! The requests that the daemon takes, and what it answers.

use crate::resolve::{
    directory_view, error_text, law_taken_over_session_is_listed, resolve_running_target,
    resolve_target, running_target, saved_target, TargetErrorView,
};
use crate::resume::{
    law_words_of_the_command, resume_argv, resume_command, steps_to_continue, steps_to_take_over, StepView,
};
use crate::session::{RunningSession, Thread};
use crate::text::{slice_view, view_of, views};
use vstd::prelude::*;

verus! {

broadcast use vstd::string::group_string_axioms;

/// A request to the daemon.
#[derive(Debug)]
pub enum Request {
    List,
    Status,
    Resolve { target: String, prompt: Option<String> },
    Takeover { target: String, prompt: Option<String> },
}

/// An answer of the daemon.
#[derive(Debug)]
pub enum Response {
    Sessions { sessions: Vec<RunningSession> },
    ResumeCommand { argv: Vec<String>, session: Box<Thread> },
    TakeoverCommand { pid: u32, argv: Vec<String>, session: Box<Thread> },
    Error { message: String },
}

/// A `Response` with its texts as sequences of characters.
pub enum ResponseView {
    Sessions { sessions: Seq<RunningSession> },
    ResumeCommand { argv: Seq<Seq<char>>, session: Thread },
    TakeoverCommand { pid: u32, argv: Seq<Seq<char>>, session: Thread },
    Error { message: Seq<char> },
}

impl View for Response {
    type V = ResponseView;

    open spec fn view(&self) -> ResponseView {
        match *self {
            Response::Sessions { sessions } => ResponseView::Sessions { sessions: sessions@ },
            Response::ResumeCommand { argv, session } => ResponseView::ResumeCommand {
                argv: views(argv@),
                session: *session,
            },
            Response::TakeoverCommand { pid, argv, session } => ResponseView::TakeoverCommand {
                pid,
                argv: views(argv@),
                session: *session,
            },
            Response::Error { message } => ResponseView::Error { message: message@ },
        }
    }
}

/// What has to be found out before a request can be answered.
#[derive(Debug)]
pub enum Inquiry {
    /// Which sessions are running.
    Sessions,
    /// Which saved thread this target means.
    SavedThread { target: String },
}

/// An `Inquiry` with its text as a sequence of characters.
pub enum InquiryView {
    Sessions,
    SavedThread { target: Seq<char> },
}

impl View for Inquiry {
    type V = InquiryView;

    open spec fn view(&self) -> InquiryView {
        match *self {
            Inquiry::Sessions => InquiryView::Sessions,
            Inquiry::SavedThread { target } => InquiryView::SavedThread { target: target@ },
        }
    }
}

/// What has to be found out before a request can be answered. A takeover needs
/// the running sessions too, to see which of them its target means.
pub open spec fn inquiry_of(request: Request) -> InquiryView {
    match request {
        Request::List => InquiryView::Sessions,
        Request::Status => InquiryView::Sessions,
        Request::Resolve { target, .. } => InquiryView::SavedThread { target: target@ },
        Request::Takeover { .. } => InquiryView::Sessions,
    }
}

/// What has to be found out before `request` can be answered.
pub fn inquiry(request: &Request) -> (r: Inquiry)
    ensures
        r@ == inquiry_of(*request),
{
    match request {
        Request::List => Inquiry::Sessions,
        Request::Status => Inquiry::Sessions,
        Request::Resolve { target, .. } => Inquiry::SavedThread { target: target.clone() },
        Request::Takeover { .. } => Inquiry::Sessions,
    }
}

/// What was found out for a request, or why it could not be.
#[derive(Debug)]
pub enum Finding {
    /// The running sessions, and the current directory for a target that means it.
    Sessions { sessions: Vec<RunningSession>, current_dir: Result<Vec<u8>, String> },
    /// What a saved thread is looked up by: the directory that the target stands
    /// for, the recent threads, and the thread that the target is the name of.
    Saved {
        directory: Result<Vec<u8>, String>,
        threads: Vec<Thread>,
        named: Option<Thread>,
    },
    /// Nothing, for this reason.
    Failure { message: String },
}

/// The answer to a request for the command that resumes a thread, given the
/// thread, or why there is none.
pub open spec fn resume_answer(
    codex_bin: Seq<char>,
    prompt: Option<Seq<char>>,
    found: Result<Thread, TargetErrorView>,
) -> ResponseView {
    match found {
        Ok(thread) => ResponseView::ResumeCommand {
            argv: resume_command(codex_bin, thread, prompt),
            session: thread,
        },
        Err(error) => ResponseView::Error { message: error_text(error) },
    }
}

/// The answer to a takeover, given the process and the thread, or why there is
/// none.
pub open spec fn takeover_answer(
    codex_bin: Seq<char>,
    prompt: Option<Seq<char>>,
    found: Result<(u32, Thread), TargetErrorView>,
) -> ResponseView {
    match found {
        Ok(process) => ResponseView::TakeoverCommand {
            pid: process.0,
            argv: resume_command(codex_bin, process.1, prompt),
            session: process.1,
        },
        Err(error) => ResponseView::Error { message: error_text(error) },
    }
}

/// The finding is of the kind that the request called for.
pub open spec fn fits(request: Request, finding: Finding) -> bool {
    match finding {
        Finding::Sessions { .. } => inquiry_of(request) is Sessions,
        Finding::Saved { .. } => inquiry_of(request) is SavedThread,
        Finding::Failure { .. } => true,
    }
}

/// The answer to a request, given what was found out for it.
pub open spec fn answer(codex_bin: Seq<char>, request: Request, finding: Finding) -> ResponseView
    recommends
        fits(request, finding),
{
    match (request, finding) {
        (_, Finding::Failure { message }) => ResponseView::Error { message: message@ },
        (
            Request::Resolve { target, prompt },
            Finding::Saved { directory, threads, named },
        ) => resume_answer(
            codex_bin,
            view_of(prompt),
            saved_target(target@, directory_view(directory), threads@, named),
        ),
        (
            Request::Takeover { target, prompt },
            Finding::Sessions { sessions, current_dir },
        ) => takeover_answer(
            codex_bin,
            view_of(prompt),
            running_target(sessions@, target@, directory_view(current_dir)),
        ),
        (_, Finding::Sessions { sessions, .. }) => ResponseView::Sessions { sessions: sessions@ },
        (_, Finding::Saved { .. }) => arbitrary(),
    }
}

/// An optional string as a slice.
fn as_slice(text: &Option<String>) -> (r: Option<&str>)
    ensures
        slice_view(r) == view_of(*text),
{
    match text {
        Some(t) => Some(t.as_str()),
        None => None,
    }
}

/// The answer to a request for the command that resumes the saved thread which
/// `target` means.
fn respond_resume(
    codex_bin: &str,
    target: &str,
    prompt: Option<&str>,
    directory: Result<Vec<u8>, String>,
    threads: &[Thread],
    named: Option<Thread>,
) -> (r: Response)
    ensures
        r@ == resume_answer(
            codex_bin@,
            slice_view(prompt),
            saved_target(target@, directory_view(directory), threads@, named),
        ),
{
    match resolve_target(target, directory, threads, named) {
        Ok(thread) => {
            let argv = resume_argv(codex_bin, &thread, prompt);
            Response::ResumeCommand { argv, session: Box::new(thread) }
        },
        Err(error) => Response::Error { message: error.message() },
    }
}

/// The answer to a request to take over the running session which `target` means.
fn respond_takeover(
    codex_bin: &str,
    target: &str,
    prompt: Option<&str>,
    sessions: &[RunningSession],
    current_dir: Result<Vec<u8>, String>,
) -> (r: Response)
    ensures
        r@ == takeover_answer(
            codex_bin@,
            slice_view(prompt),
            running_target(sessions@, target@, directory_view(current_dir)),
        ),
{
    match resolve_running_target(sessions, target, current_dir) {
        Ok((pid, thread)) => {
            let argv = resume_argv(codex_bin, &thread, prompt);
            Response::TakeoverCommand { pid, argv, session: Box::new(thread) }
        },
        Err(error) => Response::Error { message: error.message() },
    }
}

/// The answer to `request`, given what was found out for it.
pub fn respond(codex_bin: &str, request: Request, finding: Finding) -> (r: Response)
    requires
        fits(request, finding),
    ensures
        r@ == answer(codex_bin@, request, finding),
{
    match finding {
        Finding::Failure { message } => Response::Error { message },
        Finding::Saved { directory, threads, named } => match request {
            Request::Resolve { target, prompt } => respond_resume(
                codex_bin,
                target.as_str(),
                as_slice(&prompt),
                directory,
                threads.as_slice(),
                named,
            ),
            _ => {
                assert(false);
                Response::Error { message: String::new() }
            },
        },
        Finding::Sessions { sessions, current_dir } => match request {
            Request::Takeover { target, prompt } => respond_takeover(
                codex_bin,
                target.as_str(),
                as_slice(&prompt),
                sessions.as_slice(),
                current_dir,
            ),
            _ => Response::Sessions { sessions },
        },
    }
}

/// The answer to what is no request, with the reason.
pub fn refuse(message: String) -> (r: Response)
    ensures
        r@ == (ResponseView::Error { message: message@ }),
{
    Response::Error { message }
}

// ---------------------------------------------------------------------------
// Laws
// ---------------------------------------------------------------------------

/// A request for which nothing could be found out is answered with the reason, and
/// with nothing else.
pub proof fn law_failure_is_answered(codex_bin: Seq<char>, request: Request, message: String)
    ensures
        answer(codex_bin, request, Finding::Failure { message }) == (ResponseView::Error {
            message: message@,
        }),
{
}

/// `status` is answered as `list` is.
pub proof fn law_status_is_list(codex_bin: Seq<char>, finding: Finding)
    requires
        fits(Request::List, finding),
    ensures
        fits(Request::Status, finding),
        answer(codex_bin, Request::Status, finding) == answer(codex_bin, Request::List, finding),
{
}

/// A takeover that is answered with a command names a process of a listed session
/// and resumes the thread matched to it.
pub proof fn law_takeover_answer_is_listed(
    codex_bin: Seq<char>,
    request: Request,
    sessions: Vec<RunningSession>,
    current_dir: Result<Vec<u8>, String>,
)
    ensures
        answer(codex_bin, request, Finding::Sessions { sessions, current_dir })
            matches ResponseView::TakeoverCommand { pid, session, .. } ==> exists|i: int|
            0 <= i < sessions@.len() && (#[trigger] sessions@[i]).pid == pid
                && sessions@[i].inferred == Some(session),
{
    if let Request::Takeover { target, prompt } = request {
        law_taken_over_session_is_listed(
            sessions@,
            target@,
            directory_view(current_dir),
        );
    }
}

/// The command that a request to resume is answered with is the one that would be
/// executed for the thread on the command line.
pub proof fn law_resume_answer_is_what_runs(codex_bin: Seq<char>, request: Request, finding: Finding)
    requires
        fits(request, finding),
    ensures
        answer(codex_bin, request, finding) matches ResponseView::ResumeCommand { argv, session }
            ==> request matches Request::Resolve { prompt, .. } && steps_to_continue(
            codex_bin,
            session,
            view_of(prompt),
            false,
        ) == seq![StepView::Execute { argv, cwd: session.cwd@ }],
{
}

/// The process and the command that a takeover is answered with are those that
/// would be ended and executed on the command line.
pub proof fn law_takeover_answer_is_what_runs(
    codex_bin: Seq<char>,
    request: Request,
    finding: Finding,
)
    requires
        fits(request, finding),
    ensures
        answer(codex_bin, request, finding) matches ResponseView::TakeoverCommand {
            pid,
            argv,
            session,
        } ==> request matches Request::Takeover { prompt, .. } && steps_to_take_over(
            codex_bin,
            pid,
            session,
            view_of(prompt),
            false,
        ) == seq![
            StepView::CheckCwd(session.cwd@),
            StepView::Terminate(pid),
            StepView::Execute { argv, cwd: session.cwd@ },
        ],
{
}

/// To answer a request for the saved thread of a target, that target is looked up;
/// to answer any other, the running sessions are.
pub proof fn law_inquiries_of_requests(target: String, prompt: Option<String>)
    ensures
        inquiry_of(Request::List) == InquiryView::Sessions,
        inquiry_of(Request::Status) == InquiryView::Sessions,
        inquiry_of(Request::Takeover { target, prompt }) == InquiryView::Sessions,
        inquiry_of(Request::Resolve { target, prompt }) == (InquiryView::SavedThread {
            target: target@,
        }),
{
}

/// A list holds every session that was found, as it was found.
pub proof fn law_list_holds_all_sessions(
    codex_bin: Seq<char>,
    sessions: Vec<RunningSession>,
    current_dir: Result<Vec<u8>, String>,
)
    ensures
        answer(codex_bin, Request::List, Finding::Sessions { sessions, current_dir }) == (
        ResponseView::Sessions { sessions: sessions@ }),
        answer(codex_bin, Request::Status, Finding::Sessions { sessions, current_dir }) == (
        ResponseView::Sessions { sessions: sessions@ }),
{
}

/// The words that resume a thread: the program, `resume`, the thread's id, `--cd`,
/// its working directory, and the prompt where there is one.
pub open spec fn resumes(
    argv: Seq<Seq<char>>,
    codex_bin: Seq<char>,
    thread: Thread,
    prompt: Option<Seq<char>>,
) -> bool {
    &&& argv.len() == if prompt is Some {
        6int
    } else {
        5int
    }
    &&& argv[0] == codex_bin
    &&& argv[1] == "resume"@
    &&& argv[2] == thread.id@
    &&& argv[3] == "--cd"@
    &&& argv[4] == thread.cwd@
    &&& prompt matches Some(text) ==> argv[5] == text
}

/// A request to resume is answered with the thread that its target means and the
/// words that resume this very thread with its prompt, or with what is said of the
/// target where it means none.
pub proof fn law_resolve_is_answered(
    codex_bin: Seq<char>,
    target: String,
    prompt: Option<String>,
    directory: Result<Vec<u8>, String>,
    threads: Vec<Thread>,
    named: Option<Thread>,
)
    ensures
        match saved_target(target@, directory_view(directory), threads@, named) {
            Ok(thread) => answer(
                codex_bin,
                Request::Resolve { target, prompt },
                Finding::Saved { directory, threads, named },
            ) matches ResponseView::ResumeCommand { argv, session } && session == thread && resumes(
                argv,
                codex_bin,
                thread,
                view_of(prompt),
            ),
            Err(error) => answer(
                codex_bin,
                Request::Resolve { target, prompt },
                Finding::Saved { directory, threads, named },
            ) == (ResponseView::Error { message: error_text(error) }),
        },
{
    if let Ok(thread) = saved_target(target@, directory_view(directory), threads@, named) {
        law_words_of_the_command(codex_bin, thread, view_of(prompt));
    }
}

/// A takeover is answered with the process and the thread that its target means
/// and the words that resume this very thread with its prompt, or with what is
/// said of the target where it means none.
pub proof fn law_takeover_is_answered(
    codex_bin: Seq<char>,
    target: String,
    prompt: Option<String>,
    sessions: Vec<RunningSession>,
    current_dir: Result<Vec<u8>, String>,
)
    ensures
        match running_target(sessions@, target@, directory_view(current_dir)) {
            Ok(found) => answer(
                codex_bin,
                Request::Takeover { target, prompt },
                Finding::Sessions { sessions, current_dir },
            ) matches ResponseView::TakeoverCommand { pid, argv, session } && pid == found.0
                && session == found.1 && resumes(argv, codex_bin, found.1, view_of(prompt)),
            Err(error) => answer(
                codex_bin,
                Request::Takeover { target, prompt },
                Finding::Sessions { sessions, current_dir },
            ) == (ResponseView::Error { message: error_text(error) }),
        },
{
    if let Ok(found) = running_target(sessions@, target@, directory_view(current_dir)) {
        law_words_of_the_command(codex_bin, found.1, view_of(prompt));
    }
}

} // verus!
