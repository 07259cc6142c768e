use css::daemon::{inquiry, refuse, respond, Finding, Inquiry, Request, Response};
use css::resolve::{resolve_running_target, resolve_target, target_kind, TargetError, TargetKind};
use css::resume::{continue_steps, takeover_steps, Step};
use css::session::{RunningSession, SessionStatus, Thread};
use css::terminate::{
    survived_text, unsent_text, KillAction, KillEvent, Signal, Termination, PAUSE_MS,
};

fn thread(id: &str, cwd: &str) -> Thread {
    Thread {
        id: id.to_string(),
        rollout_path: "/r".to_string(),
        cwd: cwd.to_string(),
        title: format!("title of {}", id),
        updated_at: 1,
        updated_at_ms: None,
        model: None,
        model_provider: "openai".to_string(),
        sandbox_policy: "workspace-write".to_string(),
        approval_mode: "on-request".to_string(),
        cli_version: "0.0.0".to_string(),
    }
}

fn session(pid: u32, inferred: Option<Thread>) -> RunningSession {
    RunningSession {
        pid,
        ppid: 1,
        process_cwd: "/p".to_string(),
        cmdline: "codex".to_string(),
        status: SessionStatus::Working,
        status_detail: "busy".to_string(),
        last_event_at_ms: None,
        inferred,
    }
}

fn dir(path: &str) -> Result<Vec<u8>, String> {
    Ok(path.as_bytes().to_vec())
}

fn unread() -> Result<Vec<u8>, String> {
    Err("no such directory".to_string())
}

#[test]
fn kinds_of_targets() {
    assert_eq!(target_kind("42"), TargetKind::Pid(42));
    assert_eq!(target_kind("+42"), TargetKind::Pid(42));
    assert_eq!(target_kind("4294967296"), TargetKind::Name);
    assert_eq!(target_kind(":cwd"), TargetKind::CurrentDir);
    assert_eq!(target_kind(":CWD"), TargetKind::Name);
    assert_eq!(target_kind(""), TargetKind::Name);
}

#[test]
fn saved_threads_are_resolved() {
    let threads = vec![thread("a", "/x"), thread("b", "/x"), thread("c", "/y")];
    assert_eq!(resolve_target("7", dir("/x"), &threads, None).unwrap().id, "a");
    assert_eq!(resolve_target(":cwd", dir("/y"), &threads, None).unwrap().id, "c");
    let named = Some(thread("z", "/z"));
    assert_eq!(resolve_target("title of z", unread(), &[], named).unwrap().id, "z");
}

#[test]
fn saved_threads_that_are_not_there() {
    let threads = vec![thread("a", "/x")];
    let message = |target: &str, directory: Result<Vec<u8>, String>| {
        resolve_target(target, directory, &threads, None).unwrap_err().message()
    };
    assert_eq!(message("7", unread()), "read cwd for pid 7");
    assert_eq!(message("7", dir("/q")), "no Codex thread found for pid 7 cwd /q");
    assert_eq!(message(":cwd", unread()), "no such directory");
    assert_eq!(message(":cwd", dir("/q")), "no Codex thread found for current cwd /q");
    assert_eq!(message("a", dir("/x")), "resolve Codex session a");
}

#[test]
fn running_sessions_are_resolved() {
    let sessions = vec![
        session(3, None),
        session(4, Some(thread("a", "/x"))),
        session(5, Some(thread("b", "/x"))),
    ];
    let found = |target: &str, directory: Result<Vec<u8>, String>| {
        let (pid, thread) = resolve_running_target(&sessions, target, directory).unwrap();
        (pid, thread.id)
    };
    assert_eq!(found("5", unread()), (5, "b".to_string()));
    assert_eq!(found(":cwd", dir("/x")), (4, "a".to_string()));
    assert_eq!(found("b", unread()), (5, "b".to_string()));
    assert_eq!(found("title of b", unread()), (5, "b".to_string()));
}

#[test]
fn running_sessions_that_are_not_there() {
    let sessions = vec![session(3, None), session(4, Some(thread("a", "/x")))];
    let error = |target: &str, directory: Result<Vec<u8>, String>| {
        resolve_running_target(&sessions, target, directory).unwrap_err()
    };
    assert_eq!(error("9", unread()).message(), "pid 9 is not a running Codex process");
    assert_eq!(error("3", unread()).message(), "pid 3 is not matched to a Codex session");
    assert_eq!(
        error(":cwd", dir("/p")).message(),
        "no running Codex session found for current cwd /p"
    );
    assert_eq!(error("zz", unread()).message(), "no running Codex session matched zz");
    let unread_dir = error(":cwd", unread());
    assert!(matches!(&unread_dir, TargetError::UnreadableCurrentDir { .. }));
    assert_eq!(unread_dir.message(), "no such directory");
}

#[test]
fn requests_call_for_inquiries() {
    let resolve = Request::Resolve { target: "a".to_string(), prompt: None };
    let takeover = Request::Takeover { target: "a".to_string(), prompt: None };
    assert!(matches!(inquiry(&Request::List), Inquiry::Sessions));
    assert!(matches!(inquiry(&Request::Status), Inquiry::Sessions));
    assert!(matches!(inquiry(&resolve), Inquiry::SavedThread { target } if target == "a"));
    assert!(matches!(inquiry(&takeover), Inquiry::Sessions));
}

#[test]
fn sessions_are_answered() {
    for request in [Request::List, Request::Status] {
        let finding = Finding::Sessions {
            sessions: vec![session(3, None)],
            current_dir: unread(),
        };
        match respond("codex", request, finding) {
            Response::Sessions { sessions } => assert_eq!(sessions[0].pid, 3),
            other => panic!("unexpected {:?}", other),
        }
    }
}

#[test]
fn resume_commands_are_answered() {
    let ask = |target: &str| Request::Resolve {
        target: target.to_string(),
        prompt: Some("go".to_string()),
    };
    let finding = |named: Option<Thread>| Finding::Saved {
        directory: dir("/x"),
        threads: vec![thread("a", "/x")],
        named,
    };
    match respond("bin", ask("7"), finding(None)) {
        Response::ResumeCommand { argv, session } => {
            assert_eq!(argv, vec!["bin", "resume", "a", "--cd", "/x", "go"]);
            assert_eq!(session.id, "a");
        }
        other => panic!("unexpected {:?}", other),
    }
    match respond("bin", ask("nobody"), finding(None)) {
        Response::Error { message } => assert_eq!(message, "resolve Codex session nobody"),
        other => panic!("unexpected {:?}", other),
    }
}

#[test]
fn takeover_commands_are_answered() {
    let ask = |target: &str| Request::Takeover { target: target.to_string(), prompt: None };
    let finding = || Finding::Sessions {
        sessions: vec![session(4, Some(thread("a", "/x")))],
        current_dir: dir("/x"),
    };
    match respond("bin", ask(":cwd"), finding()) {
        Response::TakeoverCommand { pid, argv, session } => {
            assert_eq!(pid, 4);
            assert_eq!(argv, vec!["bin", "resume", "a", "--cd", "/x"]);
            assert_eq!(session.id, "a");
        }
        other => panic!("unexpected {:?}", other),
    }
    match respond("bin", ask("5"), finding()) {
        Response::Error { message } => assert_eq!(message, "pid 5 is not a running Codex process"),
        other => panic!("unexpected {:?}", other),
    }
}

#[test]
fn answers_are_what_the_command_line_runs() {
    let resolve = Request::Resolve { target: "a".to_string(), prompt: Some("go".to_string()) };
    let saved = Finding::Saved {
        directory: unread(),
        threads: vec![],
        named: Some(thread("a", "/x")),
    };
    match respond("bin", resolve, saved) {
        Response::ResumeCommand { argv, session } => {
            match &continue_steps("bin", &session, Some("go"), false)[0] {
                Step::Execute { argv: run, .. } => assert_eq!(run, &argv),
                other => panic!("unexpected {:?}", other),
            }
        }
        other => panic!("unexpected {:?}", other),
    }
    let takeover = Request::Takeover { target: "a".to_string(), prompt: None };
    let running = Finding::Sessions {
        sessions: vec![session(4, Some(thread("a", "/x")))],
        current_dir: unread(),
    };
    match respond("bin", takeover, running) {
        Response::TakeoverCommand { pid, argv, session } => {
            let steps = takeover_steps("bin", pid, &session, None, false);
            assert!(matches!(&steps[1], Step::Terminate(4)));
            assert!(matches!(&steps[2], Step::Execute { argv: run, .. } if run == &argv));
        }
        other => panic!("unexpected {:?}", other),
    }
}

#[test]
fn listed_ids_are_targets() {
    let sessions = vec![session(3, None), session(4, Some(thread("a", "/x")))];
    for s in &sessions {
        let found = resolve_running_target(&sessions, &s.pid.to_string(), unread());
        match &s.inferred {
            Some(t) => {
                let (pid, thread) = found.unwrap();
                assert_eq!((pid, thread.id), (s.pid, t.id.clone()));
            }
            None => assert!(matches!(found, Err(TargetError::NotMatched { pid }) if pid == s.pid)),
        }
    }
}

#[test]
fn failures_are_answered() {
    let failure = Finding::Failure { message: "open Codex state database".to_string() };
    match respond("bin", Request::List, failure) {
        Response::Error { message } => assert_eq!(message, "open Codex state database"),
        other => panic!("unexpected {:?}", other),
    }
    match refuse("expected value".to_string()) {
        Response::Error { message } => assert_eq!(message, "expected value"),
        other => panic!("unexpected {:?}", other),
    }
}

/// The actions taken for a process that is seen `seen` times before it is gone.
fn actions(seen: usize) -> (Vec<KillAction>, KillAction) {
    let mut state = Termination::new();
    let mut left = seen;
    let mut taken = Vec::new();
    loop {
        let action = state.action();
        let event = match action {
            KillAction::Send(_) => KillEvent::Sent,
            KillAction::Look if left > 0 => {
                left -= 1;
                KillEvent::Alive
            }
            KillAction::Look => KillEvent::Gone,
            KillAction::Pause => KillEvent::Paused,
            KillAction::Done | KillAction::GiveUp => return (taken, action),
        };
        taken.push(action);
        state = state.advance(event);
    }
}

fn count(taken: &[KillAction], action: KillAction) -> usize {
    taken.iter().filter(|a| **a == action).count()
}

#[test]
fn process_that_obeys() {
    assert_eq!(PAUSE_MS, 100);
    let (taken, end) = actions(0);
    assert_eq!(end, KillAction::Done);
    assert_eq!(taken, vec![KillAction::Send(Signal::Term), KillAction::Look]);
    let (taken, end) = actions(49);
    assert_eq!(end, KillAction::Done);
    assert_eq!(count(&taken, KillAction::Send(Signal::Kill)), 0);
    assert_eq!(count(&taken, KillAction::Pause), 49);
}

#[test]
fn process_that_must_be_forced() {
    let (taken, end) = actions(50);
    assert_eq!(end, KillAction::Done);
    assert_eq!(count(&taken, KillAction::Send(Signal::Kill)), 1);
    assert_eq!(taken[101], KillAction::Send(Signal::Kill));
    let (_, end) = actions(69);
    assert_eq!(end, KillAction::Done);
}

#[test]
fn process_that_survives() {
    let (taken, end) = actions(70);
    assert_eq!(end, KillAction::GiveUp);
    assert_eq!(taken.len(), 142);
    assert_eq!(count(&taken, KillAction::Look), 70);
    assert_eq!(survived_text(8), "pid 8 did not exit after SIGKILL");
}

#[test]
fn signals_that_cannot_be_sent() {
    assert_eq!(unsent_text(15, 8), "send signal 15 to pid 8");
    assert_eq!(unsent_text(-1, 0), "send signal -1 to pid 0");
}

#[test]
fn signal_that_is_refused_ends_it() {
    let failed = Termination::new().advance(KillEvent::Refused);
    assert_eq!(failed, Termination::Failed);
    assert_eq!(failed.action(), KillAction::GiveUp);
    for event in [KillEvent::Sent, KillEvent::Alive, KillEvent::Gone, KillEvent::Paused] {
        assert_eq!(failed.advance(event), failed);
    }
    let forcing = Termination::Signalling { signal: Signal::Kill };
    assert_eq!(forcing.advance(KillEvent::Refused).action(), KillAction::GiveUp);
    let looking = Termination::new().advance(KillEvent::Sent);
    assert_eq!(looking.advance(KillEvent::Refused), looking);
}

#[test]
fn events_out_of_turn_change_nothing() {
    let start = Termination::new();
    assert_eq!(start.advance(KillEvent::Gone), start);
    assert_eq!(start.advance(KillEvent::Paused), start);
    let ended = start.advance(KillEvent::Sent).advance(KillEvent::Gone);
    assert_eq!(ended.action(), KillAction::Done);
    assert_eq!(ended.advance(KillEvent::Alive), ended);
}
