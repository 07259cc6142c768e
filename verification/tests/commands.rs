use css::paths::{
    default_codex_home, default_socket_path, exec_program, join_path, needs_current_dir, state_db,
};
use css::resume::{
    continue_steps, exec_resume, join_prompt, resume_argv, takeover_steps, validate_resume_cwd,
    ResumeError, Step,
};
use css::session::Thread;
use css::shell::{resume_shell_command, shell_quote, shell_words};

fn thread_with_cwd(cwd: &str) -> Thread {
    Thread {
        id: "00000000-0000-0000-0000-000000000000".to_string(),
        rollout_path: "/tmp/rollout.jsonl".to_string(),
        cwd: cwd.to_string(),
        title: "test".to_string(),
        updated_at: 0,
        updated_at_ms: None,
        model: None,
        model_provider: "openai".to_string(),
        sandbox_policy: "workspace-write".to_string(),
        approval_mode: "on-request".to_string(),
        cli_version: "0.0.0".to_string(),
    }
}

fn words(list: &[&str]) -> Vec<String> {
    list.iter().map(|w| w.to_string()).collect()
}

#[test]
fn dry_run_resume_command_changes_directory_first() {
    let thread = thread_with_cwd("/home/vc/project with space");
    let argv = resume_argv("codex", &thread, Some("continue"));

    assert_eq!(
        resume_shell_command(&argv, &thread.cwd),
        "cd '/home/vc/project with space' && codex resume 00000000-0000-0000-0000-000000000000 --cd '/home/vc/project with space' continue"
    );
}

#[test]
fn bare_program_still_uses_path_lookup_after_chdir() {
    let cwd = b"/home/vc".to_vec();
    assert!(!needs_current_dir("codex"));
    assert_eq!(exec_program("codex", Ok(cwd)).unwrap(), b"codex".to_vec());
    assert_eq!(
        exec_program("codex", Err("gone".to_string())).unwrap(),
        b"codex".to_vec()
    );
}

#[test]
fn relative_program_path_is_resolved_before_chdir() {
    let cwd = b"/home/vc/css".to_vec();
    let expected = b"/home/vc/css/target/debug/codex".to_vec();
    assert!(needs_current_dir("target/debug/codex"));
    assert_eq!(exec_program("target/debug/codex", Ok(cwd)).unwrap(), expected);
}

#[test]
fn relative_program_needs_a_readable_current_dir() {
    assert_eq!(
        exec_program("./codex", Err("no such directory".to_string())),
        Err("no such directory".to_string())
    );
}

#[test]
fn absolute_program_stays() {
    assert!(!needs_current_dir("/usr/bin/codex"));
    assert_eq!(
        exec_program("/usr/bin/codex", Ok(b"/tmp".to_vec())).unwrap(),
        b"/usr/bin/codex".to_vec()
    );
    assert_eq!(exec_program("", Ok(b"/tmp".to_vec())).unwrap(), Vec::<u8>::new());
}

#[test]
fn program_with_non_ascii_name_is_kept_as_utf8() {
    assert_eq!(
        exec_program("bin/c\u{f6}dex", Ok(b"/".to_vec())).unwrap(),
        "/bin/c\u{f6}dex".as_bytes().to_vec()
    );
}

#[test]
fn paths_are_joined_as_std_joins_them() {
    for base in ["", "/", "/a", "/a/", "a", "a/b//", "."] {
        for part in ["", "b", "/b", "b/c", ".codex"] {
            let expected = std::path::Path::new(base).join(part);
            let joined = join_path(base.as_bytes(), part.as_bytes());
            assert_eq!(String::from_utf8(joined).unwrap(), expected.to_str().unwrap());
        }
    }
}

#[test]
fn places_of_the_state_database_and_the_socket() {
    assert_eq!(state_db(b"/home/vc/.codex"), b"/home/vc/.codex/state_5.sqlite".to_vec());
    assert_eq!(state_db(b"/home/vc/.codex/"), b"/home/vc/.codex/state_5.sqlite".to_vec());
    assert_eq!(state_db(b"\xff"), b"\xff/state_5.sqlite".to_vec());
    assert_eq!(default_codex_home(Some(b"/home/vc".to_vec())), b"/home/vc/.codex".to_vec());
    assert_eq!(default_codex_home(None), b"./.codex".to_vec());
    assert_eq!(
        default_socket_path(Some(b"/run/user/1000".to_vec()), b"/tmp"),
        b"/run/user/1000/codexdaemon.sock".to_vec()
    );
    assert_eq!(default_socket_path(None, b"/tmp"), b"/tmp/codexdaemon.sock".to_vec());
}

#[test]
fn quoting() {
    assert_eq!(shell_quote("abcXYZ019@%_+=:,./-"), "abcXYZ019@%_+=:,./-");
    assert_eq!(shell_quote(""), "");
    assert_eq!(shell_quote("a b"), "'a b'");
    assert_eq!(shell_quote("it's"), "'it'\\''s'");
    assert_eq!(shell_quote("'"), "''\\'''");
    assert_eq!(shell_quote("$(x); y & z"), "'$(x); y & z'");
    assert_eq!(shell_quote("~"), "'~'");
    assert_eq!(shell_quote("\u{e9}"), "'\u{e9}'");
    assert_eq!(shell_words(&words(&["a", "b c", "d"])), "a 'b c' d");
    assert_eq!(shell_words(&[]), "");
    assert_eq!(
        resume_shell_command(&words(&["codex", "it's"]), "/x"),
        "cd /x && codex 'it'\\''s'"
    );
}

#[test]
fn prompt_words_are_joined() {
    assert_eq!(join_prompt(vec![]), None);
    assert_eq!(join_prompt(words(&[""])), None);
    assert_eq!(join_prompt(words(&["", ""])), Some(" ".to_string()));
    assert_eq!(
        join_prompt(words(&["continue", "the previous", "task"])),
        Some("continue the previous task".to_string())
    );
}

#[test]
fn resume_command_with_and_without_prompt() {
    let thread = thread_with_cwd("/w");
    assert_eq!(
        resume_argv("/opt/codex", &thread, None),
        words(&["/opt/codex", "resume", "00000000-0000-0000-0000-000000000000", "--cd", "/w"])
    );
    assert_eq!(
        resume_argv("codex", &thread, Some("")),
        words(&["codex", "resume", "00000000-0000-0000-0000-000000000000", "--cd", "/w", ""])
    );
}

#[test]
fn resume_cwd_is_validated() {
    assert!(validate_resume_cwd("/w", Some(true)).is_ok());
    let missing = validate_resume_cwd("/w", None).unwrap_err();
    assert!(matches!(missing, ResumeError::UnreadableCwd { .. }));
    assert_eq!(missing.message(), "stat resume cwd /w");
    let file = validate_resume_cwd("/w", Some(false)).unwrap_err();
    assert!(matches!(file, ResumeError::NotDirectory { .. }));
    assert_eq!(file.message(), "resume cwd /w is not a directory");
}

#[test]
fn execution_is_planned() {
    let argv = words(&["bin/codex", "resume", "x"]);
    let plan = exec_resume(argv.clone(), "/w", Some(true), Ok(b"/here".to_vec())).unwrap();
    assert_eq!(plan.program, b"/here/bin/codex".to_vec());
    assert_eq!(plan.args, words(&["resume", "x"]));
    assert_eq!(plan.cwd, "/w");

    let empty = exec_resume(vec![], "/w", Some(true), Ok(b"/here".to_vec())).unwrap_err();
    assert_eq!(empty.message(), "empty argv");
    let unchecked = exec_resume(vec![], "/w", None, Ok(b"/here".to_vec())).unwrap_err();
    assert_eq!(unchecked.message(), "stat resume cwd /w");
    let lost = exec_resume(argv, "/w", Some(true), Err("lost".to_string())).unwrap_err();
    assert!(matches!(lost, ResumeError::UnreadableCurrentDir { .. }));
    assert_eq!(lost.message(), "lost");
    let refused = ResumeError::NotExecuted { cwd: "/w".to_string() };
    assert_eq!(refused.message(), "exec codex resume from cwd /w");
}

#[test]
fn steps_of_continue() {
    let thread = thread_with_cwd("/w");
    let shown = continue_steps("codex", &thread, None, true);
    assert_eq!(shown.len(), 1);
    match &shown[0] {
        Step::Print(line) => assert_eq!(
            line,
            "cd /w && codex resume 00000000-0000-0000-0000-000000000000 --cd /w"
        ),
        other => panic!("unexpected {:?}", other),
    }
    let done = continue_steps("codex", &thread, Some("go on"), false);
    assert_eq!(done.len(), 1);
    match &done[0] {
        Step::Execute { argv, cwd } => {
            assert_eq!(argv, &resume_argv("codex", &thread, Some("go on")));
            assert_eq!(cwd, "/w");
        }
        other => panic!("unexpected {:?}", other),
    }
}

#[test]
fn steps_of_takeover() {
    let thread = thread_with_cwd("/w");
    let shown = takeover_steps("codex", 4711, &thread, None, true);
    assert_eq!(shown.len(), 2);
    assert!(matches!(&shown[0], Step::Print(line) if line == "kill 4711"));
    assert!(matches!(&shown[1], Step::Print(line) if line.starts_with("cd /w && codex resume ")));
    let done = takeover_steps("codex", 4711, &thread, None, false);
    assert_eq!(done.len(), 3);
    assert!(matches!(&done[0], Step::CheckCwd(cwd) if cwd == "/w"));
    assert!(matches!(&done[1], Step::Terminate(4711)));
    assert!(matches!(&done[2], Step::Execute { argv, cwd } if cwd == "/w" && argv.len() == 5));
}
