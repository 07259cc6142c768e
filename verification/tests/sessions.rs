use css::assess::RolloutTail;
use css::process::{
    is_codex_cmdline, is_codex_comm, is_own_entry, process_id, read_cmdline, read_cwd, read_owner,
    read_ppid, text_of_bytes,
};
use css::resolve::resolve_running_target;
use css::scan::{Scan, ScanReply, ScanRequest};
use css::session::{copy_thread, infer_thread_for_cwd, RunningSession, SessionStatus, Thread};
use css::table::{
    format_time, print_sessions, sessions_table, status_label, time_cell, updated_ms,
    FIRST_MOMENT_MS, LAST_MOMENT_MS,
};

const USER: u32 = 1000;

fn thread(id: &str, cwd: &str) -> Thread {
    Thread {
        id: id.to_string(),
        rollout_path: format!("/rollouts/{}.jsonl", id),
        cwd: cwd.to_string(),
        title: format!("title of {}", id),
        updated_at: 1,
        updated_at_ms: None,
        model: Some("m".to_string()),
        model_provider: "openai".to_string(),
        sandbox_policy: "workspace-write".to_string(),
        approval_mode: "on-request".to_string(),
        cli_version: "0.0.0".to_string(),
    }
}

fn session(pid: u32, inferred: Option<Thread>) -> RunningSession {
    RunningSession {
        pid,
        ppid: 1,
        process_cwd: "/p".to_string(),
        cmdline: "codex".to_string(),
        status: SessionStatus::Working,
        status_detail: "busy".to_string(),
        last_event_at_ms: None,
        inferred,
    }
}

#[test]
fn first_thread_of_a_directory_is_inferred() {
    let threads = vec![thread("a", "/x"), thread("b", "/y"), thread("c", "/y")];
    assert_eq!(infer_thread_for_cwd(&threads, "/y").unwrap().id, "b");
    assert!(infer_thread_for_cwd(&threads, "/z").is_none());
    assert!(infer_thread_for_cwd(&[], "/z").is_none());
    let copy = copy_thread(&Some(threads[0].clone())).unwrap();
    assert_eq!(copy.id, "a");
    assert_eq!(copy.model.as_deref(), Some("m"));
}

#[test]
fn newest_thread_of_a_directory_is_inferred() {
    let mut threads = vec![thread("old", "/x"), thread("new", "/x"), thread("newer", "/y")];
    threads[0].updated_at = 5;
    threads[1].updated_at_ms = Some(6000);
    threads[2].updated_at = 7;
    threads.sort_by_key(|t| -t.updated_at_ms.unwrap_or(t.updated_at * 1000));
    assert_eq!(infer_thread_for_cwd(&threads, "/x").unwrap().id, "new");
}

#[test]
fn bytes_are_decoded_as_std_decodes_them() {
    for bytes in [&b"plain"[..], b"", b"a\xffb", b"\xe4\xb8", "\u{4e2d}".as_bytes(), b"\xf0\x90\x80x"] {
        assert_eq!(text_of_bytes(bytes), String::from_utf8_lossy(bytes));
    }
    assert_eq!(text_of_bytes(b"a\xffb"), "a\u{fffd}b");
}

#[test]
fn command_lines() {
    assert_eq!(read_cmdline(&None), "");
    assert_eq!(read_cmdline(&Some(vec![])), "");
    assert_eq!(read_cmdline(&Some(b"codex\0resume\0x y\0".to_vec())), "codex resume x y");
    assert_eq!(read_cmdline(&Some(b"\0\0codex\0\0a".to_vec())), "codex a");
    assert_eq!(read_cmdline(&Some(b"a\xff\0b".to_vec())), "a\u{fffd} b");
}

#[test]
fn parents() {
    let status = "Name:\tcodex\nPid:\t12\nPPid:\t7\nPPid:\t8\n";
    assert_eq!(read_ppid(&Some(status.to_string())), Some(7));
    assert_eq!(read_ppid(&Some("PPid: x\nPPid:  9 \n".to_string())), Some(9));
    assert_eq!(read_ppid(&Some(" PPid:\t7\n".to_string())), None);
    assert_eq!(read_ppid(&Some("PPid:".to_string())), None);
    assert_eq!(read_ppid(&Some("".to_string())), None);
    assert_eq!(read_ppid(&None), None);
}

#[test]
fn owners() {
    let status = "Name:\tcodex\nPid:\t12\nUid:\t1000\t1001\t1002\t1003\nGid:\t7\t7\t7\t7\n";
    assert_eq!(read_owner(&Some(status.to_string())), Some(1000));
    assert_eq!(read_owner(&Some("Uid: x\nUid:  9 \n".to_string())), Some(9));
    assert_eq!(read_owner(&Some("Uid:4294967295".to_string())), Some(u32::MAX));
    assert_eq!(read_owner(&Some("Uid:4294967296".to_string())), None);
    assert_eq!(read_owner(&Some(" Uid:\t7\n".to_string())), None);
    assert_eq!(read_owner(&Some("Uid:".to_string())), None);
    assert_eq!(read_owner(&Some("Gid:\t7\n".to_string())), None);
    assert_eq!(read_owner(&None), None);
}

#[test]
fn codex_processes() {
    assert_eq!(process_id(b"123"), Some(123));
    assert_eq!(process_id(b"self"), None);
    assert_eq!(process_id(b"12\xff"), None);
    assert!(is_codex_comm(&Some("codex\n".to_string())));
    assert!(!is_codex_comm(&Some("codex2\n".to_string())));
    assert!(!is_codex_comm(&None));
    assert!(is_codex_cmdline("codex resume"));
    assert!(is_codex_cmdline("node /usr/bin/codex"));
    assert!(!is_codex_cmdline("node codex"));
    assert!(!is_codex_cmdline(""));
    assert_eq!(read_cwd(&Some(b"/w".to_vec())), "/w");
    assert_eq!(read_cwd(&None), "<unknown>");
}

fn entry(scan: Scan, name: &str, comm: &str, cmdline: &[u8], cwd: &str, log: Option<&str>) -> Scan {
    assert!(matches!(scan.request(), ScanRequest::NextEntry));
    let mut scan = scan.reply(ScanReply::Entry {
        name: name.as_bytes().to_vec(),
        owner: Some(USER),
    });
    loop {
        let reply = match scan.request() {
            ScanRequest::NextEntry => return scan,
            ScanRequest::Comm => ScanReply::Comm(Some(comm.to_string())),
            ScanRequest::Cmdline => ScanReply::Cmdline(Some(cmdline.to_vec())),
            ScanRequest::Cwd => ScanReply::Cwd(Some(cwd.as_bytes().to_vec())),
            ScanRequest::Status => ScanReply::Status(Some("PPid:\t5\n".to_string())),
            ScanRequest::Rollout(path) => {
                assert!(path.starts_with("/rollouts/"));
                ScanReply::Rollout {
                    tail: log.map(|text| RolloutTail { text: text.to_string(), start: 0 }),
                    now_ms: 0,
                }
            }
        };
        scan = scan.reply(reply);
    }
}

#[test]
fn sessions_are_discovered_in_the_order_of_their_ids() {
    let mut scan = Scan::new(USER, vec![thread("a", "/x"), thread("b", "/y")]);
    scan = entry(scan, "30", "codex\n", b"codex\0", "/y", None);
    scan = entry(scan, "sys", "codex\n", b"codex\0", "/x", None);
    scan = entry(scan, "10", "bash\n", b"codex\0", "/x", None);
    scan = entry(scan, "11", "codex\n", b"bash\0", "/x", None);
    scan = entry(scan, "20", "codex\n", b"/bin/codex\0resume\0", "/nowhere", None);
    let log = "{\"payload\":{\"type\":\"task_complete\"}}\n";
    scan = entry(scan, "25", "codex\n", b"codex\0", "/x", Some(log));
    let sessions = scan.finish();
    assert_eq!(sessions.iter().map(|s| s.pid).collect::<Vec<_>>(), vec![20, 25, 30]);

    let unmatched = &sessions[0];
    assert_eq!(unmatched.ppid, 5);
    assert_eq!(unmatched.process_cwd, "/nowhere");
    assert_eq!(unmatched.cmdline, "/bin/codex resume");
    assert_eq!(unmatched.status, SessionStatus::Malfunction);
    assert_eq!(
        unmatched.status_detail,
        "running codex process could not be matched to a saved thread"
    );
    assert!(unmatched.inferred.is_none());

    let waiting = &sessions[1];
    assert_eq!(waiting.inferred.as_ref().unwrap().id, "a");
    assert_eq!(waiting.status, SessionStatus::WaitingUserInput);

    let unread = &sessions[2];
    assert_eq!(unread.inferred.as_ref().unwrap().id, "b");
    assert_eq!(unread.status_detail, "cannot read rollout jsonl");
}

#[test]
fn listed_process_ids_are_targets() {
    let mut scan = Scan::new(USER, vec![thread("a", "/x"), thread("b", "/y")]);
    for (pid, cwd) in [("30", "/y"), ("4", "/x"), ("20", "/nowhere"), ("100", "/x")] {
        scan = entry(scan, pid, "codex", b"codex\0", cwd, None);
    }
    let sessions = scan.finish();
    assert!(sessions.windows(2).all(|pair| pair[0].pid < pair[1].pid));
    for session in &sessions {
        let target = session.pid.to_string();
        match resolve_running_target(&sessions, &target, Err("unread".to_string())) {
            Ok((pid, thread)) => {
                assert_eq!(pid, session.pid);
                assert_eq!(thread.id, session.inferred.as_ref().unwrap().id);
            }
            Err(error) => {
                assert!(session.inferred.is_none());
                assert_eq!(error.message(), "pid 20 is not matched to a Codex session");
            }
        }
    }
}

#[test]
fn processes_of_others_are_passed_over() {
    assert!(is_own_entry(Some(USER), USER));
    assert!(!is_own_entry(Some(0), USER));
    assert!(!is_own_entry(None, USER));
    for owner in [Some(0), Some(USER + 1), None] {
        let scan = Scan::new(USER, vec![]);
        let scan = scan.reply(ScanReply::Entry { name: b"7".to_vec(), owner });
        assert!(matches!(scan.request(), ScanRequest::NextEntry));
        let scan = entry(scan, "8", "codex", b"codex", "/", None);
        let pids: Vec<u32> = scan.finish().into_iter().map(|s| s.pid).collect();
        assert_eq!(pids, vec![8]);
    }
}

#[test]
fn unknown_facts_of_a_process() {
    let mut scan = Scan::new(USER, vec![thread("u", "<unknown>")]);
    scan = scan.reply(ScanReply::Entry { name: b"7".to_vec(), owner: Some(USER) });
    scan = scan.reply(ScanReply::Comm(Some("codex".to_string())));
    scan = scan.reply(ScanReply::Cmdline(Some(b"codex".to_vec())));
    scan = scan.reply(ScanReply::Cwd(None));
    scan = scan.reply(ScanReply::Status(None));
    assert!(matches!(scan.request(), ScanRequest::Rollout(path) if path == "/rollouts/u.jsonl"));
    scan = scan.reply(ScanReply::Rollout { tail: None, now_ms: 0 });
    let sessions = scan.finish();
    assert_eq!(sessions.len(), 1);
    assert_eq!(sessions[0].ppid, 0);
    assert_eq!(sessions[0].process_cwd, "<unknown>");

    let scan = Scan::new(USER, vec![]);
    let scan = scan.reply(ScanReply::Entry { name: b"7".to_vec(), owner: Some(USER) });
    let scan = scan.reply(ScanReply::Comm(None));
    assert!(matches!(scan.request(), ScanRequest::NextEntry));
}

#[test]
fn replies_out_of_turn_change_nothing() {
    let scan = Scan::new(USER, vec![]).reply(ScanReply::Comm(Some("codex".to_string())));
    assert!(matches!(scan.request(), ScanRequest::NextEntry));
    let scan = scan.reply(ScanReply::Entry { name: b"7".to_vec(), owner: Some(USER) });
    let scan = scan.reply(ScanReply::Entry { name: b"8".to_vec(), owner: Some(USER) });
    assert!(matches!(scan.request(), ScanRequest::Comm));
}

#[test]
fn sessions_of_one_id_keep_their_order() {
    let mut scan = Scan::new(USER, vec![]);
    scan = entry(scan, "5", "codex", b"codex\0first\0", "/", None);
    scan = entry(scan, "4", "codex", b"codex\0zeroth\0", "/", None);
    scan = entry(scan, "05", "codex", b"codex\0second\0", "/", None);
    let found: Vec<String> = scan.finish().into_iter().map(|s| s.cmdline).collect();
    assert_eq!(found, vec!["codex zeroth", "codex first", "codex second"]);
}

#[test]
fn labels() {
    assert_eq!(status_label(SessionStatus::Working), "working");
    assert_eq!(status_label(SessionStatus::WaitingUserInput), "waiting_user");
    assert_eq!(status_label(SessionStatus::Malfunction), "malfunction");
}

#[test]
fn times_of_updates() {
    let mut t = thread("a", "/x");
    assert_eq!(updated_ms(&t), 1000);
    t.updated_at_ms = Some(1234);
    assert_eq!(updated_ms(&t), 1234);
    t.updated_at = i64::MAX;
    assert_eq!(updated_ms(&t), 1234);
    t.updated_at_ms = None;
    assert_eq!(updated_ms(&t), -1000);
    assert_eq!(time_cell(None), "<invalid>");
    assert_eq!(time_cell(Some("now".to_string())), "now");
}

#[test]
fn moments_are_shown_as_far_as_they_exist() {
    let expected = chrono::DateTime::from_timestamp_millis(1767323045678)
        .unwrap()
        .with_timezone(&chrono::Local)
        .format("%Y-%m-%d %H:%M:%S")
        .to_string();
    assert_eq!(format_time(1767323045678), expected);
    assert_eq!(expected.len(), 19);
    assert_eq!(format_time(i64::MAX), "<invalid>");
    assert_eq!(format_time(i64::MIN), "<invalid>");
    assert_eq!(format_time(FIRST_MOMENT_MS - 1), "<invalid>");
    assert_eq!(format_time(LAST_MOMENT_MS + 1), "<invalid>");
    for ms in [FIRST_MOMENT_MS, LAST_MOMENT_MS, 0, -62167219200001, 253402300800000] {
        let text = format_time(ms);
        assert!(text != "<invalid>");
        assert_eq!(text.as_bytes()[text.len() - 9], b' ');
        assert_eq!(text.as_bytes()[text.len() - 15], b'-');
        assert_eq!(text.as_bytes()[text.len() - 3], b':');
    }
}

/// The seconds from the epoch to the date and time that `text` names.
fn seconds_in(text: &str) -> i64 {
    let k = text.len() - 15;
    let number = |part: &str| part.parse::<i64>().unwrap();
    let two = |i: usize| number(&text[i..i + 2]);
    let (year, month) = (number(&text[..k]), two(k + 1));
    let z = if month <= 2 { year - 1 } else { year };
    let days = 365 * z + z.div_euclid(4) - z.div_euclid(100)
        + z.div_euclid(400)
        + (153 * ((month + 9) % 12) + 2) / 5
        + two(k + 4)
        - 719469;
    86400 * days + 3600 * two(k + 7) + 60 * two(k + 10) + two(k + 13)
}

#[test]
fn calendar() {
    assert_eq!(seconds_in("1970-01-01 00:00:00"), 0);
    assert_eq!(seconds_in("2026-01-02 03:04:05"), 1767323045);
    assert_eq!(seconds_in("2000-02-29 23:59:59"), 951868799);
    assert_eq!(seconds_in("-0001-12-31 00:00:00"), -62167305600);
}

#[test]
fn shown_moments_are_those_given() {
    let mut ms = FIRST_MOMENT_MS;
    let step: i64 = 16544867705599;
    while ms < LAST_MOMENT_MS - step {
        let off = seconds_in(&format_time(ms)) - ms.div_euclid(1000);
        assert!(-86400 < off && off < 86400, "{} is shown as {}", ms, format_time(ms));
        assert_exists(&format_time(ms));
        ms += step;
    }
    for ms in [FIRST_MOMENT_MS, -1, 0, 1, 951868799999, 1767323045678, LAST_MOMENT_MS] {
        let off = seconds_in(&format_time(ms)) - ms.div_euclid(1000);
        assert!(-86400 < off && off < 86400, "{} is shown as {}", ms, format_time(ms));
        assert_exists(&format_time(ms));
    }
}

/// Fails unless the date exists and its year is written as it should be.
fn assert_exists(text: &str) {
    let k = text.len() - 15;
    let number = |part: &str| part.parse::<i64>().unwrap();
    let year = number(&text[..k]);
    let signed = text.starts_with('+') || text.starts_with('-');
    assert_eq!(signed, !(0..=9999).contains(&year), "{}", text);
    let digits = if signed { &text[1..k] } else { &text[..k] };
    assert_eq!(digits, format!("{:04}", year.abs()));
    let leap = year % 4 == 0 && (year % 100 != 0 || year % 400 == 0);
    let days = match number(&text[k + 1..k + 3]) {
        2 if leap => 29,
        2 => 28,
        4 | 6 | 9 | 11 => 30,
        1 | 3 | 5 | 7 | 8 | 10 | 12 => 31,
        other => panic!("month {}", other),
    };
    assert!((1..=days).contains(&number(&text[k + 4..k + 6])), "{}", text);
}

#[test]
fn moments_a_second_apart_are_shown_differently() {
    assert_eq!(format_time(1767323045000), format_time(1767323045999));
    assert_ne!(format_time(1767323045999), format_time(1767323046000));
}

#[test]
fn years_are_written_with_four_digits_or_a_sign() {
    let year_of = |ms: i64| {
        let text = format_time(ms);
        text[..text.len() - 15].to_string()
    };
    // Moments months away from a turn of the year, so that no time zone matters.
    assert_eq!(year_of(1783000000000), "2026");
    assert_eq!(year_of(-59995000000000), "0068");
    assert_eq!(year_of(-62180000000000), "-0001");
    assert_eq!(year_of(253418000000000), "+10000");
}

#[test]
fn no_sessions_to_show() {
    assert_eq!(sessions_table(&[], &[]), vec!["No running Codex CLI processes found."]);
    assert_eq!(print_sessions(&[]), vec!["No running Codex CLI processes found."]);
}

#[test]
fn sessions_are_shown() {
    let sessions = vec![session(12, Some(thread("id-1", "/x"))), session(345, None)];
    let times = vec!["2026-01-02 03:04:05".to_string(), "".to_string()];
    let expected = vec![
        format!(
            "{:<8} {:<8} {:<18} {:<36} {:<20} CWD",
            "PID", "PPID", "STATUS", "SESSION", "UPDATED"
        ),
        format!(
            "{:<8} {:<8} {:<18} {:<36} {:<20} {}",
            12, 1, "working", "id-1", "2026-01-02 03:04:05", "/x"
        ),
        "         status: busy".to_string(),
        "         title: title of id-1".to_string(),
        format!(
            "{:<8} {:<8} {:<18} {:<36} {:<20} {}",
            345, 1, "working", "<unmatched>", "-", "/p"
        ),
        "         status: busy".to_string(),
    ];
    assert_eq!(sessions_table(&sessions, &times), expected);
    let printed = print_sessions(&sessions);
    assert_eq!(printed.len(), expected.len());
    assert_eq!(printed[1].replace(&format_time(1000), "2026-01-02 03:04:05"), expected[1]);
    assert_eq!(printed[4], expected[4]);
}
