use css::assess::{assess_rollout, assess_thread_status, RolloutTail, MAX_SILENCE_MS};
use css::clock::now_ms;
use css::events::{
    make_event, parse_timestamp_ms, read_recent_events, tail_start, RecentEvent,
    MAX_TAIL,
};
use css::session::SessionStatus;

fn event(payload_type: Option<&str>, turn_id: Option<&str>, at: Option<i64>) -> RecentEvent {
    make_event(at, Some("event_msg"), payload_type, turn_id)
}

fn item(payload_type: &str, at: i64) -> RecentEvent {
    make_event(Some(at), Some("response_item"), Some(payload_type), None)
}

#[test]
fn timestamps() {
    assert_eq!(parse_timestamp_ms("1970-01-01T00:00:00Z"), Some(0));
    assert_eq!(parse_timestamp_ms("1970-01-01T00:00:01.5Z"), Some(1500));
    assert_eq!(parse_timestamp_ms("1970-01-01T01:00:00+01:00"), Some(0));
    assert_eq!(parse_timestamp_ms("2026-01-02T03:04:05.678Z"), Some(1767323045678));
    assert_eq!(parse_timestamp_ms("yesterday"), None);
    assert_eq!(parse_timestamp_ms(""), None);
}

#[test]
fn event_of_a_response_item_is_named() {
    let named = make_event(None, Some("response_item"), Some("message"), None);
    assert_eq!(named.item_name.as_deref(), Some("message"));
    let unnamed = make_event(None, Some("event_msg"), Some("message"), Some("t1"));
    assert_eq!(unnamed.item_name, None);
    assert_eq!(unnamed.payload_type.as_deref(), Some("message"));
    assert_eq!(unnamed.turn_id.as_deref(), Some("t1"));
    assert_eq!(make_event(None, Some("response_item"), None, None).item_name, None);
}

#[test]
fn event_of_a_json_record() {
    let text = r#"{"timestamp":"1970-01-01T00:00:02Z","type":"response_item","payload":{"type":"reasoning","turn_id":"t"}}"#;
    let events = read_recent_events(text, 0);
    assert_eq!(events.len(), 1);
    assert_eq!(events[0].timestamp_ms, Some(2000));
    assert_eq!(events[0].payload_type.as_deref(), Some("reasoning"));
    assert_eq!(events[0].turn_id.as_deref(), Some("t"));
    assert_eq!(events[0].item_name.as_deref(), Some("reasoning"));
}

#[test]
fn records_without_the_expected_members() {
    for text in [
        "null",
        "7",
        "\"timestamp\"",
        "[]",
        r#"{"payload":7,"timestamp":5,"type":[]}"#,
        r#"{"payload":[{"type":"a"}],"type":{"type":"response_item"}}"#,
    ] {
        let events = read_recent_events(text, 0);
        assert_eq!(events.len(), 1);
        assert_eq!(events[0].timestamp_ms, None);
        assert_eq!(events[0].payload_type, None);
        assert_eq!(events[0].turn_id, None);
        assert_eq!(events[0].item_name, None);
    }
}

#[test]
fn tail_of_a_long_log() {
    assert_eq!(MAX_TAIL, 512 * 1024);
    assert_eq!(tail_start(0), 0);
    assert_eq!(tail_start(MAX_TAIL), 0);
    assert_eq!(tail_start(MAX_TAIL + 7), 7);
}

#[test]
fn events_of_a_log() {
    let text = "{\"payload\":{\"type\":\"a\"}}\nnot json\r\n{\"payload\":{\"type\":\"b\"}}";
    let types = |events: Vec<RecentEvent>| -> Vec<String> {
        events.into_iter().map(|e| e.payload_type.unwrap()).collect()
    };
    assert_eq!(types(read_recent_events(text, 0)), vec!["a", "b"]);
    assert_eq!(types(read_recent_events(text, 1)), vec!["b"]);
    assert_eq!(types(read_recent_events("{\"payload\":{\"type\":\"a\"}}", 1)), vec!["a"]);
    assert!(read_recent_events("", 0).is_empty());
    assert!(read_recent_events("\n", 9).is_empty());
}

#[test]
fn cut_lines_make_no_event() {
    let log = "{\"payload\":{\"type\":\"a\"}}\n{\"payload\":{\"type\":\"b\"}}\n";
    let whole = read_recent_events(log, 0);
    assert_eq!(whole.len(), 2);
    let mut cut: usize = 1;
    while cut < 20 {
        let rest = read_recent_events(&log[cut..], cut as u64);
        assert_eq!(rest.len(), 1);
        assert_eq!(rest[0].payload_type.as_deref(), Some("b"));
        cut += 1;
    }
}

#[test]
fn unreadable_log() {
    let (status, detail, at) = assess_thread_status(None, 0);
    assert_eq!(status, SessionStatus::Malfunction);
    assert_eq!(detail, "cannot read rollout jsonl");
    assert_eq!(at, None);
}

#[test]
fn log_without_events() {
    let (status, detail, at) = assess_thread_status(Some(vec![]), 0);
    assert_eq!(status, SessionStatus::Malfunction);
    assert_eq!(detail, "rollout has no readable events");
    assert_eq!(at, None);
    let (status, _, at) = assess_thread_status(Some(vec![event(None, None, Some(3))]), 0);
    assert_eq!(status, SessionStatus::Malfunction);
    assert_eq!(at, Some(3));
}

#[test]
fn completed_turn_waits() {
    let events = vec![
        event(Some("task_started"), Some("t"), Some(1)),
        event(Some("task_complete"), Some("t"), Some(2)),
    ];
    let (status, detail, at) = assess_thread_status(Some(events), i64::MAX);
    assert_eq!(status, SessionStatus::WaitingUserInput);
    assert_eq!(detail, "last turn completed; Codex TUI is waiting for user input");
    assert_eq!(at, Some(2));
    let spoken = vec![event(Some("agent_message"), None, None)];
    let (status, detail, _) = assess_thread_status(Some(spoken), 0);
    assert_eq!(status, SessionStatus::WaitingUserInput);
    assert_eq!(detail, "last turn completed; Codex TUI is waiting for user input");
}

#[test]
fn other_events_without_a_turn() {
    let events = vec![event(Some("session_meta"), None, None)];
    let (status, detail, at) = assess_thread_status(Some(events), 0);
    assert_eq!(status, SessionStatus::WaitingUserInput);
    assert_eq!(detail, "no active turn; last event is session_meta");
    assert_eq!(at, None);
}

#[test]
fn start_without_a_turn_id_opens_none() {
    let events = vec![event(Some("task_started"), None, Some(1))];
    let (status, detail, _) = assess_thread_status(Some(events), 1);
    assert_eq!(status, SessionStatus::WaitingUserInput);
    assert_eq!(detail, "no active turn; last event is task_started");
}

#[test]
fn silence_in_an_open_turn() {
    let started = || Some(vec![event(Some("task_started"), Some("t"), Some(1000))]);
    let (status, detail, at) = assess_thread_status(started(), 1000 + MAX_SILENCE_MS);
    assert_eq!(status, SessionStatus::Working);
    assert_eq!(detail, "working: likely waiting on model/api response");
    assert_eq!(at, Some(1000));
    let (status, detail, at) = assess_thread_status(started(), 1000 + MAX_SILENCE_MS + 1);
    assert_eq!(status, SessionStatus::Malfunction);
    assert_eq!(detail, "active turn has had no rollout event for 1800s");
    assert_eq!(at, Some(1000));
    let (status, _, _) = assess_thread_status(started(), 0);
    assert_eq!(status, SessionStatus::Working);
    let far = Some(vec![event(Some("task_started"), Some("t"), Some(-2))]);
    let (status, _, _) = assess_thread_status(far, i64::MAX);
    assert_eq!(status, SessionStatus::Working);
    let untimed = Some(vec![event(Some("task_started"), Some("t"), None)]);
    let (status, _, at) = assess_thread_status(untimed, i64::MAX);
    assert_eq!(status, SessionStatus::Working);
    assert_eq!(at, None);
}

#[test]
fn work_is_described() {
    let describe = |last: RecentEvent| {
        let events = vec![event(Some("task_started"), Some("t"), Some(5)), last];
        let (status, detail, _) = assess_thread_status(Some(events), 5);
        assert_eq!(status, SessionStatus::Working);
        detail
    };
    let waiting = "working: likely waiting on model/api response";
    assert_eq!(describe(event(Some("token_count"), None, None)), waiting);
    assert_eq!(describe(event(Some("user_message"), None, None)), waiting);
    assert_eq!(describe(event(None, None, None)), waiting);
    assert_eq!(describe(item("function_call", 6)), "working: model requested a tool call");
    assert_eq!(
        describe(item("function_call_output", 6)),
        "working: tool output recorded, likely returning to model/api"
    );
    assert_eq!(describe(item("reasoning", 6)), "working: model/api response in progress");
    assert_eq!(describe(item("message", 6)), "working: assistant message is being recorded");
    assert_eq!(describe(item("other", 6)), "working: active turn is not complete");
    assert_eq!(
        describe(event(Some("function_call"), None, None)),
        "working: active turn is not complete"
    );
}

#[test]
fn log_is_assessed_from_its_end() {
    let text = "cut\"}\n{\"timestamp\":\"1970-01-01T00:00:01Z\",\"type\":\"event_msg\",\"payload\":{\"type\":\"task_started\",\"turn_id\":\"t\"}}\n{\"timestamp\":\"1970-01-01T00:00:02Z\",\"type\":\"response_item\",\"payload\":{\"type\":\"function_call\"}}\n";
    let tail = RolloutTail { text: text.to_string(), start: 10 };
    let (status, detail, at) = assess_rollout(Some(tail), 3000);
    assert_eq!(status, SessionStatus::Working);
    assert_eq!(detail, "working: model requested a tool call");
    assert_eq!(at, Some(2000));
    let (status, detail, _) = assess_rollout(None, 3000);
    assert_eq!(status, SessionStatus::Malfunction);
    assert_eq!(detail, "cannot read rollout jsonl");
}

#[test]
fn clock_readings() {
    assert_eq!(now_ms(None), 0);
    assert_eq!(now_ms(Some(0)), 0);
    assert_eq!(now_ms(Some(1767323045678)), 1767323045678);
    assert_eq!(now_ms(Some(i64::MAX as u128)), i64::MAX);
    assert_eq!(now_ms(Some(i64::MAX as u128 + 1)), i64::MIN);
    assert_eq!(now_ms(Some(u128::MAX)), -1);
    assert_eq!(now_ms(Some(1u128 << 64)), 0);
}

#[test]
fn events_of_a_log_are_those_of_its_parts() {
    let head = "{\"payload\":{\"type\":\"a\"}}\nnot json\n{\"payload\":{\"type\":\"b\"}}\r\n";
    let rest = "{\"payload\":{\"type\":\"c\"}}\n{\"payload\":{\"type\":\"d\"}}";
    let kinds = |text: &str| -> Vec<Option<String>> {
        read_recent_events(text, 0).into_iter().map(|e| e.payload_type).collect()
    };
    let whole = kinds(&format!("{head}{rest}"));
    assert_eq!(whole, [kinds(head), kinds(rest)].concat());
    assert_eq!(whole.len(), 4);
}
