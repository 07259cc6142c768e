//! What a session is doing, judged by the events of its rollout log.

use crate::events::{
    event_views, events_in, read_recent_events, whole_lines, EventView, RecentEvent,
};
use crate::session::SessionStatus;
use crate::text::{copy_text, decimal, decimal_text, lines_of, same_text, view_of};
use vstd::prelude::*;

verus! {

broadcast use vstd::string::group_string_axioms;

/// How long an open turn may go without an event, in milliseconds.
pub const MAX_SILENCE_MS: i64 = 1800000;

/// The turn that the events leave open: the one that the last start or end of a
/// turn starts, if it is a start that names one.
pub open spec fn open_turn(events: Seq<EventView>) -> Option<Seq<char>>
    decreases events.len(),
{
    if events.len() == 0 {
        None
    } else if events.last().payload_type == Some("task_started"@) {
        events.last().turn_id
    } else if events.last().payload_type == Some("task_complete"@) {
        None
    } else {
        open_turn(events.drop_last())
    }
}

/// The payload type of the last event that has one.
pub open spec fn last_type(events: Seq<EventView>) -> Option<Seq<char>>
    decreases events.len(),
{
    if events.len() == 0 {
        None
    } else if events.last().payload_type is Some {
        events.last().payload_type
    } else {
        last_type(events.drop_last())
    }
}

/// The item name of the last event that has one.
pub open spec fn last_item(events: Seq<EventView>) -> Option<Seq<char>>
    decreases events.len(),
{
    if events.len() == 0 {
        None
    } else if events.last().item_name is Some {
        events.last().item_name
    } else {
        last_item(events.drop_last())
    }
}

/// The time of the last event that has one.
pub open spec fn last_time(events: Seq<EventView>) -> Option<i64>
    decreases events.len(),
{
    if events.len() == 0 {
        None
    } else if events.last().timestamp_ms is Some {
        events.last().timestamp_ms
    } else {
        last_time(events.drop_last())
    }
}

/// How long ago the last event was, in milliseconds; none where that is unknown
/// or does not fit.
pub open spec fn silence(time: Option<i64>, now: i64) -> int {
    match time {
        Some(at) => if i64::MIN <= now - at <= i64::MAX {
            now - at
        } else {
            0
        },
        None => 0,
    }
}

/// What a session in the middle of a turn is said to be doing.
pub open spec fn working_detail(
    payload_type: Option<Seq<char>>,
    item_name: Option<Seq<char>>,
) -> Seq<char> {
    if payload_type == Some("token_count"@) || payload_type == Some("task_started"@) || payload_type
        == Some("user_message"@) {
        "working: likely waiting on model/api response"@
    } else if item_name == Some("function_call"@) {
        "working: model requested a tool call"@
    } else if item_name == Some("function_call_output"@) {
        "working: tool output recorded, likely returning to model/api"@
    } else if item_name == Some("reasoning"@) {
        "working: model/api response in progress"@
    } else if item_name == Some("message"@) {
        "working: assistant message is being recorded"@
    } else {
        "working: active turn is not complete"@
    }
}

/// The status of a session and what is said of it, given the events of its log,
/// or nothing where the log could not be read.
pub open spec fn judgement(events: Option<Seq<EventView>>, now: i64) -> (SessionStatus, Seq<char>) {
    match events {
        None => (SessionStatus::Malfunction, "cannot read rollout jsonl"@),
        Some(list) => {
            let quiet = silence(last_time(list), now);
            if open_turn(list) is Some {
                if quiet > MAX_SILENCE_MS {
                    (
                        SessionStatus::Malfunction,
                        "active turn has had no rollout event for "@ + decimal(
                            (quiet / 1000) as nat,
                        ) + "s"@,
                    )
                } else {
                    (SessionStatus::Working, working_detail(last_type(list), last_item(list)))
                }
            } else if last_type(list) == Some("task_complete"@) || last_type(list) == Some(
                "agent_message"@,
            ) {
                (
                    SessionStatus::WaitingUserInput,
                    "last turn completed; Codex TUI is waiting for user input"@,
                )
            } else {
                match last_type(list) {
                    Some(other) => (
                        SessionStatus::WaitingUserInput,
                        "no active turn; last event is "@ + other,
                    ),
                    None => (SessionStatus::Malfunction, "rollout has no readable events"@),
                }
            }
        },
    }
}

/// The time of the last event of a log that could be read.
pub open spec fn judged_time(events: Option<Seq<EventView>>) -> Option<i64> {
    match events {
        None => None,
        Some(list) => last_time(list),
    }
}

/// The views of the events of a log, where it could be read.
pub open spec fn log_view(events: Option<Vec<RecentEvent>>) -> Option<Seq<EventView>> {
    match events {
        Some(list) => Some(event_views(list@)),
        None => None,
    }
}

/// Whether an optional text is there and is `wanted`.
fn is_text(text: &Option<String>, wanted: &str) -> (r: bool)
    ensures
        r == (view_of(*text) == Some(wanted@)),
{
    match text {
        Some(t) => same_text(t.as_str(), wanted),
        None => false,
    }
}

/// What a session in the middle of a turn is said to be doing.
fn describe_work(payload_type: &Option<String>, item_name: &Option<String>) -> (r: String)
    ensures
        r@ == working_detail(view_of(*payload_type), view_of(*item_name)),
{
    if is_text(payload_type, "token_count") || is_text(payload_type, "task_started") || is_text(
        payload_type,
        "user_message",
    ) {
        "working: likely waiting on model/api response".to_string()
    } else if is_text(item_name, "function_call") {
        "working: model requested a tool call".to_string()
    } else if is_text(item_name, "function_call_output") {
        "working: tool output recorded, likely returning to model/api".to_string()
    } else if is_text(item_name, "reasoning") {
        "working: model/api response in progress".to_string()
    } else if is_text(item_name, "message") {
        "working: assistant message is being recorded".to_string()
    } else {
        "working: active turn is not complete".to_string()
    }
}

/// The status of a session, what is said of it, and the time of its last event,
/// given the events of its log, or nothing where the log could not be read.
pub fn assess_thread_status(events: Option<Vec<RecentEvent>>, now_ms: i64) -> (r: (
    SessionStatus,
    String,
    Option<i64>,
))
    ensures
        (r.0, r.1@) == judgement(log_view(events), now_ms),
        r.2 == judged_time(log_view(events)),
{
    let events = match events {
        Some(list) => list,
        None => {
            return (SessionStatus::Malfunction, "cannot read rollout jsonl".to_string(), None);
        },
    };
    let ghost all = event_views(events@);
    let mut active_turn: Option<String> = None;
    let mut last_payload_type: Option<String> = None;
    let mut last_item_name: Option<String> = None;
    let mut last_event_at_ms: Option<i64> = None;
    let mut i: usize = 0;
    while i < events.len()
        invariant
            i <= events@.len(),
            all == event_views(events@),
            view_of(active_turn) == open_turn(all.take(i as int)),
            view_of(last_payload_type) == last_type(all.take(i as int)),
            view_of(last_item_name) == last_item(all.take(i as int)),
            last_event_at_ms == last_time(all.take(i as int)),
        decreases events@.len() - i,
    {
        let event = &events[i];
        proof {
            let next = all.take(i + 1);
            assert(next.drop_last() =~= all.take(i as int));
            assert(next.last() == event@);
        }
        if event.timestamp_ms.is_some() {
            last_event_at_ms = event.timestamp_ms;
        }
        if event.payload_type.is_some() {
            last_payload_type = copy_text(&event.payload_type);
            if is_text(&event.payload_type, "task_started") {
                active_turn = copy_text(&event.turn_id);
            } else if is_text(&event.payload_type, "task_complete") {
                active_turn = None;
            }
        }
        if event.item_name.is_some() {
            last_item_name = copy_text(&event.item_name);
        }
        i += 1;
    }
    assert(all.take(i as int) =~= all);
    if active_turn.is_some() {
        let age_ms: i64 = match last_event_at_ms {
            Some(at) => match now_ms.checked_sub(at) {
                Some(age) => age,
                None => 0,
            },
            None => 0,
        };
        if age_ms > MAX_SILENCE_MS {
            let mut detail = "active turn has had no rollout event for ".to_string();
            let seconds = decimal_text((age_ms / 1000) as u64);
            detail.append(seconds.as_str());
            detail.append("s");
            return (SessionStatus::Malfunction, detail, last_event_at_ms);
        }
        return (
            SessionStatus::Working,
            describe_work(&last_payload_type, &last_item_name),
            last_event_at_ms,
        );
    }
    if is_text(&last_payload_type, "task_complete") || is_text(
        &last_payload_type,
        "agent_message",
    ) {
        return (
            SessionStatus::WaitingUserInput,
            "last turn completed; Codex TUI is waiting for user input".to_string(),
            last_event_at_ms,
        );
    }
    match last_payload_type {
        Some(other) => {
            let mut detail = "no active turn; last event is ".to_string();
            detail.append(other.as_str());
            (SessionStatus::WaitingUserInput, detail, last_event_at_ms)
        },
        None => (
            SessionStatus::Malfunction,
            "rollout has no readable events".to_string(),
            last_event_at_ms,
        ),
    }
}

// ---------------------------------------------------------------------------
// From the log itself
// ---------------------------------------------------------------------------

/// The end of a rollout log: the text that was read, and the byte at which
/// reading began.
#[derive(Debug)]
pub struct RolloutTail {
    pub text: String,
    pub start: u64,
}

/// The events of a log, given its end, or nothing where it could not be read.
pub open spec fn log_events(tail: Option<RolloutTail>) -> Option<Seq<EventView>> {
    match tail {
        Some(t) => Some(events_in(lines_of(whole_lines(t.text@, t.start)))),
        None => None,
    }
}

/// The status of a session, what is said of it, and the time of its last event,
/// given the end of its log, or nothing where the log could not be read.
pub fn assess_rollout(tail: Option<RolloutTail>, now_ms: i64) -> (r: (
    SessionStatus,
    String,
    Option<i64>,
))
    ensures
        (r.0, r.1@) == judgement(log_events(tail), now_ms),
        r.2 == judged_time(log_events(tail)),
{
    let events = match tail {
        Some(t) => Some(read_recent_events(t.text.as_str(), t.start)),
        None => None,
    };
    assess_thread_status(events, now_ms)
}

// ---------------------------------------------------------------------------
// Laws
// ---------------------------------------------------------------------------

/// When a session counts as working, waiting or malfunctioning: it works exactly
/// while a turn is open and its log is not silent for too long, it waits exactly
/// where no turn is open and the log holds an event with a payload type.
pub proof fn law_status_cases(events: Option<Seq<EventView>>, now: i64)
    ensures
        judgement(events, now).0 == SessionStatus::Working <==> (events matches Some(list)
            && open_turn(list) is Some && silence(last_time(list), now) <= MAX_SILENCE_MS),
        judgement(events, now).0 == SessionStatus::WaitingUserInput <==> (events matches Some(list)
            && open_turn(list) is None && last_type(list) is Some),
        judgement(events, now).0 == SessionStatus::Malfunction <==> (match events {
            None => true,
            Some(list) => {
                ||| open_turn(list) is Some && silence(last_time(list), now) > MAX_SILENCE_MS
                ||| open_turn(list) is None && last_type(list) is None
            },
        }),
{
}

/// Once a turn is complete the session waits for its user, whatever happened
/// before and however long ago that was.
pub proof fn law_complete_turn_waits(events: Seq<EventView>, done: EventView, now: i64)
    requires
        done.payload_type == Some("task_complete"@),
    ensures
        judgement(Some(events.push(done)), now) == (
            SessionStatus::WaitingUserInput,
            "last turn completed; Codex TUI is waiting for user input"@,
        ),
{
    reveal_strlit("task_complete");
    reveal_strlit("task_started");
    let all = events.push(done);
    assert(all.last() == done);
    assert("task_complete"@.len() != "task_started"@.len());
}

/// A session whose turn has just started, at a known time, works until its log
/// has been silent for too long, and from then on counts as malfunctioning.
pub proof fn law_started_turn_works(events: Seq<EventView>, begun: EventView, at: i64, now: i64)
    requires
        begun.payload_type == Some("task_started"@),
        begun.turn_id is Some,
        begun.timestamp_ms == Some(at),
        i64::MIN <= now - at <= i64::MAX,
    ensures
        judgement(Some(events.push(begun)), now).0 == if now - at <= MAX_SILENCE_MS {
            SessionStatus::Working
        } else {
            SessionStatus::Malfunction
        },
{
    let all = events.push(begun);
    assert(all.last() == begun);
}

/// An event without a payload type, a time and an item name changes nothing.
pub proof fn law_blank_event_changes_nothing(events: Seq<EventView>, blank: EventView, now: i64)
    requires
        blank.payload_type is None,
        blank.timestamp_ms is None,
        blank.item_name is None,
    ensures
        judgement(Some(events.push(blank)), now) == judgement(Some(events), now),
        judged_time(Some(events.push(blank))) == judged_time(Some(events)),
{
    let all = events.push(blank);
    assert(all.last() == blank);
    assert(all.drop_last() =~= events);
}

/// Event `i` starts a turn that it names, and no event after it starts or
/// completes one.
pub open spec fn turn_stays_open(events: Seq<EventView>, i: int) -> bool {
    &&& 0 <= i < events.len()
    &&& events[i].payload_type == Some("task_started"@)
    &&& events[i].turn_id is Some
    &&& forall|j: int|
        i < j < events.len() ==> (#[trigger] events[j]).payload_type != Some("task_started"@)
            && events[j].payload_type != Some("task_complete"@)
}

/// A turn is open at the end of the events.
pub open spec fn in_turn(events: Seq<EventView>) -> bool {
    exists|i: int| #[trigger] turn_stays_open(events, i)
}

/// Event `i` is the last that has a time.
pub open spec fn is_last_timed(events: Seq<EventView>, i: int) -> bool {
    &&& 0 <= i < events.len()
    &&& events[i].timestamp_ms is Some
    &&& forall|j: int| i < j < events.len() ==> (#[trigger] events[j]).timestamp_ms is None
}

/// The last event that has a time was more than half an hour ago, by as many
/// milliseconds as a signed number of 64 bits can hold.
pub open spec fn is_silent(events: Seq<EventView>, now: i64) -> bool {
    exists|i: int| #[trigger]
        is_last_timed(events, i) && 30 * 60 * 1000 < now - events[i].timestamp_ms->0 <= i64::MAX
}

/// `payload_type` is that of the last event that has one, or none where none has.
pub open spec fn is_last_type(events: Seq<EventView>, payload_type: Option<Seq<char>>) -> bool {
    match payload_type {
        Some(_) => exists|i: int|
            0 <= i < events.len() && (#[trigger] events[i]).payload_type == payload_type && forall|
                j: int,
            |
                i < j < events.len() ==> (#[trigger] events[j]).payload_type is None,
        None => forall|i: int|
            0 <= i < events.len() ==> (#[trigger] events[i]).payload_type is None,
    }
}

/// `item_name` is that of the last event that has one, or none where none has.
pub open spec fn is_last_item(events: Seq<EventView>, item_name: Option<Seq<char>>) -> bool {
    match item_name {
        Some(_) => exists|i: int|
            0 <= i < events.len() && (#[trigger] events[i]).item_name == item_name && forall|
                j: int,
            |
                i < j < events.len() ==> (#[trigger] events[j]).item_name is None,
        None => forall|i: int| 0 <= i < events.len() ==> (#[trigger] events[i]).item_name is None,
    }
}

/// `open_turn` finds a turn exactly where one is open.
proof fn lemma_open_turn(events: Seq<EventView>)
    ensures
        open_turn(events) is Some <==> in_turn(events),
    decreases events.len(),
{
    reveal_strlit("task_started");
    reveal_strlit("task_complete");
    assert("task_started"@.len() != "task_complete"@.len());
    if events.len() > 0 {
        let front = events.drop_last();
        let n = events.len() - 1;
        let last = events[n];
        lemma_open_turn(front);
        if last.payload_type == Some("task_started"@) {
            if last.turn_id is Some {
                assert(turn_stays_open(events, n));
            }
            if in_turn(events) {
                let i = choose|i: int| #[trigger] turn_stays_open(events, i);
                assert(i == n);
            }
        } else if last.payload_type == Some("task_complete"@) {
            if in_turn(events) {
                let i = choose|i: int| #[trigger] turn_stays_open(events, i);
                assert(i == n);
            }
        } else {
            if in_turn(events) {
                let i = choose|i: int| #[trigger] turn_stays_open(events, i);
                assert(i < n);
                assert(front[i] == events[i]);
                assert forall|j: int| i < j < front.len() implies (
                #[trigger] front[j]).payload_type != Some("task_started"@)
                    && front[j].payload_type != Some("task_complete"@) by {
                    assert(front[j] == events[j]);
                }
                assert(turn_stays_open(front, i));
            }
            if in_turn(front) {
                let i = choose|i: int| #[trigger] turn_stays_open(front, i);
                assert(front[i] == events[i]);
                assert forall|j: int| i < j < events.len() implies (
                #[trigger] events[j]).payload_type != Some("task_started"@)
                    && events[j].payload_type != Some("task_complete"@) by {
                    if j < n {
                        assert(front[j] == events[j]);
                    }
                }
                assert(turn_stays_open(events, i));
            }
        }
    }
}

/// What `last_time` finds.
proof fn lemma_last_time(events: Seq<EventView>)
    ensures
        last_time(events) matches Some(at) ==> exists|i: int| #[trigger]
            is_last_timed(events, i) && events[i].timestamp_ms == Some(at),
        last_time(events) is None ==> forall|i: int|
            0 <= i < events.len() ==> (#[trigger] events[i]).timestamp_ms is None,
    decreases events.len(),
{
    if events.len() > 0 {
        let front = events.drop_last();
        let n = events.len() - 1;
        if events.last().timestamp_ms is Some {
            assert(is_last_timed(events, n));
        } else {
            lemma_last_time(front);
            if let Some(at) = last_time(front) {
                let i = choose|i: int| #[trigger]
                    is_last_timed(front, i) && front[i].timestamp_ms == Some(at);
                assert(front[i] == events[i]);
                assert forall|j: int| i < j < events.len() implies (
                #[trigger] events[j]).timestamp_ms is None by {
                    if j < n {
                        assert(front[j] == events[j]);
                    }
                }
                assert(is_last_timed(events, i));
            } else {
                assert forall|j: int| 0 <= j < events.len() implies (
                #[trigger] events[j]).timestamp_ms is None by {
                    if j < n {
                        assert(front[j] == events[j]);
                    }
                }
            }
        }
    }
}

/// There is one last event that has a time.
proof fn lemma_one_last_timed(events: Seq<EventView>, i: int)
    requires
        is_last_timed(events, i),
    ensures
        last_time(events) == events[i].timestamp_ms,
{
    lemma_last_time(events);
    if let Some(at) = last_time(events) {
        let k = choose|k: int| #[trigger]
            is_last_timed(events, k) && events[k].timestamp_ms == Some(at);
        assert(k == i);
    }
}

/// What `last_type` finds.
proof fn lemma_last_type(events: Seq<EventView>)
    ensures
        is_last_type(events, last_type(events)),
    decreases events.len(),
{
    if events.len() > 0 {
        let front = events.drop_last();
        let n = events.len() - 1;
        if events[n].payload_type is None {
            lemma_last_type(front);
            if last_type(front) is Some {
                let i = choose|i: int|
                    0 <= i < front.len() && (#[trigger] front[i]).payload_type == last_type(front)
                        && forall|j: int|
                        i < j < front.len() ==> (#[trigger] front[j]).payload_type is None;
                assert(front[i] == events[i]);
                assert forall|j: int| i < j < events.len() implies (
                #[trigger] events[j]).payload_type is None by {
                    if j < n {
                        assert(front[j] == events[j]);
                    }
                }
            } else {
                assert forall|j: int| 0 <= j < events.len() implies (
                #[trigger] events[j]).payload_type is None by {
                    if j < n {
                        assert(front[j] == events[j]);
                    }
                }
            }
        }
    }
}

/// There is one last payload type.
proof fn lemma_one_last_type(events: Seq<EventView>, payload_type: Option<Seq<char>>)
    requires
        is_last_type(events, payload_type),
    ensures
        last_type(events) == payload_type,
{
    lemma_last_type(events);
}

/// What `last_item` finds.
proof fn lemma_last_item(events: Seq<EventView>)
    ensures
        is_last_item(events, last_item(events)),
    decreases events.len(),
{
    if events.len() > 0 {
        let front = events.drop_last();
        let n = events.len() - 1;
        if events[n].item_name is None {
            lemma_last_item(front);
            if last_item(front) is Some {
                let i = choose|i: int|
                    0 <= i < front.len() && (#[trigger] front[i]).item_name == last_item(front)
                        && forall|j: int|
                        i < j < front.len() ==> (#[trigger] front[j]).item_name is None;
                assert(front[i] == events[i]);
                assert forall|j: int| i < j < events.len() implies (
                #[trigger] events[j]).item_name is None by {
                    if j < n {
                        assert(front[j] == events[j]);
                    }
                }
            } else {
                assert forall|j: int| 0 <= j < events.len() implies (
                #[trigger] events[j]).item_name is None by {
                    if j < n {
                        assert(front[j] == events[j]);
                    }
                }
            }
        }
    }
}

/// Silence is measured from the last event that has a time.
proof fn lemma_silence(events: Seq<EventView>, now: i64)
    ensures
        silence(last_time(events), now) > MAX_SILENCE_MS <==> is_silent(events, now),
{
    lemma_last_time(events);
    if is_silent(events, now) {
        let i = choose|i: int| #[trigger]
            is_last_timed(events, i) && 30 * 60 * 1000 < now - events[i].timestamp_ms->0
                <= i64::MAX;
        lemma_one_last_timed(events, i);
    }
    if silence(last_time(events), now) > MAX_SILENCE_MS {
        let at = last_time(events)->0;
        let i = choose|i: int| #[trigger]
            is_last_timed(events, i) && events[i].timestamp_ms == Some(at);
        assert(is_last_timed(events, i));
    }
}

/// The time that is given with a judgement is that of the last event that has
/// one, and there is none exactly where no event has one or the log could not be
/// read.
pub proof fn law_judged_time_is_the_last(events: Seq<EventView>)
    ensures
        judged_time(Some(events)) matches Some(at) ==> exists|i: int| #[trigger]
            is_last_timed(events, i) && events[i].timestamp_ms == Some(at),
        judged_time(Some(events)) is None <==> forall|i: int|
            0 <= i < events.len() ==> (#[trigger] events[i]).timestamp_ms is None,
        judged_time(None) is None,
{
    lemma_last_time(events);
}

/// A session works exactly where some event starts a turn that no later event
/// ends or replaces, and the log has not been silent for more than half an hour;
/// where it has, the session malfunctions. Where no turn is open it waits, as long
/// as any event has a payload type, and malfunctions where none has.
pub proof fn law_status_by_positions(events: Seq<EventView>, now: i64)
    ensures
        judgement(Some(events), now).0 == SessionStatus::Working <==> in_turn(events) && !is_silent(
            events,
            now,
        ),
        judgement(Some(events), now).0 == SessionStatus::WaitingUserInput <==> !in_turn(events)
            && exists|i: int|
            0 <= i < events.len() && (#[trigger] events[i]).payload_type is Some,
        judgement(Some(events), now).0 == SessionStatus::Malfunction <==> (in_turn(events)
            && is_silent(events, now)) || (!in_turn(events) && forall|i: int|
            0 <= i < events.len() ==> (#[trigger] events[i]).payload_type is None),
{
    lemma_open_turn(events);
    lemma_silence(events, now);
    lemma_last_type(events);
    if !in_turn(events) && last_type(events) is Some {
        let i = choose|i: int|
            0 <= i < events.len() && (#[trigger] events[i]).payload_type == last_type(events)
                && forall|j: int|
                i < j < events.len() ==> (#[trigger] events[j]).payload_type is None;
        assert(events[i].payload_type is Some);
    }
}

/// Only the start of a turn and its completion open or close one: any other event
/// leaves an open turn open and opens none, so that with the time it gives the
/// session goes on working.
pub proof fn law_other_events_keep_the_turn(events: Seq<EventView>, other: EventView, now: i64)
    requires
        other.payload_type != Some("task_started"@),
        other.payload_type != Some("task_complete"@),
    ensures
        in_turn(events.push(other)) <==> in_turn(events),
        in_turn(events) && other.timestamp_ms == Some(now) ==> judgement(
            Some(events.push(other)),
            now,
        ).0 == SessionStatus::Working,
        !in_turn(events) ==> judgement(Some(events.push(other)), now).0 != SessionStatus::Working,
{
    let all = events.push(other);
    assert(all.drop_last() =~= events);
    lemma_open_turn(events);
    lemma_open_turn(all);
    law_status_by_positions(all, now);
    lemma_silence(all, now);
}

/// What is said of a session follows from its log alone: that it could not be
/// read, how long an open turn has been silent, which record came last in an open
/// turn, or which payload type came last where no turn is open.
pub proof fn law_details_by_positions(
    events: Seq<EventView>,
    now: i64,
    i: int,
    payload_type: Option<Seq<char>>,
    item_name: Option<Seq<char>>,
)
    requires
        is_last_type(events, payload_type),
        is_last_item(events, item_name),
    ensures
        judgement(None, now) == (SessionStatus::Malfunction, "cannot read rollout jsonl"@),
        in_turn(events) && is_silent(events, now) && is_last_timed(events, i) ==> judgement(
            Some(events),
            now,
        ) == (
            SessionStatus::Malfunction,
            "active turn has had no rollout event for "@ + decimal(
                ((now - events[i].timestamp_ms->0) / 1000) as nat,
            ) + "s"@,
        ),
        in_turn(events) && !is_silent(events, now) && (payload_type == Some("token_count"@)
            || payload_type == Some("task_started"@) || payload_type == Some("user_message"@))
            ==> judgement(Some(events), now).1 == "working: likely waiting on model/api response"@,
        in_turn(events) && !is_silent(events, now) && payload_type != Some("token_count"@)
            && payload_type != Some("task_started"@) && payload_type != Some("user_message"@) ==> {
            let detail = judgement(Some(events), now).1;
            &&& item_name == Some("function_call"@) ==> detail
                == "working: model requested a tool call"@
            &&& item_name == Some("function_call_output"@) ==> detail
                == "working: tool output recorded, likely returning to model/api"@
            &&& item_name == Some("reasoning"@) ==> detail
                == "working: model/api response in progress"@
            &&& item_name == Some("message"@) ==> detail
                == "working: assistant message is being recorded"@
            &&& (item_name != Some("function_call"@) && item_name != Some("function_call_output"@)
                && item_name != Some("reasoning"@) && item_name != Some("message"@)) ==> detail
                == "working: active turn is not complete"@
        },
        !in_turn(events) ==> (payload_type matches Some(kind) ==> judgement(Some(events), now) == (
            SessionStatus::WaitingUserInput,
            if kind == "task_complete"@ || kind == "agent_message"@ {
                "last turn completed; Codex TUI is waiting for user input"@
            } else {
                "no active turn; last event is "@ + kind
            },
        )),
        !in_turn(events) && payload_type is None ==> judgement(Some(events), now) == (
            SessionStatus::Malfunction,
            "rollout has no readable events"@,
        ),
{
    reveal_strlit("function_call");
    reveal_strlit("function_call_output");
    reveal_strlit("reasoning");
    reveal_strlit("message");
    assert("function_call"@.len() == 13 && "function_call_output"@.len() == 20);
    assert("reasoning"@.len() == 9 && "message"@.len() == 7);
    lemma_open_turn(events);
    lemma_silence(events, now);
    lemma_last_type(events);
    lemma_one_last_type(events, payload_type);
    lemma_last_item(events);
    if is_last_timed(events, i) {
        lemma_one_last_timed(events, i);
        if is_silent(events, now) {
            let k = choose|k: int| #[trigger]
                is_last_timed(events, k) && 30 * 60 * 1000 < now - events[k].timestamp_ms->0
                    <= i64::MAX;
            assert(k == i);
        }
    }
}

/// The events of a log are those of the lines that count in the part that was
/// read, and there are none to judge by where it could not be read.
pub proof fn law_log_is_judged_by_its_lines(tail: RolloutTail)
    ensures
        log_events(Some(tail)) == Some(events_in(lines_of(whole_lines(tail.text@, tail.start)))),
        tail.start == 0 ==> log_events(Some(tail)) == Some(events_in(lines_of(tail.text@))),
        log_events(None) is None,
{
}

} // verus!
