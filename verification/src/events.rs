//! The rollout log of a session: JSON records, one to a line, of which only the
//! end is read.

use crate::text::{
    chars_of, copy_text, find_char, first_index, lemma_first_index, lemma_first_index_unique,
    lines_of, same_text, slice_view, split_lines, text_of, view_of, views,
};
use vstd::prelude::*;

verus! {

broadcast use vstd::string::group_string_axioms;

/// How much of the end of a rollout log is read, in bytes.
pub const MAX_TAIL: u64 = 524288;

/// What one record of the rollout log says about the session.
#[derive(Debug)]
pub struct RecentEvent {
    pub timestamp_ms: Option<i64>,
    pub payload_type: Option<String>,
    pub turn_id: Option<String>,
    pub item_name: Option<String>,
}

/// A `RecentEvent` with its texts as sequences of characters.
pub struct EventView {
    pub timestamp_ms: Option<i64>,
    pub payload_type: Option<Seq<char>>,
    pub turn_id: Option<Seq<char>>,
    pub item_name: Option<Seq<char>>,
}

impl View for RecentEvent {
    type V = EventView;

    open spec fn view(&self) -> EventView {
        EventView {
            timestamp_ms: self.timestamp_ms,
            payload_type: view_of(self.payload_type),
            turn_id: view_of(self.turn_id),
            item_name: view_of(self.item_name),
        }
    }
}

/// The views of a list of events.
pub open spec fn event_views(list: Seq<RecentEvent>) -> Seq<EventView> {
    list.map_values(|e: RecentEvent| e@)
}

// ---------------------------------------------------------------------------
// Timestamps
// ---------------------------------------------------------------------------

/// The moment that an RFC 3339 text names, in milliseconds since the Unix epoch,
/// as chrono reads it.
pub uninterp spec fn rfc3339_millis(text: Seq<char>) -> Option<i64>;

/// chrono's `DateTime::parse_from_rfc3339`, with the moment turned into
/// milliseconds since the Unix epoch: some number where the text is accepted, the
/// same one for the same text, and nothing where it is refused. Which texts are
/// accepted, and which number each stands for, is left to chrono.
#[verifier::external_body]
fn read_rfc3339(raw: &str) -> (r: Option<i64>)
    ensures
        r == rfc3339_millis(raw@),
{
    match chrono::DateTime::parse_from_rfc3339(raw) {
        Ok(moment) => Some(moment.timestamp_millis()),
        Err(_) => None,
    }
}

/// The moment that `raw` names, in milliseconds since the Unix epoch.
pub fn parse_timestamp_ms(raw: &str) -> (r: Option<i64>)
    ensures
        r == rfc3339_millis(raw@),
{
    read_rfc3339(raw)
}

// ---------------------------------------------------------------------------
// JSON
// ---------------------------------------------------------------------------

/// A JSON value of serde_json.
#[verifier::external_type_specification]
#[verifier::external_body]
pub struct ExValue(serde_json::Value);

/// The strings that a JSON value holds, each under the object keys that lead to
/// it, outermost first. A value that is a string itself has it under no key;
/// strings in arrays are not among them.
pub uninterp spec fn strings_in(value: serde_json::Value) -> Map<Seq<Seq<char>>, Seq<char>>;

/// The strings that a JSON text holds, as serde_json reads it; nothing where the
/// text is not JSON.
pub uninterp spec fn json_strings(text: Seq<char>) -> Option<Map<Seq<Seq<char>>, Seq<char>>>;

/// The strings below `key`.
pub open spec fn strings_under(
    strings: Map<Seq<Seq<char>>, Seq<char>>,
    key: Seq<char>,
) -> Map<Seq<Seq<char>>, Seq<char>> {
    Map::new(
        |path: Seq<Seq<char>>| strings.contains_key(seq![key] + path),
        |path: Seq<Seq<char>>| strings[seq![key] + path],
    )
}

/// The string at `path`.
pub open spec fn string_at(
    strings: Map<Seq<Seq<char>>, Seq<char>>,
    path: Seq<Seq<char>>,
) -> Option<Seq<char>> {
    if strings.contains_key(path) {
        Some(strings[path])
    } else {
        None
    }
}

/// serde_json's `from_str` for `Value`: a value for a JSON text, which holds the
/// same strings whenever the text is the same, and nothing for another text.
/// Which texts are JSON, and which strings each holds, is left to serde_json.
#[verifier::external_body]
fn read_json(text: &str) -> (r: Option<serde_json::Value>)
    ensures
        match r {
            Some(value) => json_strings(text@) == Some(strings_in(value)),
            None => json_strings(text@) is None,
        },
{
    serde_json::from_str(text).ok()
}

/// serde_json's `Value::get` for a key: the member of that name where the value
/// is an object that has one. The member holds the strings that the value holds
/// below the key; without a member there are none.
#[verifier::external_body]
fn member<'a>(value: &'a serde_json::Value, key: &str) -> (r: Option<&'a serde_json::Value>)
    ensures
        match r {
            Some(found) => strings_in(*found) == strings_under(strings_in(*value), key@),
            None => strings_under(strings_in(*value), key@) == Map::<
                Seq<Seq<char>>,
                Seq<char>,
            >::empty(),
        },
{
    value.get(key)
}

/// serde_json's `Value::as_str`: the text where the value is a string, else
/// nothing.
#[verifier::external_body]
fn string_value<'a>(value: &'a serde_json::Value) -> (r: Option<&'a str>)
    ensures
        slice_view(r) == string_at(strings_in(*value), Seq::empty()),
{
    value.as_str()
}

/// The string member of that name.
fn string_member<'a>(value: &'a serde_json::Value, key: &str) -> (r: Option<&'a str>)
    ensures
        slice_view(r) == string_at(strings_in(*value), seq![key@]),
{
    let ghost strings = strings_in(*value);
    let ghost below = strings_under(strings, key@);
    let ghost top = Seq::<Seq<char>>::empty();
    assert(seq![key@] + top =~= seq![key@]);
    match member(value, key) {
        Some(found) => string_value(found),
        None => {
            assert(!below.contains_key(top));
            None
        },
    }
}

// ---------------------------------------------------------------------------
// Events
// ---------------------------------------------------------------------------

/// The event that a record makes: its kind decides whether the payload's type
/// also names a response item.
pub open spec fn event_made(
    timestamp_ms: Option<i64>,
    record_type: Option<Seq<char>>,
    payload_type: Option<Seq<char>>,
    turn_id: Option<Seq<char>>,
) -> EventView {
    EventView {
        timestamp_ms,
        payload_type,
        turn_id,
        item_name: if record_type == Some("response_item"@) {
            payload_type
        } else {
            None
        },
    }
}

/// The event in a record that holds these strings.
pub open spec fn event_in(strings: Map<Seq<Seq<char>>, Seq<char>>) -> EventView {
    event_made(
        match string_at(strings, seq!["timestamp"@]) {
            Some(raw) => rfc3339_millis(raw),
            None => None,
        },
        string_at(strings, seq!["type"@]),
        string_at(strings, seq!["payload"@, "type"@]),
        string_at(strings, seq!["payload"@, "turn_id"@]),
    )
}

/// The events in the lines of a log: one for each line that is JSON, in order.
pub open spec fn events_in(lines: Seq<Seq<char>>) -> Seq<EventView>
    decreases lines.len(),
{
    if lines.len() == 0 {
        Seq::empty()
    } else {
        let before = events_in(lines.drop_last());
        match json_strings(lines.last()) {
            Some(strings) => before.push(event_in(strings)),
            None => before,
        }
    }
}

/// The event that a record makes.
pub fn make_event(
    timestamp_ms: Option<i64>,
    record_type: Option<&str>,
    payload_type: Option<&str>,
    turn_id: Option<&str>,
) -> (r: RecentEvent)
    ensures
        r@ == event_made(
            timestamp_ms,
            slice_view(record_type),
            slice_view(payload_type),
            slice_view(turn_id),
        ),
{
    let payload_type = match payload_type {
        Some(text) => Some(text.to_string()),
        None => None,
    };
    let turn_id = match turn_id {
        Some(text) => Some(text.to_string()),
        None => None,
    };
    let is_item = match record_type {
        Some(text) => same_text(text, "response_item"),
        None => false,
    };
    let item_name = if is_item {
        copy_text(&payload_type)
    } else {
        None
    };
    RecentEvent { timestamp_ms, payload_type, turn_id, item_name }
}

/// The event in a record.
fn event_from_json(value: &serde_json::Value) -> (r: RecentEvent)
    ensures
        r@ == event_in(strings_in(*value)),
{
    let ghost strings = strings_in(*value);
    let timestamp_ms = match string_member(value, "timestamp") {
        Some(raw) => parse_timestamp_ms(raw),
        None => None,
    };
    let record_type = string_member(value, "type");
    let mut payload_type: Option<&str> = None;
    let mut turn_id: Option<&str> = None;
    let payload = member(value, "payload");
    proof {
        let below = strings_under(strings, "payload"@);
        assert(seq!["payload"@] + seq!["type"@] =~= seq!["payload"@, "type"@]);
        assert(seq!["payload"@] + seq!["turn_id"@] =~= seq!["payload"@, "turn_id"@]);
        assert(string_at(below, seq!["type"@]) == string_at(
            strings,
            seq!["payload"@, "type"@],
        ));
        assert(string_at(below, seq!["turn_id"@]) == string_at(
            strings,
            seq!["payload"@, "turn_id"@],
        ));
    }
    if let Some(found) = payload {
        payload_type = string_member(found, "type");
        turn_id = string_member(found, "turn_id");
    }
    make_event(timestamp_ms, record_type, payload_type, turn_id)
}

// ---------------------------------------------------------------------------
// The end of the log
// ---------------------------------------------------------------------------

/// Where reading begins in a log of `len` bytes: `MAX_TAIL` before its end, or at
/// its start where it is not longer than that.
pub open spec fn tail_offset(len: u64) -> u64 {
    if len > MAX_TAIL {
        (len - MAX_TAIL) as u64
    } else {
        0
    }
}

/// Where reading begins in a log of `len` bytes.
pub fn tail_start(len: u64) -> (r: u64)
    ensures
        r == tail_offset(len),
{
    if len > MAX_TAIL {
        len - MAX_TAIL
    } else {
        0
    }
}

/// What counts of the text that was read: all of it where reading began at the
/// start of the log, else what follows its first line feed, as the line before
/// that may have been cut. Text without a line feed counts in any case.
pub open spec fn whole_lines(text: Seq<char>, start: u64) -> Seq<char> {
    let n = first_index(text, '\n') as int;
    if start > 0 && n < text.len() {
        text.skip(n + 1)
    } else {
        text
    }
}

/// The events in `text`, which was read from a log beginning at byte `start`.
pub fn read_recent_events(text: &str, start: u64) -> (r: Vec<RecentEvent>)
    ensures
        event_views(r@) == events_in(lines_of(whole_lines(text@, start))),
{
    let cs = chars_of(text);
    let n = find_char(cs.as_slice(), '\n', 0);
    assert(cs@.skip(0) =~= text@);
    let from: usize = if start > 0 && n < cs.len() {
        n + 1
    } else {
        0
    };
    let kept = text_of(cs.as_slice(), from, cs.len());
    assert(kept@ =~= whole_lines(text@, start));
    let lines = split_lines(kept.as_str());
    let ghost all = views(lines@);
    let mut out: Vec<RecentEvent> = Vec::new();
    let mut i: usize = 0;
    assert(event_views(out@) =~= events_in(all.take(0)));
    while i < lines.len()
        invariant
            i <= lines@.len(),
            all == views(lines@),
            event_views(out@) == events_in(all.take(i as int)),
        decreases lines@.len() - i,
    {
        let ghost next = all.take(i + 1);
        let ghost before = out@;
        assert(next.drop_last() =~= all.take(i as int));
        assert(next.last() == lines@[i as int]@);
        if let Some(value) = read_json(lines[i].as_str()) {
            let event = event_from_json(&value);
            out.push(event);
            assert(event_views(out@) =~= event_views(before).push(event@));
        }
        assert(event_views(out@) =~= events_in(next));
        i += 1;
    }
    assert(all.take(i as int) =~= all);
    out
}

// ---------------------------------------------------------------------------
// Laws
// ---------------------------------------------------------------------------

/// Lines before a line feed and lines after it are the lines of the whole.
proof fn lemma_lines_split(head: Seq<char>, rest: Seq<char>)
    requires
        head.len() > 0,
        head.last() == '\n',
    ensures
        lines_of(head + rest) == lines_of(head) + lines_of(rest),
    decreases head.len(),
{
    let s = head + rest;
    lemma_first_index(head, '\n');
    lemma_first_index(s, '\n');
    let n = first_index(head, '\n') as int;
    if n == head.len() {
        assert(head[head.len() - 1] != '\n');
    }
    assert(s[n] == '\n');
    let m = first_index(s, '\n') as int;
    if m < n {
        assert(head[m] == s[m]);
    }
    if n < m {
        assert(s[n] != '\n');
    }
    assert(s.take(n) =~= head.take(n));
    let tail = head.skip(n + 1);
    assert(s.skip(n + 1) =~= tail + rest);
    let line = seq![crate::text::without_return(head.take(n))];
    if tail.len() == 0 {
        assert(tail + rest =~= rest);
        assert(lines_of(tail) =~= Seq::empty());
        assert(lines_of(head) =~= line);
    } else {
        lemma_lines_split(tail, rest);
    }
    assert(lines_of(s) =~= lines_of(head) + lines_of(rest));
}

/// The events of two stretches of lines follow one another.
proof fn lemma_events_split(first: Seq<Seq<char>>, second: Seq<Seq<char>>)
    ensures
        events_in(first + second) == events_in(first) + events_in(second),
    decreases second.len(),
{
    let all = first + second;
    if second.len() == 0 {
        assert(all =~= first);
        assert(events_in(first) + events_in(second) =~= events_in(first));
    } else {
        assert(all.drop_last() =~= first + second.drop_last());
        assert(all.last() == second.last());
        lemma_events_split(first, second.drop_last());
        assert(events_in(all) =~= events_in(first) + events_in(second));
    }
}

/// The events of a log that is cut behind a line feed are those of its two parts,
/// one after the other.
pub proof fn law_events_of_parts(head: Seq<char>, rest: Seq<char>)
    requires
        head.len() > 0,
        head.last() == '\n',
    ensures
        events_in(lines_of(head + rest)) == events_in(lines_of(head)) + events_in(lines_of(rest)),
{
    lemma_lines_split(head, rest);
    lemma_events_split(lines_of(head), lines_of(rest));
}

/// Reading only the end of a log loses no event after the first line feed read,
/// and no cut line makes an event: whatever stood before the part that was read,
/// the events found are the last events of the whole log.
pub proof fn law_tail_events_are_last(unread: Seq<char>, read: Seq<char>, start: u64)
    requires
        start > 0,
        read.contains('\n'),
    ensures
        events_in(lines_of(whole_lines(read, start))).is_suffix_of(
            events_in(lines_of(unread + read)),
        ),
{
    lemma_first_index(read, '\n');
    let n = first_index(read, '\n') as int;
    assert(n < read.len());
    let kept = read.skip(n + 1);
    let head = unread + read.take(n + 1);
    assert(unread + read =~= head + kept);
    assert(head.last() == read[n]);
    law_events_of_parts(head, kept);
    let whole = events_in(lines_of(unread + read));
    let found = events_in(lines_of(kept));
    assert(found =~= whole.subrange(whole.len() - found.len(), whole.len() as int));
}

/// Of a log half a mebibyte is read, from its end, and all of it where it is not
/// longer than that.
pub proof fn law_half_a_mebibyte_is_read(len: u64)
    ensures
        tail_offset(len) <= len,
        len - tail_offset(len) == if len <= 512 * 1024 {
            len as int
        } else {
            524288int
        },
{
}

/// Where reading begins in the middle of a log, what stands before the first line
/// feed does not count and everything after it does. All counts where reading
/// begins at the start of the log, and where there is no line feed.
pub proof fn law_cut_line_is_left_out(
    cut: Seq<char>,
    rest: Seq<char>,
    text: Seq<char>,
    start: u64,
)
    requires
        !cut.contains('\n'),
    ensures
        start > 0 ==> whole_lines(cut + seq!['\n'] + rest, start) == rest,
        whole_lines(text, 0) == text,
        !text.contains('\n') ==> whole_lines(text, start) == text,
{
    let s = cut + seq!['\n'] + rest;
    let n = cut.len() as int;
    assert forall|i: int| 0 <= i < n implies s[i] != '\n' by {
        assert(s[i] == cut[i]);
        assert(cut.contains(cut[i]));
    }
    assert(s[n] == '\n');
    lemma_first_index_unique(s, '\n', n);
    assert(s.skip(n + 1) =~= rest);
    lemma_first_index(text, '\n');
    if !text.contains('\n') && first_index(text, '\n') < text.len() {
        assert(text.contains(text[first_index(text, '\n') as int]));
    }
}

/// Each line of a log that is JSON makes one event, behind those of the lines
/// before it, and any other line makes none. The event has the time that the
/// string `timestamp` names, the strings `type` and `turn_id` of the payload, and
/// the payload's type once more as its item name exactly where the record itself
/// is of type `response_item`.
pub proof fn law_events_line_by_line(lines: Seq<Seq<char>>, line: Seq<char>)
    ensures
        events_in(Seq::empty()).len() == 0,
        json_strings(line) is None ==> events_in(lines.push(line)) == events_in(lines),
        json_strings(line) matches Some(strings) ==> {
            let all = events_in(lines.push(line));
            let event = all.last();
            let kind = seq!["payload"@, "type"@];
            let turn = seq!["payload"@, "turn_id"@];
            let time = seq!["timestamp"@];
            let record = seq!["type"@];
            &&& all.len() == events_in(lines).len() + 1
            &&& all.drop_last() == events_in(lines)
            &&& event.payload_type == if strings.contains_key(kind) {
                Some(strings[kind])
            } else {
                None
            }
            &&& event.turn_id == if strings.contains_key(turn) {
                Some(strings[turn])
            } else {
                None
            }
            &&& event.timestamp_ms == if strings.contains_key(time) {
                rfc3339_millis(strings[time])
            } else {
                None
            }
            &&& event.item_name == if strings.contains_key(record) && strings[record]
                == "response_item"@ {
                event.payload_type
            } else {
                None
            }
        },
{
    let all = lines.push(line);
    assert(all.drop_last() =~= lines);
    assert(all.last() == line);
    if let Some(strings) = json_strings(line) {
        assert(events_in(all).drop_last() =~= events_in(lines));
    }
}

/// An event keeps what its record says; it has an item name exactly where the
/// record is a response item whose payload has a type, and then it is that type.
pub proof fn law_event_keeps_its_record(
    timestamp_ms: Option<i64>,
    record_type: Option<Seq<char>>,
    payload_type: Option<Seq<char>>,
    turn_id: Option<Seq<char>>,
)
    ensures
        ({
            let event = event_made(timestamp_ms, record_type, payload_type, turn_id);
            &&& event.timestamp_ms == timestamp_ms
            &&& event.payload_type == payload_type
            &&& event.turn_id == turn_id
            &&& record_type == Some("response_item"@) ==> event.item_name == payload_type
            &&& record_type != Some("response_item"@) ==> event.item_name is None
        }),
{
}

} // verus!
