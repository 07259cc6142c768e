//! The list of running sessions as it is shown.

use crate::clock::low_bits;
use crate::session::{recency, session_views, RunningSession, SessionStatus, SessionView, Thread};
use crate::text::{
    all_digits, decimal, decimal_text, digits_value, followed_by, is_digit, lemma_digits_decide,
    pad_text, padded, views,
};
use vstd::prelude::*;

verus! {

broadcast use vstd::string::group_string_axioms;

/// How a status is shown.
pub open spec fn label(status: SessionStatus) -> Seq<char> {
    match status {
        SessionStatus::Working => "working"@,
        SessionStatus::WaitingUserInput => "waiting_user"@,
        SessionStatus::Malfunction => "malfunction"@,
    }
}

/// How a status is shown.
pub fn status_label(status: SessionStatus) -> (r: &'static str)
    ensures
        r@ == label(status),
{
    match status {
        SessionStatus::Working => "working",
        SessionStatus::WaitingUserInput => "waiting_user",
        SessionStatus::Malfunction => "malfunction",
    }
}

// ---------------------------------------------------------------------------
// Times
// ---------------------------------------------------------------------------

/// The first moment that chrono can represent, the beginning of the year -262143
/// in UTC, in milliseconds since the Unix epoch.
pub const FIRST_MOMENT_MS: i64 = -8334601228800000;

/// The last millisecond that chrono can represent, at the end of the year 262142
/// in UTC.
pub const LAST_MOMENT_MS: i64 = 8210266876799999;

/// chrono can represent the moment.
pub open spec fn is_moment(epoch_ms: i64) -> bool {
    FIRST_MOMENT_MS <= epoch_ms <= LAST_MOMENT_MS
}

/// The year is written with a sign.
pub open spec fn is_signed(year: Seq<char>) -> bool {
    year.len() > 0 && (year[0] == '+' || year[0] == '-')
}

/// The year without its sign.
pub open spec fn year_digits(year: Seq<char>) -> Seq<char> {
    if is_signed(year) {
        year.drop_first()
    } else {
        year
    }
}

/// The number that a written year stands for.
pub open spec fn year_value(year: Seq<char>) -> int {
    if is_signed(year) && year[0] == '-' {
        -digits_value(year_digits(year))
    } else {
        digits_value(year_digits(year)) as int
    }
}

/// A year as chrono writes it: with zeros before it as far as four digits need
/// them, and with a sign exactly where it is not among the years 0 to 9999.
pub open spec fn is_year_text(year: Seq<char>) -> bool {
    let digits = year_digits(year);
    &&& all_digits(digits)
    &&& digits.len() >= 4
    &&& digits.len() > 4 ==> digits[0] != '0'
    &&& is_signed(year) <==> !(0 <= year_value(year) <= 9999)
}

/// The number that the two digits at `i` stand for.
pub open spec fn two_digits(text: Seq<char>, i: int) -> int {
    digits_value(text.subrange(i, i + 2)) as int
}

/// A leap year of the Gregorian calendar.
pub open spec fn is_leap_year(year: int) -> bool {
    year % 4 == 0 && (year % 100 != 0 || year % 400 == 0)
}

/// The days of a month.
pub open spec fn month_length(year: int, month: int) -> int {
    if month == 2 {
        if is_leap_year(year) {
            29
        } else {
            28
        }
    } else if month == 4 || month == 6 || month == 9 || month == 11 {
        30
    } else {
        31
    }
}

/// The date exists in the Gregorian calendar.
pub open spec fn is_date(year: int, month: int, day: int) -> bool {
    1 <= month <= 12 && 1 <= day <= month_length(year, month)
}

/// The year, counted from March, so that a leap day is the last day of its year.
pub open spec fn march_year(year: int, month: int) -> int {
    if month <= 2 {
        year - 1
    } else {
        year
    }
}

/// The days of the years before `z`, counted from March of the year 0.
pub open spec fn days_before_year(z: int) -> int {
    365 * z + z / 4 - z / 100 + z / 400
}

/// The days between the first of March and the first of `month`.
pub open spec fn days_before_month(month: int) -> int {
    (153 * ((month + 9) % 12) + 2) / 5
}

/// The days from the Unix epoch to a date in the Gregorian calendar.
pub open spec fn days_to(year: int, month: int, day: int) -> int {
    days_before_year(march_year(year, month)) + days_before_month(month) + day - 719469
}

/// The seconds from the Unix epoch to the date and time of day that `text` names,
/// where both are taken for the same time zone.
pub open spec fn seconds_in(text: Seq<char>) -> int {
    let k = text.len() - 15;
    86400 * days_to(
        year_value(text.take(k)),
        two_digits(text, k + 1),
        two_digits(text, k + 4),
    ) + 3600 * two_digits(text, k + 7) + 60 * two_digits(text, k + 10) + two_digits(text, k + 13)
}

/// A date that exists and a time of day: a year, and behind it month, day, hour,
/// minute and second in two digits each.
pub open spec fn is_time_text(text: Seq<char>) -> bool {
    let k = text.len() - 15;
    &&& k >= 0
    &&& is_year_text(text.take(k))
    &&& text[k] == '-' && is_digit(text[k + 1]) && is_digit(text[k + 2])
    &&& text[k + 3] == '-' && is_digit(text[k + 4]) && is_digit(text[k + 5])
    &&& text[k + 6] == ' ' && is_digit(text[k + 7]) && is_digit(text[k + 8])
    &&& text[k + 9] == ':' && is_digit(text[k + 10]) && is_digit(text[k + 11])
    &&& text[k + 12] == ':' && is_digit(text[k + 13]) && is_digit(text[k + 14])
    &&& is_date(year_value(text.take(k)), two_digits(text, k + 1), two_digits(text, k + 4))
    &&& two_digits(text, k + 7) < 24
    &&& two_digits(text, k + 10) < 60
    &&& two_digits(text, k + 13) < 60
}

/// `text` names the moment as some time zone has it, which differs from UTC by
/// less than a day.
pub open spec fn names_moment(text: Seq<char>, epoch_ms: int) -> bool {
    is_time_text(text) && -86400 < seconds_in(text) - epoch_ms / 1000 < 86400
}

/// chrono's `DateTime::from_timestamp_millis`, with the moment turned into text
/// for the machine's time zone: there is a text exactly where chrono can represent
/// the moment, and it is the date and the time of day of that moment, to the
/// second, moved by the offset of the time zone, which chrono keeps below a day
/// either way. The date exists in the calendar, and its year has a sign exactly
/// where it is not among the years 0 to 9999. Which offset the time zone has
/// depends on the machine and is left unsaid.
#[verifier::external_body]
fn local_time(epoch_ms: i64, format: &str) -> (r: Option<String>)
    requires
        format@ == "%Y-%m-%d %H:%M:%S"@,
    ensures
        r is Some <==> is_moment(epoch_ms),
        r matches Some(text) ==> names_moment(text@, epoch_ms as int),
{
    match chrono::DateTime::from_timestamp_millis(epoch_ms) {
        Some(moment) => Some(moment.with_timezone(&chrono::Local).format(format).to_string()),
        None => None,
    }
}

/// A moment as it is shown, given its text in the local time zone, or nothing
/// where it has none.
pub fn time_cell(local: Option<String>) -> (r: String)
    ensures
        r@ == (match local {
            Some(text) => text@,
            None => "<invalid>"@,
        }),
{
    match local {
        Some(text) => text,
        None => "<invalid>".to_string(),
    }
}

/// `text` may be shown for the moment.
pub open spec fn may_show(epoch_ms: int, text: Seq<char>) -> bool {
    if FIRST_MOMENT_MS <= epoch_ms <= LAST_MOMENT_MS {
        names_moment(text, epoch_ms)
    } else {
        text == "<invalid>"@
    }
}

/// A moment, in milliseconds since the Unix epoch, as it is shown: date and time
/// of day in the local time zone.
pub fn format_time(epoch_ms: i64) -> (r: String)
    ensures
        may_show(epoch_ms as int, r@),
{
    time_cell(local_time(epoch_ms, "%Y-%m-%d %H:%M:%S"))
}

/// The moment that is shown as that of the thread's last update: the milliseconds
/// that are recorded, else those that the seconds make in 64 bits.
pub open spec fn update_shown(thread: Thread) -> int {
    match thread.updated_at_ms {
        Some(ms) => ms as int,
        None => low_bits(thread.updated_at * 1000),
    }
}

/// The moment that is shown as that of the last update of `thread`, in
/// milliseconds since the Unix epoch.
pub fn updated_ms(thread: &Thread) -> (r: i64)
    ensures
        r == update_shown(*thread),
        i64::MIN <= recency(*thread) <= i64::MAX ==> r == recency(*thread),
{
    match thread.updated_at_ms {
        Some(ms) => ms,
        None => thread.updated_at.wrapping_mul(1000),
    }
}

// ---------------------------------------------------------------------------
// The table
// ---------------------------------------------------------------------------

/// A line of the table: five columns of fixed width, then the directory.
pub open spec fn row(
    pid: Seq<char>,
    ppid: Seq<char>,
    status: Seq<char>,
    session: Seq<char>,
    updated: Seq<char>,
    cwd: Seq<char>,
) -> Seq<char> {
    padded(pid, 8) + " "@ + padded(ppid, 8) + " "@ + padded(status, 18) + " "@ + padded(session, 36)
        + " "@ + padded(updated, 20) + " "@ + cwd
}

/// The lines for a session, with `updated` shown as the time of its last update.
pub open spec fn session_lines(s: SessionView, updated: Seq<char>) -> Seq<Seq<char>> {
    match s.inferred {
        Some(thread) => seq![
            row(
                decimal(s.pid as nat),
                decimal(s.ppid as nat),
                label(s.status),
                thread.id@,
                updated,
                thread.cwd@,
            ),
            "         status: "@ + s.status_detail,
            "         title: "@ + thread.title@,
        ],
        None => seq![
            row(
                decimal(s.pid as nat),
                decimal(s.ppid as nat),
                label(s.status),
                "<unmatched>"@,
                "-"@,
                s.process_cwd,
            ),
            "         status: "@ + s.status_detail,
        ],
    }
}

/// The lines for the sessions, one after another.
pub open spec fn all_lines(list: Seq<SessionView>, updated: Seq<Seq<char>>) -> Seq<Seq<char>>
    decreases list.len(),
{
    if list.len() == 0 {
        Seq::empty()
    } else {
        all_lines(list.drop_last(), updated) + session_lines(
            list.last(),
            updated[list.len() - 1],
        )
    }
}

/// The list as it is shown: a heading and the lines for the sessions, or one line
/// where there is none.
pub open spec fn table_lines(list: Seq<SessionView>, updated: Seq<Seq<char>>) -> Seq<Seq<char>> {
    if list.len() == 0 {
        seq!["No running Codex CLI processes found."@]
    } else {
        seq![row("PID"@, "PPID"@, "STATUS"@, "SESSION"@, "UPDATED"@, "CWD"@)] + all_lines(
            list,
            updated,
        )
    }
}

/// A line of the table.
fn row_text(
    pid: &str,
    ppid: &str,
    status: &str,
    session: &str,
    updated: &str,
    cwd: &str,
) -> (r: String)
    ensures
        r@ == row(pid@, ppid@, status@, session@, updated@, cwd@),
{
    let mut out = pad_text(pid, 8);
    out.append(" ");
    let ppid_cell = pad_text(ppid, 8);
    out.append(ppid_cell.as_str());
    out.append(" ");
    let status_cell = pad_text(status, 18);
    out.append(status_cell.as_str());
    out.append(" ");
    let session_cell = pad_text(session, 36);
    out.append(session_cell.as_str());
    out.append(" ");
    let updated_cell = pad_text(updated, 20);
    out.append(updated_cell.as_str());
    out.append(" ");
    out.append(cwd);
    out
}

/// The list as it is shown, with `updated` as the times of the last updates.
pub fn sessions_table(sessions: &[RunningSession], updated: &[String]) -> (r: Vec<String>)
    requires
        updated@.len() == sessions@.len(),
    ensures
        views(r@) == table_lines(session_views(sessions@), views(updated@)),
{
    let mut out: Vec<String> = Vec::new();
    let ghost list = session_views(sessions@);
    let ghost times = views(updated@);
    if sessions.len() == 0 {
        out.push("No running Codex CLI processes found.".to_string());
        assert(views(out@) =~= table_lines(list, times));
        return out;
    }
    let heading = row_text("PID", "PPID", "STATUS", "SESSION", "UPDATED", "CWD");
    let ghost head = seq![heading@];
    out.push(heading);
    let mut i: usize = 0;
    assert(views(out@) =~= head + all_lines(list.take(0), times));
    while i < sessions.len()
        invariant
            i <= sessions@.len() == updated@.len(),
            list == session_views(sessions@),
            times == views(updated@),
            views(out@) == head + all_lines(list.take(i as int), times),
        decreases sessions@.len() - i,
    {
        let s = &sessions[i];
        let ghost next = list.take(i + 1);
        let ghost before = out@;
        assert(next.drop_last() =~= list.take(i as int));
        assert(next.last() == s@);
        let pid = decimal_text(s.pid as u64);
        let ppid = decimal_text(s.ppid as u64);
        let status = followed_by("         status: ", s.status_detail.as_str());
        match &s.inferred {
            Some(thread) => {
                let line = row_text(
                    pid.as_str(),
                    ppid.as_str(),
                    status_label(s.status),
                    thread.id.as_str(),
                    updated[i].as_str(),
                    thread.cwd.as_str(),
                );
                out.push(line);
                out.push(status);
                out.push(followed_by("         title: ", thread.title.as_str()));
            },
            None => {
                let line = row_text(
                    pid.as_str(),
                    ppid.as_str(),
                    status_label(s.status),
                    "<unmatched>",
                    "-",
                    s.process_cwd.as_str(),
                );
                out.push(line);
                out.push(status);
            },
        }
        assert(views(out@) =~= views(before) + session_lines(s@, times[i as int]));
        assert(views(out@) =~= head + all_lines(next, times));
        i += 1;
    }
    assert(list.take(i as int) =~= list);
    out
}

/// The times that may be shown for the sessions.
pub open spec fn may_show_all(list: Seq<RunningSession>, updated: Seq<Seq<char>>) -> bool {
    &&& updated.len() == list.len()
    &&& forall|i: int|
        0 <= i < list.len() ==> (#[trigger] list[i].inferred matches Some(thread) ==> may_show(
            update_shown(thread),
            updated[i],
        ))
}

/// The list as it is shown, with the times of the last updates in the local time
/// zone.
pub fn print_sessions(sessions: &[RunningSession]) -> (r: Vec<String>)
    ensures
        exists|updated: Seq<Seq<char>>|
            may_show_all(sessions@, updated) && views(r@) == #[trigger] table_lines(
                session_views(sessions@),
                updated,
            ),
{
    let mut updated: Vec<String> = Vec::new();
    let mut i: usize = 0;
    while i < sessions.len()
        invariant
            i <= sessions@.len(),
            updated@.len() == i,
            forall|j: int|
                0 <= j < i ==> (#[trigger] sessions@[j].inferred matches Some(thread) ==> may_show(
                    update_shown(thread),
                    updated@[j]@,
                )),
        decreases sessions@.len() - i,
    {
        let cell = match &sessions[i].inferred {
            Some(thread) => format_time(updated_ms(thread)),
            None => "-".to_string(),
        };
        updated.push(cell);
        i += 1;
    }
    assert(may_show_all(sessions@, views(updated@)));
    sessions_table(sessions, updated.as_slice())
}

// ---------------------------------------------------------------------------
// Laws
// ---------------------------------------------------------------------------

/// A year counted from March begins no earlier than the one before it has ended.
proof fn lemma_years_in_turn(z: int, later: int)
    requires
        z < later,
    ensures
        days_before_year(z) + (if is_leap_year(z + 1) {
            366int
        } else {
            365int
        }) <= days_before_year(later),
{
    let next = z + 1;
    assert(days_before_year(next) - days_before_year(z) == if is_leap_year(next) {
        366int
    } else {
        365int
    });
    assert(days_before_year(next) <= days_before_year(later));
}

/// No month begins before one that precedes it has ended, and a date lies within
/// its year, both counted from March.
proof fn lemma_months_in_turn(year: int, month: int, later: int)
    requires
        1 <= month <= 12,
        1 <= later <= 12,
    ensures
        (month + 9) % 12 < (later + 9) % 12 ==> days_before_month(month) + month_length(year, month)
            <= days_before_month(later),
        days_before_month(month) >= 0,
        days_before_month(month) + month_length(year, month) <= (if is_leap_year(
            march_year(year, month) + 1,
        ) {
            366int
        } else {
            365int
        }),
{
    lemma_month_starts();
}

/// No two dates are the same number of days away.
pub proof fn law_dates_differ(year: int, month: int, day: int, y: int, m: int, d: int)
    requires
        is_date(year, month, day),
        is_date(y, m, d),
        days_to(year, month, day) == days_to(y, m, d),
    ensures
        year == y,
        month == m,
        day == d,
{
    let z = march_year(year, month);
    let w = march_year(y, m);
    lemma_months_in_turn(year, month, m);
    lemma_months_in_turn(y, m, month);
    if z < w {
        lemma_years_in_turn(z, w);
    }
    if w < z {
        lemma_years_in_turn(w, z);
    }
    assert(z == w);
    assert((month + 9) % 12 == (m + 9) % 12);
}

/// A year is written in one way only.
proof fn lemma_years_differ(a: Seq<char>, b: Seq<char>)
    requires
        is_year_text(a),
        is_year_text(b),
        year_value(a) == year_value(b),
    ensures
        a == b,
{
    let x = year_digits(a);
    let y = year_digits(b);
    if x.len() <= y.len() {
        lemma_digits_decide(x, y);
    } else {
        lemma_digits_decide(y, x);
    }
    assert(is_signed(a) == is_signed(b));
    if is_signed(a) {
        assert(a =~= seq![a[0]] + x);
        assert(b =~= seq![b[0]] + y);
    }
}

/// Two digits at one place and at another that stand for the same number are the
/// same.
proof fn lemma_two_digits_decide(a: Seq<char>, i: int, b: Seq<char>, j: int)
    requires
        0 <= i && i + 2 <= a.len(),
        0 <= j && j + 2 <= b.len(),
        is_digit(a[i]) && is_digit(a[i + 1]),
        is_digit(b[j]) && is_digit(b[j + 1]),
        two_digits(a, i) == two_digits(b, j),
    ensures
        a[i] == b[j],
        a[i + 1] == b[j + 1],
{
    let x = a.subrange(i, i + 2);
    let y = b.subrange(j, j + 2);
    assert(x[0] == a[i] && x[1] == a[i + 1] && y[0] == b[j] && y[1] == b[j + 1]);
    lemma_digits_decide(x, y);
}

/// No two texts name the same second, so that the offset of the time zone alone
/// decides which text is shown for a moment.
pub proof fn law_times_differ(a: Seq<char>, b: Seq<char>)
    requires
        is_time_text(a),
        is_time_text(b),
        seconds_in(a) == seconds_in(b),
    ensures
        a == b,
{
    let k = a.len() - 15;
    let n = b.len() - 15;
    let year = year_value(a.take(k));
    let y = year_value(b.take(n));
    assert(days_to(year, two_digits(a, k + 1), two_digits(a, k + 4)) == days_to(
        y,
        two_digits(b, n + 1),
        two_digits(b, n + 4),
    ));
    law_dates_differ(
        year,
        two_digits(a, k + 1),
        two_digits(a, k + 4),
        y,
        two_digits(b, n + 1),
        two_digits(b, n + 4),
    );
    lemma_years_differ(a.take(k), b.take(n));
    assert(a.take(k).len() == b.take(n).len());
    lemma_two_digits_decide(a, k + 1, b, k + 1);
    lemma_two_digits_decide(a, k + 4, b, k + 4);
    lemma_two_digits_decide(a, k + 7, b, k + 7);
    lemma_two_digits_decide(a, k + 10, b, k + 10);
    lemma_two_digits_decide(a, k + 13, b, k + 13);
    assert forall|i: int| 0 <= i < a.len() implies a[i] == b[i] by {
        if i < k {
            assert(a.take(k)[i] == b.take(n)[i]);
        }
    }
    assert(a =~= b);
}

/// No two statuses are shown alike.
pub proof fn law_labels_differ(a: SessionStatus, b: SessionStatus)
    requires
        label(a) == label(b),
    ensures
        a == b,
{
    reveal_strlit("working");
    reveal_strlit("waiting_user");
    reveal_strlit("malfunction");
    assert("working"@.len() == 7 && "waiting_user"@.len() == 12 && "malfunction"@.len() == 11);
}

/// The list shows every session: its lines stand in one piece below the heading.
pub proof fn law_every_session_shown(list: Seq<SessionView>, updated: Seq<Seq<char>>, i: int)
    requires
        0 <= i < list.len(),
    ensures
        exists|at: int|
            0 < at && at + session_lines(list[i], updated[i]).len() <= table_lines(
                list,
                updated,
            ).len() && #[trigger] table_lines(list, updated).subrange(
                at,
                at + session_lines(list[i], updated[i]).len(),
            ) == session_lines(list[i], updated[i]),
{
    let at = all_lines(list.take(i), updated).len() as int;
    let lines = session_lines(list[i], updated[i]);
    lemma_lines_at(list, updated, i);
    let table = table_lines(list, updated);
    assert(table.subrange(at + 1, at + 1 + lines.len()) =~= all_lines(list, updated).subrange(
        at,
        at + lines.len(),
    ));
}

/// The lines of a session stand behind those of the sessions before it.
proof fn lemma_lines_at(list: Seq<SessionView>, updated: Seq<Seq<char>>, i: int)
    requires
        0 <= i < list.len(),
    ensures
        ({
            let at = all_lines(list.take(i), updated).len() as int;
            let lines = session_lines(list[i], updated[i]);
            at + lines.len() <= all_lines(list, updated).len() && all_lines(
                list,
                updated,
            ).subrange(at, at + lines.len()) == lines
        }),
    decreases list.len(),
{
    let front = list.drop_last();
    let lines = session_lines(list[i], updated[i]);
    let at = all_lines(list.take(i), updated).len() as int;
    let whole = all_lines(list, updated);
    if i == list.len() - 1 {
        assert(front =~= list.take(i));
        assert(whole.subrange(at, at + lines.len()) =~= lines);
    } else {
        assert(front.take(i) =~= list.take(i));
        assert(front[i] == list[i]);
        lemma_lines_at(front, updated, i);
        assert(whole.subrange(at, at + lines.len()) =~= all_lines(front, updated).subrange(
            at,
            at + lines.len(),
        ));
    }
}

/// How each status is shown.
pub proof fn law_labels()
    ensures
        label(SessionStatus::Working) == "working"@,
        label(SessionStatus::WaitingUserInput) == "waiting_user"@,
        label(SessionStatus::Malfunction) == "malfunction"@,
{
}

/// Blanks between a cell and the next one: one more than fill up its column, and
/// at least one.
pub open spec fn gap(cell: Seq<char>, width: int) -> Seq<char> {
    Seq::new(
        if cell.len() < width {
            (width - cell.len() + 1) as nat
        } else {
            1
        },
        |i: int| ' ',
    )
}

/// A line of the table holds every cell whole and in its order, and between them
/// nothing but the blanks that the columns of 8, 8, 18, 36 and 20 characters ask
/// for; the last cell ends the line.
pub proof fn law_rows_hold_their_cells(
    pid: Seq<char>,
    ppid: Seq<char>,
    status: Seq<char>,
    session: Seq<char>,
    updated: Seq<char>,
    cwd: Seq<char>,
)
    ensures
        row(pid, ppid, status, session, updated, cwd) == pid + gap(pid, 8) + ppid + gap(ppid, 8)
            + status + gap(status, 18) + session + gap(session, 36) + updated + gap(updated, 20)
            + cwd,
{
    reveal_strlit(" ");
    assert(" "@ =~= seq![' ']);
    assert(padded(pid, 8) + " "@ =~= pid + gap(pid, 8));
    assert(padded(ppid, 8) + " "@ =~= ppid + gap(ppid, 8));
    assert(padded(status, 18) + " "@ =~= status + gap(status, 18));
    assert(padded(session, 36) + " "@ =~= session + gap(session, 36));
    assert(padded(updated, 20) + " "@ =~= updated + gap(updated, 20));
    let a = padded(pid, 8) + " "@;
    let b = padded(ppid, 8) + " "@;
    let c = padded(status, 18) + " "@;
    let d = padded(session, 36) + " "@;
    let e = padded(updated, 20) + " "@;
    assert(row(pid, ppid, status, session, updated, cwd) =~= a + b + c + d + e + cwd);
    assert(a + b + c + d + e + cwd =~= pid + gap(pid, 8) + ppid + gap(ppid, 8) + status + gap(
        status,
        18,
    ) + session + gap(session, 36) + updated + gap(updated, 20) + cwd);
}

/// A session with a thread is shown in three lines: the process and its parent,
/// the status, the thread's id, the time of its update and its directory; what is
/// said of the status; and the title. A session without one is shown in two, with
/// the directory of the process.
pub proof fn law_lines_of_a_session(s: SessionView, updated: Seq<char>)
    ensures
        s.inferred matches Some(thread) ==> session_lines(s, updated) == seq![
            row(
                decimal(s.pid as nat),
                decimal(s.ppid as nat),
                label(s.status),
                thread.id@,
                updated,
                thread.cwd@,
            ),
            "         status: "@ + s.status_detail,
            "         title: "@ + thread.title@,
        ],
        s.inferred is None ==> session_lines(s, updated) == seq![
            row(
                decimal(s.pid as nat),
                decimal(s.ppid as nat),
                label(s.status),
                "<unmatched>"@,
                "-"@,
                s.process_cwd,
            ),
            "         status: "@ + s.status_detail,
        ],
{
}

/// The table begins with its heading, and the lines of one more session come
/// behind all others; without a session there is one line that says so.
pub proof fn law_table_grows_by_sessions(
    list: Seq<SessionView>,
    s: SessionView,
    updated: Seq<Seq<char>>,
)
    ensures
        table_lines(Seq::empty(), updated) == seq!["No running Codex CLI processes found."@],
        table_lines(seq![s], updated) == seq![
            row("PID"@, "PPID"@, "STATUS"@, "SESSION"@, "UPDATED"@, "CWD"@),
        ] + session_lines(s, updated[0]),
        list.len() > 0 ==> table_lines(list.push(s), updated) == table_lines(list, updated)
            + session_lines(s, updated[list.len() as int]),
{
    let one = seq![s];
    assert(one.drop_last() =~= Seq::empty());
    assert(one.last() == s);
    assert(all_lines(one.drop_last(), updated) =~= Seq::empty());
    assert(all_lines(one, updated) =~= session_lines(s, updated[0]));
    let more = list.push(s);
    assert(more.drop_last() =~= list);
    assert(more.last() == s);
    if list.len() > 0 {
        assert(table_lines(more, updated) =~= table_lines(list, updated) + session_lines(
            s,
            updated[list.len() as int],
        ));
    }
}

/// The time that is shown for a thread is the one it records in milliseconds,
/// else its seconds in milliseconds, wrapped where those do not fit.
pub proof fn law_update_that_is_shown(thread: Thread)
    ensures
        thread.updated_at_ms matches Some(ms) ==> update_shown(thread) == ms,
        thread.updated_at_ms is None && i64::MIN <= thread.updated_at * 1000 <= i64::MAX
            ==> update_shown(thread) == thread.updated_at * 1000,
        thread.updated_at_ms is None ==> i64::MIN <= update_shown(thread) <= i64::MAX && (
        thread.updated_at * 1000 - update_shown(thread)) % 0x1_0000_0000_0000_0000 == 0,
{
}

/// Days are counted from the first of January 1970, one for each date of the
/// calendar, through the ends of months and years.
pub proof fn law_days_in_turn(year: int, month: int, day: int)
    requires
        is_date(year, month, day),
    ensures
        days_to(1970, 1, 1) == 0,
        day < month_length(year, month) ==> days_to(year, month, day + 1) == days_to(
            year,
            month,
            day,
        ) + 1,
        day == month_length(year, month) && month < 12 ==> days_to(year, month + 1, 1) == days_to(
            year,
            month,
            day,
        ) + 1,
        month == 12 && day == 31 ==> days_to(year + 1, 1, 1) == days_to(year, month, day) + 1,
        month_length(year, month) == (if month == 2 {
            if year % 4 == 0 && (year % 100 != 0 || year % 400 == 0) {
                29int
            } else {
                28
            }
        } else if month == 4 || month == 6 || month == 9 || month == 11 {
            30
        } else {
            31
        }),
{
    lemma_year_length(year);
    lemma_month_starts();
    assert(days_to(1970, 1, 1) == 0) by {
        assert(days_before_year(1969) == 719162);
    }
    let start = days_before_year(march_year(year, month));
    assert(days_to(year, month, day) == start + days_before_month(month) + day - 719469);
    if month < 12 {
        let next = days_before_year(march_year(year, month + 1));
        assert(days_to(year, month + 1, 1) == next + days_before_month(month + 1) + 1 - 719469);
        if month == 2 {
            assert(start == days_before_year(year - 1) && next == days_before_year(year));
        } else {
            assert(start == next);
            assert(days_before_month(month + 1) == days_before_month(month) + month_length(
                year,
                month,
            ));
        }
    } else {
        assert(march_year(year + 1, 1) == year && start == days_before_year(year));
    }
}

/// A year counted from March is a day longer where it ends in a leap year.
proof fn lemma_year_length(year: int)
    ensures
        days_before_year(year) - days_before_year(year - 1) == if is_leap_year(year) {
            366int
        } else {
            365int
        },
{
}

/// The days before each month, counted from March.
proof fn lemma_month_starts()
    ensures
        days_before_month(3) == 0,
        days_before_month(4) == 31,
        days_before_month(5) == 61,
        days_before_month(6) == 92,
        days_before_month(7) == 122,
        days_before_month(8) == 153,
        days_before_month(9) == 184,
        days_before_month(10) == 214,
        days_before_month(11) == 245,
        days_before_month(12) == 275,
        days_before_month(1) == 306,
        days_before_month(2) == 337,
{
}

/// The moments that can be shown are those of the years -262143 to 262142; any
/// other is shown as invalid, and nothing else is.
pub proof fn law_moments_that_are_shown(epoch_ms: int, text: Seq<char>)
    ensures
        FIRST_MOMENT_MS == 86400000 * days_to(-262143, 1, 1),
        LAST_MOMENT_MS == 86400000 * days_to(262143, 1, 1) - 1,
        epoch_ms < FIRST_MOMENT_MS || epoch_ms > LAST_MOMENT_MS ==> (may_show(epoch_ms, text)
            <==> text == "<invalid>"@),
        FIRST_MOMENT_MS <= epoch_ms <= LAST_MOMENT_MS && may_show(epoch_ms, text) ==> is_time_text(
            text,
        ) && -86400 < seconds_in(text) - epoch_ms / 1000 < 86400,
{
    assert(days_before_month(1) == 306);
}

/// The time shown for a session is that of the last update of its own thread, by
/// its place in the list.
pub proof fn law_times_belong_to_their_threads(
    list: Seq<RunningSession>,
    updated: Seq<Seq<char>>,
    i: int,
)
    requires
        may_show_all(list, updated),
        0 <= i < list.len(),
    ensures
        updated.len() == list.len(),
        list[i].inferred matches Some(thread) ==> may_show(update_shown(thread), updated[i]),
        list[i].inferred matches Some(thread) && FIRST_MOMENT_MS <= recency(thread)
            <= LAST_MOMENT_MS ==> is_time_text(updated[i]) && -86400 < seconds_in(updated[i])
            - recency(list[i].inferred->0) / 1000 < 86400,
{
    if let Some(thread) = list[i].inferred {
        law_update_that_is_shown(thread);
    }
}

} // verus!
