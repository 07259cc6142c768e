//! Ending a process: first asked, then forced, with patience in between. Only the
//! decisions are made here; the caller sends the signals, looks and waits.

use crate::text::{decimal, decimal_text, signed_decimal, signed_decimal_text};
use vstd::prelude::*;

verus! {

broadcast use vstd::string::group_string_axioms;

/// How often to look for a process that was asked to end.
pub const LOOKS_AFTER_TERM: u32 = 50;

/// How often to look for a process that was forced to end.
pub const LOOKS_AFTER_KILL: u32 = 20;

/// How long to wait after each look that finds the process, in milliseconds.
pub const PAUSE_MS: u64 = 100;

/// The signals that a process is ended with.
#[derive(Debug, Clone, Copy, PartialEq, Eq, Structural)]
pub enum Signal {
    /// `SIGTERM`, which asks.
    Term,
    /// `SIGKILL`, which forces.
    Kill,
}

/// What to do next.
#[derive(Debug, Clone, Copy, PartialEq, Eq, Structural)]
pub enum KillAction {
    /// Send the signal.
    Send(Signal),
    /// See whether the process is still there.
    Look,
    /// Wait.
    Pause,
    /// Stop: the process is gone.
    Done,
    /// Stop: the process could not be ended.
    GiveUp,
}

/// What came of it.
#[derive(Debug, Clone, Copy, PartialEq, Eq, Structural)]
pub enum KillEvent {
    /// The signal was sent.
    Sent,
    /// The signal could not be sent.
    Refused,
    /// The process is still there.
    Alive,
    /// The process is not there.
    Gone,
    /// The wait is over.
    Paused,
}

/// How far the ending of a process has come. After a signal, `looks` counts the
/// looks that are left. In the end the process is gone, is there in spite of all
/// signals, or could not be sent one.
#[derive(Debug, Clone, Copy, PartialEq, Eq, Structural)]
pub enum Termination {
    Signalling { signal: Signal },
    Looking { signal: Signal, looks: u32 },
    Pausing { signal: Signal, looks: u32 },
    Ended,
    Survived,
    Failed,
}

/// How often to look after a signal.
pub open spec fn looks_after(signal: Signal) -> u32 {
    match signal {
        Signal::Term => LOOKS_AFTER_TERM,
        Signal::Kill => LOOKS_AFTER_KILL,
    }
}

impl Termination {
    /// While looking and waiting, looks are left, and no more than there were.
    pub open spec fn wf(self) -> bool {
        match self {
            Termination::Looking { signal, looks } => 0 < looks <= looks_after(signal),
            Termination::Pausing { signal, looks } => 0 < looks <= looks_after(signal),
            _ => true,
        }
    }

    /// What to do next.
    pub open spec fn next(self) -> KillAction {
        match self {
            Termination::Signalling { signal } => KillAction::Send(signal),
            Termination::Looking { .. } => KillAction::Look,
            Termination::Pausing { .. } => KillAction::Pause,
            Termination::Ended => KillAction::Done,
            Termination::Survived => KillAction::GiveUp,
            Termination::Failed => KillAction::GiveUp,
        }
    }

    /// How far it has come after an event. A signal that could not be sent is the
    /// end of it. Once the looks that followed the request are used up, force
    /// follows; once those that followed the force are used up, there is nothing
    /// left to try. An event that answers nothing that was to be done changes
    /// nothing.
    pub open spec fn after(self, event: KillEvent) -> Termination {
        match (self, event) {
            (Termination::Signalling { signal }, KillEvent::Sent) => Termination::Looking {
                signal,
                looks: looks_after(signal),
            },
            (Termination::Signalling { .. }, KillEvent::Refused) => Termination::Failed,
            (Termination::Looking { .. }, KillEvent::Gone) => Termination::Ended,
            (Termination::Looking { signal, looks }, KillEvent::Alive) => Termination::Pausing {
                signal,
                looks,
            },
            (Termination::Pausing { signal, looks }, KillEvent::Paused) => if looks > 1 {
                Termination::Looking { signal, looks: (looks - 1) as u32 }
            } else if signal == Signal::Term {
                Termination::Signalling { signal: Signal::Kill }
            } else {
                Termination::Survived
            },
            _ => self,
        }
    }

    /// The beginning: the process is to be asked.
    pub fn new() -> (r: Termination)
        ensures
            r == (Termination::Signalling { signal: Signal::Term }),
            r.wf(),
    {
        Termination::Signalling { signal: Signal::Term }
    }

    /// What to do next.
    pub fn action(&self) -> (r: KillAction)
        ensures
            r == self.next(),
    {
        match self {
            Termination::Signalling { signal } => KillAction::Send(*signal),
            Termination::Looking { .. } => KillAction::Look,
            Termination::Pausing { .. } => KillAction::Pause,
            Termination::Ended => KillAction::Done,
            Termination::Survived => KillAction::GiveUp,
            Termination::Failed => KillAction::GiveUp,
        }
    }

    /// How far it has come after `event`.
    pub fn advance(self, event: KillEvent) -> (r: Termination)
        ensures
            r == self.after(event),
            self.wf() ==> r.wf(),
    {
        match (self, event) {
            (Termination::Signalling { signal }, KillEvent::Sent) => {
                let looks: u32 = match signal {
                    Signal::Term => LOOKS_AFTER_TERM,
                    Signal::Kill => LOOKS_AFTER_KILL,
                };
                Termination::Looking { signal, looks }
            },
            (Termination::Signalling { .. }, KillEvent::Refused) => Termination::Failed,
            (Termination::Looking { .. }, KillEvent::Gone) => Termination::Ended,
            (Termination::Looking { signal, looks }, KillEvent::Alive) => Termination::Pausing {
                signal,
                looks,
            },
            (Termination::Pausing { signal, looks }, KillEvent::Paused) => if looks > 1 {
                Termination::Looking { signal, looks: looks - 1 }
            } else {
                match signal {
                    Signal::Term => Termination::Signalling { signal: Signal::Kill },
                    Signal::Kill => Termination::Survived,
                }
            },
            (same, _) => same,
        }
    }
}

/// What is said where a process is still there after all.
pub fn survived_text(pid: u32) -> (r: String)
    ensures
        r@ == "pid "@ + decimal(pid as nat) + " did not exit after SIGKILL"@,
{
    let mut out = "pid ".to_string();
    let number = decimal_text(pid as u64);
    out.append(number.as_str());
    out.append(" did not exit after SIGKILL");
    out
}

/// What is said where a signal, given by its number, could not be sent.
pub fn unsent_text(signal: i32, pid: u32) -> (r: String)
    ensures
        r@ == "send signal "@ + signed_decimal(signal as int) + " to pid "@ + decimal(pid as nat),
{
    let mut out = "send signal ".to_string();
    let which = signed_decimal_text(signal);
    out.append(which.as_str());
    out.append(" to pid ");
    let number = decimal_text(pid as u64);
    out.append(number.as_str());
    out
}

// ---------------------------------------------------------------------------
// Laws
// ---------------------------------------------------------------------------

/// The event answers what was to be done.
pub open spec fn answers(action: KillAction, event: KillEvent) -> bool {
    match action {
        KillAction::Send(_) => event == KillEvent::Sent || event == KillEvent::Refused,
        KillAction::Look => event == KillEvent::Alive || event == KillEvent::Gone,
        KillAction::Pause => event == KillEvent::Paused,
        _ => false,
    }
}

/// How many events there can still be.
pub open spec fn events_left(state: Termination) -> nat {
    match state {
        Termination::Signalling { signal: Signal::Term } => (2 * LOOKS_AFTER_TERM + 2
            * LOOKS_AFTER_KILL + 2) as nat,
        Termination::Looking { signal: Signal::Term, looks } => (2 * looks + 2 * LOOKS_AFTER_KILL
            + 1) as nat,
        Termination::Pausing { signal: Signal::Term, looks } => (2 * looks + 2 * LOOKS_AFTER_KILL)
            as nat,
        Termination::Signalling { signal: Signal::Kill } => (2 * LOOKS_AFTER_KILL + 1) as nat,
        Termination::Looking { signal: Signal::Kill, looks } => (2 * looks) as nat,
        Termination::Pausing { signal: Signal::Kill, looks } => (2 * looks - 1) as nat,
        _ => 0,
    }
}

/// Every event that answers what was to be done brings the end nearer, so that
/// the ending of a process takes at most 142 events.
pub proof fn law_ending_is_bounded(state: Termination, event: KillEvent)
    requires
        state.wf(),
        answers(state.next(), event),
    ensures
        state.after(event).wf(),
        events_left(state.after(event)) < events_left(state),
        events_left(state) <= 142,
{
}

/// The state after events in turn.
pub open spec fn after_all(state: Termination, events: Seq<KillEvent>) -> Termination
    decreases events.len(),
{
    if events.len() == 0 {
        state
    } else {
        after_all(state, events.drop_last()).after(events.last())
    }
}

/// Success is only ever reported where the process was seen to be gone.
pub proof fn law_success_was_seen(events: Seq<KillEvent>)
    ensures
        after_all(Termination::Signalling { signal: Signal::Term }, events) is Ended
            ==> events.contains(KillEvent::Gone),
    decreases events.len(),
{
    let start = Termination::Signalling { signal: Signal::Term };
    if events.len() > 0 {
        let earlier = events.drop_last();
        law_success_was_seen(earlier);
        if after_all(start, events) is Ended {
            if after_all(start, earlier) is Ended {
                let k = choose|k: int| 0 <= k < earlier.len() && earlier[k] == KillEvent::Gone;
                assert(events[k] == KillEvent::Gone);
            } else {
                assert(events[events.len() - 1] == KillEvent::Gone);
            }
        }
    }
}

/// A process that is seen to be gone at any look is left alone from then on.
pub proof fn law_gone_ends_it(signal: Signal, looks: u32, later: Seq<KillEvent>)
    ensures
        after_all((Termination::Looking { signal, looks }).after(KillEvent::Gone), later) is Ended,
    decreases later.len(),
{
    if later.len() > 0 {
        law_gone_ends_it(signal, looks, later.drop_last());
    }
}

/// `n` looks that find the process, each with the wait after it.
pub open spec fn patient(n: nat) -> Seq<KillEvent>
    decreases n,
{
    if n == 0 {
        Seq::empty()
    } else {
        patient((n - 1) as nat).push(KillEvent::Alive).push(KillEvent::Paused)
    }
}

/// Where `n` looks after a signal lead that all find the process.
proof fn lemma_patience(signal: Signal, n: nat)
    requires
        n <= looks_after(signal),
    ensures
        after_all((Termination::Looking { signal, looks: looks_after(signal) }), patient(n)) == (
        if n < looks_after(signal) {
            Termination::Looking { signal, looks: (looks_after(signal) - n) as u32 }
        } else if signal == Signal::Term {
            Termination::Signalling { signal: Signal::Kill }
        } else {
            Termination::Survived
        }),
    decreases n,
{
    if n > 0 {
        let before = patient((n - 1) as nat);
        let start = Termination::Looking { signal, looks: looks_after(signal) };
        lemma_patience(signal, (n - 1) as nat);
        let all = patient(n);
        assert(all.drop_last() =~= before.push(KillEvent::Alive));
        assert(all.drop_last().drop_last() =~= before);
        assert(all.last() == KillEvent::Paused);
        assert(all.drop_last().last() == KillEvent::Alive);
        let looking = after_all(start, before);
        let pausing = after_all(start, all.drop_last());
        assert(pausing == looking.after(KillEvent::Alive));
        assert(after_all(start, all) == pausing.after(KillEvent::Paused));
    }
}

/// A process that stays is forced after fifty looks and not before, and given up
/// after twenty more.
pub proof fn law_force_comes_last(n: nat)
    ensures
        n < LOOKS_AFTER_TERM ==> after_all(
            (Termination::Signalling { signal: Signal::Term }).after(KillEvent::Sent),
            patient(n),
        ).next() == KillAction::Look,
        after_all(
            (Termination::Signalling { signal: Signal::Term }).after(KillEvent::Sent),
            patient(LOOKS_AFTER_TERM as nat),
        ).next() == KillAction::Send(Signal::Kill),
        n < LOOKS_AFTER_KILL ==> after_all(
            (Termination::Signalling { signal: Signal::Kill }).after(KillEvent::Sent),
            patient(n),
        ).next() == KillAction::Look,
        after_all(
            (Termination::Signalling { signal: Signal::Kill }).after(KillEvent::Sent),
            patient(LOOKS_AFTER_KILL as nat),
        ).next() == KillAction::GiveUp,
{
    if n < LOOKS_AFTER_TERM {
        lemma_patience(Signal::Term, n);
    }
    if n < LOOKS_AFTER_KILL {
        lemma_patience(Signal::Kill, n);
    }
    lemma_patience(Signal::Term, LOOKS_AFTER_TERM as nat);
    lemma_patience(Signal::Kill, LOOKS_AFTER_KILL as nat);
}

/// A signal that could not be sent ends the attempt at once: whatever happens
/// later, no other signal follows, and the attempt has failed.
pub proof fn law_refused_signal_is_the_last(signal: Signal, later: Seq<KillEvent>)
    ensures
        after_all((Termination::Signalling { signal }).after(KillEvent::Refused), later) is Failed,
        after_all(
            (Termination::Signalling { signal }).after(KillEvent::Refused),
            later,
        ).next() == KillAction::GiveUp,
    decreases later.len(),
{
    if later.len() > 0 {
        law_refused_signal_is_the_last(signal, later.drop_last());
    }
}

/// How many of the events are looks that find the process.
pub open spec fn times_seen(events: Seq<KillEvent>) -> nat
    decreases events.len(),
{
    if events.len() == 0 {
        0
    } else if events.last() == KillEvent::Alive {
        times_seen(events.drop_last()) + 1
    } else {
        times_seen(events.drop_last())
    }
}

/// Each state after the request tells how often the process has been seen.
proof fn lemma_looks_are_counted(events: Seq<KillEvent>)
    ensures
        match after_all(Termination::Signalling { signal: Signal::Term }, events) {
            Termination::Signalling { signal: Signal::Term } => true,
            Termination::Looking { signal: Signal::Term, looks } => 0 < looks
                && looks + times_seen(events) >= LOOKS_AFTER_TERM,
            Termination::Pausing { signal: Signal::Term, looks } => 0 < looks
                && looks + times_seen(events) > LOOKS_AFTER_TERM,
            Termination::Signalling { signal: Signal::Kill } => times_seen(events)
                >= LOOKS_AFTER_TERM && events.contains(KillEvent::Sent),
            Termination::Looking { signal: Signal::Kill, looks } => 0 < looks && looks + times_seen(
                events,
            ) >= LOOKS_AFTER_TERM + LOOKS_AFTER_KILL,
            Termination::Pausing { signal: Signal::Kill, looks } => 0 < looks && looks + times_seen(
                events,
            ) > LOOKS_AFTER_TERM + LOOKS_AFTER_KILL,
            Termination::Survived => times_seen(events) >= LOOKS_AFTER_TERM + LOOKS_AFTER_KILL,
            _ => true,
        },
        !(after_all(Termination::Signalling { signal: Signal::Term }, events) is Signalling)
            && !(after_all(Termination::Signalling { signal: Signal::Term }, events) is Failed)
            ==> events.contains(KillEvent::Sent),
    decreases events.len(),
{
    let start = Termination::Signalling { signal: Signal::Term };
    if events.len() > 0 {
        let earlier = events.drop_last();
        lemma_looks_are_counted(earlier);
        assert(after_all(start, events) == after_all(start, earlier).after(events.last()));
        if earlier.contains(KillEvent::Sent) {
            let k = choose|k: int| 0 <= k < earlier.len() && earlier[k] == KillEvent::Sent;
            assert(events[k] == KillEvent::Sent);
        }
        if events.last() == KillEvent::Sent {
            assert(events[events.len() - 1] == KillEvent::Sent);
        }
    }
}

/// However the events come, force is used only on a process that was asked to end
/// and has been seen fifty times, and it is given up as a survivor only after
/// seventy.
pub proof fn law_force_needs_patience(events: Seq<KillEvent>)
    ensures
        after_all(Termination::Signalling { signal: Signal::Term }, events).next()
            == KillAction::Send(Signal::Kill) ==> events.contains(KillEvent::Sent) && times_seen(
            events,
        ) >= LOOKS_AFTER_TERM,
        after_all(Termination::Signalling { signal: Signal::Term }, events) is Survived
            ==> times_seen(events) >= LOOKS_AFTER_TERM + LOOKS_AFTER_KILL,
{
    lemma_looks_are_counted(events);
}

/// A process that is asked to end is looked for fifty times, a tenth of a second
/// apart, before it is forced, and twenty times after that before it is given up.
/// Nothing more is done to a process that is gone at any of these looks.
pub proof fn law_patience_in_numbers(n: nat)
    ensures
        PAUSE_MS == 100,
        ({
            let asked = (Termination::Signalling { signal: Signal::Term }).after(KillEvent::Sent);
            let forced = (Termination::Signalling { signal: Signal::Kill }).after(KillEvent::Sent);
            &&& (Termination::Signalling { signal: Signal::Term }).next() == KillAction::Send(
                Signal::Term,
            )
            &&& n < 50 ==> after_all(asked, patient(n)).next() == KillAction::Look
            &&& n < 50 ==> after_all(asked, patient(n).push(KillEvent::Alive)).next()
                == KillAction::Pause
            &&& n < 50 ==> after_all(asked, patient(n).push(KillEvent::Gone)).next()
                == KillAction::Done
            &&& after_all(asked, patient(50)).next() == KillAction::Send(Signal::Kill)
            &&& n < 20 ==> after_all(forced, patient(n)).next() == KillAction::Look
            &&& n < 20 ==> after_all(forced, patient(n).push(KillEvent::Alive)).next()
                == KillAction::Pause
            &&& n < 20 ==> after_all(forced, patient(n).push(KillEvent::Gone)).next()
                == KillAction::Done
            &&& after_all(forced, patient(20)).next() == KillAction::GiveUp
        }),
{
    law_force_comes_last(n);
    if n < 50 {
        lemma_patience(Signal::Term, n);
    }
    if n < 20 {
        lemma_patience(Signal::Kill, n);
    }
    assert(patient(n).push(KillEvent::Gone).drop_last() =~= patient(n));
    assert(patient(n).push(KillEvent::Alive).drop_last() =~= patient(n));
}

/// Only what answers the action at hand moves the ending of a process on; any
/// other event, and any event after the end, changes nothing.
pub proof fn law_events_out_of_turn(state: Termination, event: KillEvent)
    ensures
        !answers(state.next(), event) ==> state.after(event) == state,
        state.next() == KillAction::Done || state.next() == KillAction::GiveUp ==> state.after(event)
            == state,
        answers(KillAction::Send(Signal::Term), event) <==> event == KillEvent::Sent || event
            == KillEvent::Refused,
        answers(KillAction::Send(Signal::Kill), event) <==> event == KillEvent::Sent || event
            == KillEvent::Refused,
        answers(KillAction::Look, event) <==> event == KillEvent::Alive || event == KillEvent::Gone,
        answers(KillAction::Pause, event) <==> event == KillEvent::Paused,
{
}

} // verus!
