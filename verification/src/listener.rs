//! Event listeners and the event bus.
//!
//! The bus delivers every event synchronously, first to the two built-in
//! listeners — the exit-status tracker and the summary tracker, always in
//! that order — then to the user listener.  The bus also keeps a ghost
//! history of everything sent, which the engine's contracts are stated
//! over.

use vstd::prelude::*;

use crate::event::{event_result, Event, EventModel};
use crate::result::ResultModel;

verus! {

/// A consumer of lifecycle events, implemented by the embedding program
/// (a formatter, a reporter).  Nothing is assumed of its behaviour.
pub trait EventListener {
    fn on_event(&mut self, event: &Event);
}

/// The severity an event reports, `0` when it reports no result.
pub open spec fn event_severity(e: EventModel) -> int {
    match event_result(e) {
        Some(r) => r.severity(),
        None => 0,
    }
}

/// The greatest severity reported by any result-bearing event in `events`,
/// `0` when there is none.
pub open spec fn spec_exit_severity(events: Seq<EventModel>) -> int
    decreases events.len(),
{
    if events.len() == 0 {
        0
    } else {
        let prev = spec_exit_severity(events.drop_last());
        if event_severity(events.last()) > prev {
            event_severity(events.last())
        } else {
            prev
        }
    }
}

/// The exit code of a run that saw results of greatest severity
/// `max_severity`: `0` for a passed run, and for skipped, pending or
/// undefined results when `strict` is off; `1` otherwise.
pub open spec fn spec_exit_status(max_severity: int, strict: bool) -> int {
    if max_severity == 0 {
        0
    } else if max_severity <= 3 {
        if strict {
            1
        } else {
            0
        }
    } else {
        1
    }
}

/// Tracks the greatest severity seen over the step and case results of a
/// run and turns it into the process exit code.
#[derive(Debug)]
pub struct ExitStatusListener {
    /// The greatest severity seen so far; written only by `on_event`.
    pub max_severity: u8,
}

impl ExitStatusListener {
    /// A fresh tracker: nothing seen yet.
    pub fn new() -> (r: ExitStatusListener)
        ensures
            r.max_severity == 0,
    {
        ExitStatusListener { max_severity: 0 }
    }

    /// The greatest severity seen so far.
    pub open spec fn spec_max_severity(&self) -> int {
        self.max_severity as int
    }

    /// Observes one event.
    pub fn on_event(&mut self, event: &Event)
        ensures
            final(self).max_severity as int == if event_severity(event.deep_view()) > old(
                self,
            ).max_severity as int {
                event_severity(event.deep_view())
            } else {
                old(self).max_severity as int
            },
    {
        let s: u8 = match event {
            Event::TestStepFinished { result, .. } => result.severity_value(),
            Event::TestCaseFinished { result, .. } => result.severity_value(),
            _ => 0,
        };
        if s > self.max_severity {
            self.max_severity = s;
        }
    }

    /// The exit code for the run seen so far: `0` iff nothing worse than
    /// `Passed` was seen, or nothing worse than `Undefined` and `strict`
    /// is off.
    pub fn get_exit_status(&self, strict: bool) -> (r: i32)
        ensures
            r as int == spec_exit_status(self.max_severity as int, strict),
    {
        if self.max_severity == 0 {
            0
        } else if self.max_severity <= 3 {
            if strict {
                1
            } else {
                0
            }
        } else {
            1
        }
    }
}

/// Adds one saturating.
pub open spec fn sat_inc(c: u64) -> u64 {
    if c == u64::MAX {
        c
    } else {
        (c + 1) as u64
    }
}

/// How many result-bearing events of the given family (step results when
/// `case_level` is false, case results when true) with the given severity
/// `events` holds, saturating at the counter's width.
pub open spec fn spec_result_count(events: Seq<EventModel>, case_level: bool, severity: int) -> u64
    decreases events.len(),
{
    if events.len() == 0 {
        0
    } else {
        let prev = spec_result_count(events.drop_last(), case_level, severity);
        let counts = match events.last() {
            EventModel::TestStepFinished { result, .. } => !case_level && result.severity()
                == severity,
            EventModel::TestCaseFinished { result, .. } => case_level && result.severity()
                == severity,
            _ => false,
        };
        if counts {
            sat_inc(prev)
        } else {
            prev
        }
    }
}

/// Counts scenarios and steps by the severity of their results.
#[derive(Debug)]
pub struct TestSummaryListener {
    /// One counter per severity, `0` (`Passed`) through `5` (`Failed`),
    /// for step results; written only by `on_event`.
    pub step_counts: Vec<u64>,
    /// One counter per severity for scenario terminal results; written
    /// only by `on_event`.
    pub scenario_counts: Vec<u64>,
}

impl TestSummaryListener {
    /// Whether the counters match the result-bearing events of `events`.
    pub open spec fn counts(&self, events: Seq<EventModel>) -> bool {
        &&& self.step_counts@.len() == 6
        &&& self.scenario_counts@.len() == 6
        &&& forall|s: int|
            0 <= s < 6 ==> #[trigger] self.step_counts@[s] == spec_result_count(events, false, s)
        &&& forall|s: int|
            0 <= s < 6 ==> #[trigger] self.scenario_counts@[s] == spec_result_count(
                events,
                true,
                s,
            )
    }

    /// A fresh counter: nothing seen yet.
    pub fn new() -> (r: TestSummaryListener)
        ensures
            r.counts(Seq::empty()),
    {
        let mut step_counts: Vec<u64> = Vec::new();
        let mut scenario_counts: Vec<u64> = Vec::new();
        let mut i: usize = 0;
        while i < 6
            invariant
                step_counts@.len() == i,
                scenario_counts@.len() == i,
                i <= 6,
                forall|s: int| 0 <= s < i ==> step_counts@[s] == 0,
                forall|s: int| 0 <= s < i ==> scenario_counts@[s] == 0,
            decreases 6 - i,
        {
            step_counts.push(0);
            scenario_counts.push(0);
            i = i + 1;
        }
        TestSummaryListener { step_counts, scenario_counts }
    }

    /// Observes one event: bumps the counter of the result family and
    /// severity the event reports, if it reports one.
    pub fn on_event(&mut self, event: &Event)
        requires
            old(self).step_counts@.len() == 6,
            old(self).scenario_counts@.len() == 6,
        ensures
            final(self).step_counts@.len() == 6,
            final(self).scenario_counts@.len() == 6,
            forall|s: int|
                0 <= s < 6 ==> #[trigger] final(self).step_counts@[s] == (match event.deep_view() {
                    EventModel::TestStepFinished { result, .. } => if result.severity() == s {
                        sat_inc(old(self).step_counts@[s])
                    } else {
                        old(self).step_counts@[s]
                    },
                    _ => old(self).step_counts@[s],
                }),
            forall|s: int|
                0 <= s < 6 ==> #[trigger] final(self).scenario_counts@[s] == (match event.deep_view() {
                    EventModel::TestCaseFinished { result, .. } => if result.severity() == s {
                        sat_inc(old(self).scenario_counts@[s])
                    } else {
                        old(self).scenario_counts@[s]
                    },
                    _ => old(self).scenario_counts@[s],
                }),
    {
        match event {
            Event::TestStepFinished { result, .. } => {
                let s = result.severity_value();
                let c = self.step_counts[s as usize];
                let bumped: u64 = if c == u64::MAX {
                    c
                } else {
                    c + 1
                };
                self.step_counts.set(s as usize, bumped);
            },
            Event::TestCaseFinished { result, .. } => {
                let s = result.severity_value();
                let c = self.scenario_counts[s as usize];
                let bumped: u64 = if c == u64::MAX {
                    c
                } else {
                    c + 1
                };
                self.scenario_counts.set(s as usize, bumped);
            },
            _ => {},
        }
    }

    /// How many steps ended with a result of the given severity.
    pub fn step_count(&self, severity: u8) -> (r: u64)
        requires
            severity < 6,
            self.step_counts@.len() == 6,
        ensures
            r == self.step_counts@[severity as int],
    {
        self.step_counts[severity as usize]
    }

    /// How many scenarios ended with a terminal result of the given
    /// severity.
    pub fn scenario_count(&self, severity: u8) -> (r: u64)
        requires
            severity < 6,
            self.scenario_counts@.len() == 6,
        ensures
            r == self.scenario_counts@[severity as int],
    {
        self.scenario_counts[severity as usize]
    }
}

/// The sequential event bus: delivers each event synchronously, to the
/// exit-status listener, the summary listener, and the user listener, in
/// that order, and records the event in the ghost history.
pub struct EventBus<L: EventListener> {
    pub exit_listener: ExitStatusListener,
    pub summary_listener: TestSummaryListener,
    pub user_listener: L,
    pub history: Ghost<Seq<EventModel>>,
}

impl<L: EventListener> EventBus<L> {
    /// The built-in listeners have seen exactly the history.
    pub open spec fn wf(&self) -> bool {
        &&& self.exit_listener.spec_max_severity() == spec_exit_severity(self.history@)
        &&& self.summary_listener.counts(self.history@)
    }

    /// A fresh bus over the given user listener: the built-in listeners
    /// are registered first, in their fixed order, and the history is
    /// empty.
    pub fn new(user_listener: L) -> (r: EventBus<L>)
        ensures
            r.wf(),
            r.history@ == Seq::<EventModel>::empty(),
    {
        EventBus {
            exit_listener: ExitStatusListener::new(),
            summary_listener: TestSummaryListener::new(),
            user_listener,
            history: Ghost(Seq::empty()),
        }
    }

    /// Delivers one event to every listener and appends it to the history.
    pub fn send(&mut self, event: Event)
        requires
            old(self).wf(),
        ensures
            final(self).wf(),
            final(self).history@ == old(self).history@.push(event.deep_view()),
    {
        proof {
            assert(self.history@.push(event.deep_view()).drop_last() =~= self.history@);
        }
        let ghost history = self.history@;
        self.exit_listener.on_event(&event);
        self.summary_listener.on_event(&event);
        proof {
            assert forall|s: int| 0 <= s < 6 implies #[trigger] self.summary_listener.step_counts@[s]
                == spec_result_count(history.push(event.deep_view()), false, s) by {}
            assert forall|s: int| 0 <= s < 6 implies #[trigger] self
                .summary_listener
                .scenario_counts@[s] == spec_result_count(
                history.push(event.deep_view()),
                true,
                s,
            ) by {}
        }
        self.user_listener.on_event(&event);
        self.history = Ghost(self.history@.push(event.deep_view()));
    }

    /// The exit code for everything sent so far.
    pub fn exit_status(&self, strict: bool) -> (r: i32)
        requires
            self.wf(),
        ensures
            r as int == spec_exit_status(spec_exit_severity(self.history@), strict),
    {
        self.exit_listener.get_exit_status(strict)
    }
}

} // verus!
