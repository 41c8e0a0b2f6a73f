//! The course of a session: which event is taken in which phase, and
//! what the driver has to do next.
//!
//! The driver owns the pinger. It hands each thing that happens to
//! [`Orchestrator::step`] as an [`Event`], shows the line that comes back,
//! if any, and carries out the [`Action`]: it waits for the next outcome,
//! stops the pinger, shows the summary, or leaves.

use crate::config::{packet_bytes, packet_bytes_of, HostAddr, Opt};
use crate::report::Summary;
use crate::session::{Outcome, PacketStatus, SessionModel, SessionState};
use vstd::prelude::*;

verus! {

/// Where a session stands.
#[derive(Clone, Copy, Debug, PartialEq, Eq, Structural)]
pub enum Phase {
    /// Nothing has been sent yet.
    Idle,
    /// Requests go out and outcomes are taken in.
    Running,
    /// The run is over and the pinger has been told to stop.
    Draining,
    /// The pinger has stopped and the summary is due.
    Reporting,
    /// Nothing is left to do.
    Terminated,
}

/// Why a session ended.
#[derive(Clone, Copy, Debug, PartialEq, Eq, Structural)]
pub enum Ending {
    /// As many events were processed as the budget allows.
    BudgetReached,
    /// The stream of outcomes broke off.
    StreamDisconnected,
    /// The run was cancelled from outside.
    Interrupted,
    /// The pinger could not be created; nothing was sent.
    ConstructionFailed,
}

impl Ending {
    /// Whether the session failed: it ended for a reason other than its
    /// budget or a cancellation.
    pub open spec fn fatal(self) -> bool {
        self is StreamDisconnected || self is ConstructionFailed
    }

    /// Whether the session failed.
    pub fn is_fatal(&self) -> (r: bool)
        ensures
            r == self.fatal(),
    {
        match self {
            Ending::StreamDisconnected => true,
            Ending::ConstructionFailed => true,
            Ending::BudgetReached => false,
            Ending::Interrupted => false,
        }
    }
}

/// What the driver tells the orchestrator.
#[derive(Clone, Copy, Debug, PartialEq, Eq, Structural)]
pub enum Event {
    /// The pinger could not be created.
    ConstructionFailed,
    /// The pinger sends; each request carries `payload_size` bytes.
    Started { payload_size: i32 },
    /// The next outcome has arrived.
    Outcome(Outcome),
    /// The stream of outcomes has broken off.
    StreamClosed,
    /// The run is to be cancelled.
    Interrupted,
    /// The pinger has stopped.
    Stopped,
    /// The summary has been shown.
    Reported,
}

/// What the driver has to do next.
#[derive(Clone, Copy, Debug, PartialEq, Eq, Structural)]
pub enum Action {
    /// Nothing: the event has no place in the present phase.
    Ignore,
    /// Wait for the next outcome.
    Receive,
    /// Tell the pinger to stop.
    Stop,
    /// Show the summary.
    Report { summary: Summary, ending: Ending },
    /// Leave.
    Exit { ending: Ending },
}

/// A line for the driver to show.
#[derive(Clone, Copy, Debug, PartialEq, Eq, Structural)]
pub enum Line {
    /// The opening line: the target and the payload size.
    Banner { target: HostAddr, payload_size: i32 },
    /// The line of one request.
    Packet(PacketStatus),
}

/// The answer to one event.
#[derive(Clone, Copy, Debug, PartialEq, Eq, Structural)]
pub struct Reaction {
    pub line: Option<Line>,
    pub action: Action,
}

/// A session as a mathematical value.
pub struct OrchestratorModel {
    pub opt: Opt,
    pub phase: Phase,
    pub session: SessionModel,
    /// Size of one request on the wire.
    pub bytes: i64,
    /// Why the run is over, once it is.
    pub ending: Option<Ending>,
}

impl OrchestratorModel {
    /// A session that has not begun.
    pub open spec fn start(opt: Opt) -> OrchestratorModel {
        OrchestratorModel {
            opt,
            phase: Phase::Idle,
            session: SessionModel::start(),
            bytes: 0,
            ending: None,
        }
    }

    /// The state and the action after an event that the run has taken
    /// in: the run goes on unless the budget is used up.
    pub open spec fn proceed(self, line: Option<Line>) -> (OrchestratorModel, Reaction) {
        if self.opt.budget_reached(self.session.sequence_number) {
            (
                OrchestratorModel {
                    phase: Phase::Draining,
                    ending: Some(Ending::BudgetReached),
                    ..self
                },
                Reaction { line, action: Action::Stop },
            )
        } else {
            (
                OrchestratorModel { phase: Phase::Running, ..self },
                Reaction { line, action: Action::Receive },
            )
        }
    }

    /// The run breaks off: the pinger is to stop.
    pub open spec fn halt(self, ending: Ending) -> (OrchestratorModel, Reaction) {
        (
            OrchestratorModel { phase: Phase::Draining, ending: Some(ending), ..self },
            Reaction { line: None, action: Action::Stop },
        )
    }

    /// The state after `event`, and the answer to it.
    pub open spec fn step(self, event: Event) -> (OrchestratorModel, Reaction) {
        match (self.phase, event) {
            (Phase::Idle, Event::ConstructionFailed) => (
                OrchestratorModel {
                    phase: Phase::Terminated,
                    ending: Some(Ending::ConstructionFailed),
                    ..self
                },
                Reaction {
                    line: None,
                    action: Action::Exit { ending: Ending::ConstructionFailed },
                },
            ),
            (Phase::Idle, Event::Started { payload_size }) => OrchestratorModel {
                bytes: packet_bytes_of(payload_size),
                ..self
            }.proceed(Some(Line::Banner { target: self.opt.ip, payload_size })),
            (Phase::Running, Event::Outcome(outcome)) => OrchestratorModel {
                session: self.session.record(outcome),
                ..self
            }.proceed(
                Some(
                    Line::Packet(self.session.status(self.opt.ttl, self.bytes, outcome)),
                ),
            ),
            (Phase::Running, Event::StreamClosed) => self.halt(Ending::StreamDisconnected),
            (Phase::Running, Event::Interrupted) => self.halt(Ending::Interrupted),
            (Phase::Draining, Event::Stopped) => (
                OrchestratorModel { phase: Phase::Reporting, ..self },
                Reaction {
                    line: None,
                    action: Action::Report {
                        summary: self.session.summary(self.opt),
                        ending: self.ending.unwrap(),
                    },
                },
            ),
            (Phase::Reporting, Event::Reported) => (
                OrchestratorModel { phase: Phase::Terminated, ..self },
                Reaction { line: None, action: Action::Exit { ending: self.ending.unwrap() } },
            ),
            _ => (self, Reaction { line: None, action: Action::Ignore }),
        }
    }

    /// What holds of a session in each of its states.
    pub open spec fn inv(self) -> bool {
        &&& self.session.wf()
        &&& !self.opt.unbounded() ==> self.session.sequence_number <= self.opt.max_packets
        &&& self.phase is Idle ==> self.session == SessionModel::start() && self.ending is None
        &&& self.phase is Running ==> self.ending is None && !self.opt.budget_reached(
            self.session.sequence_number,
        )
        &&& (self.phase is Draining || self.phase is Reporting || self.phase is Terminated)
            ==> self.ending is Some
        &&& self.ending == Some(Ending::BudgetReached) ==> self.opt.budget_reached(
            self.session.sequence_number,
        )
        &&& self.ending == Some(Ending::ConstructionFailed) ==> self.phase is Terminated
            && self.session == SessionModel::start()
    }

    /// Whether the exec orchestrator can take `event` in this state: the
    /// counter of events has room for one more outcome.
    pub open spec fn accepts(self, event: Event) -> bool {
        self.phase is Running && event is Outcome ==> self.session.sequence_number < u32::MAX
    }
}

/// Every step keeps what holds of a session: after each event the
/// counters still agree, a run with a budget has not gone past it, and
/// the phase and the reason of the ending fit each other.
pub proof fn lemma_step_keeps_invariant(m: OrchestratorModel, event: Event)
    requires
        m.inv(),
    ensures
        m.step(event).0.inv(),
        m.step(event).0.opt == m.opt,
{
}

/// A ping session: its settings, its phase and its counters.
#[derive(Debug)]
pub struct Orchestrator {
    opt: Opt,
    phase: Phase,
    session: SessionState,
    bytes: i64,
    ending: Option<Ending>,
}

impl View for Orchestrator {
    type V = OrchestratorModel;

    closed spec fn view(&self) -> OrchestratorModel {
        OrchestratorModel {
            opt: self.opt,
            phase: self.phase,
            session: self.session@,
            bytes: self.bytes,
            ending: self.ending,
        }
    }
}

impl Orchestrator {
    /// What holds of a session in each of its states, see
    /// [`OrchestratorModel::inv`].
    pub open spec fn wf(&self) -> bool {
        self@.inv()
    }

    /// A session with the given settings that has not begun.
    pub fn new(opt: Opt) -> (orchestrator: Orchestrator)
        ensures
            orchestrator@ == OrchestratorModel::start(opt),
            orchestrator.wf(),
    {
        Orchestrator {
            opt,
            phase: Phase::Idle,
            session: SessionState::new(),
            bytes: 0,
            ending: None,
        }
    }

    /// The settings of the session.
    pub fn opt(&self) -> (opt: &Opt)
        ensures
            *opt == self@.opt,
    {
        &self.opt
    }

    /// Where the session stands.
    pub fn phase(&self) -> (phase: Phase)
        ensures
            phase == self@.phase,
    {
        self.phase
    }

    /// The counters of the session.
    pub fn session(&self) -> (session: &SessionState)
        ensures
            session@ == self@.session,
    {
        &self.session
    }

    /// Why the run is over, once it is.
    pub fn ending(&self) -> (ending: Option<Ending>)
        ensures
            ending == self@.ending,
    {
        self.ending
    }

    /// Whether `step` can take `event` now. It cannot where the event is
    /// an outcome for a running session whose counter of events is full.
    pub fn can_step(&self, event: &Event) -> (r: bool)
        ensures
            r == self@.accepts(*event),
    {
        match (self.phase, event) {
            (Phase::Running, Event::Outcome(_)) => self.session.can_record(),
            _ => true,
        }
    }

    /// After an event that the run has taken in: goes on, or ends the
    /// run where the budget is used up.
    fn proceed(&mut self, line: Option<Line>) -> (reaction: Reaction)
        ensures
            (final(self)@, reaction) == old(self)@.proceed(line),
    {
        if self.opt.is_budget_reached(self.session.sequence_number()) {
            self.phase = Phase::Draining;
            self.ending = Some(Ending::BudgetReached);
            Reaction { line, action: Action::Stop }
        } else {
            self.phase = Phase::Running;
            Reaction { line, action: Action::Receive }
        }
    }

    /// Breaks the run off.
    fn halt(&mut self, ending: Ending) -> (reaction: Reaction)
        ensures
            (final(self)@, reaction) == old(self)@.halt(ending),
    {
        self.phase = Phase::Draining;
        self.ending = Some(ending);
        Reaction { line: None, action: Action::Stop }
    }

    /// Takes one event in and says what to do next.
    ///
    /// Before the run, `Started` opens it and `ConstructionFailed` ends
    /// the session at once. While it runs, each outcome is counted and
    /// gets its line; the run ends when the budget is used up, when the
    /// stream breaks off or when it is cancelled, and the pinger is then
    /// told to stop. Once the pinger has stopped the summary is due, and
    /// once that is shown the session is over. An event that has no place
    /// in the present phase changes nothing.
    pub fn step(&mut self, event: Event) -> (reaction: Reaction)
        requires
            old(self).wf(),
            old(self)@.accepts(event),
        ensures
            (final(self)@, reaction) == old(self)@.step(event),
            final(self).wf(),
    {
        proof {
            lemma_step_keeps_invariant(self@, event);
        }
        match (self.phase, event) {
            (Phase::Idle, Event::ConstructionFailed) => {
                self.phase = Phase::Terminated;
                self.ending = Some(Ending::ConstructionFailed);
                Reaction {
                    line: None,
                    action: Action::Exit { ending: Ending::ConstructionFailed },
                }
            },
            (Phase::Idle, Event::Started { payload_size }) => {
                self.bytes = packet_bytes(payload_size);
                self.proceed(Some(Line::Banner { target: self.opt.ip, payload_size }))
            },
            (Phase::Running, Event::Outcome(outcome)) => {
                let status = self.session.record(self.opt.ttl, self.bytes, outcome);
                self.proceed(Some(Line::Packet(status)))
            },
            (Phase::Running, Event::StreamClosed) => self.halt(Ending::StreamDisconnected),
            (Phase::Running, Event::Interrupted) => self.halt(Ending::Interrupted),
            (Phase::Draining, Event::Stopped) => {
                let summary = self.session.finish(&self.opt);
                self.phase = Phase::Reporting;
                Reaction {
                    line: None,
                    action: Action::Report { summary, ending: self.ending.unwrap() },
                }
            },
            (Phase::Reporting, Event::Reported) => {
                self.phase = Phase::Terminated;
                Reaction { line: None, action: Action::Exit { ending: self.ending.unwrap() } }
            },
            _ => Reaction { line: None, action: Action::Ignore },
        }
    }
}

} // verus!
