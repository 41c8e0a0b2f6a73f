//! The counters of a running session and the step that one outcome
//! causes.

use crate::config::{HostAddr, Opt};
use crate::order::{in_order, lemma_in_order, sorted};
use crate::report::{loss, loss_of, summary, summary_of, Fraction, Summary};
use crate::stats::{lemma_spread_is_mean_squared_distance, lemma_totals_bounds};
use crate::stats::{lemma_totals_reordered, spread, total, total_squares};
use vstd::prelude::*;

verus! {

/// Nanoseconds in a microsecond.
pub const NANOS_PER_MICRO: u128 = 1000;

/// What became of one echo request.
#[derive(Clone, Copy, Debug, PartialEq, Eq, Structural)]
pub enum Outcome {
    /// A reply came from `addr`, `rtt_nanos` nanoseconds after the
    /// request.
    Reply { addr: HostAddr, rtt_nanos: u128 },
    /// No reply came from `addr` in time.
    Timeout { addr: HostAddr },
}

/// What is said of one request once its outcome is known.
#[derive(Clone, Copy, Debug, PartialEq, Eq, Structural)]
pub enum PacketStatus {
    Reply {
        /// Size of the request on the wire.
        bytes: i64,
        addr: HostAddr,
        sequence_number: u32,
        ttl: u8,
        rtt_nanos: u128,
        /// The loss so far, this event counted.
        loss: Fraction,
    },
    Timeout {
        addr: HostAddr,
        sequence_number: u32,
        /// Size of the request on the wire.
        bytes: i64,
        /// The loss so far, this event counted.
        loss: Fraction,
    },
}

impl PacketStatus {
    /// The number that the event was given.
    pub open spec fn number(self) -> u32 {
        match self {
            PacketStatus::Reply { sequence_number, .. } => sequence_number,
            PacketStatus::Timeout { sequence_number, .. } => sequence_number,
        }
    }

    /// The host that the event names.
    pub open spec fn host(self) -> HostAddr {
        match self {
            PacketStatus::Reply { addr, .. } => addr,
            PacketStatus::Timeout { addr, .. } => addr,
        }
    }
}

impl Outcome {
    /// The host that the outcome names.
    pub open spec fn host(self) -> HostAddr {
        match self {
            Outcome::Reply { addr, .. } => addr,
            Outcome::Timeout { addr } => addr,
        }
    }
}

/// The sample kept of a round trip: its whole microseconds, or the
/// largest sample where there are more than that.
pub open spec fn sample_of(rtt_nanos: u128) -> i32 {
    if rtt_nanos / NANOS_PER_MICRO > i32::MAX {
        i32::MAX
    } else {
        (rtt_nanos / NANOS_PER_MICRO) as i32
    }
}

/// The sample kept of a round trip of `rtt_nanos` nanoseconds.
pub fn sample(rtt_nanos: u128) -> (s: i32)
    ensures
        s == sample_of(rtt_nanos),
{
    let micros = rtt_nanos / NANOS_PER_MICRO;
    if micros > i32::MAX as u128 {
        i32::MAX
    } else {
        micros as i32
    }
}

/// The counters of a session, as mathematical values.
pub struct SessionModel {
    /// Events processed so far.
    pub sequence_number: nat,
    /// Timeouts among them.
    pub failed_count: nat,
    /// One sample for each reply, in the order of arrival.
    pub rtt_samples: Seq<i32>,
}

impl SessionModel {
    /// A session before its first event.
    pub open spec fn start() -> SessionModel {
        SessionModel { sequence_number: 0, failed_count: 0, rtt_samples: Seq::empty() }
    }

    /// The counters agree: no more timeouts than events, and one sample
    /// for each event that was no timeout.
    pub open spec fn wf(self) -> bool {
        &&& self.failed_count <= self.sequence_number
        &&& self.rtt_samples.len() == self.sequence_number - self.failed_count
    }

    /// The counters after one more outcome.
    pub open spec fn record(self, outcome: Outcome) -> SessionModel {
        match outcome {
            Outcome::Reply { rtt_nanos, .. } => SessionModel {
                sequence_number: self.sequence_number + 1,
                failed_count: self.failed_count,
                rtt_samples: self.rtt_samples.push(sample_of(rtt_nanos)),
            },
            Outcome::Timeout { .. } => SessionModel {
                sequence_number: self.sequence_number + 1,
                failed_count: self.failed_count + 1,
                rtt_samples: self.rtt_samples,
            },
        }
    }

    /// What is said of `outcome` when it arrives in this state. The
    /// number and the loss are those after the event.
    pub open spec fn status(self, ttl: u8, bytes: i64, outcome: Outcome) -> PacketStatus {
        let after = self.record(outcome);
        let number = after.sequence_number as u32;
        let lost = loss_of(after.failed_count as u32, number);
        match outcome {
            Outcome::Reply { addr, rtt_nanos } => PacketStatus::Reply {
                bytes,
                addr,
                sequence_number: number,
                ttl,
                rtt_nanos,
                loss: lost,
            },
            Outcome::Timeout { addr } => PacketStatus::Timeout {
                addr,
                sequence_number: number,
                bytes,
                loss: lost,
            },
        }
    }

    /// The summary of a session that ends in this state.
    pub open spec fn summary(self, opt: Opt) -> Summary {
        summary_of(
            opt,
            self.sequence_number as u32,
            self.failed_count as u32,
            in_order(self.rtt_samples),
        )
    }
}

/// The counters after the given outcomes, taken in from the start in the
/// order in which they arrive.
pub open spec fn recorded(outcomes: Seq<Outcome>) -> SessionModel
    decreases outcomes.len(),
{
    if outcomes.len() == 0 {
        SessionModel::start()
    } else {
        recorded(outcomes.drop_last()).record(outcomes.last())
    }
}

/// One outcome moves the counter of events by one, whatever it is, and
/// leaves the counters in agreement.
pub proof fn lemma_record_keeps_counts(m: SessionModel, outcome: Outcome)
    requires
        m.wf(),
    ensures
        m.record(outcome).wf(),
        m.record(outcome).sequence_number == m.sequence_number + 1,
        m.record(outcome).failed_count <= m.record(outcome).sequence_number,
        m.record(outcome).rtt_samples.len() == m.record(outcome).sequence_number - m.record(
            outcome,
        ).failed_count,
{
}

/// After any outcomes the counters agree, and as many events are counted
/// as outcomes came.
pub proof fn lemma_recorded_counts(outcomes: Seq<Outcome>)
    ensures
        recorded(outcomes).wf(),
        recorded(outcomes).sequence_number == outcomes.len(),
        recorded(outcomes).failed_count <= outcomes.len(),
        recorded(outcomes).rtt_samples.len() == outcomes.len() - recorded(outcomes).failed_count,
    decreases outcomes.len(),
{
    if outcomes.len() > 0 {
        lemma_recorded_counts(outcomes.drop_last());
    }
}

/// The statistics in the summary are those of the samples as they
/// arrived: putting them in order changes neither their number, nor their
/// sum, nor their spread. Without a sample the summary has no statistics
/// and states a complete loss.
pub proof fn lemma_summary_statistics(m: SessionModel, opt: Opt)
    requires
        m.wf(),
        m.sequence_number <= u32::MAX,
    ensures
        m.summary(opt).transmitted == m.sequence_number,
        m.summary(opt).received == m.rtt_samples.len(),
        m.summary(opt).loss == loss_of(m.failed_count as u32, m.sequence_number as u32),
        m.rtt_samples.len() == 0 ==> m.summary(opt).round_trip is None && m.summary(
            opt,
        ).loss.is_whole(),
        m.rtt_samples.len() > 0 ==> (m.summary(opt).round_trip matches Some(rt) && rt.mean.sum
            == total(m.rtt_samples) && rt.mean.count == m.rtt_samples.len()
            && rt.deviation.radicand == spread(m.rtt_samples) && rt.deviation.count
            == m.rtt_samples.len()),
{
    lemma_in_order(m.rtt_samples);
    lemma_totals_reordered(in_order(m.rtt_samples), m.rtt_samples);
    lemma_totals_bounds(m.rtt_samples);
    lemma_spread_is_mean_squared_distance(m.rtt_samples);
    let n = m.rtt_samples.len() as int;
    let q = total_squares(m.rtt_samples);
    let t = total(m.rtt_samples);
    assert(0 <= n * q <= 0x4000_0000_0000_0000_0000_0000_0000_0000) by (nonlinear_arith)
        requires
            0 <= n <= 0x1_0000_0000,
            0 <= q <= 0x4000_0000_0000_0000 * n,
    ;
    assert(0 <= t * t) by (nonlinear_arith);
}

/// The counters of a running session.
#[derive(Debug)]
pub struct SessionState {
    sequence_number: u32,
    failed_count: u32,
    rtt_samples: Vec<i32>,
}

impl View for SessionState {
    type V = SessionModel;

    closed spec fn view(&self) -> SessionModel {
        SessionModel {
            sequence_number: self.sequence_number as nat,
            failed_count: self.failed_count as nat,
            rtt_samples: self.rtt_samples@,
        }
    }
}

impl SessionState {
    /// The counters agree, see [`SessionModel::wf`].
    pub open spec fn wf(&self) -> bool {
        self@.wf()
    }

    /// Whether the counter of events can take one more.
    pub open spec fn has_room(&self) -> bool {
        self@.sequence_number < u32::MAX
    }

    /// A session before its first event.
    pub fn new() -> (state: SessionState)
        ensures
            state@ == SessionModel::start(),
            state.wf(),
    {
        SessionState { sequence_number: 0, failed_count: 0, rtt_samples: Vec::new() }
    }

    /// Events processed so far.
    pub fn sequence_number(&self) -> (n: u32)
        ensures
            n == self@.sequence_number,
    {
        self.sequence_number
    }

    /// Timeouts so far.
    pub fn failed_count(&self) -> (n: u32)
        ensures
            n == self@.failed_count,
    {
        self.failed_count
    }

    /// The samples so far, in the order of arrival.
    pub fn rtt_samples(&self) -> (samples: &Vec<i32>)
        ensures
            samples@ == self@.rtt_samples,
    {
        &self.rtt_samples
    }

    /// Whether the counter of events can take one more.
    pub fn can_record(&self) -> (r: bool)
        ensures
            r == self.has_room(),
    {
        self.sequence_number < u32::MAX
    }

    /// Takes one outcome in: counts the event, counts it as failed where
    /// it is a timeout, keeps a sample where it is a reply, and says what
    /// to report of it. `ttl` and `bytes` go into the status as they are.
    pub fn record(&mut self, ttl: u8, bytes: i64, outcome: Outcome) -> (status: PacketStatus)
        requires
            old(self).wf(),
            old(self).has_room(),
        ensures
            final(self)@ == old(self)@.record(outcome),
            final(self).wf(),
            status == old(self)@.status(ttl, bytes, outcome),
            status.number() == old(self)@.sequence_number + 1,
            status.host() == outcome.host(),
    {
        self.sequence_number = self.sequence_number + 1;
        match outcome {
            Outcome::Timeout { addr } => {
                self.failed_count = self.failed_count + 1;
                PacketStatus::Timeout {
                    addr,
                    sequence_number: self.sequence_number,
                    bytes,
                    loss: loss(self.failed_count, self.sequence_number),
                }
            },
            Outcome::Reply { addr, rtt_nanos } => {
                self.rtt_samples.push(sample(rtt_nanos));
                PacketStatus::Reply {
                    bytes,
                    addr,
                    sequence_number: self.sequence_number,
                    ttl,
                    rtt_nanos,
                    loss: loss(self.failed_count, self.sequence_number),
                }
            },
        }
    }

    /// The summary of the session as it stands: the counters, and the
    /// statistics of the samples put in ascending order. The session
    /// keeps its samples in the order of arrival.
    pub fn finish(&self, opt: &Opt) -> (report: Summary)
        requires
            self.wf(),
        ensures
            report == self@.summary(*opt),
    {
        let ascending = sorted(&self.rtt_samples);
        proof {
            lemma_in_order(self.rtt_samples@);
        }
        summary(opt, self.sequence_number, self.failed_count, &ascending)
    }
}

} // verus!
