//! The closing summary of a session.

use crate::config::{HostAddr, Opt};
use crate::order::{ascending, in_order, lemma_in_order};
use crate::stats::{mean, spread, std_deviation, total, Deviation, Mean};
use crate::stats::lemma_totals_bounds;
use vstd::prelude::*;

verus! {

/// A share of the requests, as `numerator / denominator`. The denominator
/// is never zero.
#[derive(Clone, Copy, Debug, PartialEq, Eq, Structural)]
pub struct Fraction {
    pub numerator: u32,
    pub denominator: u32,
}

impl Fraction {
    /// Whether the fraction is one: every request was lost.
    pub open spec fn is_whole(self) -> bool {
        self.numerator == self.denominator
    }
}

/// The share of `sent` requests that went unanswered, `lost` of them.
/// Where nothing was sent, nothing was answered either, and the loss
/// counts as complete.
pub open spec fn loss_of(lost: u32, sent: u32) -> Fraction {
    if sent == 0 {
        Fraction { numerator: 1, denominator: 1 }
    } else {
        Fraction { numerator: lost, denominator: sent }
    }
}

/// The share of `sent` requests that went unanswered.
pub fn loss(lost: u32, sent: u32) -> (f: Fraction)
    ensures
        f == loss_of(lost, sent),
        f.denominator > 0,
{
    if sent == 0 {
        Fraction { numerator: 1, denominator: 1 }
    } else {
        Fraction { numerator: lost, denominator: sent }
    }
}

/// Round-trip statistics, in microseconds.
#[derive(Clone, Copy, Debug, PartialEq, Eq, Structural)]
pub struct RoundTrip {
    /// The first of the samples: the shortest, where they ascend.
    pub min: i32,
    /// The last of the samples: the longest, where they ascend.
    pub max: i32,
    pub mean: Mean,
    pub deviation: Deviation,
}

/// What a session reports when it ends.
#[derive(Clone, Copy, Debug, PartialEq, Eq, Structural)]
pub struct Summary {
    /// The host that was pinged.
    pub target: HostAddr,
    /// Events processed: replies and timeouts.
    pub transmitted: u32,
    /// Replies among them.
    pub received: u32,
    /// The share of timeouts.
    pub loss: Fraction,
    /// Statistics of the round trips; none where no reply came.
    pub round_trip: Option<RoundTrip>,
}

/// The statistics of the given samples: none of no samples.
pub open spec fn round_trip_of(samples: Seq<i32>) -> Option<RoundTrip> {
    if samples.len() == 0 {
        None
    } else {
        Some(
            RoundTrip {
                min: samples.first(),
                max: samples.last(),
                mean: Mean { sum: total(samples) as i128, count: samples.len() as usize },
                deviation: Deviation {
                    radicand: spread(samples) as u128,
                    count: samples.len() as usize,
                },
            },
        )
    }
}

/// The summary of a session to `opt.ip` that processed `sent` events,
/// `failed` of them timeouts, with the given round-trip samples.
pub open spec fn summary_of(opt: Opt, sent: u32, failed: u32, samples: Seq<i32>)
    -> Summary {
    Summary {
        target: opt.ip,
        transmitted: sent,
        received: (sent - failed) as u32,
        loss: loss_of(failed, sent),
        round_trip: round_trip_of(samples),
    }
}

/// Summarises a session. `rtt_vec` holds the round-trip samples in
/// ascending order, so that its ends are the shortest and the longest.
/// With no sample the summary has no round-trip statistics.
pub fn summary(opt: &Opt, sent: u32, failed: u32, rtt_vec: &Vec<i32>) -> (report:
    Summary)
    requires
        failed <= sent,
        rtt_vec.len() <= u32::MAX,
    ensures
        report == summary_of(*opt, sent, failed, rtt_vec@),
{
    let round_trip = match (mean(rtt_vec), std_deviation(rtt_vec)) {
        (Some(m), Some(d)) => Some(
            RoundTrip { min: rtt_vec[0], max: rtt_vec[rtt_vec.len() - 1], mean: m, deviation: d },
        ),
        _ => None,
    };
    Summary {
        target: opt.ip,
        transmitted: sent,
        received: sent - failed,
        loss: loss(failed, sent),
        round_trip,
    }
}

/// A session without a reply reports a complete loss and no round-trip
/// statistics, whether every request timed out or none was sent.
pub proof fn lemma_no_reply_summary(opt: Opt, sent: u32)
    ensures
        summary_of(opt, sent, sent, Seq::empty()).round_trip is None,
        summary_of(opt, sent, sent, Seq::empty()).loss.is_whole(),
        summary_of(opt, sent, sent, Seq::empty()).received == 0,
        summary_of(opt, sent, sent, Seq::empty()).transmitted == sent,
{
}

/// The sum of ascending samples lies between their number times the
/// first and their number times the last.
pub proof fn lemma_total_between(s: Seq<i32>)
    requires
        ascending(s),
        s.len() > 0,
    ensures
        s.len() * s.first() <= total(s) <= s.len() * s.last(),
    decreases s.len(),
{
    if s.len() == 1 {
        assert(total(s.drop_last()) == 0);
    } else {
        let front = s.drop_last();
        lemma_total_between(front);
        let n = front.len() as int;
        let lo = s.first() as int;
        let hi = s.last() as int;
        let mid = front.last() as int;
        assert(front.first() == s.first());
        assert((n + 1) * lo == n * lo + lo && (n + 1) * hi == n * hi + hi && n * mid <= n * hi)
            by (nonlinear_arith)
            requires
                n >= 0,
                mid <= hi,
        ;
    }
}

/// Of samples put in order, the reported minimum and maximum are samples
/// and bound every sample, and the mean lies between them.
pub proof fn lemma_round_trip_bounds(samples: Seq<i32>, i: int)
    requires
        0 <= i < samples.len(),
        samples.len() <= usize::MAX,
    ensures
        round_trip_of(in_order(samples)) matches Some(rt) && rt.min <= samples[i] <= rt.max
            && samples.contains(rt.min) && samples.contains(rt.max) && rt.mean.count * rt.min
            <= rt.mean.sum <= rt.mean.count * rt.max,
{
    lemma_in_order(samples);
    let sorted = in_order(samples);
    vstd::seq_lib::to_multiset_contains(samples, samples[i]);
    vstd::seq_lib::to_multiset_contains(sorted, samples[i]);
    vstd::seq_lib::to_multiset_contains(samples, sorted.first());
    vstd::seq_lib::to_multiset_contains(sorted, sorted.first());
    vstd::seq_lib::to_multiset_contains(samples, sorted.last());
    vstd::seq_lib::to_multiset_contains(sorted, sorted.last());
    assert(samples.contains(samples[i]));
    assert(sorted.contains(sorted.first()));
    assert(sorted.contains(sorted.last()));
    let k = choose|k: int| 0 <= k < sorted.len() && sorted[k] == samples[i];
    assert(sorted.first() <= sorted[k] <= sorted.last());
    lemma_total_between(sorted);
    lemma_totals_bounds(sorted);
}

} // verus!
