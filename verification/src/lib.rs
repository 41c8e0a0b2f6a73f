//! Session logic of an ICMP echo ("ping") tool, verified with Verus.
//!
//! The crate holds the decisions of a ping session: how replies and
//! timeouts are counted, when a run ends, and what the closing summary
//! states. It performs no I/O. A driver owns the transport, feeds each
//! event to the [`orchestrator::Orchestrator`] and carries out the action
//! that comes back.
//!
//! Times are whole numbers: a round trip is given in nanoseconds and kept
//! as a sample in microseconds. Averages are handed out as exact
//! fractions, so that a caller divides once, at the moment of display.

pub mod config;
pub mod orchestrator;
pub mod order;
pub mod report;
pub mod runs;
pub mod session;
pub mod stats;

pub use config::{packet_bytes, HostAddr, Opt};
pub use report::summary;
pub use stats::{mean, std_deviation};
