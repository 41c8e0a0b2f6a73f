//! The configuration of one ping session.

use vstd::prelude::*;

verus! {

/// Bytes that the ICMP header adds to the payload of an echo request.
pub const ICMP_HEADER_BYTES: i64 = 8;

/// An IP address as a plain number: the 32 bits of an IPv4 address or the
/// 128 bits of an IPv6 address, most significant byte first.
#[derive(Clone, Copy, Debug, PartialEq, Eq, Structural)]
pub enum HostAddr {
    V4(u32),
    V6(u128),
}

impl HostAddr {
    /// Whether this is an IPv4 address.
    pub fn is_ipv4(&self) -> (r: bool)
        ensures
            r == (*self is V4),
    {
        match self {
            HostAddr::V4(_) => true,
            HostAddr::V6(_) => false,
        }
    }
}

/// The settings of a session. They do not change while it runs.
#[derive(Clone, Copy, Debug, PartialEq, Eq, Structural)]
pub struct Opt {
    /// The host that the echo requests go to.
    pub ip: HostAddr,
    /// Time to live of each request.
    pub ttl: u8,
    /// Number of events after which the run ends; a negative number
    /// stands for a run without such an end.
    pub max_packets: i32,
    /// Payload bytes of each request.
    pub packet_size: i32,
    /// Milliseconds between two requests.
    pub wait_time: u64,
}

impl Opt {
    /// Whether the run has no packet budget.
    pub open spec fn unbounded(self) -> bool {
        self.max_packets < 0
    }

    /// Whether `processed` events use the budget up. A run without a
    /// budget never does.
    pub open spec fn budget_reached(self, processed: nat) -> bool {
        !self.unbounded() && processed == self.max_packets
    }

    /// Whether the run has no packet budget.
    pub fn is_unbounded(&self) -> (r: bool)
        ensures
            r == self.unbounded(),
    {
        self.max_packets < 0
    }

    /// Whether a run that has processed `processed` events has used its
    /// budget up.
    pub fn is_budget_reached(&self, processed: u32) -> (r: bool)
        ensures
            r == self.budget_reached(processed as nat),
    {
        self.max_packets >= 0 && processed == self.max_packets as u32
    }
}

/// The size of one request on the wire, from the size of its payload.
pub open spec fn packet_bytes_of(payload_size: i32) -> i64 {
    (payload_size + ICMP_HEADER_BYTES) as i64
}

/// The size of one request on the wire: the payload and the ICMP header.
pub fn packet_bytes(payload_size: i32) -> (bytes: i64)
    ensures
        bytes == packet_bytes_of(payload_size),
        bytes == payload_size + ICMP_HEADER_BYTES,
{
    payload_size as i64 + ICMP_HEADER_BYTES
}

} // verus!
