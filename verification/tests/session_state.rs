use ping_session::report::{Fraction, RoundTrip};
use ping_session::session::{sample, Outcome, PacketStatus, SessionState};
use ping_session::stats::{Deviation, Mean};
use ping_session::{HostAddr, Opt};

const HOST: HostAddr = HostAddr::V4(0x0a00_0001);

fn options() -> Opt {
    Opt { ip: HOST, ttl: 64, max_packets: -1, packet_size: 56, wait_time: 1000 }
}

fn reply(rtt_nanos: u128) -> Outcome {
    Outcome::Reply { addr: HOST, rtt_nanos }
}

fn timeout() -> Outcome {
    Outcome::Timeout { addr: HOST }
}

fn counters_agree(state: &SessionState) -> bool {
    state.failed_count() <= state.sequence_number()
        && state.rtt_samples().len() as u32 == state.sequence_number() - state.failed_count()
}

#[test]
fn new_session_has_counted_nothing() {
    let state = SessionState::new();
    assert_eq!(state.sequence_number(), 0);
    assert_eq!(state.failed_count(), 0);
    assert!(state.rtt_samples().is_empty());
    assert!(state.can_record());
    assert!(counters_agree(&state));
}

#[test]
fn reply_is_counted_and_sampled() {
    let mut state = SessionState::new();
    let status = state.record(64, 64, reply(12_345_678));
    assert_eq!(
        status,
        PacketStatus::Reply {
            bytes: 64,
            addr: HOST,
            sequence_number: 1,
            ttl: 64,
            rtt_nanos: 12_345_678,
            loss: Fraction { numerator: 0, denominator: 1 },
        }
    );
    assert_eq!(state.sequence_number(), 1);
    assert_eq!(state.failed_count(), 0);
    assert_eq!(state.rtt_samples(), &vec![12_345]);
}

#[test]
fn timeout_is_counted_as_failed() {
    let mut state = SessionState::new();
    let status = state.record(64, 64, timeout());
    assert_eq!(
        status,
        PacketStatus::Timeout {
            addr: HOST,
            sequence_number: 1,
            bytes: 64,
            loss: Fraction { numerator: 1, denominator: 1 },
        }
    );
    assert_eq!(state.sequence_number(), 1);
    assert_eq!(state.failed_count(), 1);
    assert!(state.rtt_samples().is_empty());
}

#[test]
fn loss_in_the_status_counts_the_event_itself() {
    let mut state = SessionState::new();
    state.record(64, 64, reply(1_000_000));
    state.record(64, 64, reply(2_000_000));
    let third = state.record(64, 64, timeout());
    match third {
        PacketStatus::Timeout { sequence_number, loss, .. } => {
            assert_eq!(sequence_number, 3);
            assert_eq!(loss, Fraction { numerator: 1, denominator: 3 });
            let percent: f32 = (loss.numerator as f32 / loss.denominator as f32) * 100.0;
            assert_eq!(format!("{:.2}", percent), "33.33");
        }
        _ => panic!("a timeout gives a timeout status"),
    }
    let fourth = state.record(64, 64, reply(3_000_000));
    match fourth {
        PacketStatus::Reply { sequence_number, loss, .. } => {
            assert_eq!(sequence_number, 4);
            assert_eq!(loss, Fraction { numerator: 1, denominator: 4 });
        }
        _ => panic!("a reply gives a reply status"),
    }
}

#[test]
fn counters_agree_after_every_event() {
    let mut state = SessionState::new();
    let outcomes: Vec<Outcome> = vec![
        reply(5_000),
        timeout(),
        timeout(),
        reply(7_000),
        reply(1_000),
        timeout(),
        reply(0),
    ];
    let mut expected: u32 = 0;
    for outcome in outcomes {
        state.record(255, 64, outcome);
        expected += 1;
        assert_eq!(state.sequence_number(), expected);
        assert!(counters_agree(&state));
    }
    assert_eq!(state.failed_count(), 3);
    assert_eq!(state.rtt_samples(), &vec![5, 7, 1, 0]);
}

#[test]
fn status_carries_ttl_and_bytes_as_given() {
    let mut state = SessionState::new();
    let status = state.record(7, 1008, reply(1));
    match status {
        PacketStatus::Reply { bytes, ttl, .. } => {
            assert_eq!(bytes, 1008);
            assert_eq!(ttl, 7);
        }
        _ => panic!("a reply gives a reply status"),
    }
}

#[test]
fn sample_is_whole_microseconds() {
    assert_eq!(sample(0), 0);
    assert_eq!(sample(999), 0);
    assert_eq!(sample(1_000), 1);
    assert_eq!(sample(1_999), 1);
    assert_eq!(sample(12_345_678), 12_345);
    assert_eq!(sample(2_147_483_647_000), i32::MAX);
    assert_eq!(sample(2_147_483_646_999), i32::MAX - 1);
}

#[test]
fn sample_of_a_very_long_round_trip_is_the_largest() {
    assert_eq!(sample(2_147_483_648_000), i32::MAX);
    assert_eq!(sample(u128::MAX), i32::MAX);
}

#[test]
fn finish_sorts_a_copy_of_the_samples() {
    let mut state = SessionState::new();
    state.record(64, 64, reply(9_000_000));
    state.record(64, 64, timeout());
    state.record(64, 64, reply(1_000_000));
    state.record(64, 64, reply(5_000_000));
    let report = state.finish(&options());
    assert_eq!(report.target, HOST);
    assert_eq!(report.transmitted, 4);
    assert_eq!(report.received, 3);
    assert_eq!(report.loss, Fraction { numerator: 1, denominator: 4 });
    assert_eq!(
        report.round_trip,
        Some(RoundTrip {
            min: 1_000,
            max: 9_000,
            mean: Mean { sum: 15_000, count: 3 },
            // 3 * 107_000_000 - 15_000 * 15_000
            deviation: Deviation { radicand: 96_000_000, count: 3 },
        })
    );
    assert_eq!(state.rtt_samples(), &vec![9_000, 1_000, 5_000]);
}

#[test]
fn finish_without_reply() {
    let mut state = SessionState::new();
    state.record(64, 64, timeout());
    state.record(64, 64, timeout());
    let report = state.finish(&options());
    assert_eq!(report.transmitted, 2);
    assert_eq!(report.received, 0);
    assert_eq!(report.round_trip, None);
    assert_eq!(report.loss, Fraction { numerator: 2, denominator: 2 });
}

#[test]
fn finish_before_any_event() {
    let state = SessionState::new();
    let report = state.finish(&options());
    assert_eq!(report.transmitted, 0);
    assert_eq!(report.received, 0);
    assert_eq!(report.round_trip, None);
    assert_eq!(report.loss, Fraction { numerator: 1, denominator: 1 });
}
