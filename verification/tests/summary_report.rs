use ping_session::report::{loss, summary, Fraction, RoundTrip, Summary};
use ping_session::stats::{Deviation, Mean};
use ping_session::{HostAddr, Opt};

fn options() -> Opt {
    Opt {
        ip: HostAddr::V4(0xc0a8_0001),
        ttl: 64,
        max_packets: -1,
        packet_size: 56,
        wait_time: 1000,
    }
}

fn percent(f: Fraction) -> f32 {
    (f.numerator as f32 / f.denominator as f32) * 100.0
}

#[test]
fn loss_is_not_truncated() {
    let one_of_three = loss(1, 3);
    assert_eq!(one_of_three, Fraction { numerator: 1, denominator: 3 });
    assert!((percent(one_of_three) - 33.333332).abs() < 0.001);
    assert_ne!(percent(one_of_three), 0.0);
    assert_eq!(format!("{:.2}", percent(one_of_three)), "33.33");
}

#[test]
fn loss_of_none_and_of_all() {
    assert_eq!(percent(loss(0, 4)), 0.0);
    assert_eq!(percent(loss(4, 4)), 100.0);
    assert_eq!(percent(loss(1, 2)), 50.0);
}

#[test]
fn loss_of_nothing_sent_is_complete() {
    let f = loss(0, 0);
    assert_eq!(f, Fraction { numerator: 1, denominator: 1 });
    assert_eq!(percent(f), 100.0);
}

#[test]
fn summary_of_replies() {
    let samples: Vec<i32> = vec![10_000, 12_000, 17_000];
    let report = summary(&options(), 4, 1, &samples);
    assert_eq!(
        report,
        Summary {
            target: HostAddr::V4(0xc0a8_0001),
            transmitted: 4,
            received: 3,
            loss: Fraction { numerator: 1, denominator: 4 },
            round_trip: Some(RoundTrip {
                min: 10_000,
                max: 17_000,
                mean: Mean { sum: 39_000, count: 3 },
                // 3 * 533_000_000 - 39_000 * 39_000
                deviation: Deviation { radicand: 78_000_000, count: 3 },
            }),
        }
    );
    assert_eq!(percent(report.loss), 25.0);
}

#[test]
fn summary_takes_the_ends_of_the_samples() {
    let report = summary(&options(), 2, 0, &vec![700, 300]);
    let round_trip = report.round_trip.unwrap();
    assert_eq!(round_trip.min, 700);
    assert_eq!(round_trip.max, 300);
}

#[test]
fn summary_without_reply_has_no_statistics() {
    let none: Vec<i32> = Vec::new();
    let report = summary(&options(), 3, 3, &none);
    assert_eq!(report.transmitted, 3);
    assert_eq!(report.received, 0);
    assert_eq!(report.round_trip, None);
    assert_eq!(report.loss.numerator, report.loss.denominator);
    assert_eq!(percent(report.loss), 100.0);
}

#[test]
fn summary_of_nothing_sent() {
    let none: Vec<i32> = Vec::new();
    let report = summary(&options(), 0, 0, &none);
    assert_eq!(
        report,
        Summary {
            target: HostAddr::V4(0xc0a8_0001),
            transmitted: 0,
            received: 0,
            loss: Fraction { numerator: 1, denominator: 1 },
            round_trip: None,
        }
    );
    assert_eq!(percent(report.loss), 100.0);
}

#[test]
fn summary_of_one_reply() {
    let report = summary(&options(), 1, 0, &vec![1234]);
    assert_eq!(
        report.round_trip,
        Some(RoundTrip {
            min: 1234,
            max: 1234,
            mean: Mean { sum: 1234, count: 1 },
            deviation: Deviation { radicand: 0, count: 1 },
        })
    );
    assert_eq!(percent(report.loss), 0.0);
}

#[test]
fn summary_names_the_target() {
    let mut opt = options();
    opt.ip = HostAddr::V6(0x2001_0db8_0000_0000_0000_0000_0000_0001);
    let none: Vec<i32> = Vec::new();
    assert_eq!(
        summary(&opt, 0, 0, &none).target,
        HostAddr::V6(0x2001_0db8_0000_0000_0000_0000_0000_0001)
    );
}
