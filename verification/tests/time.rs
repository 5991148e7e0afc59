//! Instants and spans on the calendar.
use chrono::{DateTime, Duration, TimeDelta};
use rfq_engine::domain::state::Tenor;
use rfq_engine::mock::clock::MockClock;
use rfq_engine::ports::Clock;
use rfq_engine::time::{Span, Timestamp, MAX_SECS, MIN_SECS};

fn at(secs: i64, nanos: u32) -> Timestamp {
    Timestamp::new(secs, nanos).unwrap()
}

#[test]
fn mock_clock_only_moves_when_told() {
    let start = at(1_000, 0);
    let mut clock = MockClock::new(start);
    assert_eq!(clock.now(), start);
    clock.advance(Span::seconds(30));
    assert_eq!(clock.now(), start.checked_add(Span::seconds(30)).unwrap());
    assert_eq!(clock.now(), at(1_030, 0));
    clock.set(start);
    assert_eq!(clock.now(), start);
}

#[test]
fn the_calendar_has_ends() {
    let first = DateTime::<chrono::Utc>::MIN_UTC;
    let last = DateTime::<chrono::Utc>::MAX_UTC;
    assert_eq!(first.timestamp(), MIN_SECS);
    assert_eq!(last.timestamp(), MAX_SECS);
    assert!(Timestamp::new(MIN_SECS, 0).is_some());
    assert!(Timestamp::new(MIN_SECS - 1, 999_999_999).is_none());
    assert!(Timestamp::new(MAX_SECS, 999_999_999).is_some());
    assert!(Timestamp::new(MAX_SECS + 1, 0).is_none());
}

#[test]
fn a_leap_second_only_ends_a_minute() {
    assert!(Timestamp::new(59, 1_500_000_000).is_some());
    assert!(Timestamp::new(58, 1_500_000_000).is_none());
    assert!(Timestamp::new(59, 2_000_000_000).is_none());
    assert!(Timestamp::new(60, 0).is_some());
    assert!(at(59, 1_500_000_000).is_before(at(60, 0)));
    assert!(at(59, 999_999_999).is_before(at(59, 1_000_000_000)));
}

#[test]
fn the_earlier_of_two_instants() {
    assert_eq!(at(1, 5).min(at(1, 6)), at(1, 5));
    assert_eq!(at(2, 0).min(at(1, 6)), at(1, 6));
    assert!(!at(1, 5).is_before(at(1, 5)));
}

/// Moving an instant agrees with the calendar, over and across leap seconds too.
#[test]
fn moving_an_instant_agrees_with_the_calendar() {
    let starts = [
        (0, 0),
        (59, 0),
        (59, 999_999_999),
        (59, 1_000_000_000),
        (59, 1_999_999_999),
        (-1, 0),
        (-1, 1_250_000_000),
        (MIN_SECS, 0),
        (MAX_SECS, 999_999_999),
        (MAX_SECS, 1_999_999_999),
        (1_700_000_000, 123_456_789),
    ];
    let spans = [
        (0, 0),
        (0, 1),
        (0, 500_000_000),
        (0, 999_999_999),
        (1, 0),
        (60, 250_000_000),
        (-1, 0),
        (-1, 999_999_999),
        (-1, 500_000_000),
        (-2, 750_000_000),
        (-60, 1),
        (300, 0),
        (86_400, 0),
        (31_536_000, 0),
    ];
    for (secs, nanos) in starts {
        let start = DateTime::from_timestamp(secs, nanos).unwrap();
        for (by, extra) in spans {
            let wanted = start.checked_add_signed(TimeDelta::new(by, extra).unwrap());
            let got = at(secs, nanos).checked_add(Span::new(by, extra).unwrap());
            assert_eq!(
                got.map(|t| (t.secs(), t.nanos())),
                wanted.map(|t| (t.timestamp(), t.timestamp_subsec_nanos())),
                "{secs}.{nanos} + {by}.{extra}"
            );
        }
    }
}

#[test]
fn instants_move_by_exact_spans() {
    assert_eq!(
        at(10, 750_000_000).checked_add(Span::new(1, 500_000_000).unwrap()),
        Some(at(12, 250_000_000))
    );
    assert_eq!(at(10, 0).checked_add(Span::seconds(-11)), Some(at(-1, 0)));
    assert_eq!(at(MAX_SECS, 0).checked_add(Span::seconds(1)), None);
    assert_eq!(at(MIN_SECS, 0).checked_add(Span::seconds(-1)), None);
    // Inside a leap second the instant stays there; past it, the second is lost.
    assert_eq!(
        at(59, 1_200_000_000).checked_add(Span::new(0, 300_000_000).unwrap()),
        Some(at(59, 1_500_000_000))
    );
    assert_eq!(
        at(59, 1_200_000_000).checked_add(Span::seconds(1)),
        Some(at(60, 200_000_000))
    );
}

#[test]
fn spans_have_ends() {
    let longest = TimeDelta::MAX;
    assert_eq!(
        Span::new(longest.num_seconds(), 807_000_000).map(|s| (s.secs(), s.nanos())),
        Some((9_223_372_036_854_775, 807_000_000))
    );
    assert!(Span::new(9_223_372_036_854_775, 807_000_001).is_none());
    assert!(Span::new(-9_223_372_036_854_776, 193_000_000).is_some());
    assert!(Span::new(-9_223_372_036_854_776, 192_999_999).is_none());
    assert!(Span::new(0, 1_000_000_000).is_none());
    assert_eq!(TimeDelta::new(9_223_372_036_854_775, 807_000_001), None);
    assert_eq!(TimeDelta::new(-9_223_372_036_854_776, 192_999_999), None);
}

#[test]
fn tenors_last_as_long_as_they_say() {
    for (tenor, span) in [
        (Tenor::FiveMinutes, Duration::minutes(5)),
        (Tenor::TenMinutes, Duration::minutes(10)),
        (Tenor::OneHour, Duration::hours(1)),
        (Tenor::OneDay, Duration::days(1)),
    ] {
        assert_eq!(tenor.duration().secs(), span.num_seconds(), "{tenor:?}");
        assert_eq!(tenor.duration().nanos(), 0);
    }
}
