use taskman::timestamp::{Timestamp, MAX_LOCAL_SECS, MIN_LOCAL_SECS};

fn at(secs: i64, nanos: u32, offset: i32) -> Timestamp {
    Timestamp::new(secs, nanos, offset).unwrap()
}

/// Whole minutes from `earlier` to `later`, rounded toward zero, counting a
/// leap second between the two times of day.
fn expected_minutes(later: &Timestamp, earlier: &Timestamp) -> i64 {
    let later_of_day = later.secs.rem_euclid(86_400);
    let earlier_of_day = earlier.secs.rem_euclid(86_400);
    let leap = if later_of_day > earlier_of_day && earlier.nanos >= 1_000_000_000 {
        1
    } else if later_of_day < earlier_of_day && later.nanos >= 1_000_000_000 {
        -1
    } else {
        0
    };
    let fraction = later.nanos as i64 - earlier.nanos as i64;
    let whole = later.secs - earlier.secs + leap + fraction.div_euclid(1_000_000_000);
    let seconds = if whole < 0 && fraction.rem_euclid(1_000_000_000) > 0 {
        whole + 1
    } else {
        whole
    };
    seconds / 60
}

#[test]
fn new_accepts_an_ordinary_moment() {
    let moment = at(1_431_648_000, 0, 3600);
    assert_eq!(moment.secs, 1_431_648_000);
    assert_eq!(moment.nanos, 0);
    assert_eq!(moment.offset, 3600);
    assert!(moment.is_valid());
}

#[test]
fn new_refuses_two_seconds_of_nanoseconds() {
    assert_eq!(Timestamp::new(59, 2_000_000_000, 0), None);
    assert!(Timestamp::new(59, 1_999_999_999, 0).is_some());
}

#[test]
fn new_takes_a_leap_second_only_at_the_end_of_a_minute() {
    assert!(Timestamp::new(59, 1_000_000_000, 0).is_some());
    assert!(Timestamp::new(119, 1_500_000_000, 0).is_some());
    assert!(Timestamp::new(-1, 1_000_000_000, 0).is_some());
    assert_eq!(Timestamp::new(58, 1_000_000_000, 0), None);
    assert_eq!(Timestamp::new(60, 1_000_000_000, 0), None);
    assert_eq!(Timestamp::new(-2, 1_000_000_000, 0), None);
}

#[test]
fn new_refuses_an_offset_of_a_day_or_more() {
    assert_eq!(Timestamp::new(0, 0, 86_400), None);
    assert_eq!(Timestamp::new(0, 0, -86_400), None);
    assert!(Timestamp::new(0, 0, 86_399).is_some());
    assert!(Timestamp::new(0, 0, -86_399).is_some());
}

#[test]
fn new_keeps_the_local_year_to_four_digits() {
    assert!(Timestamp::new(MIN_LOCAL_SECS, 0, 0).is_some());
    assert_eq!(Timestamp::new(MIN_LOCAL_SECS - 1, 0, 0), None);
    assert!(Timestamp::new(MAX_LOCAL_SECS, 0, 0).is_some());
    assert_eq!(Timestamp::new(MAX_LOCAL_SECS + 1, 0, 0), None);
    assert!(Timestamp::new(MIN_LOCAL_SECS - 3600, 0, 3600).is_some());
    assert_eq!(Timestamp::new(MAX_LOCAL_SECS, 0, 1), None);
    assert_eq!(Timestamp::new(i64::MAX, 0, 0), None);
    assert_eq!(Timestamp::new(i64::MIN, 0, 0), None);
}

#[test]
fn is_valid_tells_a_made_up_moment() {
    let made_up = Timestamp { secs: 0, nanos: 0, offset: 90_000 };
    assert!(!made_up.is_valid());
}

#[test]
fn rfc3339_text_of_a_known_moment() {
    assert_eq!(at(1_431_648_000, 0, 0).to_rfc3339(), "2015-05-15T00:00:00+00:00");
    assert_eq!(at(1_431_648_000, 0, 3600).to_rfc3339(), "2015-05-15T01:00:00+01:00");
    assert_eq!(at(851_042_397, 0, -28_800).to_rfc3339(), "1996-12-19T16:39:57-08:00");
    assert_eq!(at(1_431_648_000, 500_000_000, 0).to_rfc3339(), "2015-05-15T00:00:00.500+00:00");
}

#[test]
fn rfc3339_text_at_the_ends_of_the_range() {
    assert_eq!(at(MIN_LOCAL_SECS, 0, 0).to_rfc3339(), "0000-01-01T00:00:00+00:00");
    assert_eq!(at(MAX_LOCAL_SECS, 0, 0).to_rfc3339(), "9999-12-31T23:59:59+00:00");
}

#[test]
fn rfc2822_text_of_a_known_moment() {
    assert_eq!(at(1_431_648_000, 0, 0).to_rfc2822(), "Fri, 15 May 2015 00:00:00 +0000");
    assert_eq!(at(851_042_397, 0, -28_800).to_rfc2822(), "Thu, 19 Dec 1996 16:39:57 -0800");
}

#[test]
fn rfc2822_text_at_the_ends_of_the_range() {
    assert_eq!(at(MIN_LOCAL_SECS, 0, 0).to_rfc2822(), "Sat, 1 Jan 0000 00:00:00 +0000");
    assert_eq!(at(MAX_LOCAL_SECS, 0, 0).to_rfc2822(), "Fri, 31 Dec 9999 23:59:59 +0000");
    assert_eq!(
        at(MAX_LOCAL_SECS - 86_340, 1_000_000_000, 86_340).to_rfc2822(),
        "Fri, 31 Dec 9999 23:59:60 +2359"
    );
}

#[test]
fn parse_reads_a_known_text() {
    assert_eq!(
        Timestamp::parse("1996-12-19T16:39:57-08:00"),
        Some(Timestamp { secs: 851_042_397, nanos: 0, offset: -28_800 })
    );
    assert_eq!(
        Timestamp::parse("2015-05-15T00:00:00Z"),
        Some(Timestamp { secs: 1_431_648_000, nanos: 0, offset: 0 })
    );
    assert_eq!(
        Timestamp::parse("2015-05-15T00:00:00.25+01:00"),
        Some(Timestamp { secs: 1_431_644_400, nanos: 250_000_000, offset: 3600 })
    );
}

#[test]
fn parse_reads_a_leap_second() {
    assert_eq!(
        Timestamp::parse("2015-06-30T23:59:60Z"),
        Some(Timestamp { secs: 1_435_708_799, nanos: 1_000_000_000, offset: 0 })
    );
}

#[test]
fn parse_refuses_what_is_no_moment() {
    assert_eq!(Timestamp::parse(""), None);
    assert_eq!(Timestamp::parse("tomorrow"), None);
    assert_eq!(Timestamp::parse("2015-05-15"), None);
    assert_eq!(Timestamp::parse("2015-05-15T00:00:00"), None);
    assert_eq!(Timestamp::parse("2015-13-15T00:00:00Z"), None);
}

#[test]
fn parse_does_not_hand_its_text_back() {
    let text = "2015-05-15T01:00:00+01:00";
    let moment = Timestamp::parse(text).unwrap();
    assert_eq!(moment.secs, 1_431_648_000);
    assert_eq!(moment.to_rfc3339(), text);
}

#[test]
fn portable_text_reads_back() {
    for moment in [
        at(0, 0, 0),
        at(1_431_648_000, 123_456_789, 19_800),
        at(-1, 999_999_999, -3600),
        at(1_435_708_799, 1_250_000_000, 0),
        at(MIN_LOCAL_SECS, 0, 0),
        at(MAX_LOCAL_SECS, 999_999_999, 0),
    ] {
        let text = moment.to_portable_text().unwrap();
        assert_eq!(text, moment.to_rfc3339());
        assert_eq!(Timestamp::parse(&text), Some(moment));
    }
}

#[test]
fn an_offset_with_seconds_has_no_portable_text() {
    let moment = at(1_431_648_000, 0, 3601);
    assert_ne!(Timestamp::parse(&moment.to_rfc3339()), Some(moment));
    assert_eq!(moment.to_portable_text(), None);
}

#[test]
fn minutes_since_rounds_toward_zero() {
    let now = at(1_000_000_000, 0, 0);
    assert_eq!(at(1_000_000_090, 0, 0).minutes_since(&now), 1);
    assert_eq!(at(1_000_000_060, 0, 0).minutes_since(&now), 1);
    assert_eq!(at(1_000_000_059, 999_999_999, 0).minutes_since(&now), 0);
    assert_eq!(at(1_000_000_000, 0, 0).minutes_since(&now), 0);
    assert_eq!(at(999_999_941, 0, 0).minutes_since(&now), 0);
    assert_eq!(at(999_999_940, 0, 0).minutes_since(&now), -1);
    assert_eq!(at(999_999_910, 0, 0).minutes_since(&now), -1);
    assert_eq!(at(1_000_007_200, 0, 0).minutes_since(&now), 120);
}

#[test]
fn minutes_since_counts_the_fraction() {
    let now = at(1_000_000_000, 600_000_000, 0);
    assert_eq!(at(1_000_000_060, 500_000_000, 0).minutes_since(&now), 0);
    assert_eq!(at(1_000_000_060, 600_000_000, 0).minutes_since(&now), 1);
    assert_eq!(at(999_999_940, 700_000_000, 0).minutes_since(&now), 0);
    assert_eq!(at(999_999_940, 600_000_000, 0).minutes_since(&now), -1);
}

#[test]
fn minutes_since_ignores_the_offset() {
    let now = at(1_000_000_000, 0, 7200);
    assert_eq!(at(1_000_000_600, 0, -7200).minutes_since(&now), 10);
}

#[test]
fn minutes_since_agrees_with_the_formula() {
    let moments = [
        at(1_435_708_799, 0, 0),
        at(1_435_708_799, 1_000_000_000, 0),
        at(1_435_708_799, 1_999_999_999, 0),
        at(1_435_708_800, 0, 0),
        at(1_435_708_740, 0, 0),
        at(1_435_708_739, 1_500_000_000, 0),
        at(1_435_708_859, 1_000_000_001, 0),
        at(1_435_795_199, 1_000_000_000, 0),
        at(1_435_622_399, 1_400_000_000, 0),
        at(-1, 1_000_000_000, 0),
        at(-61, 1_000_000_000, 0),
        at(0, 0, 0),
        at(59, 999_999_999, 0),
        at(MIN_LOCAL_SECS, 0, 0),
        at(MAX_LOCAL_SECS, 1_999_999_999, 0),
    ];
    for later in &moments {
        for earlier in &moments {
            assert_eq!(
                later.minutes_since(earlier),
                expected_minutes(later, earlier),
                "{later:?} since {earlier:?}"
            );
        }
    }
}

#[test]
fn a_moment_not_after_now_has_no_minutes_left() {
    let now = at(1_435_708_799, 1_200_000_000, 0);
    for moment in [
        at(1_435_708_799, 1_200_000_000, 0),
        at(1_435_708_799, 0, 0),
        at(1_435_708_739, 1_999_999_999, 0),
        at(0, 0, 0),
    ] {
        assert!(moment.is_not_after(&now));
        assert!(moment.minutes_since(&now) <= 0);
    }
}

#[test]
fn is_not_after_orders_by_seconds_then_nanoseconds() {
    assert!(at(10, 5, 0).is_not_after(&at(10, 5, 3600)));
    assert!(at(10, 5, 0).is_not_after(&at(10, 6, 0)));
    assert!(at(9, 999, 0).is_not_after(&at(10, 0, 0)));
    assert!(!at(10, 6, 0).is_not_after(&at(10, 5, 0)));
    assert!(!at(11, 0, 0).is_not_after(&at(10, 999, 0)));
}

#[test]
fn now_is_a_valid_moment() {
    let now = Timestamp::now().unwrap();
    assert!(now.is_valid());
    assert!(now.secs > 1_600_000_000);
}
