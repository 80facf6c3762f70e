use qc_filter::time::{has_duration_shape, has_timestamp_shape, Duration, Epoch};

fn chars(text: &str) -> Vec<char> {
    text.chars().collect()
}

#[test]
fn duration_literals_are_read_by_hifitime() {
    assert_eq!(
        Duration::parse("10 min"),
        Some(Duration {
            nanoseconds: 600_000_000_000
        })
    );
    assert_eq!(
        Duration::parse("1 hour"),
        Some(Duration {
            nanoseconds: 3_600_000_000_000
        })
    );
    assert_eq!(Duration::parse("7 ns"), Some(Duration { nanoseconds: 7 }));
    assert_eq!(
        Duration::parse("0.5 us"),
        Some(Duration { nanoseconds: 500 })
    );
    for text in ["1 d", "36 h", "90 minutes", "2.25 seconds", "17 ms"] {
        let expected = text.parse::<hifitime::Duration>().unwrap();
        assert_eq!(
            Duration::parse(text),
            Some(Duration {
                nanoseconds: expected.total_nanoseconds()
            }),
            "on \"{}\"",
            text
        );
    }
}

#[test]
fn a_huge_quantity_is_the_longest_duration() {
    let longest = hifitime::Duration::MAX.total_nanoseconds();
    assert_eq!(
        Duration::parse("99999999999999999999999999999999 d"),
        Some(Duration {
            nanoseconds: longest
        })
    );
}

#[test]
fn texts_without_the_shape_are_no_duration() {
    for text in [
        "", "10", "min", "10min", " 10 min", "10 min ", "10  min", "-10 min", "+10 min",
        "1e3 s", "inf s", "nan s", "NaN d", "1_000 s", "10 m1n", "10 µs",
        "100000000000000000000000000000000 d",
    ] {
        assert!(!has_duration_shape(&chars(text)), "on \"{}\"", text);
        assert_eq!(Duration::parse(text), None, "on \"{}\"", text);
    }
}

#[test]
fn an_unknown_unit_is_no_duration() {
    for text in [
        "3 apples", "10 parsecs", "1 year", "2 weeks", "10 hello", "3 sheep", "5 dogs",
        "1 Min", "1 H", "1 sEc", "1 minutess", "1 m", "1 hrs", "1 inf", "1 nan",
    ] {
        assert!(!has_duration_shape(&chars(text)), "on \"{}\"", text);
        assert_eq!(Duration::parse(text), None, "on \"{}\"", text);
    }
}

#[test]
fn what_was_read_becomes_a_duration() {
    assert_eq!(
        Duration::from_reading(Some(-5)),
        Some(Duration { nanoseconds: -5 })
    );
    assert_eq!(Duration::from_reading(None), None);
    assert_eq!(Duration::from_nanoseconds(12).nanoseconds, 12);
}

#[test]
fn timestamps_are_read_by_hifitime() {
    let utc = 3_787_950_752_000_000_000_i128;
    assert_eq!(
        Epoch::parse("2020-01-14T00:31:55 UTC"),
        Some(Epoch {
            tai_nanoseconds: utc
        })
    );
    assert_eq!(
        Epoch::parse("2020-01-14T00:31:55"),
        Some(Epoch {
            tai_nanoseconds: utc
        })
    );
    assert_eq!(
        Epoch::parse("2020-01-14 00:31:55 TAI"),
        Some(Epoch {
            tai_nanoseconds: utc - 37_000_000_000
        })
    );
    assert_eq!(
        Epoch::parse("2020-01-14T00:31:55.123456789 TAI"),
        Some(Epoch {
            tai_nanoseconds: utc - 37_000_000_000 + 123_456_789
        })
    );
    assert_eq!(
        Epoch::parse("2020-01-14T00:31:55.5 GPST"),
        Some(Epoch {
            tai_nanoseconds: utc - 37_000_000_000 + 19_000_000_000 + 500_000_000
        })
    );
    assert_eq!(
        Epoch::parse("1900-01-01T00:00:00 TAI"),
        Some(Epoch { tai_nanoseconds: 0 })
    );
    assert_eq!(
        Epoch::parse("1899-12-31T23:59:59 TAI"),
        Some(Epoch {
            tai_nanoseconds: -1_000_000_000
        })
    );
}

#[test]
fn timestamps_agree_with_hifitime() {
    for text in [
        "2017-01-14T00:31:55 UTC",
        "1994-11-05T13:15:30",
        "2000-01-01T12:00:00 TT",
        "2022-11-30 12:00:00.75 GST",
        "2006-01-01T00:00:13 BDT",
        "2016-12-31T23:59:60 UTC",
        "0001-01-01T00:00:00 TAI",
        "9999-12-31T23:59:59.999999999 QZSST",
    ] {
        let expected = text.parse::<hifitime::Epoch>().unwrap();
        assert_eq!(
            Epoch::parse(text),
            Some(Epoch {
                tai_nanoseconds: expected.to_tai_duration().total_nanoseconds()
            }),
            "on \"{}\"",
            text
        );
    }
}

#[test]
fn texts_without_the_shape_are_no_timestamp() {
    for text in [
        "",
        "2020-01-14",
        "2020-01-14T00:31",
        "2020-01-14T00:31:55Z",
        "2020-01-14T00:31:55+01:00",
        "2020-01-14T00:31:55 ",
        " 2020-01-14T00:31:55",
        "2020-01-14T00:31:55 utc",
        "2020-01-14T00:31:55 TDB",
        "2020-01-14T00:31:55 ET",
        "2020-01-14T00:31:55  UTC",
        "2020-01-14T00:31:55.",
        "2020-01-14T00:31:55.1234567890",
        "2020-01-14T00:31:55. UTC",
        "2020/01/14T00:31:55",
        "20200-01-14T00:31:55",
        "2020-1-14T00:31:55",
        "JD 2452312.500372511 TAI",
        "MJD inf TAI",
        "SEC nan TAI",
    ] {
        assert!(!has_timestamp_shape(&chars(text)), "on \"{}\"", text);
        assert_eq!(Epoch::parse(text), None, "on \"{}\"", text);
    }
}

#[test]
fn a_date_off_the_calendar_is_no_instant() {
    for text in [
        "2020-00-10T00:00:00",
        "2020-13-10T00:00:00",
        "2021-02-29T00:00:00",
        "2020-04-31T00:00:00",
        "2020-01-14T25:00:00",
        "2020-01-14T00:99:00",
        "2020-01-14T00:00:60 TAI",
    ] {
        assert!(has_timestamp_shape(&chars(text)), "on \"{}\"", text);
        assert_eq!(Epoch::parse(text), None, "on \"{}\"", text);
    }
}

#[test]
fn what_was_read_becomes_an_instant() {
    assert_eq!(
        Epoch::from_reading(Some(99)),
        Some(Epoch { tai_nanoseconds: 99 })
    );
    assert_eq!(Epoch::from_reading(None), None);
    assert_eq!(Epoch::from_tai_nanoseconds(-3).tai_nanoseconds, -3);
}

#[test]
fn instants_and_durations_are_ordered_by_their_count() {
    assert!(Epoch { tai_nanoseconds: -1 } < Epoch { tai_nanoseconds: 0 });
    assert!(Duration { nanoseconds: 5 } > Duration { nanoseconds: 4 });
    assert_eq!(Epoch { tai_nanoseconds: 4 }, Epoch { tai_nanoseconds: 4 });
}

#[test]
fn every_text_with_the_shape_of_a_timestamp_is_read() {
    let mut read = 0;
    let mut refused = 0;
    for year in ["0000", "1900", "1972", "2016", "9999"] {
        for month in ["00", "01", "02", "06", "12", "13", "99"] {
            for day in ["00", "01", "28", "29", "30", "31", "32"] {
                for time in [
                    "00:00:00", "23:59:59", "23:59:60", "24:00:00", "12:60:00", "12:00:61",
                    "99:99:99",
                ] {
                    for fraction in ["", ".0", ".5", ".000000001", ".999999999"] {
                        for scale in ["", " UTC", " TAI", " TT", " GPST", " GST", " BDT", " QZSST"]
                        {
                            for separator in ["T", " "] {
                                let text = format!(
                                    "{}-{}-{}{}{}{}{}",
                                    year, month, day, separator, time, fraction, scale
                                );
                                assert!(has_timestamp_shape(&chars(&text)), "on \"{}\"", text);
                                let expected = text
                                    .parse::<hifitime::Epoch>()
                                    .ok()
                                    .map(|epoch| Epoch {
                                        tai_nanoseconds: epoch
                                            .to_tai_duration()
                                            .total_nanoseconds(),
                                    });
                                assert_eq!(Epoch::parse(&text), expected, "on \"{}\"", text);
                                match expected {
                                    Some(_) => read += 1,
                                    None => refused += 1,
                                }
                            }
                        }
                    }
                }
            }
        }
    }
    assert!(read > 0);
    assert!(refused > 0);
}

#[test]
fn every_text_with_the_shape_of_a_duration_is_read() {
    let mut read = 0;
    let refused = 0;
    for quantity in [
        "0", "1", "007", "10", "1.5", "0.000000001", "123456789.987654321",
        "99999999999999999999999999999999", "0.000000000000000000000000000001",
        "4294967296", "18446744073709551616",
    ] {
        for (unit, nanoseconds) in [
            ("d", 86_400_000_000_000_u64),
            ("day", 86_400_000_000_000),
            ("days", 86_400_000_000_000),
            ("h", 3_600_000_000_000),
            ("hr", 3_600_000_000_000),
            ("hour", 3_600_000_000_000),
            ("hours", 3_600_000_000_000),
            ("min", 60_000_000_000),
            ("mins", 60_000_000_000),
            ("minute", 60_000_000_000),
            ("minutes", 60_000_000_000),
            ("s", 1_000_000_000),
            ("sec", 1_000_000_000),
            ("second", 1_000_000_000),
            ("seconds", 1_000_000_000),
            ("ms", 1_000_000),
            ("millisecond", 1_000_000),
            ("milliseconds", 1_000_000),
            ("us", 1_000),
            ("microsecond", 1_000),
            ("microseconds", 1_000),
            ("ns", 1),
            ("nanosecond", 1),
            ("nanoseconds", 1),
        ] {
            let text = format!("{} {}", quantity, unit);
            assert!(has_duration_shape(&chars(&text)), "on \"{}\"", text);
            let expected = text
                .parse::<hifitime::Duration>()
                .ok()
                .map(|duration| Duration {
                    nanoseconds: duration.total_nanoseconds(),
                });
            assert!(expected.is_some(), "on \"{}\"", text);
            assert_eq!(Duration::parse(&text), expected, "on \"{}\"", text);
            if quantity == "1" {
                assert_eq!(
                    Duration::parse(&text),
                    Some(Duration {
                        nanoseconds: nanoseconds as i128
                    }),
                    "on \"{}\"",
                    text
                );
            }
            read += 1;
        }
    }
    assert_eq!(read, 11 * 24);
    assert_eq!(refused, 0);
}
