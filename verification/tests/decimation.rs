use qc_filter::processing::{
    DecimationError, DecimationFilter, DecimationFilterType, FilterItem, ItemError, Sv,
};
use qc_filter::time::Duration;

#[test]
fn digits_alone_are_a_count() {
    assert_eq!(
        DecimationFilterType::from_str("10"),
        Ok(DecimationFilterType::Modulo(10))
    );
    assert_eq!(
        DecimationFilterType::from_str("0"),
        Ok(DecimationFilterType::Modulo(0))
    );
    assert_eq!(
        DecimationFilterType::from_str("007"),
        Ok(DecimationFilterType::Modulo(7))
    );
    assert_eq!(
        DecimationFilterType::from_str("4294967295"),
        Ok(DecimationFilterType::Modulo(u32::MAX))
    );
}

#[test]
fn a_count_has_to_fit_in_32_bits() {
    for text in ["4294967296", "99999999999", "340282366920938463463374607431768211456"] {
        assert_eq!(
            DecimationFilterType::from_str(text),
            Err(DecimationError::InvalidRate),
            "on \"{}\"",
            text
        );
    }
}

#[test]
fn a_quantity_with_a_unit_is_a_duration() {
    for (text, nanoseconds) in [
        ("10 min", 600_000_000_000_i128),
        ("1 hour", 3_600_000_000_000),
        ("30 s", 30_000_000_000),
        ("1 d", 86_400_000_000_000),
        ("250 ms", 250_000_000),
        ("1.5 h", 5_400_000_000_000),
        ("0 s", 0),
    ] {
        assert_eq!(
            DecimationFilterType::from_str(text),
            Ok(DecimationFilterType::Duration(Duration { nanoseconds })),
            "on \"{}\"",
            text
        );
    }
}

#[test]
fn anything_else_is_no_rate() {
    for text in [
        "", " ", "ten", "-10", "+10", "10min", "10  min", "10 parsecs", "1e3 s", "inf s",
        "nan s", "1. s", ".5 s", "1.2.3 s", "10 min 5 s", "10 min ",
    ] {
        assert_eq!(
            DecimationFilterType::from_str(text),
            Err(DecimationError::InvalidRate),
            "on \"{}\"",
            text
        );
    }
}

#[test]
fn a_duration_that_was_read_becomes_a_rate() {
    assert_eq!(
        DecimationFilterType::from_duration(Some(Duration { nanoseconds: 42 })),
        Ok(DecimationFilterType::Duration(Duration { nanoseconds: 42 }))
    );
    assert_eq!(
        DecimationFilterType::from_duration(None),
        Err(DecimationError::InvalidRate)
    );
}

#[test]
fn a_scope_may_follow_the_rate() {
    assert_eq!(
        DecimationFilter::from_str("10"),
        Ok(DecimationFilter {
            filter: DecimationFilterType::Modulo(10),
            item: None,
        })
    );
    assert_eq!(
        DecimationFilter::from_str(" 10 : G01 , G02 "),
        Ok(DecimationFilter {
            filter: DecimationFilterType::Modulo(10),
            item: Some(FilterItem::SvItem(vec![
                Sv {
                    constellation: 'G',
                    prn: 1
                },
                Sv {
                    constellation: 'G',
                    prn: 2
                },
            ])),
        })
    );
    assert_eq!(
        DecimationFilter::from_str("1 hour:L1C,L2C,L3C"),
        Ok(DecimationFilter {
            filter: DecimationFilterType::Duration(Duration {
                nanoseconds: 3_600_000_000_000
            }),
            item: Some(FilterItem::ComplexItem(vec![
                "L1C".to_string(),
                "L2C".to_string(),
                "L3C".to_string(),
            ])),
        })
    );
}

#[test]
fn the_rate_is_read_before_the_scope() {
    assert_eq!(
        DecimationFilter::from_str("often:!!"),
        Err(DecimationError::InvalidRate)
    );
    assert_eq!(
        DecimationFilter::from_str(":l1c"),
        Err(DecimationError::InvalidRate)
    );
    assert_eq!(
        DecimationFilter::from_str("10:!!"),
        Err(DecimationError::InvalidScope(ItemError::InvalidItem))
    );
    assert_eq!(
        DecimationFilter::from_str("10 min:"),
        Err(DecimationError::InvalidScope(ItemError::InvalidItem))
    );
}

#[test]
fn decimation_errors_say_what_went_wrong() {
    assert_eq!(
        DecimationError::InvalidRate.message(),
        "invalid decimation rate"
    );
    assert_eq!(
        DecimationError::InvalidScope(ItemError::InvalidItem).message(),
        "invalid decimation scope: invalid item"
    );
}

#[test]
fn white_space_around_a_rate_and_a_scope_is_trimmed() {
    for blank in ["\u{c}", "\u{b}", "\u{a0}", "\u{2000}", "\u{3000}"] {
        assert_eq!(
            DecimationFilter::from_str(&format!("{}10{}", blank, blank)),
            Ok(DecimationFilter {
                filter: DecimationFilterType::Modulo(10),
                item: None,
            })
        );
        assert_eq!(
            DecimationFilter::from_str(&format!(
                "{}1 hour{}:{}L1C{},{}L2C{}",
                blank, blank, blank, blank, blank, blank
            )),
            Ok(DecimationFilter {
                filter: DecimationFilterType::Duration(Duration {
                    nanoseconds: 3_600_000_000_000
                }),
                item: Some(FilterItem::ComplexItem(vec![
                    "L1C".to_string(),
                    "L2C".to_string(),
                ])),
            })
        );
    }
}

#[test]
fn a_rate_is_read_as_it_stands() {
    // Blanks are taken away by who reads the decimation, not the rate.
    assert_eq!(
        DecimationFilterType::from_str("\u{c}10"),
        Err(DecimationError::InvalidRate)
    );
    assert_eq!(
        DecimationFilterType::from_str("10 "),
        Err(DecimationError::InvalidRate)
    );
}
