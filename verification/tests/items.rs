use qc_filter::processing::{FilterItem, ItemError, Sv};
use qc_filter::time::Epoch;

fn strings(list: &[&str]) -> Vec<String> {
    list.iter().map(|s| s.to_string()).collect()
}

#[test]
fn codes_are_listed_in_order() {
    assert_eq!(
        FilterItem::from_str("iode,crs,gps"),
        Ok(FilterItem::ComplexItem(strings(&["iode", "crs", "gps"])))
    );
    assert_eq!(
        FilterItem::from_str("  GPS "),
        Ok(FilterItem::ComplexItem(strings(&["GPS"])))
    );
    assert_eq!(
        FilterItem::from_str("L1C ,\tL2C,  l5_q"),
        Ok(FilterItem::ComplexItem(strings(&["L1C", "L2C", "l5_q"])))
    );
    assert_eq!(
        FilterItem::from_str("mov:10 min"),
        Ok(FilterItem::ComplexItem(strings(&["mov:10 min"])))
    );
}

#[test]
fn vehicles_are_a_letter_and_a_number() {
    assert_eq!(
        FilterItem::from_str("G08, R9, E36, C00"),
        Ok(FilterItem::SvItem(vec![
            Sv {
                constellation: 'G',
                prn: 8
            },
            Sv {
                constellation: 'R',
                prn: 9
            },
            Sv {
                constellation: 'E',
                prn: 36
            },
            Sv {
                constellation: 'C',
                prn: 0
            },
        ]))
    );
    assert_eq!(
        FilterItem::from_str("J99"),
        Ok(FilterItem::SvItem(vec![Sv {
            constellation: 'J',
            prn: 99
        }]))
    );
}

#[test]
fn a_list_with_one_code_is_a_list_of_codes() {
    assert_eq!(
        FilterItem::from_str("G08, GPS"),
        Ok(FilterItem::ComplexItem(strings(&["G08", "GPS"])))
    );
    assert_eq!(
        FilterItem::from_str("G008"),
        Ok(FilterItem::ComplexItem(strings(&["G008"])))
    );
    assert_eq!(
        FilterItem::from_str("g08"),
        Ok(FilterItem::ComplexItem(strings(&["g08"])))
    );
    assert_eq!(
        FilterItem::from_str("G"),
        Ok(FilterItem::ComplexItem(strings(&["G"])))
    );
    assert_eq!(
        FilterItem::from_str("G1a"),
        Ok(FilterItem::ComplexItem(strings(&["G1a"])))
    );
}

#[test]
fn timestamps_are_instants() {
    let expected = 3_787_950_752_000_000_000_i128;
    assert_eq!(
        FilterItem::from_str("2020-01-14T00:31:55 UTC"),
        Ok(FilterItem::EpochItem(Epoch {
            tai_nanoseconds: expected
        }))
    );
    assert_eq!(
        FilterItem::from_str(" 2020-01-14 00:31:55 "),
        Ok(FilterItem::EpochItem(Epoch {
            tai_nanoseconds: expected
        }))
    );
    assert_eq!(
        FilterItem::from_str("2020-01-14T00:31:55.25 TAI"),
        Ok(FilterItem::EpochItem(Epoch {
            tai_nanoseconds: expected - 37_000_000_000 + 250_000_000
        }))
    );
}

#[test]
fn a_timestamp_off_the_calendar_is_no_item() {
    for text in [
        "2020-13-01T00:00:00",
        "2020-02-30T00:00:00",
        "2020-01-00T00:00:00",
        "2020-01-14T24:00:00",
        "2020-01-14T00:60:00",
        "2020-01-14T00:00:61 UTC",
        "2019-02-29 12:00:00 TAI",
    ] {
        assert_eq!(
            FilterItem::from_str(text),
            Err(ItemError::InvalidItem),
            "on \"{}\"",
            text
        );
    }
}

#[test]
fn malformed_text_is_no_item() {
    for text in [
        "", "   ", ",", "a,,b", "a,", ",a", "G08;G09", "!!!", "L1C?", "a=b", "é", "\u{c}",
        "a,\u{a0},b", "a\u{b}b", "\u{200b}a",
    ] {
        assert_eq!(
            FilterItem::from_str(text),
            Err(ItemError::InvalidItem),
            "on \"{}\"",
            text
        );
    }
}

#[test]
fn entries_become_an_item() {
    assert_eq!(
        FilterItem::from_entries(strings(&["G01", "G02"])),
        Ok(FilterItem::SvItem(vec![
            Sv {
                constellation: 'G',
                prn: 1
            },
            Sv {
                constellation: 'G',
                prn: 2
            },
        ]))
    );
    assert_eq!(
        FilterItem::from_entries(strings(&["G01", "gps"])),
        Ok(FilterItem::ComplexItem(strings(&["G01", "gps"])))
    );
    assert_eq!(
        FilterItem::from_entries(strings(&["G01", ""])),
        Err(ItemError::InvalidItem)
    );
    assert_eq!(
        FilterItem::from_entries(strings(&["gps", "G 1", "x!"])),
        Err(ItemError::InvalidItem)
    );
    assert_eq!(
        FilterItem::from_entries(Vec::new()),
        Err(ItemError::InvalidItem)
    );
}

#[test]
fn an_instant_that_was_read_becomes_an_item() {
    assert_eq!(
        FilterItem::from_instant(Some(Epoch { tai_nanoseconds: -7 })),
        Ok(FilterItem::EpochItem(Epoch { tai_nanoseconds: -7 }))
    );
    assert_eq!(FilterItem::from_instant(None), Err(ItemError::InvalidItem));
}

#[test]
fn instants_and_vehicles_have_an_order() {
    assert!(FilterItem::EpochItem(Epoch { tai_nanoseconds: 0 }).is_orderable());
    assert!(FilterItem::SvItem(Vec::new()).is_orderable());
    assert!(!FilterItem::ComplexItem(strings(&["GPS"])).is_orderable());
    assert_eq!(ItemError::InvalidItem.message(), "invalid item");
}

#[test]
fn white_space_around_an_item_and_its_entries_is_trimmed() {
    for blank in ["\u{c}", "\u{b}", "\u{a0}", "\u{2009}", "\u{205f}"] {
        assert_eq!(
            FilterItem::from_str(&format!("{}iode{},{}crs{}", blank, blank, blank, blank)),
            Ok(FilterItem::ComplexItem(strings(&["iode", "crs"])))
        );
        assert_eq!(
            FilterItem::from_str(&format!("{}G01,{}G02{}", blank, blank, blank)),
            Ok(FilterItem::SvItem(vec![
                Sv {
                    constellation: 'G',
                    prn: 1
                },
                Sv {
                    constellation: 'G',
                    prn: 2
                },
            ]))
        );
        assert_eq!(
            FilterItem::from_str(&format!("{}2020-01-14T00:31:55 TAI{}", blank, blank)),
            Ok(FilterItem::EpochItem(Epoch {
                tai_nanoseconds: 3_787_950_715_000_000_000
            }))
        );
    }
}
