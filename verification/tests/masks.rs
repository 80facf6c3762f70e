use qc_filter::processing::{FilterItem, ItemError, MaskError, MaskFilter, MaskOperand, Sv};
use qc_filter::time::Epoch;

fn code_list(list: &[&str]) -> FilterItem {
    FilterItem::ComplexItem(list.iter().map(|s| s.to_string()).collect())
}

#[test]
fn every_marker_gives_its_operand() {
    let item = FilterItem::SvItem(vec![Sv {
        constellation: 'E',
        prn: 5,
    }]);
    for (text, operand) in [
        ("E05", MaskOperand::Equals),
        ("=E05", MaskOperand::Equals),
        ("!=E05", MaskOperand::NotEquals),
        (">E05", MaskOperand::GreaterThan),
        (">=E05", MaskOperand::GreaterEquals),
        ("<E05", MaskOperand::LowerThan),
        ("<=E05", MaskOperand::LowerEquals),
    ] {
        assert_eq!(
            MaskFilter::from_str(text),
            Ok(MaskFilter {
                operand,
                item: item.clone()
            }),
            "on \"{}\"",
            text
        );
    }
}

#[test]
fn an_empty_mask_is_an_empty_step() {
    for text in ["", "   ", "=", " != ", ">", "<=  \t", "\u{c}", "=\u{a0}", "\u{b}<\u{85}"] {
        assert_eq!(
            MaskFilter::from_str(text),
            Err(MaskError::EmptyStep),
            "on \"{}\"",
            text
        );
    }
}

#[test]
fn a_bad_item_is_an_invalid_item() {
    for text in ["!GPS", "==GPS", "G08,,G09", "GPS,", ">>G01", "=<G01", "a;b"] {
        assert_eq!(
            MaskFilter::from_str(text),
            Err(MaskError::InvalidItem),
            "on \"{}\"",
            text
        );
    }
}

#[test]
fn ordering_needs_an_orderable_item() {
    for text in [">GPS", ">= L1C, L2C", "<iode", "<= G08, GPS"] {
        assert_eq!(
            MaskFilter::from_str(text),
            Err(MaskError::InvalidOperand),
            "on \"{}\"",
            text
        );
    }
    assert_eq!(
        MaskFilter::from_str("<2020-01-14T00:31:55"),
        Ok(MaskFilter {
            operand: MaskOperand::LowerThan,
            item: FilterItem::EpochItem(Epoch {
                tai_nanoseconds: 3_787_950_752_000_000_000
            }),
        })
    );
}

#[test]
fn mask_builders_take_any_item() {
    assert_eq!(
        MaskFilter::equals("GPS"),
        Ok(MaskFilter {
            operand: MaskOperand::Equals,
            item: code_list(&["GPS"]),
        })
    );
    assert_eq!(
        MaskFilter::not_equals(" GPS , GAL "),
        Ok(MaskFilter {
            operand: MaskOperand::NotEquals,
            item: code_list(&["GPS", "GAL"]),
        })
    );
    assert_eq!(
        MaskFilter::greater_than("GPS"),
        Ok(MaskFilter {
            operand: MaskOperand::GreaterThan,
            item: code_list(&["GPS"]),
        })
    );
    assert_eq!(
        MaskFilter::greater_equals("GPS"),
        Ok(MaskFilter {
            operand: MaskOperand::GreaterEquals,
            item: code_list(&["GPS"]),
        })
    );
    assert_eq!(
        MaskFilter::lower_equals("GPS"),
        Ok(MaskFilter {
            operand: MaskOperand::LowerEquals,
            item: code_list(&["GPS"]),
        })
    );
    assert_eq!(
        MaskFilter::lower_than("GPS"),
        Ok(MaskFilter {
            operand: MaskOperand::LowerThan,
            item: code_list(&["GPS"]),
        })
    );
    assert_eq!(
        MaskFilter::with_operand(MaskOperand::Equals, "?"),
        Err(ItemError::InvalidItem)
    );
}

#[test]
fn negating_a_mask_twice_gives_it_back() {
    for operand in [
        MaskOperand::Equals,
        MaskOperand::NotEquals,
        MaskOperand::GreaterThan,
        MaskOperand::GreaterEquals,
        MaskOperand::LowerThan,
        MaskOperand::LowerEquals,
    ] {
        let mask = MaskFilter {
            operand,
            item: code_list(&["L1C", "L2C"]),
        };
        let negated = !mask.clone();
        assert_ne!(negated.operand, mask.operand);
        assert_eq!(negated.item, mask.item);
        assert_eq!(!negated, mask);
    }
}

#[test]
fn operands_know_whether_they_order() {
    assert!(!MaskOperand::Equals.orders());
    assert!(!MaskOperand::NotEquals.orders());
    assert!(MaskOperand::GreaterThan.orders());
    assert!(MaskOperand::GreaterEquals.orders());
    assert!(MaskOperand::LowerThan.orders());
    assert!(MaskOperand::LowerEquals.orders());
}

#[test]
fn mask_errors_say_what_went_wrong() {
    assert_eq!(MaskError::EmptyStep.message(), "empty mask");
    assert_eq!(MaskError::InvalidItem.message(), "invalid mask item");
    assert_eq!(MaskError::InvalidOperand.message(), "invalid mask operand");
}

#[test]
fn masks_that_were_read_are_consistent() {
    for text in ["GPS", "!=GPS", ">G01", "<=2020-01-14T00:31:55 UTC"] {
        assert!(MaskFilter::from_str(text).unwrap().is_consistent());
    }
    assert!(MaskFilter::equals("GPS").unwrap().is_consistent());
    assert!(MaskFilter::greater_than("G01").unwrap().is_consistent());
    assert!(!MaskFilter::greater_than("GPS").unwrap().is_consistent());
    assert!(!(!MaskFilter::greater_than("GPS").unwrap()).is_consistent());
}

#[test]
fn white_space_around_a_mask_and_its_item_is_trimmed() {
    for blank in ["\u{c}", "\u{b}", "\u{a0}", "\u{1680}", "\u{202f}"] {
        assert_eq!(
            MaskFilter::from_str(&format!("{}<={}E05{}", blank, blank, blank)),
            Ok(MaskFilter {
                operand: MaskOperand::LowerEquals,
                item: FilterItem::SvItem(vec![Sv {
                    constellation: 'E',
                    prn: 5
                }]),
            })
        );
        assert_eq!(
            MaskFilter::equals(&format!("{}GPS{},{}GAL{}", blank, blank, blank, blank)),
            Ok(MaskFilter {
                operand: MaskOperand::Equals,
                item: code_list(&["GPS", "GAL"]),
            })
        );
    }
}
