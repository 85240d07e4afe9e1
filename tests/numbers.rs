use std::str::FromStr;

use bigdecimal::BigDecimal;
use xml_schema::context::NamespaceScope;
use xml_schema::facets::{DecimalBound, Facets, Violation, ViolationKind};
use xml_schema::numbers::{has_prefix, Boolean, Decimal, Integer, NonNegativeInteger, PositiveInteger};

fn none<'f>() -> Facets<'f> {
    Facets::unconstrained()
}

fn bound(s: &str) -> DecimalBound<'_> {
    DecimalBound::new(s).unwrap()
}

fn parse_int(input: &str, f: &Facets) -> Result<Option<(&'static str, i64)>, ViolationKind> {
    let scope = NamespaceScope::new();
    let leaked: &'static str = Box::leak(input.to_string().into_boxed_str());
    match Integer::parse_self_xml_str(leaked, &mut (), &scope, f) {
        Ok(Some((rest, v))) => Ok(Some((rest, v.0))),
        Ok(None) => Ok(None),
        Err(x) => Err(x.kind),
    }
}

#[test]
fn integer_lexical_forms() {
    assert_eq!(parse_int("123abc", &none()), Ok(Some(("abc", 123))));
    assert_eq!(parse_int("-42", &none()), Ok(Some(("", -42))));
    assert_eq!(parse_int("+7 8", &none()), Ok(Some((" 8", 7))));
    assert_eq!(parse_int("007", &none()), Ok(Some(("", 7))));
    assert_eq!(parse_int("+", &none()), Ok(None));
    assert_eq!(parse_int("-x", &none()), Ok(None));
    assert_eq!(parse_int("abc", &none()), Ok(None));
    assert_eq!(parse_int("", &none()), Ok(None));
}

#[test]
fn integer_range_of_64_bits() {
    assert_eq!(parse_int("-9223372036854775808", &none()), Ok(Some(("", i64::MIN))));
    assert_eq!(parse_int("9223372036854775807", &none()), Ok(Some(("", i64::MAX))));
    assert_eq!(parse_int("9223372036854775808", &none()), Err(ViolationKind::OutOfRange));
    assert_eq!(parse_int("-99999999999999999999999", &none()), Err(ViolationKind::OutOfRange));
}

#[test]
fn integer_numeric_facets() {
    let mut f = none();
    f.min_inclusive = Some(bound("2"));
    assert_eq!(parse_int("1", &f), Err(ViolationKind::MinInclusive));
    assert_eq!(parse_int("2", &f), Ok(Some(("", 2))));
    let mut f = none();
    f.min_exclusive = Some(bound("2"));
    assert_eq!(parse_int("2", &f), Err(ViolationKind::MinExclusive));
    let mut f = none();
    f.max_exclusive = Some(bound("10"));
    assert_eq!(parse_int("10", &f), Err(ViolationKind::MaxExclusive));
    assert_eq!(parse_int("9", &f), Ok(Some(("", 9))));
    let mut f = none();
    f.max_inclusive = Some(bound("2.5"));
    assert_eq!(parse_int("3", &f), Err(ViolationKind::MaxInclusive));
    assert_eq!(parse_int("2", &f), Ok(Some(("", 2))));
}

#[test]
fn non_negative_floor_wins_over_lower_minimum() {
    let scope = NamespaceScope::new();
    let mut f = none();
    f.min_inclusive = Some(bound("-3"));
    let r = NonNegativeInteger::parse_self_xml_str("5", &mut (), &scope, &f).unwrap().unwrap();
    assert_eq!(r.0, "");
    assert_eq!((r.1).0, 5);
    let r = NonNegativeInteger::parse_self_xml_str("-5", &mut (), &scope, &f);
    assert_eq!(r, Err(Violation { kind: ViolationKind::MinInclusive, offending: "-5" }));
}

#[test]
fn non_negative_keeps_higher_caller_minimum() {
    let scope = NamespaceScope::new();
    let mut f = none();
    f.min_inclusive = Some(bound("10"));
    let r = NonNegativeInteger::parse_self_xml_str("5", &mut (), &scope, &f);
    assert_eq!(r, Err(Violation { kind: ViolationKind::MinInclusive, offending: "5" }));
    let r = NonNegativeInteger::parse_self_xml_str("0", &mut (), &scope, &none()).unwrap().unwrap();
    assert_eq!((r.1).0, 0);
    assert_eq!(NonNegativeInteger::parse_self_xml_str("x", &mut (), &scope, &none()), Ok(None));
}

#[test]
fn positive_integer_floor_is_one() {
    let scope = NamespaceScope::new();
    let r = PositiveInteger::parse_self_xml_str("0", &mut (), &scope, &none());
    assert_eq!(r, Err(Violation { kind: ViolationKind::MinInclusive, offending: "0" }));
    let r = PositiveInteger::parse_self_xml_str("7 x", &mut (), &scope, &none()).unwrap().unwrap();
    assert_eq!(r.0, " x");
    assert_eq!((r.1).0, 7);
}

#[test]
fn decimal_values_and_facets() {
    let scope = NamespaceScope::new();
    let r = Decimal::parse_self_xml_str("3.14 x", &mut (), &scope, &none()).unwrap().unwrap();
    assert_eq!(r.0, " x");
    assert_eq!((r.1).0, "3.14");
    assert_eq!((r.1).value(), Some(BigDecimal::from_str("3.14").unwrap()));
    assert_eq!(Decimal("x").value(), None);
    assert_eq!(Decimal::parse_self_xml_str("abc", &mut (), &scope, &none()), Ok(None));
    assert_eq!(Decimal::parse_self_xml_str("", &mut (), &scope, &none()), Ok(None));
    let mut f = none();
    f.max_inclusive = Some(bound("3"));
    let r = Decimal::parse_self_xml_str("3.5", &mut (), &scope, &f);
    assert_eq!(r, Err(Violation { kind: ViolationKind::MaxInclusive, offending: "3.5" }));
    let r = Decimal::parse_self_xml_str("3.0", &mut (), &scope, &f).unwrap().unwrap();
    assert_eq!((r.1).0, "3.0");
}

#[test]
fn decimal_bounds() {
    assert!(DecimalBound::new("abc").is_none());
    assert_eq!(bound("-1.5").text(), "-1.5");
    assert_eq!(bound("10").compare(&bound("9.99")), 1);
    assert_eq!(bound("1.0").compare(&bound("1")), 0);
    assert_eq!(bound("-2").compare(&bound("1")), -1);
    assert_eq!(bound("5").compare(&bound("-3")), 1);
    assert_eq!(bound("-0").compare(&bound("+000")), 0);
}

#[test]
fn boolean_single_digit_has_priority() {
    let scope = NamespaceScope::new();
    let r = Boolean::parse_self_xml_str("1", &mut (), &scope, &none()).unwrap().unwrap();
    assert_eq!(r.0, "");
    assert!((r.1).0);
    let r = Boolean::parse_self_xml_str("10", &mut (), &scope, &none()).unwrap().unwrap();
    assert_eq!(r.0, "0");
    assert!((r.1).0);
    let r = Boolean::parse_self_xml_str("0true", &mut (), &scope, &none()).unwrap().unwrap();
    assert_eq!(r.0, "true");
    assert!(!(r.1).0);
}

#[test]
fn boolean_words() {
    let scope = NamespaceScope::new();
    let r = Boolean::parse_self_xml_str("true x", &mut (), &scope, &none()).unwrap().unwrap();
    assert_eq!(r.0, " x");
    assert!((r.1).0);
    let r = Boolean::parse_self_xml_str("false", &mut (), &scope, &none()).unwrap().unwrap();
    assert_eq!(r.0, "");
    assert!(!(r.1).0);
    assert_eq!(Boolean::parse_self_xml_str("yes", &mut (), &scope, &none()), Ok(None));
    assert_eq!(Boolean::parse_self_xml_str("tru", &mut (), &scope, &none()), Ok(None));
}

#[test]
fn prefix_test() {
    assert!(has_prefix("truex", "true"));
    assert!(!has_prefix("tru", "true"));
    assert!(has_prefix("a", ""));
}
