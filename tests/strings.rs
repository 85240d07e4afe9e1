use xml_schema::context::NamespaceScope;
use xml_schema::facets::{str_eq, Facets, Violation, ViolationKind};
use xml_schema::names::{is_name_char, is_name_start_char, QName};
use xml_schema::primitives::{AnySimpleType, AnyUri, NcName, Token, XmlString};

fn none<'f>() -> Facets<'f> {
    Facets::unconstrained()
}

#[test]
fn token_two_spaces_use_up_first_space() {
    let scope = NamespaceScope::new();
    let r = Token::parse_self_xml_str("a  b", &mut (), &scope, &none());
    assert_eq!(r, Ok(Some((" b", Token("a")))));
}

#[test]
fn token_single_interior_space_is_content() {
    let scope = NamespaceScope::new();
    let r = Token::parse_self_xml_str("a b", &mut (), &scope, &none());
    assert_eq!(r, Ok(Some(("", Token("a b")))));
}

#[test]
fn token_leading_space_is_no_match() {
    let scope = NamespaceScope::new();
    assert_eq!(Token::parse_self_xml_str(" a", &mut (), &scope, &none()), Ok(None));
    assert_eq!(Token::parse_self_xml_str("", &mut (), &scope, &none()), Ok(None));
}

#[test]
fn token_trailing_space_and_tab_end_it() {
    let scope = NamespaceScope::new();
    assert_eq!(Token::parse_self_xml_str("ab ", &mut (), &scope, &none()), Ok(Some(("", Token("ab")))));
    assert_eq!(Token::parse_self_xml_str("a\tb", &mut (), &scope, &none()), Ok(Some(("\tb", Token("a")))));
    assert_eq!(Token::parse_self_xml_str("a b\nc", &mut (), &scope, &none()), Ok(Some(("\nc", Token("a b")))));
}

#[test]
fn token_facets_enumeration_and_lengths() {
    let scope = NamespaceScope::new();
    let allowed = ["red", "green"];
    let mut f = none();
    f.enumeration = Some(&allowed[..]);
    assert_eq!(Token::parse_self_xml_str("green", &mut (), &scope, &f), Ok(Some(("", Token("green")))));
    assert_eq!(
        Token::parse_self_xml_str("blue", &mut (), &scope, &f),
        Err(Violation { kind: ViolationKind::Enumeration, offending: "blue" })
    );
    let mut f = none();
    f.length = Some(3);
    assert_eq!(
        Token::parse_self_xml_str("ab", &mut (), &scope, &f),
        Err(Violation { kind: ViolationKind::Length, offending: "ab" })
    );
    let mut f = none();
    f.min_length = Some(3);
    assert_eq!(
        Token::parse_self_xml_str("ab", &mut (), &scope, &f),
        Err(Violation { kind: ViolationKind::MinLength, offending: "ab" })
    );
    let mut f = none();
    f.max_length = Some(1);
    assert_eq!(
        Token::parse_self_xml_str("ab", &mut (), &scope, &f),
        Err(Violation { kind: ViolationKind::MaxLength, offending: "ab" })
    );
}

#[test]
fn qname_resolves_bound_prefix() {
    let mut scope = NamespaceScope::new();
    scope.bind("xs", "http://example/xs");
    let r = QName::parse_self_xml_str("xs:foo", &mut (), &scope, &none());
    assert_eq!(r, Ok(Some(("", QName { namespace: Some("http://example/xs"), local_name: "foo" }))));
}

#[test]
fn qname_without_prefix_has_no_namespace() {
    let mut scope = NamespaceScope::new();
    scope.bind("xs", "http://example/xs");
    let r = QName::parse_self_xml_str("foo", &mut (), &scope, &none());
    assert_eq!(r, Ok(Some(("", QName { namespace: None, local_name: "foo" }))));
}

#[test]
fn qname_stops_at_space_and_rejects_empty_local() {
    let mut scope = NamespaceScope::new();
    scope.bind("a", "urn:a");
    scope.bind("a", "urn:other");
    let r = QName::parse_self_xml_str("a:b c", &mut (), &scope, &none());
    assert_eq!(r, Ok(Some((" c", QName { namespace: Some("urn:a"), local_name: "b" }))));
    let r = QName::parse_self_xml_str("q:b", &mut (), &scope, &none());
    assert_eq!(r, Ok(Some(("", QName { namespace: None, local_name: "b" }))));
    assert_eq!(QName::parse_self_xml_str("a:", &mut (), &scope, &none()), Ok(None));
    assert_eq!(QName::parse_self_xml_str("", &mut (), &scope, &none()), Ok(None));
    assert_eq!(QName::parse_self_xml_str(" a", &mut (), &scope, &none()), Ok(None));
}

#[test]
fn qname_split_and_display() {
    assert_eq!(QName::split_prefixed("xs:foo"), Some(QName { namespace: Some("xs"), local_name: "foo" }));
    assert_eq!(QName::split_prefixed("foo"), Some(QName { namespace: None, local_name: "foo" }));
    assert_eq!(QName::split_prefixed("a:b:c"), None);
    assert_eq!(QName { namespace: Some("xs"), local_name: "foo" }.to_text(), "xs:foo");
    assert_eq!(QName { namespace: None, local_name: "foo" }.to_text(), "foo");
    assert_eq!(QName::from_strspans("", "e"), QName { namespace: None, local_name: "e" });
    assert_eq!(QName::from_strspans("p", "e"), QName { namespace: Some("p"), local_name: "e" });
}

#[test]
fn qname_same_name_compares_namespace() {
    let a = QName { namespace: None, local_name: "foo" };
    let b = QName { namespace: Some("urn:x"), local_name: "foo" };
    assert!(!a.same_name(&b));
    assert!(b.same_name(&QName { namespace: Some("urn:x"), local_name: "foo" }));
}

#[test]
fn string_and_uri_split_on_space() {
    let scope = NamespaceScope::new();
    assert_eq!(XmlString::parse_self_xml_str("ab cd", &mut (), &scope, &none()), Ok(Some((" cd", XmlString("ab")))));
    assert_eq!(XmlString::parse_self_xml_str("", &mut (), &scope, &none()), Ok(None));
    assert_eq!(
        AnyUri::parse_self_xml_str("http://a/b x", &mut (), &scope, &none()),
        Ok(Some((" x", AnyUri("http://a/b"))))
    );
    assert_eq!(AnyUri::parse_self_xml_str(" x", &mut (), &scope, &none()), Ok(None));
    assert_eq!(AnyUri::parse_self_xml_str("u", &mut (), &scope, &none()), Ok(Some(("", AnyUri("u")))));
}

#[test]
fn ncname_rules() {
    let scope = NamespaceScope::new();
    assert_eq!(NcName::parse_self_xml_str("abc", &mut (), &scope, &none()), Ok(Some(("", NcName("abc")))));
    assert_eq!(NcName::parse_self_xml_str("a-b.c d", &mut (), &scope, &none()), Ok(Some((" d", NcName("a-b.c")))));
    assert_eq!(NcName::parse_self_xml_str("ab:c", &mut (), &scope, &none()), Ok(Some((":c", NcName("ab")))));
    assert_eq!(NcName::parse_self_xml_str(":ab", &mut (), &scope, &none()), Ok(None));
    assert_eq!(NcName::parse_self_xml_str("1ab", &mut (), &scope, &none()), Ok(None));
    assert_eq!(NcName::parse_self_xml_str("", &mut (), &scope, &none()), Ok(None));
    let mut f = none();
    f.max_length = Some(2);
    assert_eq!(
        NcName::parse_self_xml_str("abc", &mut (), &scope, &f),
        Err(Violation { kind: ViolationKind::MaxLength, offending: "abc" })
    );
}

#[test]
fn name_character_classes() {
    assert!(is_name_start_char('a'));
    assert!(is_name_start_char('_'));
    assert!(!is_name_start_char('1'));
    assert!(is_name_char('1'));
    assert!(is_name_char('-'));
    assert!(!is_name_char(' '));
    assert!(is_name_start_char('é'));
}

#[test]
fn any_simple_type_takes_everything() {
    let scope = NamespaceScope::new();
    assert_eq!(
        AnySimpleType::parse_self_xml_str("a  b ", &mut (), &scope, &none()),
        Ok(Some(("", AnySimpleType("a  b "))))
    );
}

#[test]
fn string_equality() {
    assert!(str_eq("abc", "abc"));
    assert!(!str_eq("abc", "abd"));
    assert!(!str_eq("abc", "ab"));
}

#[test]
fn token_space_before_tab_is_used_up() {
    let scope = NamespaceScope::new();
    assert_eq!(Token::parse_self_xml_str("a \tb", &mut (), &scope, &none()), Ok(Some(("\tb", Token("a")))));
    assert_eq!(Token::parse_self_xml_str("a b  c", &mut (), &scope, &none()), Ok(Some((" c", Token("a b")))));
}

#[test]
fn string_leading_space_gives_empty_value() {
    let scope = NamespaceScope::new();
    assert_eq!(XmlString::parse_self_xml_str(" a", &mut (), &scope, &none()), Ok(Some((" a", XmlString("")))));
    let mut f = none();
    f.min_length = Some(1);
    assert_eq!(
        XmlString::parse_self_xml_str(" a", &mut (), &scope, &f),
        Err(Violation { kind: ViolationKind::MinLength, offending: "" })
    );
}
