use xml_schema::content::{Any, AnyURIElement};
use xml_schema::context::NamespaceScope;
use xml_schema::facets::{Violation, ViolationKind};
use xml_schema::stream::{ElementEnd, Stream, XmlToken};

#[test]
fn wildcard_balanced_subtree_is_one_value() {
    let toks = vec![
        XmlToken::ElementStart("", "foo"),
        XmlToken::Text("t"),
        XmlToken::ElementStart("", "bar"),
        XmlToken::ElementEnd(ElementEnd::Empty),
        XmlToken::ElementEnd(ElementEnd::Close("", "foo")),
    ];
    let mut s = Stream::new(toks.clone());
    let scope = NamespaceScope::new();
    let r = Any::parse_self_xml(&mut s, &mut (), &scope);
    assert_eq!(r, Ok(Some(Any(toks))));
    assert_eq!(s.position(), 5);
    assert_eq!(s.peek(), None);
}

#[test]
fn wildcard_mismatched_close_is_violation() {
    let toks = vec![
        XmlToken::ElementStart("", "foo"),
        XmlToken::Text("t"),
        XmlToken::ElementStart("", "bar"),
        XmlToken::ElementEnd(ElementEnd::Empty),
        XmlToken::ElementEnd(ElementEnd::Close("", "baz")),
    ];
    let mut s = Stream::new(toks);
    let scope = NamespaceScope::new();
    let r = Any::parse_self_xml(&mut s, &mut (), &scope);
    assert_eq!(r, Err(Violation { kind: ViolationKind::TagMismatch, offending: "baz" }));
}

#[test]
fn wildcard_close_with_other_prefix_is_violation() {
    let toks = vec![
        XmlToken::ElementStart("a", "foo"),
        XmlToken::ElementEnd(ElementEnd::Open),
        XmlToken::ElementEnd(ElementEnd::Close("b", "foo")),
    ];
    let mut s = Stream::new(toks);
    let r = Any::parse_self_xml(&mut s, &mut (), &NamespaceScope::new());
    assert_eq!(r, Err(Violation { kind: ViolationKind::TagMismatch, offending: "foo" }));
}

#[test]
fn wildcard_unclosed_is_violation() {
    let toks = vec![XmlToken::ElementStart("", "foo"), XmlToken::ElementEnd(ElementEnd::Open), XmlToken::Text("x")];
    let mut s = Stream::new(toks);
    let r = Any::parse_self_xml(&mut s, &mut (), &NamespaceScope::new());
    assert_eq!(r, Err(Violation { kind: ViolationKind::UnclosedElement, offending: "foo" }));
}

#[test]
fn wildcard_no_match_leaves_cursor() {
    let toks = vec![XmlToken::ElementEnd(ElementEnd::Close("", "p")), XmlToken::Text("x")];
    let mut s = Stream::new(toks);
    let r = Any::parse_self_xml(&mut s, &mut (), &NamespaceScope::new());
    assert_eq!(r, Ok(None));
    assert_eq!(s.position(), 0);
    let mut empty = Stream::new(vec![]);
    assert_eq!(Any::parse_self_xml(&mut empty, &mut (), &NamespaceScope::new()), Ok(None));
}

#[test]
fn wildcard_loose_text_ends_before_other_token() {
    let toks = vec![
        XmlToken::Whitespaces(" "),
        XmlToken::Comment("c"),
        XmlToken::ElementEnd(ElementEnd::Close("", "p")),
    ];
    let mut s = Stream::new(toks);
    let r = Any::parse_self_xml(&mut s, &mut (), &NamespaceScope::new());
    assert_eq!(r, Ok(Some(Any(vec![XmlToken::Whitespaces(" "), XmlToken::Comment("c")]))));
    assert_eq!(s.position(), 2);
    assert_eq!(s.peek(), Some(XmlToken::ElementEnd(ElementEnd::Close("", "p"))));
}

#[test]
fn wildcard_nested_elements_with_attributes() {
    let toks = vec![
        XmlToken::Text("lead"),
        XmlToken::ElementStart("x", "a"),
        XmlToken::Attribute("", "k", "v"),
        XmlToken::ElementEnd(ElementEnd::Open),
        XmlToken::ElementStart("", "b"),
        XmlToken::ElementEnd(ElementEnd::Open),
        XmlToken::ElementEnd(ElementEnd::Close("", "b")),
        XmlToken::ElementEnd(ElementEnd::Close("x", "a")),
        XmlToken::Text("after"),
    ];
    let mut s = Stream::new(toks.clone());
    let r = Any::parse_self_xml(&mut s, &mut (), &NamespaceScope::new());
    assert_eq!(r, Ok(Some(Any(toks[..8].to_vec()))));
    assert_eq!(s.peek(), Some(XmlToken::Text("after")));
}

#[test]
fn element_text_takes_one_text_token() {
    let mut s = Stream::new(vec![XmlToken::Text("http://a"), XmlToken::Text("b")]);
    let r = AnyURIElement::parse_self_xml(&mut s, &mut (), &NamespaceScope::new());
    assert_eq!(r, Some(AnyURIElement("http://a")));
    assert_eq!(s.position(), 1);
    let mut s = Stream::new(vec![XmlToken::ElementStart("", "e")]);
    let r = AnyURIElement::parse_self_xml(&mut s, &mut (), &NamespaceScope::new());
    assert_eq!(r, None);
    assert_eq!(s.position(), 0);
}

#[test]
fn stream_transaction_rollback() {
    let mut s = Stream::new(vec![XmlToken::Text("a"), XmlToken::Text("b")]);
    let tx = s.transaction();
    assert_eq!(s.next(), Some(XmlToken::Text("a")));
    assert_eq!(s.next(), Some(XmlToken::Text("b")));
    assert_eq!(s.next(), None);
    tx.rollback(&mut s);
    assert_eq!(s.position(), 0);
    assert_eq!(s.next(), Some(XmlToken::Text("a")));
}

#[test]
fn scope_first_binding_wins() {
    let mut scope = NamespaceScope::new();
    scope.bind("p", "urn:1");
    scope.bind("p", "urn:2");
    assert_eq!(scope.lookup("p"), Some("urn:1"));
    assert_eq!(scope.lookup("q"), None);
}
