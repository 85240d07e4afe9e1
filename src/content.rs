//! Element-space parsing: element text and wildcard content, read from the token cursor.
use vstd::prelude::*;

use crate::context::NamespaceScope;
use crate::facets::{Violation, ViolationKind};
use crate::names::{QName, QNameView};
use crate::stream::{ElementEnd, Stream, XmlToken};

verus! {

/// The name that a tag with `prefix` and `local` spells.
pub open spec fn tag_view(prefix: &str, local: &str) -> QNameView {
    QNameView {
        namespace: if prefix@.len() == 0 {
            None
        } else {
            Some(prefix@)
        },
        local_name: local@,
    }
}

/// Tokens that wildcard content takes before its first element.
pub open spec fn is_loose(t: XmlToken) -> bool {
    t is Whitespaces || t is Comment || t is Text
}

/// First index at or after `i` whose token is not loose, or the length.
pub open spec fn loose_end(t: Seq<XmlToken>, i: int) -> int
    decreases t.len() - i,
{
    if i < 0 || i >= t.len() {
        t.len() as int
    } else if !is_loose(t[i]) {
        i
    } else {
        loose_end(t, i + 1)
    }
}

/// Reading from index `i` with the open elements `stack`, the index just past
/// the token that closes the last of them, or the violation met first.
pub open spec fn balance(t: Seq<XmlToken>, i: int, stack: Seq<QNameView>) -> Result<
    int,
    (ViolationKind, Seq<char>),
>
    decreases t.len() - i,
{
    if stack.len() == 0 {
        Ok(i)
    } else if i < 0 || i >= t.len() {
        Err((ViolationKind::UnclosedElement, stack.last().local_name))
    } else {
        match t[i] {
            XmlToken::ElementStart(p, l) => balance(t, i + 1, stack.push(tag_view(p, l))),
            XmlToken::ElementEnd(ElementEnd::Close(p, l)) => if tag_view(p, l) == stack.last() {
                balance(t, i + 1, stack.drop_last())
            } else {
                Err((ViolationKind::TagMismatch, l@))
            },
            XmlToken::ElementEnd(ElementEnd::Empty) => balance(t, i + 1, stack.drop_last()),
            _ => balance(t, i + 1, stack),
        }
    }
}

/// What wildcard content makes of the tokens `t`: how many it takes, or why it fails.
pub enum AnyOutcome {
    NoMatch,
    Match(nat),
    Invalid(ViolationKind, Seq<char>),
}

/// Loose tokens, then, if an element starts, everything up to its balanced end.
pub open spec fn spec_any(t: Seq<XmlToken>) -> AnyOutcome {
    let e = loose_end(t, 0);
    if e < t.len() && t[e] is ElementStart {
        match balance(t, e + 1, seq![tag_view(t[e]->ElementStart_0, t[e]->ElementStart_1)]) {
            Ok(end) => AnyOutcome::Match(end as nat),
            Err((k, s)) => AnyOutcome::Invalid(k, s),
        }
    } else if e == 0 {
        AnyOutcome::NoMatch
    } else {
        AnyOutcome::Match(e as nat)
    }
}

pub open spec fn stack_view(v: Seq<QName>) -> Seq<QNameView> {
    v.map_values(|q: QName| q@)
}

/// The text of an element, carried by one text token.
#[derive(Debug, PartialEq, Eq)]
pub struct AnyURIElement<'a>(pub &'a str);

impl<'a> AnyURIElement<'a> {
    /// Takes the next token when it is text; otherwise no match, and the cursor stays.
    pub fn parse_self_xml<C>(
        stream: &mut Stream<'a>,
        parse_context: &mut C,
        parent_context: &NamespaceScope<'a>,
    ) -> (r: Option<AnyURIElement<'a>>)
        requires
            old(stream).wf(),
        ensures
            *final(parse_context) == *old(parse_context),
            final(stream).wf(),
            final(stream).spec_tokens() == old(stream).spec_tokens(),
            match r {
                Some(u) => old(stream).spec_remaining().len() > 0 && old(stream).spec_remaining()[0]
                    == XmlToken::Text(u.0) && final(stream).spec_pos() == old(stream).spec_pos() + 1,
                None => !(old(stream).spec_remaining().len() > 0
                    && old(stream).spec_remaining()[0] is Text) && final(stream).spec_pos() == old(
                    stream,
                ).spec_pos(),
            },
    {
        match stream.peek() {
            Some(XmlToken::Text(t)) => {
                stream.next();
                Some(AnyURIElement(t))
            },
            _ => None,
        }
    }
}

/// Wildcard content: the tokens of any well-formed run of text and elements.
#[derive(Debug, PartialEq, Eq, Default)]
pub struct Any<'a>(pub Vec<XmlToken<'a>>);

impl<'a> Any<'a> {
    /// Takes text, comments and whitespace up to the first element, then that
    /// element's whole subtree, checking that each close tag closes the element
    /// open innermost. With nothing taken it is no match and the cursor stays.
    pub fn parse_self_xml<C>(
        stream: &mut Stream<'a>,
        parse_context: &mut C,
        parent_context: &NamespaceScope<'a>,
    ) -> (r: Result<Option<Any<'a>>, Violation<'a>>)
        requires
            old(stream).wf(),
        ensures
            *final(parse_context) == *old(parse_context),
            final(stream).wf(),
            final(stream).spec_tokens() == old(stream).spec_tokens(),
            match r {
                Ok(None) => spec_any(old(stream).spec_remaining()) == AnyOutcome::NoMatch
                    && final(stream).spec_pos() == old(stream).spec_pos(),
                Ok(Some(a)) => spec_any(old(stream).spec_remaining()) == AnyOutcome::Match(
                    a.0@.len(),
                ) && a.0@ == old(stream).spec_remaining().subrange(0, a.0@.len() as int)
                    && final(stream).spec_pos() == old(stream).spec_pos() + a.0@.len(),
                Err(x) => spec_any(old(stream).spec_remaining()) == AnyOutcome::Invalid(
                    x.kind,
                    x.offending@,
                ),
            },
    {
        let ghost t = stream.spec_remaining();
        let ghost all = stream.spec_tokens();
        let ghost p0 = stream.spec_pos();
        let mut tokens: Vec<XmlToken<'a>> = Vec::new();
        let mut stack: Vec<QName<'a>> = Vec::new();
        let mut started = false;
        loop
            invariant_except_break
                !started,
                loose_end(t, 0) == loose_end(t, tokens@.len() as int),
            invariant
                stream.wf(),
                stream.spec_tokens() == all,
                all == old(stream).spec_tokens(),
                p0 == old(stream).spec_pos(),
                t == old(stream).spec_remaining(),
                t == all.subrange(p0 as int, all.len() as int),
                stream.spec_pos() == p0 + tokens@.len(),
                tokens@ == t.subrange(0, tokens@.len() as int),
                !started ==> stack@.len() == 0,
            ensures
                stream.wf(),
                stream.spec_tokens() == all,
                stream.spec_pos() == p0 + tokens@.len(),
                tokens@ == t.subrange(0, tokens@.len() as int),
                !started ==> loose_end(t, 0) == tokens@.len(),
                !started ==> !(tokens@.len() < t.len() && t[tokens@.len() as int] is ElementStart),
                started ==> {
                    let e = loose_end(t, 0);
                    &&& e < t.len()
                    &&& tokens@.len() == e + 1
                    &&& t[e] is ElementStart
                    &&& stack_view(stack@) == seq![
                        tag_view(t[e]->ElementStart_0, t[e]->ElementStart_1),
                    ]
                },
            decreases t.len() - tokens@.len(),
        {
            let tx = stream.transaction();
            match stream.next() {
                None => {
                    break;
                },
                Some(tok) => {
                    match tok {
                        XmlToken::Whitespaces(_) | XmlToken::Comment(_) | XmlToken::Text(_) => {
                            tokens.push(tok);
                            assert(tokens@ =~= t.subrange(0, tokens@.len() as int));
                        },
                        XmlToken::ElementStart(p, l) => {
                            let q = QName::from_strspans(p, l);
                            stack.push(q);
                            tokens.push(tok);
                            started = true;
                            proof {
                                assert(tokens@ =~= t.subrange(0, tokens@.len() as int));
                                assert(stack_view(stack@) =~= seq![q@]);
                            }
                            break;
                        },
                        _ => {
                            tx.rollback(stream);
                            break;
                        },
                    }
                },
            }
        }
        if !started {
            if tokens.len() == 0 {
                return Ok(None);
            }
            return Ok(Some(Any(tokens)));
        }
        let ghost e = loose_end(t, 0);
        while stack.len() > 0
            invariant
                stream.wf(),
                stream.spec_tokens() == all,
                all == old(stream).spec_tokens(),
                p0 == old(stream).spec_pos(),
                t == old(stream).spec_remaining(),
                t == all.subrange(p0 as int, all.len() as int),
                stream.spec_pos() == p0 + tokens@.len(),
                tokens@.len() <= t.len(),
                tokens@ == t.subrange(0, tokens@.len() as int),
                e == loose_end(t, 0),
                e < t.len(),
                t[e] is ElementStart,
                balance(t, e + 1, seq![tag_view(t[e]->ElementStart_0, t[e]->ElementStart_1)])
                    == balance(t, tokens@.len() as int, stack_view(stack@)),
            decreases t.len() - tokens@.len(),
        {
            let ghost sv = stack_view(stack@);
            let tok = match stream.next() {
                Some(tok) => tok,
                None => {
                    let top = stack[stack.len() - 1];
                    assert(tokens@.len() == t.len());
                    assert(sv.last() == top@);
                    return Err(Violation { kind: ViolationKind::UnclosedElement, offending: top.local_name });
                },
            };
            tokens.push(tok);
            assert(tokens@ =~= t.subrange(0, tokens@.len() as int));
            match tok {
                XmlToken::ElementStart(p, l) => {
                    let q = QName::from_strspans(p, l);
                    stack.push(q);
                    assert(stack_view(stack@) =~= sv.push(q@));
                },
                XmlToken::ElementEnd(ElementEnd::Close(p, l)) => {
                    let q = QName::from_strspans(p, l);
                    let top = stack[stack.len() - 1];
                    assert(sv.last() == top@);
                    if !q.same_name(&top) {
                        return Err(Violation { kind: ViolationKind::TagMismatch, offending: l });
                    }
                    stack.pop();
                    assert(stack_view(stack@) =~= sv.drop_last());
                },
                XmlToken::ElementEnd(ElementEnd::Empty) => {
                    stack.pop();
                    assert(stack_view(stack@) =~= sv.drop_last());
                },
                _ => {},
            }
        }
        Ok(Some(Any(tokens)))
    }
}

} // verus!
