//! The token cursor: a transactional reader over the tokens of a document.
use vstd::prelude::*;

verus! {

/// How a start tag ends, or which end tag closes an element.
#[derive(Clone, Copy, Debug, PartialEq, Eq)]
pub enum ElementEnd<'a> {
    /// `>` of a start tag.
    Open,
    /// `</prefix:local>`.
    Close(&'a str, &'a str),
    /// `/>`.
    Empty,
}

/// One lexical token of a document, borrowing its text from the input.
#[derive(Clone, Copy, Debug, PartialEq, Eq)]
pub enum XmlToken<'a> {
    /// `<prefix:local` of a start tag.
    ElementStart(&'a str, &'a str),
    /// `prefix:local="value"` inside a start tag.
    Attribute(&'a str, &'a str, &'a str),
    ElementEnd(ElementEnd<'a>),
    Text(&'a str),
    Cdata(&'a str),
    Comment(&'a str),
    Whitespaces(&'a str),
    /// A declaration, processing instruction or DTD part.
    Other(&'a str),
}

/// A cursor over a materialised token sequence.
#[derive(Debug)]
pub struct Stream<'a> {
    tokens: Vec<XmlToken<'a>>,
    pos: usize,
}

/// A snapshot of a cursor's position. Dropping it commits; `rollback` restores it.
#[derive(Clone, Copy, Debug, PartialEq, Eq)]
pub struct Transaction {
    pos: usize,
}

impl Transaction {
    pub closed spec fn spec_pos(self) -> nat {
        self.pos as nat
    }

    /// Puts the cursor back where it stood when the transaction began.
    pub fn rollback(self, stream: &mut Stream)
        requires
            self.spec_pos() <= old(stream).spec_tokens().len(),
        ensures
            final(stream).spec_tokens() == old(stream).spec_tokens(),
            final(stream).spec_pos() == self.spec_pos(),
    {
        stream.pos = self.pos;
    }
}

impl<'a> Stream<'a> {
    pub closed spec fn spec_tokens(&self) -> Seq<XmlToken<'a>> {
        self.tokens@
    }

    pub closed spec fn spec_pos(&self) -> nat {
        self.pos as nat
    }

    /// The position never passes the end.
    pub open spec fn wf(&self) -> bool {
        self.spec_pos() <= self.spec_tokens().len()
    }

    /// The tokens not read yet.
    pub open spec fn spec_remaining(&self) -> Seq<XmlToken<'a>> {
        self.spec_tokens().subrange(self.spec_pos() as int, self.spec_tokens().len() as int)
    }

    /// A cursor at the first of `tokens`.
    pub fn new(tokens: Vec<XmlToken<'a>>) -> (r: Stream<'a>)
        ensures
            r.wf(),
            r.spec_tokens() == tokens@,
            r.spec_pos() == 0,
    {
        Stream { tokens, pos: 0 }
    }

    /// The position, as a count of tokens read.
    pub fn position(&self) -> (r: usize)
        ensures
            r == self.spec_pos(),
    {
        self.pos
    }

    /// The next token, without reading it.
    pub fn peek(&self) -> (r: Option<XmlToken<'a>>)
        requires
            self.wf(),
        ensures
            self.spec_pos() < self.spec_tokens().len() ==> r == Some(
                self.spec_tokens()[self.spec_pos() as int],
            ),
            self.spec_pos() >= self.spec_tokens().len() ==> r is None,
    {
        if self.pos < self.tokens.len() {
            Some(self.tokens[self.pos])
        } else {
            None
        }
    }

    /// Reads the next token; `None` at the end, where the cursor stays.
    pub fn next(&mut self) -> (r: Option<XmlToken<'a>>)
        requires
            old(self).wf(),
        ensures
            final(self).wf(),
            final(self).spec_tokens() == old(self).spec_tokens(),
            old(self).spec_pos() < old(self).spec_tokens().len() ==> r == Some(
                old(self).spec_tokens()[old(self).spec_pos() as int],
            ) && final(self).spec_pos() == old(self).spec_pos() + 1,
            old(self).spec_pos() >= old(self).spec_tokens().len() ==> r is None
                && final(self).spec_pos() == old(self).spec_pos(),
    {
        if self.pos < self.tokens.len() {
            let t = self.tokens[self.pos];
            self.pos = self.pos + 1;
            Some(t)
        } else {
            None
        }
    }

    /// Begins a transaction at the current position.
    pub fn transaction(&self) -> (r: Transaction)
        ensures
            r.spec_pos() == self.spec_pos(),
    {
        Transaction { pos: self.pos }
    }
}

} // verus!
