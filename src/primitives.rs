//! The string-shaped primitive datatypes: token, string, anyURI, NCName, anySimpleType.
use vstd::prelude::*;
use vstd::string::StrSliceExecFns;

use crate::context::NamespaceScope;
use crate::facets::{
    outcome_of, str_facet_violation, validate_str, Facets, ParseOutcome, ParseResult, Violation,
};
use crate::names::{is_name_char, is_name_start_char, space_end, spec_is_name_char, spec_is_name_start_char};

verus! {

/// The outcome of isolating `s[0..e]` as a string-shaped value, with the
/// remainder starting at `from`.
pub open spec fn str_outcome_from(s: Seq<char>, e: int, from: int, f: Facets) -> ParseOutcome<Seq<char>> {
    let v = s.subrange(0, e);
    match str_facet_violation(f, v) {
        Some(k) => ParseOutcome::Invalid(k, v),
        None => ParseOutcome::Match(s.subrange(from, s.len() as int), v),
    }
}

/// The outcome of isolating `s[0..e]` as a string-shaped value.
pub open spec fn str_outcome(s: Seq<char>, e: int, f: Facets) -> ParseOutcome<Seq<char>> {
    str_outcome_from(s, e, e, f)
}

/// Takes `input[0..e]` as the value, validates it, and leaves `input[from..]`.
fn take_validated<'a>(input: &'a str, e: usize, from: usize, facets: &Facets) -> (r: Result<
    (&'a str, &'a str),
    Violation<'a>,
>)
    requires
        e <= from <= input@.len(),
    ensures
        match r {
            Ok((rest, v)) => str_outcome_from(input@, e as int, from as int, *facets)
                == ParseOutcome::Match(rest@, v@),
            Err(x) => str_outcome_from(input@, e as int, from as int, *facets)
                == ParseOutcome::<Seq<char>>::Invalid(x.kind, x.offending@),
        },
{
    let n = input.unicode_len();
    let v = input.substring_char(0, e);
    match validate_str(v, facets) {
        Ok(()) => Ok((input.substring_char(from, n), v)),
        Err(x) => Err(x),
    }
}

pub open spec fn is_break_ws(c: char) -> bool {
    c == ' ' || c == '\r' || c == '\n' || c == '\t'
}

/// Whether a token ends before index `i`: at a carriage return, newline or
/// tab, or at a space that is last or followed by whitespace.
pub open spec fn token_stop(s: Seq<char>, i: int) -> bool {
    ||| s[i] == '\r' || s[i] == '\n' || s[i] == '\t'
    ||| s[i] == ' ' && (i + 1 == s.len() || is_break_ws(s[i + 1]))
}

/// First index at or after `i` where a token stops, or the length.
pub open spec fn token_end(s: Seq<char>, i: int) -> int
    decreases s.len() - i,
{
    if i < 0 || i >= s.len() {
        s.len() as int
    } else if token_stop(s, i) {
        i
    } else {
        token_end(s, i + 1)
    }
}

/// Where the remainder starts when a token ends at `e`: a space that ends a
/// token separates it from what follows and is used up; any other character stays.
pub open spec fn token_rest_start(s: Seq<char>, e: int) -> int {
    if 0 <= e < s.len() && s[e] == ' ' {
        e + 1
    } else {
        e
    }
}

/// The outcome of parsing a whitespace-collapsed token at the start of `s`.
pub open spec fn spec_token(s: Seq<char>, f: Facets) -> ParseOutcome<Seq<char>> {
    if s.len() == 0 || s[0] == ' ' {
        ParseOutcome::NoMatch
    } else {
        let e = token_end(s, 0);
        str_outcome_from(s, e, token_rest_start(s, e), f)
    }
}

/// The outcome of parsing a string value: the text up to the first space,
/// possibly empty; only empty input is no match.
pub open spec fn spec_xml_string(s: Seq<char>, f: Facets) -> ParseOutcome<Seq<char>> {
    if s.len() == 0 {
        ParseOutcome::NoMatch
    } else {
        str_outcome(s, space_end(s, 0), f)
    }
}

/// The outcome of parsing text up to the first space; an empty value is no match.
pub open spec fn spec_any_uri(s: Seq<char>, f: Facets) -> ParseOutcome<Seq<char>> {
    if space_end(s, 0) == 0 {
        ParseOutcome::NoMatch
    } else {
        str_outcome(s, space_end(s, 0), f)
    }
}

/// First index at or after `i` that holds a colon or a character that no name
/// may hold, or the length.
pub open spec fn ncname_end(s: Seq<char>, i: int) -> int
    decreases s.len() - i,
{
    if i < 0 || i >= s.len() {
        s.len() as int
    } else if s[i] == ':' || !spec_is_name_char(s[i]) {
        i
    } else {
        ncname_end(s, i + 1)
    }
}

/// The outcome of parsing a name without colon at the start of `s`.
pub open spec fn spec_ncname(s: Seq<char>, f: Facets) -> ParseOutcome<Seq<char>> {
    if s.len() == 0 || s[0] == ':' || !spec_is_name_start_char(s[0]) {
        ParseOutcome::NoMatch
    } else {
        str_outcome(s, ncname_end(s, 1), f)
    }
}

/// Index of the first space of `input`, or its length.
pub(crate) fn find_space(input: &str) -> (e: usize)
    ensures
        e == space_end(input@, 0),
        e <= input@.len(),
{
    let n = input.unicode_len();
    let mut i: usize = 0;
    while i < n && input.get_char(i) != ' '
        invariant
            n == input@.len(),
            i <= n,
            space_end(input@, 0) == space_end(input@, i as int),
        decreases n - i,
    {
        i = i + 1;
    }
    i
}

/// A whitespace-collapsed token.
#[derive(Debug, PartialEq, Eq, Default)]
pub struct Token<'a>(pub &'a str);

impl<'a> View for Token<'a> {
    type V = Seq<char>;

    open spec fn view(&self) -> Seq<char> {
        self.0@
    }
}

impl<'a> Token<'a> {
    /// Parses a token: no match on empty input or a leading space; the token
    /// ends at a carriage return, newline or tab, or at a space that is last or
    /// followed by whitespace, and such a space is used up as the separator.
    /// A single interior space belongs to the token.
    pub fn parse_self_xml_str<C>(
        input: &'a str,
        parse_context: &mut C,
        parent_context: &NamespaceScope<'a>,
        facets: &Facets,
    ) -> (r: ParseResult<'a, Token<'a>>)
        ensures
            *final(parse_context) == *old(parse_context),
            outcome_of(r) == spec_token(input@, *facets),
    {
        let n = input.unicode_len();
        if n == 0 || input.get_char(0) == ' ' {
            return Ok(None);
        }
        let mut i: usize = 0;
        while i < n
            invariant
                n == input@.len(),
                i <= n,
                token_end(input@, 0) == token_end(input@, i as int),
            ensures
                i <= n,
                token_end(input@, 0) == i,
            decreases n - i,
        {
            let c = input.get_char(i);
            let stop = if c == '\r' || c == '\n' || c == '\t' {
                true
            } else if c == ' ' {
                if i + 1 == n {
                    true
                } else {
                    let d = input.get_char(i + 1);
                    d == ' ' || d == '\r' || d == '\n' || d == '\t'
                }
            } else {
                false
            };
            if stop {
                break;
            }
            i = i + 1;
        }
        let from = if i < n && input.get_char(i) == ' ' {
            i + 1
        } else {
            i
        };
        match take_validated(input, i, from, facets) {
            Ok((rest, v)) => Ok(Some((rest, Token(v)))),
            Err(x) => Err(x),
        }
    }
}

/// Date and time values are read as tokens.
pub type DateTime<'a> = Token<'a>;

pub type Date<'a> = Token<'a>;

pub type Duration<'a> = Token<'a>;

/// A string value, read up to the first space.
#[derive(Debug, PartialEq, Eq, Default)]
pub struct XmlString<'a>(pub &'a str);

impl<'a> View for XmlString<'a> {
    type V = Seq<char>;

    open spec fn view(&self) -> Seq<char> {
        self.0@
    }
}

impl<'a> XmlString<'a> {
    /// Parses a string value up to the first space, which may be at once,
    /// giving an empty string; only empty input is no match.
    pub fn parse_self_xml_str<C>(
        input: &'a str,
        parse_context: &mut C,
        parent_context: &NamespaceScope<'a>,
        facets: &Facets,
    ) -> (r: ParseResult<'a, XmlString<'a>>)
        ensures
            *final(parse_context) == *old(parse_context),
            outcome_of(r) == spec_xml_string(input@, *facets),
    {
        if input.unicode_len() == 0 {
            return Ok(None);
        }
        let e = find_space(input);
        match take_validated(input, e, e, facets) {
            Ok((rest, v)) => Ok(Some((rest, XmlString(v)))),
            Err(x) => Err(x),
        }
    }
}

/// A URI reference, read up to the first space.
#[derive(Debug, PartialEq, Eq, Default)]
pub struct AnyUri<'a>(pub &'a str);

impl<'a> View for AnyUri<'a> {
    type V = Seq<char>;

    open spec fn view(&self) -> Seq<char> {
        self.0@
    }
}

impl<'a> AnyUri<'a> {
    /// Parses a URI up to the first space; empty is no match.
    pub fn parse_self_xml_str<C>(
        input: &'a str,
        parse_context: &mut C,
        parent_context: &NamespaceScope<'a>,
        facets: &Facets,
    ) -> (r: ParseResult<'a, AnyUri<'a>>)
        ensures
            *final(parse_context) == *old(parse_context),
            outcome_of(r) == spec_any_uri(input@, *facets),
    {
        let e = find_space(input);
        if e == 0 {
            return Ok(None);
        }
        match take_validated(input, e, e, facets) {
            Ok((rest, v)) => Ok(Some((rest, AnyUri(v)))),
            Err(x) => Err(x),
        }
    }
}

/// A name without colon.
#[derive(Debug, PartialEq, Eq, Default)]
pub struct NcName<'a>(pub &'a str);

impl<'a> View for NcName<'a> {
    type V = Seq<char>;

    open spec fn view(&self) -> Seq<char> {
        self.0@
    }
}

impl<'a> NcName<'a> {
    /// Parses a name: it starts with a name-start character other than the
    /// colon, and ends before the first colon or non-name character.
    pub fn parse_self_xml_str<C>(
        input: &'a str,
        parse_context: &mut C,
        parent_context: &NamespaceScope<'a>,
        facets: &Facets,
    ) -> (r: ParseResult<'a, NcName<'a>>)
        ensures
            *final(parse_context) == *old(parse_context),
            outcome_of(r) == spec_ncname(input@, *facets),
    {
        let n = input.unicode_len();
        if n == 0 {
            return Ok(None);
        }
        let c = input.get_char(0);
        if c == ':' || !is_name_start_char(c) {
            return Ok(None);
        }
        let mut i: usize = 1;
        while i < n
            invariant
                n == input@.len(),
                1 <= i <= n,
                ncname_end(input@, 1) == ncname_end(input@, i as int),
            ensures
                1 <= i <= n,
                ncname_end(input@, 1) == i,
            decreases n - i,
        {
            let d = input.get_char(i);
            if d == ':' || !is_name_char(d) {
                break;
            }
            i = i + 1;
        }
        match take_validated(input, i, i, facets) {
            Ok((rest, v)) => Ok(Some((rest, NcName(v)))),
            Err(x) => Err(x),
        }
    }
}

/// Any text at all: the whole input, unvalidated.
#[derive(Debug, PartialEq, Eq, Default)]
pub struct AnySimpleType<'a>(pub &'a str);

impl<'a> View for AnySimpleType<'a> {
    type V = Seq<char>;

    open spec fn view(&self) -> Seq<char> {
        self.0@
    }
}

impl<'a> AnySimpleType<'a> {
    /// Takes the whole input, leaving an empty remainder.
    pub fn parse_self_xml_str<C>(
        input: &'a str,
        parse_context: &mut C,
        parent_context: &NamespaceScope<'a>,
        facets: &Facets,
    ) -> (r: ParseResult<'a, AnySimpleType<'a>>)
        ensures
            *final(parse_context) == *old(parse_context),
            outcome_of(r) == ParseOutcome::Match(Seq::<char>::empty(), input@),
    {
        let n = input.unicode_len();
        let rest = input.substring_char(n, n);
        assert(rest@ =~= Seq::<char>::empty());
        Ok(Some((rest, AnySimpleType(input))))
    }
}

} // verus!
