//! The numeric and boolean primitive datatypes: integer and its narrowed
//! derivatives, decimal, boolean.
use std::marker::PhantomData;

use bigdecimal::BigDecimal;
use vstd::prelude::*;
use vstd::string::StrSliceExecFns;

use crate::context::NamespaceScope;
use crate::names::space_end;
use crate::primitives::find_space;
use crate::facets::{
    decimal_text_valid, effective_min, is_digit, is_integer_text, num_facet_violation,
    num_violation, opt_text, outcome_of, parse_big_decimal, tightened_min, validate_decimal_text,
    DecimalBound, Facets, ParseOutcome, ParseResult, Violation, ViolationKind,
};

verus! {

pub open spec fn digit_of(c: char) -> int {
    (c as u32) as int - 48
}

/// The natural number that a sequence of decimal digits spells.
pub open spec fn digits_value(d: Seq<char>) -> int
    decreases d.len(),
{
    if d.len() == 0 {
        0
    } else {
        digits_value(d.drop_last()) * 10 + digit_of(d.last())
    }
}

/// First index at or after `i` that holds no decimal digit, or the length.
pub open spec fn digits_end(s: Seq<char>, i: int) -> int
    decreases s.len() - i,
{
    if i < 0 || i >= s.len() {
        s.len() as int
    } else if !is_digit(s[i]) {
        i
    } else {
        digits_end(s, i + 1)
    }
}

/// Length of the optional leading sign.
pub open spec fn sign_len(s: Seq<char>) -> int {
    if s.len() > 0 && (s[0] == '+' || s[0] == '-') {
        1
    } else {
        0
    }
}

/// The integer that `s` starts with and where it ends, if it starts with one.
pub open spec fn integer_prefix(s: Seq<char>) -> Option<(int, int)> {
    let k = sign_len(s);
    if k >= s.len() || !is_digit(s[k]) {
        None
    } else {
        let e = digits_end(s, k);
        let mag = digits_value(s.subrange(k, e));
        Some((e, if k == 1 && s[0] == '-' { -mag } else { mag }))
    }
}

pub open spec fn fits_i64(v: int) -> bool {
    i64::MIN <= v <= i64::MAX
}

/// The outcome of parsing an integer at the start of `s`, with `min_incl` as
/// the minimum inclusive bound and the other numeric facets of `f`.
pub open spec fn spec_integer_min(s: Seq<char>, f: Facets, min_incl: Option<Seq<char>>) -> ParseOutcome<int> {
    match integer_prefix(s) {
        None => ParseOutcome::NoMatch,
        Some((e, v)) => {
            let text = s.subrange(0, e);
            if !fits_i64(v) {
                ParseOutcome::Invalid(ViolationKind::OutOfRange, text)
            } else {
                match num_violation(f, min_incl, text) {
                    Some(k) => ParseOutcome::Invalid(k, text),
                    None => ParseOutcome::Match(s.subrange(e, s.len() as int), v),
                }
            }
        },
    }
}

/// The outcome of parsing an integer at the start of `s` under the facets `f`.
pub open spec fn spec_integer(s: Seq<char>, f: Facets) -> ParseOutcome<int> {
    spec_integer_min(s, f, opt_text(f.min_inclusive))
}

/// The text consumed when `rest` is what is left of `s`.
pub open spec fn consumed(s: Seq<char>, rest: Seq<char>) -> Seq<char> {
    s.subrange(0, s.len() - rest.len())
}

/// Keeps a matched value of at least `floor`; any other is a minimum violation.
pub open spec fn at_least(s: Seq<char>, o: ParseOutcome<int>, floor: int) -> ParseOutcome<int> {
    match o {
        ParseOutcome::Match(rest, v) => if v >= floor {
            o
        } else {
            ParseOutcome::Invalid(ViolationKind::MinInclusive, consumed(s, rest))
        },
        _ => o,
    }
}

/// Non-negative integer with `min_incl` as the caller's minimum: the floor 0
/// tightens it, then the integer parse decides.
pub open spec fn spec_non_negative_min(s: Seq<char>, f: Facets, min_incl: Option<Seq<char>>) -> ParseOutcome<int> {
    at_least(s, spec_integer_min(s, f, Some(effective_min(min_incl, seq!['0']))), 0)
}

pub open spec fn spec_non_negative(s: Seq<char>, f: Facets) -> ParseOutcome<int> {
    spec_non_negative_min(s, f, opt_text(f.min_inclusive))
}

/// Positive integer: the floor 1 tightens the caller's minimum, then the
/// non-negative parse decides.
pub open spec fn spec_positive(s: Seq<char>, f: Facets) -> ParseOutcome<int> {
    at_least(
        s,
        spec_non_negative_min(s, f, Some(effective_min(opt_text(f.min_inclusive), seq!['1']))),
        1,
    )
}

pub proof fn lemma_digits_value_nonneg(d: Seq<char>)
    requires
        forall|j: int| 0 <= j < d.len() ==> is_digit(#[trigger] d[j]),
    ensures
        digits_value(d) >= 0,
    decreases d.len(),
{
    if d.len() > 0 {
        lemma_digits_value_nonneg(d.drop_last());
    }
}

/// A longer run of digits spells at least as much as its prefix.
pub proof fn lemma_digits_value_prefix(d: Seq<char>, i: int)
    requires
        0 <= i <= d.len(),
        forall|j: int| 0 <= j < d.len() ==> is_digit(#[trigger] d[j]),
    ensures
        digits_value(d.subrange(0, i)) <= digits_value(d),
    decreases d.len(),
{
    if i == d.len() {
        assert(d.subrange(0, i) =~= d);
    } else {
        let p = d.drop_last();
        assert(p.subrange(0, i) =~= d.subrange(0, i));
        lemma_digits_value_prefix(p, i);
        lemma_digits_value_nonneg(p);
    }
}

pub proof fn lemma_digits_end_bounds(s: Seq<char>, i: int)
    requires
        0 <= i <= s.len(),
    ensures
        i <= digits_end(s, i) <= s.len(),
    decreases s.len() - i,
{
    if i < s.len() && is_digit(s[i]) {
        lemma_digits_end_bounds(s, i + 1);
    }
}

/// A matched integer leaves a suffix of the input.
pub proof fn lemma_integer_rest(s: Seq<char>, f: Facets, m: Option<Seq<char>>)
    ensures
        spec_integer_min(s, f, m) matches ParseOutcome::Match(rest, _) ==> rest.len() <= s.len(),
{
    if sign_len(s) < s.len() {
        lemma_digits_end_bounds(s, sign_len(s));
    }
}

/// An integer value (`xs:integer`), held in 64 bits.
#[derive(Debug, PartialEq, Eq, Default)]
pub struct Integer<'a>(pub i64, pub PhantomData<&'a ()>);

impl<'a> View for Integer<'a> {
    type V = int;

    open spec fn view(&self) -> int {
        self.0 as int
    }
}

impl<'a> Integer<'a> {
    /// Parses an optional sign and one or more decimal digits; the value must
    /// fit in 64 bits and meet the numeric facets.
    pub fn parse_self_xml_str<C>(
        input: &'a str,
        parse_context: &mut C,
        parent_context: &NamespaceScope<'a>,
        facets: &Facets,
    ) -> (r: ParseResult<'a, Integer<'a>>)
        requires
            facets.wf(),
        ensures
            *final(parse_context) == *old(parse_context),
            outcome_of(r) == spec_integer(input@, *facets),
    {
        let ghost s = input@;
        let n = input.unicode_len();
        if n == 0 {
            return Ok(None);
        }
        let c0 = input.get_char(0);
        let k: usize = if c0 == '+' || c0 == '-' {
            1
        } else {
            0
        };
        if k >= n {
            return Ok(None);
        }
        let ck = input.get_char(k);
        if !('0' <= ck && ck <= '9') {
            return Ok(None);
        }
        let mut e: usize = k + 1;
        while e < n
            invariant
                s == input@,
                n == s.len(),
                k < e <= n,
                digits_end(s, k as int) == digits_end(s, e as int),
                forall|j: int| k <= j < e ==> is_digit(#[trigger] s[j]),
            ensures
                k < e <= n,
                digits_end(s, k as int) == e,
                forall|j: int| k <= j < e ==> is_digit(#[trigger] s[j]),
            decreases n - e,
        {
            let c = input.get_char(e);
            if !('0' <= c && c <= '9') {
                break;
            }
            e = e + 1;
        }
        let ghost d = s.subrange(k as int, e as int);
        let limit: i128 = 9223372036854775808;
        let mut acc: i128 = 0;
        let mut j: usize = k;
        while j < e && acc <= limit
            invariant
                s == input@,
                limit == 9223372036854775808,
                k <= j <= e <= n,
                n == s.len(),
                d == s.subrange(k as int, e as int),
                forall|i: int| k <= i < e ==> is_digit(#[trigger] s[i]),
                acc as int == digits_value(s.subrange(k as int, j as int)),
                0 <= acc <= 10 * limit + 9,
            decreases e - j,
        {
            let c = input.get_char(j);
            let dv = (c as u32 - '0' as u32) as i128;
            assert(s.subrange(k as int, j + 1).drop_last() =~= s.subrange(k as int, j as int));
            acc = acc * 10 + dv;
            j = j + 1;
        }
        proof {
            assert(d.subrange(0, j - k) =~= s.subrange(k as int, j as int));
            assert forall|i: int| 0 <= i < d.len() implies is_digit(#[trigger] d[i]) by {
                assert(d[i] == s[k + i]);
            }
            lemma_digits_value_prefix(d, j - k);
        }
        let text = input.substring_char(0, e);
        let negative = k == 1 && c0 == '-';
        if j < e {
            return Err(Violation { kind: ViolationKind::OutOfRange, offending: text });
        }
        let v: i128 = if negative {
            -acc
        } else {
            acc
        };
        if v < -9223372036854775808 || v > 9223372036854775807 {
            return Err(Violation { kind: ViolationKind::OutOfRange, offending: text });
        }
        proof {
            assert(text@ == s.subrange(0, e as int));
            assert forall|i: int| sign_len(text@) <= i < text@.len() implies is_digit(#[trigger] text@[i]) by {
                assert(text@[i] == s[i]);
            }
            assert(k as int == sign_len(s));
            assert(is_integer_text(text@));
        }
        // Called for its postcondition: an integer text is a decimal, which
        // the facet check below requires.
        let _ = parse_big_decimal(text);
        match validate_decimal_text(text, facets) {
            Ok(()) => {
                let rest = input.substring_char(e, n);
                Ok(Some((rest, Integer(v as i64, PhantomData))))
            },
            Err(x) => Err(x),
        }
    }
}

/// A non-negative integer (`xs:nonNegativeInteger`).
#[derive(Debug, PartialEq, Eq, Default)]
pub struct NonNegativeInteger<'a>(pub u64, pub PhantomData<&'a ()>);

impl<'a> View for NonNegativeInteger<'a> {
    type V = int;

    open spec fn view(&self) -> int {
        self.0 as int
    }
}

impl<'a> NonNegativeInteger<'a> {
    /// Tightens the minimum inclusive bound to at least 0, parses an integer
    /// under the tightened facets and re-wraps it unsigned.
    pub fn parse_self_xml_str<C>(
        input: &'a str,
        parse_context: &mut C,
        parent_context: &NamespaceScope<'a>,
        facets: &Facets,
    ) -> (r: ParseResult<'a, NonNegativeInteger<'a>>)
        requires
            facets.wf(),
        ensures
            *final(parse_context) == *old(parse_context),
            outcome_of(r) == spec_non_negative(input@, *facets),
    {
        proof {
            reveal_strlit("0");
            assert("0"@ =~= seq!['0']);
        }
        let zero = DecimalBound::new("0").unwrap();
        let min = tightened_min(facets, zero);
        let narrowed = facets.with_min_inclusive(min);
        match Integer::parse_self_xml_str(input, parse_context, parent_context, &narrowed) {
            Ok(Some((rest, v))) => {
                proof {
                    lemma_integer_rest(input@, narrowed, Some(min.spec_text()));
                }
                if v.0 < 0 {
                    let n = input.unicode_len();
                    let m = rest.unicode_len();
                    Err(Violation { kind: ViolationKind::MinInclusive, offending: input.substring_char(0, n - m) })
                } else {
                    Ok(Some((rest, NonNegativeInteger(v.0 as u64, PhantomData))))
                }
            },
            Ok(None) => Ok(None),
            Err(x) => Err(x),
        }
    }
}

/// A positive integer (`xs:positiveInteger`).
#[derive(Debug, PartialEq, Eq, Default)]
pub struct PositiveInteger<'a>(pub u64, pub PhantomData<&'a ()>);

impl<'a> View for PositiveInteger<'a> {
    type V = int;

    open spec fn view(&self) -> int {
        self.0 as int
    }
}

impl<'a> PositiveInteger<'a> {
    /// Tightens the minimum inclusive bound to at least 1 and delegates to the
    /// non-negative parse.
    pub fn parse_self_xml_str<C>(
        input: &'a str,
        parse_context: &mut C,
        parent_context: &NamespaceScope<'a>,
        facets: &Facets,
    ) -> (r: ParseResult<'a, PositiveInteger<'a>>)
        requires
            facets.wf(),
        ensures
            *final(parse_context) == *old(parse_context),
            outcome_of(r) == spec_positive(input@, *facets),
    {
        proof {
            reveal_strlit("1");
            assert("1"@ =~= seq!['1']);
        }
        let one = DecimalBound::new("1").unwrap();
        let min = tightened_min(facets, one);
        let narrowed = facets.with_min_inclusive(min);
        match NonNegativeInteger::parse_self_xml_str(input, parse_context, parent_context, &narrowed) {
            Ok(Some((rest, v))) => {
                proof {
                    lemma_integer_rest(input@, narrowed, Some(effective_min(Some(min.spec_text()), seq!['0'])));
                }
                if v.0 == 0 {
                    let n = input.unicode_len();
                    let m = rest.unicode_len();
                    Err(Violation { kind: ViolationKind::MinInclusive, offending: input.substring_char(0, n - m) })
                } else {
                    Ok(Some((rest, PositiveInteger(v.0, PhantomData))))
                }
            },
            Ok(None) => Ok(None),
            Err(x) => Err(x),
        }
    }
}

/// The outcome of parsing a decimal at the start of `s`: the text up to the
/// first space, which must be a decimal number and meet the numeric facets.
pub open spec fn spec_decimal(s: Seq<char>, f: Facets) -> ParseOutcome<Seq<char>> {
    let e = space_end(s, 0);
    let text = s.subrange(0, e);
    if !decimal_text_valid(text) {
        ParseOutcome::NoMatch
    } else {
        match num_facet_violation(f, text) {
            Some(k) => ParseOutcome::Invalid(k, text),
            None => ParseOutcome::Match(s.subrange(e, s.len() as int), text),
        }
    }
}

/// A decimal value (`xs:decimal`), held as the text it was read from; its
/// arbitrary-precision value is computed from that text by `value`.
#[derive(Debug, PartialEq, Eq)]
pub struct Decimal<'a>(pub &'a str);

impl<'a> View for Decimal<'a> {
    type V = Seq<char>;

    open spec fn view(&self) -> Seq<char> {
        self.0@
    }
}

impl<'a> Decimal<'a> {
    /// Parses the text up to the first space as a decimal number; text that
    /// is no decimal is no match, a decimal outside the numeric facets a violation.
    pub fn parse_self_xml_str<C>(
        input: &'a str,
        parse_context: &mut C,
        parent_context: &NamespaceScope<'a>,
        facets: &Facets,
    ) -> (r: ParseResult<'a, Decimal<'a>>)
        requires
            facets.wf(),
        ensures
            *final(parse_context) == *old(parse_context),
            outcome_of(r) == spec_decimal(input@, *facets),
    {
        let e = find_space(input);
        let text = input.substring_char(0, e);
        match parse_big_decimal(text) {
            None => Ok(None),
            Some(_) => match validate_decimal_text(text, facets) {
                Ok(()) => {
                    let n = input.unicode_len();
                    Ok(Some((input.substring_char(e, n), Decimal(text))))
                },
                Err(x) => Err(x),
            },
        }
    }

    /// The arbitrary-precision number that the text denotes; `None` when the
    /// text is no decimal, which never holds of a parsed value.
    pub fn value(&self) -> (r: Option<BigDecimal>)
        ensures
            r.is_some() == decimal_text_valid(self@),
    {
        parse_big_decimal(self.0)
    }
}

/// Whether `s` starts with `p`.
pub fn has_prefix(s: &str, p: &str) -> (r: bool)
    ensures
        r == (p@.len() <= s@.len() && s@.subrange(0, p@.len() as int) == p@),
{
    let n = s.unicode_len();
    let m = p.unicode_len();
    if m > n {
        return false;
    }
    let mut i: usize = 0;
    while i < m
        invariant
            n == s@.len(),
            m == p@.len(),
            m <= n,
            i <= m,
            s@.subrange(0, i as int) == p@.subrange(0, i as int),
        decreases m - i,
    {
        if s.get_char(i) != p.get_char(i) {
            assert(s@.subrange(0, m as int)[i as int] != p@[i as int]);
            return false;
        }
        assert(s@.subrange(0, i + 1) =~= s@.subrange(0, i as int).push(s@[i as int]));
        assert(p@.subrange(0, i + 1) =~= p@.subrange(0, i as int).push(p@[i as int]));
        i = i + 1;
    }
    assert(p@.subrange(0, m as int) =~= p@);
    true
}

/// The outcome of parsing a boolean literal at the start of `s`: `0` and `1`
/// are tried first, as single characters, then the words `true` and `false`.
pub open spec fn spec_boolean(s: Seq<char>) -> ParseOutcome<bool> {
    if s.len() >= 1 && s[0] == '0' {
        ParseOutcome::Match(s.subrange(1, s.len() as int), false)
    } else if s.len() >= 1 && s[0] == '1' {
        ParseOutcome::Match(s.subrange(1, s.len() as int), true)
    } else if s.len() >= 4 && s.subrange(0, 4) == seq!['t', 'r', 'u', 'e'] {
        ParseOutcome::Match(s.subrange(4, s.len() as int), true)
    } else if s.len() >= 5 && s.subrange(0, 5) == seq!['f', 'a', 'l', 's', 'e'] {
        ParseOutcome::Match(s.subrange(5, s.len() as int), false)
    } else {
        ParseOutcome::NoMatch
    }
}

/// A boolean value (`xs:boolean`).
#[derive(Debug, PartialEq, Eq, Default)]
pub struct Boolean<'a>(pub bool, pub PhantomData<&'a ()>);

impl<'a> View for Boolean<'a> {
    type V = bool;

    open spec fn view(&self) -> bool {
        self.0
    }
}

impl<'a> Boolean<'a> {
    /// Parses `0`, `1`, `true` or `false`, consuming only the literal. The
    /// word `false` is compared over all five of its characters.
    pub fn parse_self_xml_str<C>(
        input: &'a str,
        parse_context: &mut C,
        parent_context: &NamespaceScope<'a>,
        facets: &Facets,
    ) -> (r: ParseResult<'a, Boolean<'a>>)
        ensures
            *final(parse_context) == *old(parse_context),
            outcome_of(r) == spec_boolean(input@),
    {
        let n = input.unicode_len();
        if n >= 1 {
            let c = input.get_char(0);
            if c == '0' {
                return Ok(Some((input.substring_char(1, n), Boolean(false, PhantomData))));
            }
            if c == '1' {
                return Ok(Some((input.substring_char(1, n), Boolean(true, PhantomData))));
            }
        }
        proof {
            reveal_strlit("true");
            reveal_strlit("false");
            assert("true"@ =~= seq!['t', 'r', 'u', 'e']);
            assert("false"@ =~= seq!['f', 'a', 'l', 's', 'e']);
        }
        if has_prefix(input, "true") {
            return Ok(Some((input.substring_char(4, n), Boolean(true, PhantomData))));
        }
        if has_prefix(input, "false") {
            return Ok(Some((input.substring_char(5, n), Boolean(false, PhantomData))));
        }
        Ok(None)
    }
}

} // verus!
