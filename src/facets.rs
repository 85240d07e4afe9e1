//! Facet sets and the two shared validation routines (string-shaped and numeric).
use std::str::FromStr;

use bigdecimal::BigDecimal;
use vstd::prelude::*;
use vstd::string::StrSliceExecFns;

verus! {

#[verifier::external_type_specification]
#[verifier::external_body]
pub struct ExBigDecimal(BigDecimal);

/// What `BigDecimal::from_str` accepts, as a predicate on the text.
pub uninterp spec fn decimal_text_valid(s: Seq<char>) -> bool;

/// The order of the values that two accepted texts denote: -1, 0 or 1.
pub uninterp spec fn decimal_text_cmp(a: Seq<char>, b: Seq<char>) -> int;

/// An optional sign followed by one or more ASCII digits.
pub open spec fn is_integer_text(s: Seq<char>) -> bool {
    let start: int = if s.len() > 0 && (s[0] == '+' || s[0] == '-') { 1 } else { 0 };
    start < s.len() && forall|i: int| start <= i < s.len() ==> is_digit(#[trigger] s[i])
}

/// The integer that an integer text spells.
pub open spec fn integer_text_value(s: Seq<char>) -> int {
    let k: int = if s.len() > 0 && (s[0] == '+' || s[0] == '-') { 1 } else { 0 };
    let m = crate::numbers::digits_value(s.subrange(k, s.len() as int));
    if k == 1 && s[0] == '-' {
        -m
    } else {
        m
    }
}

pub open spec fn is_digit(c: char) -> bool {
    '0' <= c && c <= '9'
}

/// Relies on `BigDecimal::from_str` (via `Num::from_str_radix`): accepts an
/// optional sign and digits, which it hands to `BigInt::from_str_radix`.
#[verifier::external_body]
pub(crate) fn parse_big_decimal(s: &str) -> (r: Option<BigDecimal>)
    ensures
        r.is_some() == decimal_text_valid(s@),
        is_integer_text(s@) ==> r.is_some(),
{
    BigDecimal::from_str(s).ok()
}

/// Relies on `BigDecimal::from_str` and `Ord for BigDecimal`: both texts are
/// read as decimals and compared by value; `Ordering` is cast to -1, 0 or 1.
/// An integer text is read with scale 0, so two of them compare as integers.
#[verifier::external_body]
pub(crate) fn compare_decimal_texts(a: &str, b: &str) -> (r: i8)
    requires
        decimal_text_valid(a@),
        decimal_text_valid(b@),
    ensures
        r as int == decimal_text_cmp(a@, b@),
        -1 <= r <= 1,
        is_integer_text(a@) && is_integer_text(b@) ==> {
            &&& (r < 0 <==> integer_text_value(a@) < integer_text_value(b@))
            &&& (r == 0 <==> integer_text_value(a@) == integer_text_value(b@))
        },
{
    let x = BigDecimal::from_str(a).unwrap();
    let y = BigDecimal::from_str(b).unwrap();
    x.cmp(&y) as i8
}

/// Character-wise equality of two string slices.
pub fn str_eq(a: &str, b: &str) -> (r: bool)
    ensures
        r == (a@ == b@),
{
    let n = a.unicode_len();
    let m = b.unicode_len();
    if n != m {
        return false;
    }
    let mut i: usize = 0;
    while i < n
        invariant
            n == a@.len(),
            m == b@.len(),
            n == m,
            i <= n,
            a@.subrange(0, i as int) == b@.subrange(0, i as int),
        decreases n - i,
    {
        if a.get_char(i) != b.get_char(i) {
            return false;
        }
        assert(a@.subrange(0, i + 1) == a@.subrange(0, i as int).push(a@[i as int]));
        assert(b@.subrange(0, i + 1) == b@.subrange(0, i as int).push(b@[i as int]));
        i = i + 1;
    }
    assert(a@ == a@.subrange(0, n as int));
    assert(b@ == b@.subrange(0, n as int));
    true
}


/// Why a lexically recognised value, or a piece of wildcard content, was rejected.
#[derive(Clone, Copy, Debug, PartialEq, Eq, Structural)]
pub enum ViolationKind {
    Enumeration,
    Length,
    MinLength,
    MaxLength,
    MinExclusive,
    MinInclusive,
    MaxExclusive,
    MaxInclusive,
    /// The integer does not fit the machine representation.
    OutOfRange,
    /// A close tag names another element than the open tag it closes.
    TagMismatch,
    /// The token stream ended inside an element.
    UnclosedElement,
}

/// A fatal validation or protocol failure, with the offending slice of input.
#[derive(Clone, Copy, Debug, PartialEq, Eq)]
pub struct Violation<'a> {
    pub kind: ViolationKind,
    pub offending: &'a str,
}

/// What a value-space parse yields, over views: no match, a value with the
/// unconsumed remainder, or a violation with its kind and offending text.
pub enum ParseOutcome<V> {
    NoMatch,
    Match(Seq<char>, V),
    Invalid(ViolationKind, Seq<char>),
}

/// The result of a value-space parse: `Ok(None)` is no match, `Ok(Some((rest, v)))`
/// a value `v` followed by the unconsumed `rest`, `Err` a fatal violation.
pub type ParseResult<'a, T> = Result<Option<(&'a str, T)>, Violation<'a>>;

pub open spec fn outcome_of<T: View>(r: ParseResult<T>) -> ParseOutcome<T::V> {
    match r {
        Ok(None) => ParseOutcome::NoMatch,
        Ok(Some((rest, v))) => ParseOutcome::Match(rest@, v@),
        Err(x) => ParseOutcome::Invalid(x.kind, x.offending@),
    }
}

/// A numeric facet bound, kept as its decimal text.
#[derive(Clone, Copy, Debug, PartialEq, Eq)]
pub struct DecimalBound<'f> {
    text: &'f str,
}

impl<'f> DecimalBound<'f> {
    pub closed spec fn spec_text(self) -> Seq<char> {
        self.text@
    }

    /// Well formed: the text is a decimal number.
    pub closed spec fn wf(self) -> bool {
        decimal_text_valid(self.text@)
    }

    /// Builds a bound from its decimal text; `None` when the text is no decimal.
    pub fn new(text: &'f str) -> (r: Option<DecimalBound<'f>>)
        ensures
            r.is_some() == decimal_text_valid(text@),
            is_integer_text(text@) ==> r.is_some(),
            r matches Some(b) ==> b.wf() && b.spec_text() == text@,
    {
        match parse_big_decimal(text) {
            Some(_) => Some(DecimalBound { text }),
            None => None,
        }
    }

    pub fn text(&self) -> (r: &'f str)
        ensures
            r@ == self.spec_text(),
    {
        self.text
    }

    /// The order of this bound against another: -1, 0 or 1.
    pub fn compare(&self, other: &DecimalBound<'f>) -> (r: i8)
        requires
            self.wf(),
            other.wf(),
        ensures
            r as int == decimal_text_cmp(self.spec_text(), other.spec_text()),
    {
        compare_decimal_texts(self.text, other.text)
    }
}

/// The constraints attached to one occurrence of a datatype; `None` is unconstrained.
#[derive(Clone, Copy, Debug, PartialEq, Eq)]
pub struct Facets<'f> {
    pub enumeration: Option<&'f [&'f str]>,
    pub length: Option<usize>,
    pub min_length: Option<usize>,
    pub max_length: Option<usize>,
    pub min_inclusive: Option<DecimalBound<'f>>,
    pub min_exclusive: Option<DecimalBound<'f>>,
    pub max_inclusive: Option<DecimalBound<'f>>,
    pub max_exclusive: Option<DecimalBound<'f>>,
}

pub open spec fn bound_wf(b: Option<DecimalBound>) -> bool {
    b matches Some(x) ==> x.wf()
}

impl<'f> Facets<'f> {
    /// Every numeric bound is a decimal number.
    pub open spec fn wf(self) -> bool {
        &&& bound_wf(self.min_inclusive)
        &&& bound_wf(self.min_exclusive)
        &&& bound_wf(self.max_inclusive)
        &&& bound_wf(self.max_exclusive)
    }

    /// The facet set that constrains nothing.
    pub fn unconstrained() -> (r: Facets<'f>)
        ensures
            r == Facets::<'f>::none_spec(),
            r.wf(),
    {
        Facets {
            enumeration: None,
            length: None,
            min_length: None,
            max_length: None,
            min_inclusive: None,
            min_exclusive: None,
            max_inclusive: None,
            max_exclusive: None,
        }
    }

    pub open spec fn none_spec() -> Facets<'f> {
        Facets {
            enumeration: None,
            length: None,
            min_length: None,
            max_length: None,
            min_inclusive: None,
            min_exclusive: None,
            max_inclusive: None,
            max_exclusive: None,
        }
    }

    /// The same facets with `min_inclusive` replaced.
    pub fn with_min_inclusive(&self, b: DecimalBound<'f>) -> (r: Facets<'f>)
        ensures
            r == (Facets { min_inclusive: Some(b), ..*self }),
    {
        Facets { min_inclusive: Some(b), ..*self }
    }
}

pub open spec fn in_enumeration(e: Seq<&str>, s: Seq<char>) -> bool {
    exists|i: int| 0 <= i < e.len() && (#[trigger] e[i])@ == s
}

/// The first string facet that `s` violates, in the order enumeration, length,
/// minimum length, maximum length. Lengths count characters.
pub open spec fn str_facet_violation(f: Facets, s: Seq<char>) -> Option<ViolationKind> {
    if f.enumeration is Some && !in_enumeration(f.enumeration->0@, s) {
        Some(ViolationKind::Enumeration)
    } else if f.length is Some && s.len() != f.length->0 {
        Some(ViolationKind::Length)
    } else if f.min_length is Some && s.len() < f.min_length->0 {
        Some(ViolationKind::MinLength)
    } else if f.max_length is Some && s.len() > f.max_length->0 {
        Some(ViolationKind::MaxLength)
    } else {
        None
    }
}

pub open spec fn opt_text(b: Option<DecimalBound>) -> Option<Seq<char>> {
    match b {
        Some(x) => Some(x.spec_text()),
        None => None,
    }
}

/// The first numeric facet that the decimal text `s` violates, in the order
/// minimum exclusive, minimum inclusive, maximum exclusive, maximum inclusive,
/// with `min_incl` standing for the minimum inclusive bound.
pub open spec fn num_violation(f: Facets, min_incl: Option<Seq<char>>, s: Seq<char>) -> Option<
    ViolationKind,
> {
    if f.min_exclusive is Some && decimal_text_cmp(s, f.min_exclusive->0.spec_text()) <= 0 {
        Some(ViolationKind::MinExclusive)
    } else if min_incl is Some && decimal_text_cmp(s, min_incl->0) < 0 {
        Some(ViolationKind::MinInclusive)
    } else if f.max_exclusive is Some && decimal_text_cmp(s, f.max_exclusive->0.spec_text()) >= 0 {
        Some(ViolationKind::MaxExclusive)
    } else if f.max_inclusive is Some && decimal_text_cmp(s, f.max_inclusive->0.spec_text()) > 0 {
        Some(ViolationKind::MaxInclusive)
    } else {
        None
    }
}

/// The first numeric facet of `f` that the decimal text `s` violates.
pub open spec fn num_facet_violation(f: Facets, s: Seq<char>) -> Option<ViolationKind> {
    num_violation(f, opt_text(f.min_inclusive), s)
}

/// The larger of a type's intrinsic floor and a caller's minimum, as text.
pub open spec fn effective_min(min_incl: Option<Seq<char>>, floor: Seq<char>) -> Seq<char> {
    match min_incl {
        None => floor,
        Some(m) => if decimal_text_cmp(floor, m) >= 0 {
            floor
        } else {
            m
        },
    }
}

/// The minimum inclusive bound that is the larger of `floor` and the one of `f`.
pub fn tightened_min<'f>(f: &Facets<'f>, floor: DecimalBound<'f>) -> (r: DecimalBound<'f>)
    requires
        f.wf(),
        floor.wf(),
    ensures
        r.wf(),
        r.spec_text() == effective_min(opt_text(f.min_inclusive), floor.spec_text()),
{
    match f.min_inclusive {
        None => floor,
        Some(m) => if floor.compare(&m) >= 0 {
            floor
        } else {
            m
        },
    }
}

fn contains_str(e: &[&str], s: &str) -> (r: bool)
    ensures
        r == in_enumeration(e@, s@),
{
    let mut i: usize = 0;
    while i < e.len()
        invariant
            i <= e@.len(),
            forall|j: int| 0 <= j < i ==> (#[trigger] e@[j])@ != s@,
        decreases e@.len() - i,
    {
        if str_eq(e[i], s) {
            return true;
        }
        i = i + 1;
    }
    false
}

/// Checks a lexically isolated string-shaped value against the string facets.
pub fn validate_str<'a>(s: &'a str, facets: &Facets) -> (r: Result<(), Violation<'a>>)
    ensures
        r is Ok <==> str_facet_violation(*facets, s@) is None,
        r matches Err(v) ==> Some(v.kind) == str_facet_violation(*facets, s@) && v.offending@ == s@,
{
    let fail = |kind: ViolationKind| -> (v: Violation<'a>)
        ensures
            v.kind == kind && v.offending@ == s@,
        { Violation { kind, offending: s } };
    if let Some(e) = facets.enumeration {
        if !contains_str(e, s) {
            return Err(fail(ViolationKind::Enumeration));
        }
    }
    let n = s.unicode_len();
    if let Some(l) = facets.length {
        if n != l {
            return Err(fail(ViolationKind::Length));
        }
    }
    if let Some(l) = facets.min_length {
        if n < l {
            return Err(fail(ViolationKind::MinLength));
        }
    }
    if let Some(l) = facets.max_length {
        if n > l {
            return Err(fail(ViolationKind::MaxLength));
        }
    }
    Ok(())
}

/// Checks the decimal text of a numeric value against the numeric facets.
pub fn validate_decimal_text<'a>(s: &'a str, facets: &Facets) -> (r: Result<(), Violation<'a>>)
    requires
        decimal_text_valid(s@),
        facets.wf(),
    ensures
        r is Ok <==> num_facet_violation(*facets, s@) is None,
        r matches Err(v) ==> Some(v.kind) == num_facet_violation(*facets, s@) && v.offending@ == s@,
{
    if let Some(b) = facets.min_exclusive {
        if compare_decimal_texts(s, b.text) <= 0 {
            return Err(Violation { kind: ViolationKind::MinExclusive, offending: s });
        }
    }
    if let Some(b) = facets.min_inclusive {
        if compare_decimal_texts(s, b.text) < 0 {
            return Err(Violation { kind: ViolationKind::MinInclusive, offending: s });
        }
    }
    if let Some(b) = facets.max_exclusive {
        if compare_decimal_texts(s, b.text) >= 0 {
            return Err(Violation { kind: ViolationKind::MaxExclusive, offending: s });
        }
    }
    if let Some(b) = facets.max_inclusive {
        if compare_decimal_texts(s, b.text) > 0 {
            return Err(Violation { kind: ViolationKind::MaxInclusive, offending: s });
        }
    }
    Ok(())
}

} // verus!
