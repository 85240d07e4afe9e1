//! Properties that relate a parse to the text it consumed.
use vstd::prelude::*;

use crate::context::NamespaceScope;
use crate::facets::{decimal_text_valid, num_violation, Facets, ParseOutcome};
use crate::names::{lemma_last_colon_bounds, space_end, spec_qname};
use crate::numbers::{
    consumed, digits_end, digits_value, integer_prefix, lemma_digits_end_bounds, sign_len,
    spec_boolean, spec_decimal, spec_integer, spec_integer_min,
};
use crate::primitives::{
    spec_ncname, spec_any_uri, spec_token, spec_xml_string, str_outcome, token_rest_start,
};

verus! {

proof fn lemma_str_outcome_round_trip(s: Seq<char>, e: int, f: Facets)
    requires
        0 <= e <= s.len(),
    ensures
        str_outcome(s, e, f) matches ParseOutcome::Match(rest, v) ==> v + rest == s,
{
    assert(s.subrange(0, e) + s.subrange(e, s.len() as int) =~= s);
}

pub proof fn lemma_token_end_bounds(s: Seq<char>, i: int)
    requires
        0 <= i <= s.len(),
    ensures
        i <= crate::primitives::token_end(s, i) <= s.len(),
    decreases s.len() - i,
{
    if i < s.len() && !crate::primitives::token_stop(s, i) {
        lemma_token_end_bounds(s, i + 1);
    }
}

pub proof fn lemma_ncname_end_bounds(s: Seq<char>, i: int)
    requires
        0 <= i <= s.len(),
    ensures
        i <= crate::primitives::ncname_end(s, i) <= s.len(),
    decreases s.len() - i,
{
    if i < s.len() && !(s[i] == ':' || !crate::names::spec_is_name_char(s[i])) {
        lemma_ncname_end_bounds(s, i + 1);
    }
}

pub proof fn lemma_space_end_bounds(s: Seq<char>, i: int)
    requires
        0 <= i <= s.len(),
    ensures
        i <= crate::names::space_end(s, i) <= s.len(),
    decreases s.len() - i,
{
    if i < s.len() && s[i] != ' ' {
        lemma_space_end_bounds(s, i + 1);
    }
}

/// A token, then the space that separated it (if it ended at one), then its
/// remainder, is the input it was read from; the remainder never starts with
/// a space that ended the token.
pub proof fn law_token_round_trip(s: Seq<char>, f: Facets)
    ensures
        spec_token(s, f) matches ParseOutcome::Match(rest, v) ==> {
            ||| v + rest == s
            ||| v + seq![' '] + rest == s
        },
{
    if s.len() > 0 && s[0] != ' ' {
        lemma_token_end_bounds(s, 0);
        let e = crate::primitives::token_end(s, 0);
        let from = token_rest_start(s, e);
        if let ParseOutcome::Match(rest, v) = spec_token(s, f) {
            if from == e {
                assert(v + rest =~= s);
            } else {
                assert(v + seq![' '] + rest =~= s);
            }
        }
    }
}

/// A URI value followed by its remainder is the input it was read from.
pub proof fn law_space_split_round_trip(s: Seq<char>, f: Facets)
    ensures
        spec_any_uri(s, f) matches ParseOutcome::Match(rest, v) ==> v + rest == s,
{
    lemma_space_end_bounds(s, 0);
    lemma_str_outcome_round_trip(s, crate::names::space_end(s, 0), f);
}

/// A string value followed by its remainder is the input it was read from.
pub proof fn law_xml_string_round_trip(s: Seq<char>, f: Facets)
    ensures
        spec_xml_string(s, f) matches ParseOutcome::Match(rest, v) ==> v + rest == s,
{
    lemma_space_end_bounds(s, 0);
    lemma_str_outcome_round_trip(s, crate::names::space_end(s, 0), f);
}

/// A name followed by its remainder is the input it was read from.
pub proof fn law_ncname_round_trip(s: Seq<char>, f: Facets)
    ensures
        spec_ncname(s, f) matches ParseOutcome::Match(rest, v) ==> v + rest == s,
{
    if s.len() > 0 {
        lemma_ncname_end_bounds(s, 1);
        lemma_str_outcome_round_trip(s, crate::primitives::ncname_end(s, 1), f);
    }
}

/// A decimal's text followed by its remainder is the input it was read from;
/// the text holds no space, is a decimal number, and the remainder is empty or
/// starts with a space.
pub proof fn law_decimal_round_trip(s: Seq<char>, f: Facets)
    ensures
        spec_decimal(s, f) matches ParseOutcome::Match(rest, v) ==> {
            &&& v + rest == s
            &&& decimal_text_valid(v)
            &&& forall|i: int| 0 <= i < v.len() ==> v[i] != ' '
            &&& rest.len() == 0 || rest[0] == ' '
        },
{
    lemma_space_end_prefix(s, 0);
    let e = space_end(s, 0);
    assert(s.subrange(0, e) + s.subrange(e, s.len() as int) =~= s);
}

/// Below `space_end(s, i)`, from `i` on, no character is a space; at it, one is
/// or the text has ended.
pub proof fn lemma_space_end_prefix(s: Seq<char>, i: int)
    requires
        0 <= i <= s.len(),
    ensures
        i <= space_end(s, i) <= s.len(),
        forall|j: int| i <= j < space_end(s, i) ==> s[j] != ' ',
        space_end(s, i) < s.len() ==> s[space_end(s, i)] == ' ',
    decreases s.len() - i,
{
    if i < s.len() && s[i] != ' ' {
        lemma_space_end_prefix(s, i + 1);
    }
}

/// The text a qualified name was read from, followed by its remainder, is the
/// input, and that text ends with the local name.
pub proof fn law_qname_round_trip(s: Seq<char>, scope: NamespaceScope)
    ensures
        spec_qname(s, scope) matches Some((rest, q)) ==> {
            let text = consumed(s, rest);
            &&& text + rest == s
            &&& q.local_name.len() <= text.len()
            &&& text.subrange(text.len() - q.local_name.len(), text.len() as int) == q.local_name
        },
{
    if let Some((rest, q)) = spec_qname(s, scope) {
        lemma_space_end_bounds(s, 0);
        let e = space_end(s, 0);
        lemma_last_colon_bounds(s, e);
        let text = consumed(s, rest);
        assert(text =~= s.subrange(0, e));
        assert(text + rest =~= s);
        assert(text.subrange(text.len() - q.local_name.len(), text.len() as int) =~= q.local_name);
    }
}

/// A boolean literal followed by its remainder is the input it was read from,
/// and the literal alone reads as the same value with nothing left.
pub proof fn law_boolean_round_trip(s: Seq<char>)
    ensures
        spec_boolean(s) matches ParseOutcome::Match(rest, v) ==> {
            let lit = consumed(s, rest);
            &&& lit + rest == s
            &&& spec_boolean(lit) == ParseOutcome::Match(Seq::<char>::empty(), v)
        },
{
    if let ParseOutcome::Match(rest, v) = spec_boolean(s) {
        let lit = consumed(s, rest);
        assert(lit + rest =~= s);
        assert(lit.subrange(lit.len() as int, lit.len() as int) =~= Seq::<char>::empty());
        if s.len() >= 4 && s.subrange(0, 4) == seq!['t', 'r', 'u', 'e'] {
            assert(lit.subrange(0, 4) =~= s.subrange(0, 4));
        }
        if s.len() >= 5 && s.subrange(0, 5) == seq!['f', 'a', 'l', 's', 'e'] {
            assert(lit.subrange(0, 5) =~= s.subrange(0, 5));
        }
    }
}

proof fn lemma_digits_end_prefix(s: Seq<char>, e: int, i: int)
    requires
        0 <= i <= e <= s.len(),
        digits_end(s, i) == e,
    ensures
        digits_end(s.subrange(0, e), i) == e,
    decreases e - i,
{
    if i < e {
        lemma_digits_end_prefix(s, e, i + 1);
    }
}

/// An integer's text followed by its remainder is the input it was read from,
/// and that text alone reads as the same integer with nothing left.
pub proof fn law_integer_round_trip(s: Seq<char>, f: Facets)
    ensures
        spec_integer(s, f) matches ParseOutcome::Match(rest, v) ==> {
            let text = consumed(s, rest);
            &&& text + rest == s
            &&& spec_integer(text, Facets::none_spec()) == ParseOutcome::Match(
                Seq::<char>::empty(),
                v,
            )
        },
{
    if let ParseOutcome::Match(rest, v) = spec_integer(s, f) {
        let k = sign_len(s);
        lemma_digits_end_bounds(s, k);
        let e = digits_end(s, k);
        lemma_digits_end_bounds(s, k + 1);
        let text = consumed(s, rest);
        assert(text =~= s.subrange(0, e));
        assert(text + rest =~= s);
        lemma_digits_end_prefix(s, e, k);
        assert(text[k] == s[k]);
        assert(text[0] == s[0]);
        assert(sign_len(text) == k);
        assert(text.subrange(k, e) =~= s.subrange(k, e));
        assert(text.subrange(e, e) =~= Seq::<char>::empty());
        assert(integer_prefix(text) == integer_prefix(s));
        assert(num_violation(Facets::none_spec(), None, text) is None);
    }
}

} // verus!
