//! XML name characters and namespace-qualified names.
use vstd::prelude::*;
use vstd::string::{StrSliceExecFns, StringExecFns};

use crate::context::NamespaceScope;
use crate::facets::{str_eq, Facets, Violation};

verus! {

/// `NameStartChar` of the XML grammar, the colon included.
pub open spec fn spec_is_name_start_char(c: char) -> bool {
    let u = c as u32;
    ||| u == 0x3A
    ||| 0x41 <= u <= 0x5A
    ||| u == 0x5F
    ||| 0x61 <= u <= 0x7A
    ||| 0xC0 <= u <= 0xD6
    ||| 0xD8 <= u <= 0xF6
    ||| 0xF8 <= u <= 0x2FF
    ||| 0x370 <= u <= 0x37D
    ||| 0x37F <= u <= 0x1FFF
    ||| 0x200C <= u <= 0x200D
    ||| 0x2070 <= u <= 0x218F
    ||| 0x2C00 <= u <= 0x2FEF
    ||| 0x3001 <= u <= 0xD7FF
    ||| 0xF900 <= u <= 0xFDCF
    ||| 0xFDF0 <= u <= 0xFFFD
    ||| 0x10000 <= u <= 0xEFFFF
}

/// `NameChar` of the XML grammar, the colon included.
pub open spec fn spec_is_name_char(c: char) -> bool {
    let u = c as u32;
    ||| spec_is_name_start_char(c)
    ||| u == 0x2D
    ||| u == 0x2E
    ||| 0x30 <= u <= 0x39
    ||| u == 0xB7
    ||| 0x300 <= u <= 0x36F
    ||| 0x203F <= u <= 0x2040
}

#[verifier::when_used_as_spec(spec_is_name_start_char)]
pub fn is_name_start_char(c: char) -> (r: bool)
    ensures
        r == spec_is_name_start_char(c),
{
    let u = c as u32;
    u == 0x3A || (0x41 <= u && u <= 0x5A) || u == 0x5F || (0x61 <= u && u <= 0x7A) || (0xC0 <= u
        && u <= 0xD6) || (0xD8 <= u && u <= 0xF6) || (0xF8 <= u && u <= 0x2FF) || (0x370 <= u && u
        <= 0x37D) || (0x37F <= u && u <= 0x1FFF) || (0x200C <= u && u <= 0x200D) || (0x2070 <= u
        && u <= 0x218F) || (0x2C00 <= u && u <= 0x2FEF) || (0x3001 <= u && u <= 0xD7FF) || (0xF900
        <= u && u <= 0xFDCF) || (0xFDF0 <= u && u <= 0xFFFD) || (0x10000 <= u && u <= 0xEFFFF)
}

#[verifier::when_used_as_spec(spec_is_name_char)]
pub fn is_name_char(c: char) -> (r: bool)
    ensures
        r == spec_is_name_char(c),
{
    let u = c as u32;
    is_name_start_char(c) || u == 0x2D || u == 0x2E || (0x30 <= u && u <= 0x39) || u == 0xB7 || (
    0x300 <= u && u <= 0x36F) || (0x203F <= u && u <= 0x2040)
}

/// A name with an optional namespace URI.
#[derive(Clone, Copy, Debug, PartialEq, Eq, Hash, PartialOrd, Ord, Default)]
pub struct QName<'a> {
    pub namespace: Option<&'a str>,
    pub local_name: &'a str,
}

/// What a qualified name denotes: namespace URI and local name.
pub struct QNameView {
    pub namespace: Option<Seq<char>>,
    pub local_name: Seq<char>,
}

pub open spec fn opt_view(o: Option<&str>) -> Option<Seq<char>> {
    match o {
        Some(s) => Some(s@),
        None => None,
    }
}

impl<'a> View for QName<'a> {
    type V = QNameView;

    open spec fn view(&self) -> QNameView {
        QNameView { namespace: opt_view(self.namespace), local_name: self.local_name@ }
    }
}

/// First index at or after `i` that holds a space, or the length.
pub open spec fn space_end(s: Seq<char>, i: int) -> int
    decreases s.len() - i,
{
    if i < 0 || i >= s.len() {
        s.len() as int
    } else if s[i] == ' ' {
        i
    } else {
        space_end(s, i + 1)
    }
}

/// Last index before `e` that holds a colon, or -1.
pub open spec fn last_colon(s: Seq<char>, e: int) -> int
    decreases e,
{
    if e <= 0 {
        -1
    } else if s[e - 1] == ':' {
        e - 1
    } else {
        last_colon(s, e - 1)
    }
}

/// The qualified name that `s` starts with, read up to its first space, with the
/// namespace looked up in `scope`: `None` when there is no local part.
pub open spec fn spec_qname(s: Seq<char>, scope: NamespaceScope) -> Option<(Seq<char>, QNameView)> {
    let e = space_end(s, 0);
    let c = last_colon(s, e);
    if e == 0 || c + 1 == e {
        None
    } else {
        Some(
            (
                s.subrange(e, s.len() as int),
                QNameView {
                    namespace: if c <= 0 {
                        None
                    } else {
                        scope.spec_lookup(s.subrange(0, c))
                    },
                    local_name: s.subrange(c + 1, e),
                },
            ),
        )
    }
}

pub proof fn lemma_last_colon_bounds(s: Seq<char>, e: int)
    ensures
        -1 <= last_colon(s, e) < if e < 0 { 0 } else { e },
        last_colon(s, e) >= 0 ==> s[last_colon(s, e)] == ':',
    decreases e,
{
    if e > 0 && s[e - 1] != ':' {
        lemma_last_colon_bounds(s, e - 1);
    }
}

impl<'a> QName<'a> {
    /// Parses a qualified name, resolving its prefix in `parent_context`; an
    /// empty prefix, or one that is not bound, gives no namespace.
    pub fn parse_self_xml_str<C>(
        input: &'a str,
        parse_context: &mut C,
        parent_context: &NamespaceScope<'a>,
        facets: &Facets,
    ) -> (r: Result<Option<(&'a str, QName<'a>)>, Violation<'a>>)
        ensures
            *final(parse_context) == *old(parse_context),
            r is Ok,
            match r {
                Ok(Some((rest, q))) => spec_qname(input@, *parent_context) == Some((rest@, q@)),
                _ => spec_qname(input@, *parent_context) is None,
            },
    {
        let n = input.unicode_len();
        let mut i: usize = 0;
        let mut colon: usize = 0;
        let mut seen_colon = false;
        while i < n && input.get_char(i) != ' '
            invariant
                n == input@.len(),
                i <= n,
                space_end(input@, 0) == space_end(input@, i as int),
                seen_colon ==> colon < i && last_colon(input@, i as int) == colon as int,
                !seen_colon ==> last_colon(input@, i as int) == -1,
            decreases n - i,
        {
            if input.get_char(i) == ':' {
                colon = i;
                seen_colon = true;
            }
            i = i + 1;
        }
        assert(space_end(input@, i as int) == i);
        let e = i;
        if e == 0 || (seen_colon && colon + 1 == e) {
            return Ok(None);
        }
        let local_start: usize = if seen_colon { colon + 1 } else { 0 };
        let namespace = if seen_colon && colon > 0 {
            parent_context.lookup(input.substring_char(0, colon))
        } else {
            None
        };
        let q = QName { namespace, local_name: input.substring_char(local_start, e) };
        let rest = input.substring_char(e, n);
        proof {
            assert(q@.namespace == spec_qname(input@, *parent_context).unwrap().1.namespace);
        }
        Ok(Some((rest, q)))
    }

    /// The name whose prefix and local part a start or end tag spelled: an empty
    /// prefix is no namespace, any other is kept as it stands.
    pub fn from_strspans(prefix: &'a str, local: &'a str) -> (r: QName<'a>)
        ensures
            r.local_name@ == local@,
            r.namespace == (if prefix@.len() == 0 { None } else { Some(prefix) }),
    {
        if prefix.unicode_len() == 0 {
            QName { namespace: None, local_name: local }
        } else {
            QName { namespace: Some(prefix), local_name: local }
        }
    }

    /// Splits `prefix:local` at its colon (no colon: no namespace); `None` when
    /// the text holds more than one colon.
    pub fn split_prefixed(s: &'a str) -> (r: Option<QName<'a>>)
        ensures
            r is None <==> exists|i: int, j: int|
                0 <= i < j < s@.len() && #[trigger] s@[i] == ':' && #[trigger] s@[j] == ':',
            r matches Some(q) ==> {
                let c = last_colon(s@, s@.len() as int);
                &&& c < 0 ==> q@ == QNameView { namespace: None, local_name: s@ }
                &&& c >= 0 ==> q@ == QNameView {
                    namespace: Some(s@.subrange(0, c)),
                    local_name: s@.subrange(c + 1, s@.len() as int),
                }
            },
    {
        let n = s.unicode_len();
        let mut i: usize = 0;
        let mut seen = false;
        let mut colon: usize = 0;
        while i < n
            invariant
                n == s@.len(),
                i <= n,
                !seen ==> forall|k: int| 0 <= k < i ==> s@[k] != ':',
                !seen ==> last_colon(s@, i as int) == -1,
                seen ==> colon < i && last_colon(s@, i as int) == colon as int && s@[colon as int]
                    == ':',
                seen ==> forall|k: int| 0 <= k < i && k != colon ==> s@[k] != ':',
            decreases n - i,
        {
            if s.get_char(i) == ':' {
                if seen {
                    assert(s@[colon as int] == ':' && s@[i as int] == ':');
                    return None;
                }
                seen = true;
                colon = i;
            }
            i = i + 1;
        }
        if !seen {
            Some(QName { namespace: None, local_name: s })
        } else {
            Some(
                QName {
                    namespace: Some(s.substring_char(0, colon)),
                    local_name: s.substring_char(colon + 1, n),
                },
            )
        }
    }

    /// Equality of the namespace and the local name, by their characters.
    pub fn same_name(&self, other: &QName) -> (r: bool)
        ensures
            r == (self@ == other@),
    {
        let ns = match (self.namespace, other.namespace) {
            (None, None) => true,
            (Some(a), Some(b)) => str_eq(a, b),
            _ => false,
        };
        ns && str_eq(self.local_name, other.local_name)
    }

    /// The display form: `namespace:local` or, with no namespace, `local`.
    pub fn to_text(&self) -> (r: String)
        ensures
            r@ == match self.namespace {
                Some(ns) => ns@ + seq![':'] + self.local_name@,
                None => self.local_name@,
            },
    {
        match self.namespace {
            Some(ns) => {
                let mut t = String::from_str(ns);
                t.append(":");
                proof {
                    reveal_strlit(":");
                }
                t.append(self.local_name);
                t
            },
            None => String::from_str(self.local_name),
        }
    }
}

} // verus!
