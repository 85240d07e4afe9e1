//! The per-scope context handed down the recursive descent: in-scope namespace bindings.
use vstd::prelude::*;

use crate::facets::str_eq;

verus! {

/// The namespace bindings visible at one nesting level, from prefix to URI.
/// When a prefix is bound twice, the first binding counts.
#[derive(Debug)]
pub struct NamespaceScope<'a> {
    pub bindings: Vec<(&'a str, &'a str)>,
}

/// The URI bound to `prefix` by the first binding at index `i` or later.
pub open spec fn lookup_from(b: Seq<(&str, &str)>, prefix: Seq<char>, i: int) -> Option<Seq<char>>
    decreases b.len() - i,
{
    if i < 0 || i >= b.len() {
        None
    } else if b[i].0@ == prefix {
        Some(b[i].1@)
    } else {
        lookup_from(b, prefix, i + 1)
    }
}

impl<'a> NamespaceScope<'a> {
    /// The URI that `prefix` is bound to, if any.
    pub open spec fn spec_lookup(&self, prefix: Seq<char>) -> Option<Seq<char>> {
        lookup_from(self.bindings@, prefix, 0)
    }

    /// A scope with no bindings.
    pub fn new() -> (r: NamespaceScope<'a>)
        ensures
            r.bindings@.len() == 0,
    {
        NamespaceScope { bindings: Vec::new() }
    }

    /// Adds a binding, which loses to any earlier binding of the same prefix.
    pub fn bind(&mut self, prefix: &'a str, uri: &'a str)
        ensures
            final(self).bindings@ == old(self).bindings@.push((prefix, uri)),
    {
        self.bindings.push((prefix, uri));
    }

    /// Looks up the URI bound to `prefix`.
    pub fn lookup(&self, prefix: &str) -> (r: Option<&'a str>)
        ensures
            match r {
                Some(u) => self.spec_lookup(prefix@) == Some(u@),
                None => self.spec_lookup(prefix@) is None,
            },
    {
        let n = self.bindings.len();
        let mut i: usize = 0;
        while i < n
            invariant
                n == self.bindings@.len(),
                i <= n,
                lookup_from(self.bindings@, prefix@, 0) == lookup_from(self.bindings@, prefix@, i as int),
            decreases n - i,
        {
            let (p, u) = self.bindings[i];
            if str_eq(p, prefix) {
                return Some(u);
            }
            i = i + 1;
        }
        None
    }
}

} // verus!
