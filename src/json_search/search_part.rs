//! One step of a search pattern: a member name, an array position, or a
//! wildcard that matches every child.

use vstd::prelude::*;
use crate::text::{chars_of, decimal_text, index_of_text, parse_index, push_decimal, string_of};

verus! {

#[derive(Debug, PartialEq)]
pub enum SearchPart {
    Key(String),
    Index(usize),
    Wildcard,
}

/// The step that a token reads as: `*` is the wildcard, a non-negative
/// integer is a position, anything else is a member name.
pub open spec fn search_part_of(token: String) -> SearchPart {
    if token@ == seq!['*'] {
        SearchPart::Wildcard
    } else {
        match index_of_text(token@) {
            Some(i) => SearchPart::Index(i),
            None => SearchPart::Key(token),
        }
    }
}

/// Whether `part` is the step that a token with these characters reads as.
pub open spec fn search_reads_as(part: SearchPart, token: Seq<char>) -> bool {
    if token == seq!['*'] {
        part == SearchPart::Wildcard
    } else {
        match index_of_text(token) {
            Some(i) => part == SearchPart::Index(i),
            None => (part matches SearchPart::Key(k) && k@ == token),
        }
    }
}

/// The text of a step: the name, the position in decimal, or `*`.
pub open spec fn search_part_text(part: SearchPart) -> Seq<char> {
    match part {
        SearchPart::Key(k) => k@,
        SearchPart::Index(i) => decimal_text(i as nat),
        SearchPart::Wildcard => seq!['*'],
    }
}

impl Clone for SearchPart {
    fn clone(&self) -> (r: Self)
        ensures
            r == *self,
    {
        match self {
            SearchPart::Key(k) => SearchPart::Key(k.clone()),
            SearchPart::Index(i) => SearchPart::Index(*i),
            SearchPart::Wildcard => SearchPart::Wildcard,
        }
    }
}

impl SearchPart {
    /// Reads a token as a step; see [`search_part_of`].
    pub fn from_text(token: String) -> (r: SearchPart)
        ensures
            r == search_part_of(token),
            search_reads_as(r, token@),
    {
        let cs = chars_of(token.as_str());
        if cs.len() == 1 && cs[0] == '*' {
            assert(cs@ =~= seq!['*']);
            return SearchPart::Wildcard;
        }
        assert(token@ != seq!['*']) by {
            if token@.len() == 1 {
                assert(cs@[0] != '*');
            }
        }
        match parse_index(cs.as_slice()) {
            Some(i) => SearchPart::Index(i),
            None => SearchPart::Key(token),
        }
    }

    /// The text of this step, as [`search_part_text`] says.
    pub fn to_string(&self) -> (r: String)
        ensures
            r@ == search_part_text(*self),
    {
        let mut cs: Vec<char> = Vec::new();
        push_search_part_text(self, &mut cs);
        string_of(cs.as_slice())
    }
}

/// Appends the text of `part` to `out`.
pub(crate) fn push_search_part_text(part: &SearchPart, out: &mut Vec<char>)
    ensures
        final(out)@ == old(out)@ + search_part_text(*part),
{
    match part {
        SearchPart::Key(k) => {
            let mut cs = chars_of(k.as_str());
            out.append(&mut cs);
        },
        SearchPart::Index(i) => push_decimal(*i, out),
        SearchPart::Wildcard => {
            out.push('*');
            assert(old(out)@.push('*') =~= old(out)@ + seq!['*']);
        },
    }
}

impl From<String> for SearchPart {
    fn from(value: String) -> (r: SearchPart) {
        SearchPart::from_text(value)
    }
}

impl vstd::std_specs::convert::FromSpecImpl<String> for SearchPart {
    open spec fn obeys_from_spec() -> bool {
        true
    }

    open spec fn from_spec(v: String) -> SearchPart {
        search_part_of(v)
    }
}

} // verus!
