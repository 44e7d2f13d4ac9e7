//! One step of an exact path: a member name or an array position.

use vstd::prelude::*;
use crate::text::{chars_of, decimal_text, index_of_text, parse_index, push_decimal, string_of};

verus! {

#[derive(Debug, PartialEq)]
pub enum PathPart {
    Key(String),
    Index(usize),
}

/// The step that a token reads as: a position if it reads as a
/// non-negative integer, else a member name.
pub open spec fn path_part_of(token: String) -> PathPart {
    match index_of_text(token@) {
        Some(i) => PathPart::Index(i),
        None => PathPart::Key(token),
    }
}

/// Whether `part` is the step that a token with these characters reads as.
pub open spec fn reads_as(part: PathPart, token: Seq<char>) -> bool {
    match index_of_text(token) {
        Some(i) => part == PathPart::Index(i),
        None => (part matches PathPart::Key(k) && k@ == token),
    }
}

/// The text of a step: the name itself, or the position in decimal.
pub open spec fn path_part_text(part: PathPart) -> Seq<char> {
    match part {
        PathPart::Key(k) => k@,
        PathPart::Index(i) => decimal_text(i as nat),
    }
}

impl Clone for PathPart {
    fn clone(&self) -> (r: Self)
        ensures
            r == *self,
    {
        match self {
            PathPart::Key(k) => PathPart::Key(k.clone()),
            PathPart::Index(i) => PathPart::Index(*i),
        }
    }
}

impl PathPart {
    /// Reads a token as a step; see [`path_part_of`].
    pub fn from_text(token: String) -> (r: PathPart)
        ensures
            r == path_part_of(token),
            reads_as(r, token@),
    {
        let cs = chars_of(token.as_str());
        match parse_index(cs.as_slice()) {
            Some(i) => PathPart::Index(i),
            None => PathPart::Key(token),
        }
    }

    /// The text of this step, as [`path_part_text`] says.
    pub fn to_string(&self) -> (r: String)
        ensures
            r@ == path_part_text(*self),
    {
        match self {
            PathPart::Key(k) => k.clone(),
            PathPart::Index(i) => {
                let mut cs: Vec<char> = Vec::new();
                push_decimal(*i, &mut cs);
                string_of(cs.as_slice())
            },
        }
    }
}

impl From<String> for PathPart {
    fn from(value: String) -> (r: PathPart) {
        PathPart::from_text(value)
    }
}

impl vstd::std_specs::convert::FromSpecImpl<String> for PathPart {
    open spec fn obeys_from_spec() -> bool {
        true
    }

    open spec fn from_spec(v: String) -> PathPart {
        path_part_of(v)
    }
}

} // verus!
