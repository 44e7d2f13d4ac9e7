//! The document tree that paths and searches are resolved against.

use vstd::prelude::*;

verus! {

/// A JSON document node. Objects keep their members in storage order; a
/// number is kept as its text, since resolution never reads scalars.
#[derive(Debug, PartialEq)]
pub enum JsonValue {
    Null,
    Bool(bool),
    Number(String),
    String(String),
    Array(Vec<JsonValue>),
    Object(Vec<(String, JsonValue)>),
}

/// Member `j` is the first one of `members` named `key`.
pub open spec fn first_member_at(members: Seq<(String, JsonValue)>, key: Seq<char>, j: int) -> bool {
    &&& 0 <= j < members.len()
    &&& members[j].0@ == key
    &&& forall|k: int| 0 <= k < j ==> (#[trigger] members[k]).0@ != key
}

/// The position of the first member named `key`, if there is one.
pub open spec fn member_position(members: Seq<(String, JsonValue)>, key: Seq<char>) -> Option<int> {
    if exists|j: int| first_member_at(members, key, j) {
        Some(choose|j: int| first_member_at(members, key, j))
    } else {
        None
    }
}

/// There is at most one first member of a name.
pub proof fn lemma_member_position(members: Seq<(String, JsonValue)>, key: Seq<char>, j: int)
    requires
        first_member_at(members, key, j),
    ensures
        member_position(members, key) == Some(j),
{
    let c = choose|c: int| first_member_at(members, key, c);
    assert(first_member_at(members, key, c));
    if c < j {
        assert(members[c].0@ != key);
    } else if c > j {
        assert(members[j].0@ != key);
    }
}

/// Finds the first member named `key`, as [`member_position`] says.
pub fn find_member(members: &Vec<(String, JsonValue)>, key: &String) -> (r: Option<usize>)
    ensures
        r matches Some(j) ==> member_position(members@, key@) == Some(j as int),
        r is None ==> member_position(members@, key@) is None,
{
    let mut j: usize = 0;
    while j < members.len()
        invariant
            j <= members@.len(),
            forall|k: int| 0 <= k < j ==> (#[trigger] members@[k]).0@ != key@,
        decreases members.len() - j,
    {
        if members[j].0 == *key {
            proof {
                lemma_member_position(members@, key@, j as int);
            }
            return Some(j);
        }
        j = j + 1;
    }
    assert forall|c: int| !first_member_at(members@, key@, c) by {
        if 0 <= c < members@.len() {
            assert(members@[c].0@ != key@);
        }
    }
    None
}

} // verus!
