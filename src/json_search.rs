//! Search patterns and the engine that resolves them to paths.

use vstd::prelude::*;
use crate::json_path::JsonPath;
use crate::json_path::path_part::PathPart;
use crate::json_value::{find_member, member_position, JsonValue};
use crate::text::{chars_of, non_empty, split_dots, split_on_dot, string_of};
use self::search_part::{push_search_part_text, search_part_text, search_reads_as, SearchPart};

pub mod search_part;

verus! {

/// A pattern of locations: steps from the root, any of which may be a
/// wildcard, and whether missing members and positions are tolerated.
#[derive(Debug, PartialEq)]
pub struct JsonSearch {
    parts: Vec<SearchPart>,
    optional: bool,
}

/// What a search is: its steps and its optional flag.
pub struct SearchPattern {
    pub parts: Seq<SearchPart>,
    pub optional: bool,
}

impl View for JsonSearch {
    type V = SearchPattern;

    closed spec fn view(&self) -> SearchPattern {
        SearchPattern { parts: self.parts@, optional: self.optional }
    }
}

/// Why a search failed; each carries the path reached when it failed.
#[derive(Debug, PartialEq)]
pub enum JsonSearchResolveError {
    /// A name step met a node that is not an object.
    NotAnObject(JsonPath),
    /// A position step met a node that is not an array.
    NotAnArray(JsonPath),
    /// A wildcard met a node that is neither.
    NotAnArrayOrObject(JsonPath),
    /// A required search met an object without this member.
    MissingRequiredKey(JsonPath, String),
    /// A required search met an array without this position.
    MissingRequiredIndex(JsonPath, usize),
}

/// Why a text did not parse as a search.
#[derive(Debug, PartialEq)]
pub enum JsonSearchParseError {
    /// The text is empty.
    MissingRoot,
    /// The first token, given here, is neither `$` nor `?`.
    IncorrectRoot(String),
}

/// A search failure, with each path given by its steps.
pub enum SearchFault {
    NotAnObject(Seq<PathPart>),
    NotAnArray(Seq<PathPart>),
    NotAnArrayOrObject(Seq<PathPart>),
    MissingRequiredKey(Seq<PathPart>, String),
    MissingRequiredIndex(Seq<PathPart>, usize),
}

impl View for JsonSearchResolveError {
    type V = SearchFault;

    open spec fn view(&self) -> SearchFault {
        match self {
            JsonSearchResolveError::NotAnObject(p) => SearchFault::NotAnObject(p@),
            JsonSearchResolveError::NotAnArray(p) => SearchFault::NotAnArray(p@),
            JsonSearchResolveError::NotAnArrayOrObject(p) => SearchFault::NotAnArrayOrObject(p@),
            JsonSearchResolveError::MissingRequiredKey(p, k) => SearchFault::MissingRequiredKey(p@, *k),
            JsonSearchResolveError::MissingRequiredIndex(p, i) => SearchFault::MissingRequiredIndex(p@, *i),
        }
    }
}

/// The steps of each path, in order.
pub open spec fn paths_view(paths: Seq<JsonPath>) -> Seq<Seq<PathPart>> {
    paths.map_values(|p: JsonPath| p@)
}

/// A search outcome, with each path given by its steps.
pub open spec fn outcome_view(r: Result<Vec<JsonPath>, JsonSearchResolveError>) -> Result<Seq<Seq<PathPart>>, SearchFault> {
    match r {
        Ok(paths) => Ok(paths_view(paths@)),
        Err(e) => Err(e@),
    }
}

/// The children of an array, each with the step that reaches it, by position.
pub open spec fn array_children(items: Seq<JsonValue>) -> Seq<(PathPart, JsonValue)> {
    Seq::new(items.len(), |i: int| (PathPart::Index(i as usize), items[i]))
}

/// The members of an object, each with the step that reaches it, in storage order.
pub open spec fn member_children(members: Seq<(String, JsonValue)>) -> Seq<(PathPart, JsonValue)> {
    members.map_values(|m: (String, JsonValue)| (PathPart::Key(m.0), m.1))
}

/// The paths that match `parts` below `node`, which stands at `at`, or the
/// failure that aborts the search.
pub open spec fn search_in(parts: Seq<SearchPart>, optional: bool, node: JsonValue, at: Seq<PathPart>) -> Result<Seq<Seq<PathPart>>, SearchFault>
    decreases parts.len(), 0nat,
{
    if parts.len() == 0 {
        Ok(seq![at])
    } else {
        let rest = parts.drop_first();
        match parts[0] {
            SearchPart::Key(k) => match node {
                JsonValue::Object(members) => match member_position(members@, k@) {
                    Some(j) => search_in(rest, optional, members@[j].1, at.push(PathPart::Key(k))),
                    None => if optional {
                        Ok(Seq::empty())
                    } else {
                        Err(SearchFault::MissingRequiredKey(at, k))
                    },
                },
                _ => Err(SearchFault::NotAnObject(at)),
            },
            SearchPart::Index(i) => match node {
                JsonValue::Array(items) => if i < items@.len() {
                    search_in(rest, optional, items@[i as int], at.push(PathPart::Index(i)))
                } else if optional {
                    Ok(Seq::empty())
                } else {
                    Err(SearchFault::MissingRequiredIndex(at, i))
                },
                _ => Err(SearchFault::NotAnArray(at)),
            },
            SearchPart::Wildcard => match node {
                JsonValue::Array(items) => Ok(fan_out(rest, optional, array_children(items@), at)),
                JsonValue::Object(members) => Ok(fan_out(rest, optional, member_children(members@), at)),
                _ => Err(SearchFault::NotAnArrayOrObject(at)),
            },
        }
    }
}

/// The paths that `rest` matches below each child in turn, run together;
/// a child whose search fails adds nothing.
pub open spec fn fan_out(rest: Seq<SearchPart>, optional: bool, children: Seq<(PathPart, JsonValue)>, at: Seq<PathPart>) -> Seq<Seq<PathPart>>
    decreases rest.len(), children.len(),
{
    if children.len() == 0 {
        Seq::empty()
    } else {
        let c = children.last();
        fan_out(rest, optional, children.drop_last(), at) + match search_in(rest, optional, c.1, at.push(c.0)) {
            Ok(found) => found,
            Err(_) => Seq::empty(),
        }
    }
}

/// The steps in `parts` are those that the tokens in `toks` read as, one for one.
pub open spec fn search_parts_read_from(parts: Seq<SearchPart>, toks: Seq<Seq<char>>) -> bool {
    &&& parts.len() == toks.len()
    &&& forall|i: int| 0 <= i < parts.len() ==> search_reads_as(#[trigger] parts[i], toks[i])
}

/// The texts of the steps, run together.
pub open spec fn search_parts_text(parts: Seq<SearchPart>) -> Seq<char>
    decreases parts.len(),
{
    if parts.len() == 0 {
        Seq::empty()
    } else {
        search_parts_text(parts.drop_last()) + search_part_text(parts.last())
    }
}

/// The root marker of a search: `?` when optional, `$` when required.
pub open spec fn root_marker(optional: bool) -> char {
    if optional {
        '?'
    } else {
        '$'
    }
}

/// The text form of a search: its root marker, then the steps' texts with
/// nothing between them.
pub open spec fn search_text(p: SearchPattern) -> Seq<char> {
    seq![root_marker(p.optional)] + search_parts_text(p.parts)
}

/// What parsing `s` as a search yields: the root token picks the optional
/// flag, and the steps are the non-empty tokens after it.
pub open spec fn parsed_search(s: Seq<char>, r: Result<SearchPattern, JsonSearchParseError>) -> bool {
    let toks = split_on_dot(s);
    match r {
        Ok(p) => {
            &&& s.len() > 0
            &&& toks[0] == seq![root_marker(p.optional)]
            &&& search_parts_read_from(p.parts, non_empty(toks.drop_first()))
        },
        Err(JsonSearchParseError::MissingRoot) => s.len() == 0,
        Err(JsonSearchParseError::IncorrectRoot(t)) => {
            &&& s.len() > 0
            &&& toks[0] != seq!['$']
            &&& toks[0] != seq!['?']
            &&& t@ == toks[0]
        },
    }
}

/// A search without wildcards finds at most one path.
pub proof fn lemma_no_wildcard_at_most_one(parts: Seq<SearchPart>, optional: bool, node: JsonValue, at: Seq<PathPart>)
    requires
        forall|i: int| 0 <= i < parts.len() ==> parts[i] != SearchPart::Wildcard,
    ensures
        search_in(parts, optional, node, at) matches Ok(found) ==> found.len() <= 1,
    decreases parts.len(),
{
    if parts.len() > 0 {
        let rest = parts.drop_first();
        assert forall|i: int| 0 <= i < rest.len() implies rest[i] != SearchPart::Wildcard by {
            assert(rest[i] == parts[i + 1]);
        }
        assert(parts[0] != SearchPart::Wildcard);
        match parts[0] {
            SearchPart::Key(k) => {
                if let JsonValue::Object(members) = node {
                    if let Some(j) = member_position(members@, k@) {
                        lemma_no_wildcard_at_most_one(rest, optional, members@[j].1, at.push(PathPart::Key(k)));
                    }
                }
            },
            SearchPart::Index(i) => {
                if let JsonValue::Array(items) = node {
                    if i < items@.len() {
                        lemma_no_wildcard_at_most_one(rest, optional, items@[i as int], at.push(PathPart::Index(i)));
                    }
                }
            },
            SearchPart::Wildcard => {},
        }
    }
}

proof fn lemma_paths_view_append(a: Seq<JsonPath>, b: Seq<JsonPath>)
    ensures
        paths_view(a + b) == paths_view(a) + paths_view(b),
{
    assert(paths_view(a + b) =~= paths_view(a) + paths_view(b));
}


impl Clone for JsonSearch {
    fn clone(&self) -> (r: Self)
        ensures
            r@ == self@,
    {
        let parts = self.parts.clone();
        assert(parts@ =~= self.parts@);
        JsonSearch { parts, optional: self.optional }
    }
}

impl Default for JsonSearch {
    fn default() -> (r: Self)
        ensures
            r@.parts == Seq::<SearchPart>::empty(),
            !r@.optional,
    {
        JsonSearch { parts: Vec::new(), optional: false }
    }
}

/// The steps that the tokens read as, in order.
fn parts_of_tokens<const U: usize>(tokens: &[&str; U]) -> (r: Vec<SearchPart>)
    ensures
        r@.len() == U,
        forall|i: int| 0 <= i < U ==> search_reads_as(#[trigger] r@[i], tokens@[i]@),
{
    let mut parts: Vec<SearchPart> = Vec::new();
    let mut i: usize = 0;
    while i < U
        invariant
            i <= U,
            parts@.len() == i,
            forall|k: int| 0 <= k < i ==> search_reads_as(#[trigger] parts@[k], tokens@[k]@),
        decreases U - i,
    {
        let token = string_of(chars_of(tokens[i]).as_slice());
        parts.push(SearchPart::from_text(token));
        i = i + 1;
    }
    parts
}

impl JsonSearch {
    /// A search of the given steps and flag.
    pub fn from_parts(parts: Vec<SearchPart>, optional: bool) -> (r: JsonSearch)
        ensures
            r@.parts == parts@,
            r@.optional == optional,
    {
        JsonSearch { parts, optional }
    }

    /// The steps of this search.
    pub fn parts(&self) -> (r: &Vec<SearchPart>)
        ensures
            r@ == self@.parts,
    {
        &self.parts
    }

    /// Whether missing members and positions are tolerated.
    pub fn is_optional(&self) -> (r: bool)
        ensures
            r == self@.optional,
    {
        self.optional
    }

    /// A required search of the steps that the tokens read as.
    pub fn new<const U: usize>(parts: &[&str; U]) -> (r: JsonSearch)
        ensures
            !r@.optional,
            r@.parts.len() == U,
            forall|i: int| 0 <= i < U ==> search_reads_as(#[trigger] r@.parts[i], parts@[i]@),
    {
        JsonSearch { parts: parts_of_tokens(parts), optional: false }
    }

    /// An optional search of the steps that the tokens read as.
    pub fn new_optional<const U: usize>(parts: &[&str; U]) -> (r: JsonSearch)
        ensures
            r@.optional,
            r@.parts.len() == U,
            forall|i: int| 0 <= i < U ==> search_reads_as(#[trigger] r@.parts[i], parts@[i]@),
    {
        let mut new = JsonSearch::new(parts);
        new.optional = true;
        new
    }

    /// A required search of the steps that the tokens read as.
    pub fn from<const U: usize>(value: [&str; U]) -> (r: JsonSearch)
        ensures
            !r@.optional,
            r@.parts.len() == U,
            forall|i: int| 0 <= i < U ==> search_reads_as(#[trigger] r@.parts[i], value@[i]@),
    {
        JsonSearch::new(&value)
    }

    /// Parses the text form `$.step...` (required) or `?.step...`
    /// (optional); see [`parsed_search`].
    pub fn parse(s: &str) -> (r: Result<JsonSearch, JsonSearchParseError>)
        ensures
            parsed_search(
                s@,
                match r {
                    Ok(p) => Ok(p@),
                    Err(e) => Err(e),
                },
            ),
    {
        let cs = chars_of(s);
        if cs.len() == 0 {
            return Err(JsonSearchParseError::MissingRoot);
        }
        let toks = split_dots(cs.as_slice());
        let ghost tv = split_on_dot(s@);
        let root = &toks[0];
        let optional = if root.len() == 1 && root[0] == '?' {
            assert(root@ =~= seq!['?']);
            true
        } else if root.len() == 1 && root[0] == '$' {
            assert(root@ =~= seq!['$']);
            false
        } else {
            assert(root@ != seq!['$'] && root@ != seq!['?']) by {
                if root@.len() == 1 {
                    assert(root@[0] != '$' && root@[0] != '?');
                }
            }
            return Err(JsonSearchParseError::IncorrectRoot(string_of(root.as_slice())));
        };
        let mut parts: Vec<SearchPart> = Vec::new();
        let mut i: usize = 1;
        while i < toks.len()
            invariant
                1 <= i <= toks@.len(),
                toks@.len() == tv.len(),
                forall|k: int| 0 <= k < toks@.len() ==> (#[trigger] toks@[k])@ == tv[k],
                search_parts_read_from(parts@, non_empty(tv.subrange(1, i as int))),
            decreases toks.len() - i,
        {
            let tok = &toks[i];
            let ghost prev = tv.subrange(1, i as int);
            let ghost next = tv.subrange(1, i + 1);
            assert(next.drop_last() == prev);
            assert(next.last() == tok@);
            if tok.len() > 0 {
                let part = SearchPart::from_text(string_of(tok.as_slice()));
                parts.push(part);
            }
            i = i + 1;
        }
        assert(tv.subrange(1, tv.len() as int) == tv.drop_first());
        Ok(JsonSearch { parts, optional })
    }

    /// The text form of this search, as [`search_text`] says.
    pub fn to_string(&self) -> (r: String)
        ensures
            r@ == search_text(self@),
    {
        let mut out: Vec<char> = Vec::new();
        if self.optional {
            out.push('?');
        } else {
            out.push('$');
        }
        let mut i: usize = 0;
        while i < self.parts.len()
            invariant
                i <= self.parts@.len(),
                out@ == seq![root_marker(self.optional)] + search_parts_text(self.parts@.take(i as int)),
            decreases self.parts.len() - i,
        {
            let ghost next = self.parts@.take(i + 1);
            assert(next.drop_last() == self.parts@.take(i as int));
            push_search_part_text(&self.parts[i], &mut out);
            i = i + 1;
        }
        assert(self.parts@.take(i as int) == self.parts@);
        string_of(out.as_slice())
    }

    fn resolve_inner(&self, next: usize, target: &JsonValue, parent: JsonPath) -> (r: Result<Vec<JsonPath>, JsonSearchResolveError>)
        requires
            next <= self.parts@.len(),
        ensures
            outcome_view(r) == search_in(self.parts@.skip(next as int), self.optional, *target, parent@),
        decreases self.parts@.len() - next, 0nat,
    {
        if next == self.parts.len() {
            let mut results: Vec<JsonPath> = Vec::new();
            results.push(parent);
            proof {
                assert(paths_view(results@) =~= seq![parent@]);
            }
            return Ok(results);
        }
        assert(self.parts@.skip(next as int).drop_first() =~= self.parts@.skip(next + 1));
        assert(self.parts@.skip(next as int)[0] == self.parts@[next as int]);
        match &self.parts[next] {
            SearchPart::Key(key) => self.resolve_key(next + 1, target, parent, key),
            SearchPart::Index(index) => self.resolve_index(next + 1, target, parent, index),
            SearchPart::Wildcard => self.resolve_wildcard(next + 1, target, parent),
        }
    }

    fn resolve_key(&self, next: usize, target: &JsonValue, parent: JsonPath, key: &String) -> (r: Result<Vec<JsonPath>, JsonSearchResolveError>)
        requires
            1 <= next <= self.parts@.len(),
            self.parts@[next - 1] == SearchPart::Key(*key),
        ensures
            outcome_view(r) == search_in(self.parts@.skip(next - 1), self.optional, *target, parent@),
        decreases self.parts@.len() - next, 1nat,
    {
        assert(self.parts@.skip(next - 1).drop_first() =~= self.parts@.skip(next as int));
        assert(self.parts@.skip(next - 1)[0] == self.parts@[next - 1]);
        let members = match target {
            JsonValue::Object(members) => members,
            _ => {
                return Err(JsonSearchResolveError::NotAnObject(parent));
            },
        };
        match find_member(members, key) {
            Some(j) => {
                let mut parent = parent;
                parent.push(PathPart::Key(key.clone()));
                self.resolve_inner(next, &members[j].1, parent)
            },
            None => {
                if self.optional {
                    let results: Vec<JsonPath> = Vec::new();
                    assert(paths_view(results@) =~= Seq::empty());
                    Ok(results)
                } else {
                    Err(JsonSearchResolveError::MissingRequiredKey(parent, key.clone()))
                }
            },
        }
    }

    fn resolve_index(&self, next: usize, target: &JsonValue, parent: JsonPath, index: &usize) -> (r: Result<Vec<JsonPath>, JsonSearchResolveError>)
        requires
            1 <= next <= self.parts@.len(),
            self.parts@[next - 1] == SearchPart::Index(*index),
        ensures
            outcome_view(r) == search_in(self.parts@.skip(next - 1), self.optional, *target, parent@),
        decreases self.parts@.len() - next, 1nat,
    {
        assert(self.parts@.skip(next - 1).drop_first() =~= self.parts@.skip(next as int));
        assert(self.parts@.skip(next - 1)[0] == self.parts@[next - 1]);
        let items = match target {
            JsonValue::Array(items) => items,
            _ => {
                return Err(JsonSearchResolveError::NotAnArray(parent));
            },
        };
        if *index < items.len() {
            let mut parent = parent;
            parent.push(PathPart::Index(*index));
            self.resolve_inner(next, &items[*index], parent)
        } else if self.optional {
            let results: Vec<JsonPath> = Vec::new();
            assert(paths_view(results@) =~= Seq::empty());
            Ok(results)
        } else {
            Err(JsonSearchResolveError::MissingRequiredIndex(parent, *index))
        }
    }

    fn resolve_wildcard(&self, next: usize, target: &JsonValue, parent: JsonPath) -> (r: Result<Vec<JsonPath>, JsonSearchResolveError>)
        requires
            1 <= next <= self.parts@.len(),
            self.parts@[next - 1] == SearchPart::Wildcard,
        ensures
            outcome_view(r) == search_in(self.parts@.skip(next - 1), self.optional, *target, parent@),
        decreases self.parts@.len() - next, 2nat,
    {
        assert(self.parts@.skip(next - 1).drop_first() =~= self.parts@.skip(next as int));
        assert(self.parts@.skip(next - 1)[0] == self.parts@[next - 1]);
        match target {
            JsonValue::Array(items) => Ok(self.resolve_array_wildcard(next, items, parent)),
            JsonValue::Object(members) => Ok(self.resolve_object_wildcard(next, members, parent)),
            _ => Err(JsonSearchResolveError::NotAnArrayOrObject(parent)),
        }
    }

    fn resolve_array_wildcard(&self, next: usize, items: &Vec<JsonValue>, parent: JsonPath) -> (r: Vec<JsonPath>)
        requires
            next <= self.parts@.len(),
        ensures
            paths_view(r@) == fan_out(self.parts@.skip(next as int), self.optional, array_children(items@), parent@),
        decreases self.parts@.len() - next, 1nat,
    {
        let ghost rest = self.parts@.skip(next as int);
        let ghost children = array_children(items@);
        let mut results: Vec<JsonPath> = Vec::new();
        let mut i: usize = 0;
        while i < items.len()
            invariant
                i <= items@.len(),
                next <= self.parts@.len(),
                rest == self.parts@.skip(next as int),
                children == array_children(items@),
                paths_view(results@) == fan_out(rest, self.optional, children.take(i as int), parent@),
            decreases items.len() - i,
        {
            let ghost prev = results@;
            assert(children.take(i + 1).drop_last() =~= children.take(i as int));
            assert(children.take(i + 1).last() == (PathPart::Index(i), items@[i as int]));
            let mut local = parent.clone();
            local.push(PathPart::Index(i));
            match self.resolve_inner(next, &items[i], local) {
                Ok(found) => {
                    let mut found = found;
                    let ghost added = found@;
                    results.append(&mut found);
                    proof {
                        lemma_paths_view_append(prev, added);
                    }
                },
                Err(_) => {
                    assert(prev + Seq::<JsonPath>::empty() =~= prev);
                    assert(paths_view(prev) + Seq::<Seq<PathPart>>::empty() =~= paths_view(prev));
                },
            }
            i = i + 1;
        }
        assert(children.take(i as int) =~= children);
        results
    }

    fn resolve_object_wildcard(&self, next: usize, members: &Vec<(String, JsonValue)>, parent: JsonPath) -> (r: Vec<JsonPath>)
        requires
            next <= self.parts@.len(),
        ensures
            paths_view(r@) == fan_out(self.parts@.skip(next as int), self.optional, member_children(members@), parent@),
        decreases self.parts@.len() - next, 1nat,
    {
        let ghost rest = self.parts@.skip(next as int);
        let ghost children = member_children(members@);
        let mut results: Vec<JsonPath> = Vec::new();
        let mut i: usize = 0;
        while i < members.len()
            invariant
                i <= members@.len(),
                next <= self.parts@.len(),
                rest == self.parts@.skip(next as int),
                children == member_children(members@),
                paths_view(results@) == fan_out(rest, self.optional, children.take(i as int), parent@),
            decreases members.len() - i,
        {
            let ghost prev = results@;
            assert(children.take(i + 1).drop_last() =~= children.take(i as int));
            assert(children.take(i + 1).last() == (PathPart::Key(members@[i as int].0), members@[i as int].1));
            let mut local = parent.clone();
            local.push(PathPart::Key(members[i].0.clone()));
            match self.resolve_inner(next, &members[i].1, local) {
                Ok(found) => {
                    let mut found = found;
                    let ghost added = found@;
                    results.append(&mut found);
                    proof {
                        lemma_paths_view_append(prev, added);
                    }
                },
                Err(_) => {
                    assert(paths_view(prev) + Seq::<Seq<PathPart>>::empty() =~= paths_view(prev));
                },
            }
            i = i + 1;
        }
        assert(children.take(i as int) =~= children);
        results
    }

    /// Every path in `target` that this search matches, in traversal order,
    /// or the failure that aborts it; see [`search_in`].
    pub fn resolve(&self, target: &JsonValue) -> (r: Result<Vec<JsonPath>, JsonSearchResolveError>)
        ensures
            outcome_view(r) == search_in(self@.parts, self@.optional, *target, Seq::empty()),
    {
        assert(self.parts@.skip(0) =~= self.parts@);
        self.resolve_inner(0, target, JsonPath::default())
    }
}

impl std::str::FromStr for JsonSearch {
    type Err = JsonSearchParseError;

    fn from_str(s: &str) -> Result<JsonSearch, JsonSearchParseError> {
        JsonSearch::parse(s)
    }
}

} // verus!
