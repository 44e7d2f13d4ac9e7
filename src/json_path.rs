//! Exact paths from the document root.

use vstd::prelude::*;
use crate::json_value::{member_position, find_member, JsonValue};
use crate::text::{
    chars_of, index_of_text, lemma_decimal_digits, lemma_decimal_text_reads_back, lemma_non_empty_keeps_all,
    lemma_split_after_dot, non_empty, push_decimal, split_dots, split_on_dot, string_of,
};
use self::path_part::{path_part_text, reads_as, PathPart};

pub mod path_part;

verus! {

/// An exact location in a document: the steps from the root, in order.
/// No steps at all is the root itself.
#[derive(Debug, PartialEq)]
pub struct JsonPath {
    parts: Vec<PathPart>,
}

impl View for JsonPath {
    type V = Seq<PathPart>;

    closed spec fn view(&self) -> Seq<PathPart> {
        self.parts@
    }
}

/// Why a path did not resolve.
#[derive(Debug, PartialEq)]
pub enum JsonPathResolveError {
    /// The step does not fit the node: a name on a node that is not an
    /// object, or a position on one that is not an array.
    FailedToResolvePart(PathPart),
    /// The object has no member of this name.
    MissingKey(String),
    /// The array has no element at this position.
    MissingIndex(usize),
}

/// Why a text did not parse as a path.
#[derive(Debug, PartialEq)]
pub enum JsonPathParseError {
    /// The text is empty.
    MissingRoot,
    /// The first token, given here, is not `$`.
    IncorrectRoot(String),
}

/// One step of resolution from `node`.
pub open spec fn resolve_step(part: PathPart, node: JsonValue) -> Result<JsonValue, JsonPathResolveError> {
    match node {
        JsonValue::Object(members) => match part {
            PathPart::Key(k) => match member_position(members@, k@) {
                Some(j) => Ok(members@[j].1),
                None => Err(JsonPathResolveError::MissingKey(k)),
            },
            PathPart::Index(_) => Err(JsonPathResolveError::FailedToResolvePart(part)),
        },
        JsonValue::Array(items) => match part {
            PathPart::Index(i) => if i < items@.len() {
                Ok(items@[i as int])
            } else {
                Err(JsonPathResolveError::MissingIndex(i))
            },
            PathPart::Key(_) => Err(JsonPathResolveError::FailedToResolvePart(part)),
        },
        _ => Err(JsonPathResolveError::FailedToResolvePart(part)),
    }
}

/// The node that `parts` lead to from `node`, or the first step's failure.
pub open spec fn resolve_parts(parts: Seq<PathPart>, node: JsonValue) -> Result<JsonValue, JsonPathResolveError>
    decreases parts.len(),
{
    if parts.len() == 0 {
        Ok(node)
    } else {
        match resolve_step(parts[0], node) {
            Ok(child) => resolve_parts(parts.drop_first(), child),
            Err(e) => Err(e),
        }
    }
}

/// The steps in `parts` are those that the tokens in `toks` read as, one for one.
pub open spec fn parts_read_from(parts: Seq<PathPart>, toks: Seq<Seq<char>>) -> bool {
    &&& parts.len() == toks.len()
    &&& forall|i: int| 0 <= i < parts.len() ==> reads_as(#[trigger] parts[i], toks[i])
}

/// The texts of the steps, run together.
pub open spec fn parts_text(parts: Seq<PathPart>) -> Seq<char>
    decreases parts.len(),
{
    if parts.len() == 0 {
        Seq::empty()
    } else {
        parts_text(parts.drop_last()) + path_part_text(parts.last())
    }
}

/// The text form of a path: the root marker, then the steps' texts with
/// nothing between them.
pub open spec fn path_text(parts: Seq<PathPart>) -> Seq<char> {
    seq!['$'] + parts_text(parts)
}

/// What parsing `s` as a path yields; the steps are the non-empty tokens
/// after the root marker.
pub open spec fn parsed_path(s: Seq<char>, r: Result<Seq<PathPart>, JsonPathParseError>) -> bool {
    let toks = split_on_dot(s);
    match r {
        Ok(parts) => s.len() > 0 && toks[0] == seq!['$'] && parts_read_from(parts, non_empty(toks.drop_first())),
        Err(JsonPathParseError::MissingRoot) => s.len() == 0,
        Err(JsonPathParseError::IncorrectRoot(t)) => s.len() > 0 && toks[0] != seq!['$'] && t@ == toks[0],
    }
}

/// `after` is `before` with the node that `parts` lead to replaced by
/// `leaf`, every other node kept as it was.
pub open spec fn replaced_at(parts: Seq<PathPart>, before: JsonValue, after: JsonValue, leaf: JsonValue) -> bool
    decreases parts.len(),
{
    if parts.len() == 0 {
        after == leaf
    } else {
        match (before, parts[0]) {
            (JsonValue::Object(ms), PathPart::Key(k)) => match member_position(ms@, k@) {
                Some(j) => match after {
                    JsonValue::Object(ns) => {
                        &&& ns@.len() == ms@.len()
                        &&& forall|x: int| 0 <= x < ms@.len() && x != j ==> #[trigger] ns@[x] == ms@[x]
                        &&& ns@[j].0 == ms@[j].0
                        &&& replaced_at(parts.drop_first(), ms@[j].1, ns@[j].1, leaf)
                    },
                    _ => false,
                },
                None => after == before,
            },
            (JsonValue::Array(items), PathPart::Index(n)) => if n < items@.len() {
                match after {
                    JsonValue::Array(news) => {
                        &&& news@.len() == items@.len()
                        &&& forall|x: int| 0 <= x < items@.len() && x != n ==> #[trigger] news@[x] == items@[x]
                        &&& replaced_at(parts.drop_first(), items@[n as int], news@[n as int], leaf)
                    },
                    _ => false,
                }
            } else {
                after == before
            },
            _ => after == before,
        }
    }
}

/// Parsing the text form of a path gives the path back. The text form puts
/// nothing between the steps, so this holds of the root path alone: the
/// path of the one step `a` is written `$a`, which parsing refuses.
pub proof fn lemma_round_trip(parts: Seq<PathPart>, r: Result<Seq<PathPart>, JsonPathParseError>)
    requires
        parts.len() == 0,
        parsed_path(path_text(parts), r),
    ensures
        r == Ok::<Seq<PathPart>, JsonPathParseError>(parts),
{
    let s = path_text(parts);
    assert(s =~= seq!['$']);
    assert(s.drop_last() =~= Seq::<char>::empty());
    let toks = split_on_dot(s);
    assert(toks =~= seq![seq!['$']]) by {
        reveal_with_fuel(split_on_dot, 2);
        assert(seq![Seq::<char>::empty()].last().push('$') =~= seq!['$']);
    }
    assert(toks.drop_first() =~= Seq::<Seq<char>>::empty());
    assert(non_empty(toks.drop_first()) == Seq::<Seq<char>>::empty());
    if let Ok(q) = r {
        assert(q =~= parts);
    }
}

/// The root path `$` resolves to the whole document, whatever it is.
pub proof fn lemma_root_identity(r: Result<Seq<PathPart>, JsonPathParseError>, doc: JsonValue)
    requires
        parsed_path(seq!['$'], r),
    ensures
        r matches Ok(q) && resolve_parts(q, doc) == Ok::<JsonValue, JsonPathResolveError>(doc),
{
    assert(path_text(Seq::<PathPart>::empty()) =~= seq!['$']);
    lemma_round_trip(Seq::empty(), r);
}

/// A path written in the grammar: the root marker, then a dot and the
/// step's text for each step.
pub open spec fn dotted_text(parts: Seq<PathPart>) -> Seq<char>
    decreases parts.len(),
{
    if parts.len() == 0 {
        seq!['$']
    } else {
        dotted_text(parts.drop_last()) + seq!['.'] + path_part_text(parts.last())
    }
}

/// A step that the grammar can write: a position, or a name that is not
/// empty, holds no dot and does not read as a position.
pub open spec fn plain_step(part: PathPart) -> bool {
    match part {
        PathPart::Index(_) => true,
        PathPart::Key(k) => {
            &&& k@.len() > 0
            &&& index_of_text(k@) is None
            &&& forall|i: int| 0 <= i < k@.len() ==> k@[i] != '.'
        },
    }
}

/// The same step, names compared by their characters.
pub open spec fn same_step(a: PathPart, b: PathPart) -> bool {
    match (a, b) {
        (PathPart::Key(x), PathPart::Key(y)) => x@ == y@,
        (PathPart::Index(x), PathPart::Index(y)) => x == y,
        _ => false,
    }
}

proof fn lemma_step_text(part: PathPart)
    requires
        plain_step(part),
    ensures
        path_part_text(part).len() > 0,
        forall|i: int| 0 <= i < path_part_text(part).len() ==> path_part_text(part)[i] != '.',
        forall|q: PathPart| reads_as(q, path_part_text(part)) ==> same_step(q, part),
{
    if let PathPart::Index(n) = part {
        lemma_decimal_digits(n as nat);
        lemma_decimal_text_reads_back(n);
        let t = path_part_text(part);
        assert forall|i: int| 0 <= i < t.len() implies t[i] != '.' by {
            assert(crate::text::is_digit(t[i]));
        }
    }
}

proof fn lemma_dotted_split(parts: Seq<PathPart>)
    requires
        forall|i: int| 0 <= i < parts.len() ==> plain_step(parts[i]),
    ensures
        split_on_dot(dotted_text(parts)) =~= seq![seq!['$']] + parts.map_values(|p: PathPart| path_part_text(p)),
    decreases parts.len(),
{
    if parts.len() == 0 {
        assert(seq!['$'].drop_last() =~= Seq::<char>::empty());
        reveal_with_fuel(split_on_dot, 2);
        assert(seq![Seq::<char>::empty()].last().push('$') =~= seq!['$']);
    } else {
        let prev = parts.drop_last();
        assert forall|i: int| 0 <= i < prev.len() implies plain_step(prev[i]) by {
            assert(prev[i] == parts[i]);
        }
        lemma_dotted_split(prev);
        lemma_step_text(parts.last());
        lemma_split_after_dot(dotted_text(prev), path_part_text(parts.last()));
    }
}

/// Writing a path in the grammar, with a dot before each step, and parsing
/// it gives the same steps back, when every step is one that the grammar
/// can write.
pub proof fn lemma_dotted_round_trip(parts: Seq<PathPart>, r: Result<Seq<PathPart>, JsonPathParseError>)
    requires
        forall|i: int| 0 <= i < parts.len() ==> plain_step(parts[i]),
        parsed_path(dotted_text(parts), r),
    ensures
        r matches Ok(q) && q.len() == parts.len() && forall|i: int| 0 <= i < q.len() ==> same_step(#[trigger] q[i], parts[i]),
{
    let s = dotted_text(parts);
    let texts = parts.map_values(|p: PathPart| path_part_text(p));
    lemma_dotted_split(parts);
    let toks = split_on_dot(s);
    assert(toks[0] == seq!['$']);
    if s.len() == 0 {
        assert(toks =~= seq![Seq::<char>::empty()]);
    }
    assert(toks.drop_first() =~= texts);
    assert forall|i: int| 0 <= i < texts.len() implies (#[trigger] texts[i]).len() > 0 by {
        lemma_step_text(parts[i]);
    }
    lemma_non_empty_keeps_all(texts);
    if let Ok(q) = r {
        assert forall|i: int| 0 <= i < q.len() implies same_step(#[trigger] q[i], parts[i]) by {
            lemma_step_text(parts[i]);
            assert(reads_as(q[i], texts[i]));
        }
    }
}

/// Appends the text of `part` to `out`.
fn push_part_text(part: &PathPart, out: &mut Vec<char>)
    ensures
        final(out)@ == old(out)@ + path_part_text(*part),
{
    match part {
        PathPart::Key(k) => {
            let mut cs = chars_of(k.as_str());
            out.append(&mut cs);
        },
        PathPart::Index(i) => push_decimal(*i, out),
    }
}

/// Walks `value` along the steps of `parts` from position `i` on, where
/// the walk is known to succeed, handing out the node reached for writing.
fn resolve_mut_from<'a>(parts: &Vec<PathPart>, i: usize, value: &'a mut JsonValue) -> (r: Result<&'a mut JsonValue, JsonPathResolveError>)
    requires
        i <= parts@.len(),
        resolve_parts(parts@.skip(i as int), *old(value)) is Ok,
    ensures
        r matches Ok(v) && resolve_parts(parts@.skip(i as int), *old(value)) == Ok::<JsonValue, JsonPathResolveError>(*v)
            && replaced_at(parts@.skip(i as int), *old(value), *final(value), *final(v)),
    decreases parts@.len() - i,
{
    if i == parts.len() {
        return Ok(value);
    }
    let part = &parts[i];
    assert(parts@.skip(i as int).drop_first() =~= parts@.skip(i + 1));
    assert(parts@.skip(i as int)[0] == *part);
    match value {
        JsonValue::Object(members) => match part {
            PathPart::Key(k) => match find_member(members, k) {
                Some(j) => {
                    let child = &mut members[j].1;
                    resolve_mut_from(parts, i + 1, child)
                },
                None => Err(JsonPathResolveError::MissingKey(k.clone())),
            },
            PathPart::Index(_) => Err(JsonPathResolveError::FailedToResolvePart(part.clone())),
        },
        JsonValue::Array(items) => match part {
            PathPart::Index(n) => {
                if *n < items.len() {
                    let child = &mut items[*n];
                    resolve_mut_from(parts, i + 1, child)
                } else {
                    Err(JsonPathResolveError::MissingIndex(*n))
                }
            },
            PathPart::Key(_) => Err(JsonPathResolveError::FailedToResolvePart(part.clone())),
        },
        _ => Err(JsonPathResolveError::FailedToResolvePart(part.clone())),
    }
}

impl Clone for JsonPath {
    fn clone(&self) -> (r: Self)
        ensures
            r@ == self@,
    {
        let parts = self.parts.clone();
        assert(parts@ =~= self.parts@);
        JsonPath { parts }
    }
}

impl Default for JsonPath {
    fn default() -> (r: Self)
        ensures
            r@ == Seq::<PathPart>::empty(),
    {
        JsonPath { parts: Vec::new() }
    }
}

impl JsonPath {
    /// A path of the given steps.
    pub fn from_parts(parts: Vec<PathPart>) -> (r: JsonPath)
        ensures
            r@ == parts@,
    {
        JsonPath { parts }
    }

    /// The steps of this path.
    pub fn parts(&self) -> (r: &Vec<PathPart>)
        ensures
            r@ == self@,
    {
        &self.parts
    }

    /// A path of the steps that the tokens read as, in order.
    pub fn from<const U: usize>(value: [&str; U]) -> (r: JsonPath)
        ensures
            r@.len() == U,
            forall|i: int| 0 <= i < U ==> reads_as(#[trigger] r@[i], value@[i]@),
    {
        let mut parts: Vec<PathPart> = Vec::new();
        let mut i: usize = 0;
        while i < U
            invariant
                i <= U,
                parts@.len() == i,
                forall|k: int| 0 <= k < i ==> reads_as(#[trigger] parts@[k], value@[k]@),
            decreases U - i,
        {
            let token = string_of(chars_of(value[i]).as_slice());
            parts.push(PathPart::from_text(token));
            i = i + 1;
        }
        JsonPath { parts }
    }

    /// Appends a step.
    pub fn push(&mut self, part: PathPart)
        ensures
            final(self)@ == old(self)@.push(part),
    {
        self.parts.push(part);
    }

    /// This path without its last step, or `None` at the root.
    pub fn parent(&self) -> (r: Option<JsonPath>)
        ensures
            self@.len() == 0 ==> r is None,
            self@.len() > 0 ==> (r matches Some(p) && p@ == self@.drop_last()),
    {
        if self.parts.len() == 0 {
            None
        } else {
            let mut local = self.clone();
            local.parts.pop();
            assert(local.parts@ =~= self@.drop_last());
            Some(local)
        }
    }

    /// Parses the text form `$.step.step...`; see [`parsed_path`].
    pub fn parse(s: &str) -> (r: Result<JsonPath, JsonPathParseError>)
        ensures
            parsed_path(
                s@,
                match r {
                    Ok(p) => Ok(p@),
                    Err(e) => Err(e),
                },
            ),
    {
        let cs = chars_of(s);
        if cs.len() == 0 {
            return Err(JsonPathParseError::MissingRoot);
        }
        let toks = split_dots(cs.as_slice());
        let ghost tv = split_on_dot(s@);
        let root = &toks[0];
        if !(root.len() == 1 && root[0] == '$') {
            assert(root@ != seq!['$']) by {
                if root@.len() == 1 {
                    assert(root@[0] != '$');
                }
            }
            return Err(JsonPathParseError::IncorrectRoot(string_of(root.as_slice())));
        }
        assert(root@ =~= seq!['$']);
        let mut parts: Vec<PathPart> = Vec::new();
        let mut i: usize = 1;
        while i < toks.len()
            invariant
                1 <= i <= toks@.len(),
                toks@.len() == tv.len(),
                forall|k: int| 0 <= k < toks@.len() ==> (#[trigger] toks@[k])@ == tv[k],
                parts_read_from(parts@, non_empty(tv.subrange(1, i as int))),
            decreases toks.len() - i,
        {
            let tok = &toks[i];
            let ghost prev = tv.subrange(1, i as int);
            let ghost next = tv.subrange(1, i + 1);
            assert(next.drop_last() == prev);
            assert(next.last() == tok@);
            if tok.len() > 0 {
                let part = PathPart::from_text(string_of(tok.as_slice()));
                parts.push(part);
            }
            i = i + 1;
        }
        assert(tv.subrange(1, tv.len() as int) == tv.drop_first());
        Ok(JsonPath { parts })
    }

    /// The text form of this path, as [`path_text`] says.
    pub fn to_string(&self) -> (r: String)
        ensures
            r@ == path_text(self@),
    {
        let mut out: Vec<char> = Vec::new();
        out.push('$');
        let mut i: usize = 0;
        while i < self.parts.len()
            invariant
                i <= self.parts@.len(),
                out@ == seq!['$'] + parts_text(self.parts@.take(i as int)),
            decreases self.parts.len() - i,
        {
            let ghost next = self.parts@.take(i + 1);
            assert(next.drop_last() == self.parts@.take(i as int));
            push_part_text(&self.parts[i], &mut out);
            i = i + 1;
        }
        assert(self.parts@.take(i as int) == self.parts@);
        string_of(out.as_slice())
    }

    /// The node that this path leads to in `value`; see [`resolve_parts`].
    pub fn resolve<'a>(&self, value: &'a JsonValue) -> (r: Result<&'a JsonValue, JsonPathResolveError>)
        ensures
            resolve_parts(self@, *value) == match r {
                Ok(v) => Ok(*v),
                Err(e) => Err(e),
            },
    {
        let mut cur: &'a JsonValue = value;
        let mut i: usize = 0;
        assert(self@.skip(0) =~= self@);
        while i < self.parts.len()
            invariant
                i <= self.parts@.len(),
                resolve_parts(self@, *value) == resolve_parts(self@.skip(i as int), *cur),
            decreases self.parts.len() - i,
        {
            let part = &self.parts[i];
            assert(self@.skip(i as int).drop_first() =~= self@.skip(i + 1));
            assert(self@.skip(i as int)[0] == *part);
            match cur {
                JsonValue::Object(members) => match part {
                    PathPart::Key(k) => match find_member(members, k) {
                        Some(j) => {
                            cur = &members[j].1;
                        },
                        None => {
                            return Err(JsonPathResolveError::MissingKey(k.clone()));
                        },
                    },
                    PathPart::Index(_) => {
                        return Err(JsonPathResolveError::FailedToResolvePart(part.clone()));
                    },
                },
                JsonValue::Array(items) => match part {
                    PathPart::Index(n) => {
                        if *n < items.len() {
                            cur = &items[*n];
                        } else {
                            return Err(JsonPathResolveError::MissingIndex(*n));
                        }
                    },
                    PathPart::Key(_) => {
                        return Err(JsonPathResolveError::FailedToResolvePart(part.clone()));
                    },
                },
                _ => {
                    return Err(JsonPathResolveError::FailedToResolvePart(part.clone()));
                },
            }
            i = i + 1;
        }
        assert(self@.skip(i as int).len() == 0);
        Ok(cur)
    }

    /// The node that this path leads to in `value`, handed out for writing;
    /// what is written there is all that changes in `value`.
    pub fn resolve_mut<'a>(&mut self, value: &'a mut JsonValue) -> (r: Result<&'a mut JsonValue, JsonPathResolveError>)
        ensures
            final(self)@ == old(self)@,
            match r {
                Ok(v) => {
                    &&& resolve_parts(old(self)@, *old(value)) == Ok::<JsonValue, JsonPathResolveError>(*v)
                    &&& replaced_at(old(self)@, *old(value), *final(value), *final(v))
                },
                Err(e) => {
                    &&& resolve_parts(old(self)@, *old(value)) == Err::<JsonValue, JsonPathResolveError>(e)
                    &&& *final(value) == *old(value)
                },
            },
    {
        if let Err(e) = self.resolve(value) {
            return Err(e);
        }
        assert(self.parts@.skip(0) =~= self.parts@);
        resolve_mut_from(&self.parts, 0, value)
    }
}

impl std::str::FromStr for JsonPath {
    type Err = JsonPathParseError;

    fn from_str(s: &str) -> Result<JsonPath, JsonPathParseError> {
        JsonPath::parse(s)
    }
}

} // verus!
