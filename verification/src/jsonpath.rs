use crate::text::push_char;
use serde_json::Value;
use vstd::prelude::*;

verus! {

/// One step of a dotted path into a JSON document: an array position or an
/// object member.
#[derive(Debug, PartialEq, Eq)]
pub enum PathStep {
    Index(usize),
    Key(String),
}

/// The pieces of `s` between dots, as `str::split('.')` gives them: one more
/// piece than there are dots, empty pieces included.
pub open spec fn split_dots(s: Seq<char>) -> Seq<Seq<char>>
    decreases s.len(),
{
    if s.len() == 0 {
        seq![Seq::<char>::empty()]
    } else {
        let pre = split_dots(s.drop_last());
        if s.last() == '.' {
            pre.push(Seq::empty())
        } else {
            pre.update(pre.len() - 1, pre.last().push(s.last()))
        }
    }
}

/// Whether `c` is an ASCII decimal digit.
pub open spec fn is_digit(c: char) -> bool {
    '0' <= c <= '9'
}

/// The number written by the decimal digits `d`.
pub open spec fn digits_value(d: Seq<char>) -> nat
    decreases d.len(),
{
    if d.len() == 0 {
        0
    } else {
        digits_value(d.drop_last()) * 10 + (d.last() as nat - '0' as nat) as nat
    }
}

/// The digits of a number text, after an optional leading `+`.
pub open spec fn unsigned_digits(s: Seq<char>) -> Seq<char> {
    if s.len() > 0 && s[0] == '+' {
        s.drop_first()
    } else {
        s
    }
}

/// The position a path piece names, as `usize::from_str` reads it: an optional
/// `+`, then at least one decimal digit and nothing else, with a value that
/// fits in `usize`.
pub open spec fn parse_index(s: Seq<char>) -> Option<usize> {
    let d = unsigned_digits(s);
    if d.len() > 0 && (forall|i: int| 0 <= i < d.len() ==> is_digit(#[trigger] d[i])) && digits_value(d) <= usize::MAX {
        Some(digits_value(d) as usize)
    } else {
        None
    }
}

/// The number a path piece names, if it names one.
fn read_index(seg: &str) -> (r: Option<usize>)
    ensures
        r == parse_index(seg@),
{
    let ghost s = seg@;
    let mut value: usize = 0;
    let mut too_big = false;
    let mut bad = false;
    let mut any_digit = false;
    let mut first = true;
    for c in it: seg.chars()
        invariant
            it.seq() == s,
            first == (it.index() == 0),
            ({
                let d = unsigned_digits(s.take(it.index() as int));
                &&& any_digit == (d.len() > 0)
                &&& bad == !(forall|i: int| 0 <= i < d.len() ==> is_digit(#[trigger] d[i]))
                &&& !bad && !too_big ==> value == digits_value(d)
                &&& !bad && too_big ==> digits_value(d) > usize::MAX
            }),
    {
        let ghost k = it.index();
        let ghost p0 = s.take(k as int);
        let ghost p1 = s.take(k + 1);
        proof {
            assert(p1.drop_last() == p0);
            assert(p1.last() == c);
            if s.len() > 0 && s[0] == '+' && k >= 1 {
                assert(unsigned_digits(p1) == unsigned_digits(p0).push(c));
            }
        }
        if first && c == '+' {
            proof {
                assert(unsigned_digits(p1) =~= Seq::<char>::empty());
                assert(unsigned_digits(p0) =~= Seq::<char>::empty());
            }
        } else if '0' <= c && c <= '9' {
            proof {
                assert(unsigned_digits(p1) =~= unsigned_digits(p0).push(c));
                let d1 = unsigned_digits(p1);
                assert(d1.drop_last() == unsigned_digits(p0));
            }
            let dv = (c as u32 - '0' as u32) as usize;
            if !bad && !too_big {
                match value.checked_mul(10) {
                    Some(t) => match t.checked_add(dv) {
                        Some(v) => {
                            value = v;
                        },
                        None => {
                            too_big = true;
                        },
                    },
                    None => {
                        too_big = true;
                    },
                }
            }
            any_digit = true;
        } else {
            proof {
                if !(first && c == '+') {
                    assert(unsigned_digits(p1) =~= unsigned_digits(p0).push(c));
                }
                let d1 = unsigned_digits(p1);
                assert(!is_digit(d1[d1.len() - 1]));
            }
            bad = true;
            any_digit = true;
        }
        first = false;
    }
    proof {
        assert(s.take(s.len() as int) == s);
    }
    if bad || too_big || !any_digit {
        None
    } else {
        Some(value)
    }
}

/// The step a path piece stands for: a position when it reads as one, a member
/// name otherwise.
pub open spec fn step_matches(step: PathStep, piece: Seq<char>) -> bool {
    match step {
        PathStep::Index(n) => parse_index(piece) == Some(n),
        PathStep::Key(k) => parse_index(piece) is None && k@ == piece,
    }
}

/// The steps of a dotted path such as `choices.0.message.content`: the path is
/// cut at every dot, and each piece that reads as a number is a position.
pub fn json_path_steps(path: &str) -> (r: Vec<PathStep>)
    ensures
        r@.len() == split_dots(path@).len(),
        forall|i: int| 0 <= i < r@.len() ==> step_matches(#[trigger] r@[i], split_dots(path@)[i]),
{
    let ghost s = path@;
    let mut pieces: Vec<String> = Vec::new();
    let mut current = String::new();
    for c in it: path.chars()
        invariant
            it.seq() == s,
            split_dots(s.take(it.index() as int)) == pieces@.map_values(|p: String| p@).push(current@),
    {
        let ghost k = it.index();
        proof {
            assert(s.take(k + 1).drop_last() == s.take(k as int));
            assert(s.take(k + 1).last() == c);
        }
        if c == '.' {
            let done = current;
            pieces.push(done);
            current = String::new();
            proof {
                assert(split_dots(s.take(k + 1)) =~= pieces@.map_values(|p: String| p@).push(current@));
            }
        } else {
            let ghost before = current@;
            push_char(&mut current, c);
            proof {
                let pre = split_dots(s.take(k as int));
                assert(pre.last() == before);
                assert(split_dots(s.take(k + 1)) =~= pieces@.map_values(|p: String| p@).push(current@));
            }
        }
    }
    pieces.push(current);
    proof {
        assert(s.take(s.len() as int) == s);
        assert(pieces@.map_values(|p: String| p@) =~= split_dots(s));
    }
    let mut steps: Vec<PathStep> = Vec::new();
    let mut i: usize = 0;
    while i < pieces.len()
        invariant
            i <= pieces@.len(),
            pieces@.map_values(|p: String| p@) == split_dots(s),
            steps@.len() == i,
            forall|j: int| 0 <= j < i ==> step_matches(#[trigger] steps@[j], split_dots(s)[j]),
        decreases pieces@.len() - i,
    {
        proof {
            assert(pieces@.map_values(|p: String| p@)[i as int] == pieces@[i as int]@);
        }
        let step = match read_index(pieces[i].as_str()) {
            Some(n) => PathStep::Index(n),
            None => PathStep::Key(pieces[i].clone()),
        };
        steps.push(step);
        i += 1;
    }
    steps
}

#[verifier::external_type_specification]
#[verifier::external_body]
pub struct ExJsonValue(Value);

/// A JSON value as the library reads it: a string by its text, `null`, and every
/// number, boolean, array and object by its compact JSON notation, arrays and
/// objects with their parts (an object's members in the order the parser keeps,
/// each name once).
pub enum JsonNode {
    Null,
    Text(String),
    /// A number or a boolean.
    Scalar(String),
    Array(Vec<JsonNode>, String),
    Object(Vec<(String, JsonNode)>, String),
}

/// The document that `serde_json::from_str::<Value>` reads from the text, as a
/// `JsonNode`; `None` when the text is no JSON document.
pub uninterp spec fn json_document(text: Seq<char>) -> Option<JsonNode>;

/// `serde_json::from_str::<Value>`, the value converted by `json_node`: its
/// result is named by `json_document` of the text.
#[verifier::external_body]
pub(crate) fn parse_json(text: &str) -> (r: Option<JsonNode>)
    ensures
        r == json_document(text@),
{
    serde_json::from_str::<Value>(text).ok().map(json_node)
}

/// Converts a parsed `Value` variant by variant, keeping `Value`'s `Display`
/// (compact JSON) text for numbers, booleans, arrays and objects. Only
/// `parse_json` converts with it; what it gives is stated there, by name.
#[verifier::external_body]
fn json_node(v: Value) -> JsonNode {
    let compact = v.to_string();
    match v {
        Value::Null => JsonNode::Null,
        Value::String(s) => JsonNode::Text(s),
        Value::Bool(_) | Value::Number(_) => JsonNode::Scalar(compact),
        Value::Array(a) => JsonNode::Array(a.into_iter().map(json_node).collect(), compact),
        Value::Object(m) => JsonNode::Object(m.into_iter().map(|(k, x)| (k, json_node(x))).collect(), compact),
    }
}

/// The first of `members` named `k`.
pub open spec fn member_named(members: Seq<(String, JsonNode)>, k: Seq<char>) -> Option<JsonNode>
    decreases members.len(),
{
    if members.len() == 0 {
        None
    } else if members[0].0@ == k {
        Some(members[0].1)
    } else {
        member_named(members.drop_first(), k)
    }
}

/// What a path piece picks out of `v`: when the piece reads as a position, that
/// element of an array; otherwise the member of an object with that name; `null`
/// where there is none.
pub open spec fn json_step(v: JsonNode, piece: Seq<char>) -> JsonNode {
    match parse_index(piece) {
        Some(n) => match v {
            JsonNode::Array(items, _) => if n < items@.len() {
                items@[n as int]
            } else {
                JsonNode::Null
            },
            _ => JsonNode::Null,
        },
        None => match v {
            JsonNode::Object(members, _) => match member_named(members@, piece) {
                Some(x) => x,
                None => JsonNode::Null,
            },
            _ => JsonNode::Null,
        },
    }
}

/// The value reached from `v` along the path pieces, in order.
pub open spec fn json_walk(v: JsonNode, pieces: Seq<Seq<char>>) -> JsonNode
    decreases pieces.len(),
{
    if pieces.len() == 0 {
        v
    } else {
        json_step(json_walk(v, pieces.drop_last()), pieces.last())
    }
}

/// The text a value reads as: a string as it is, `null` as nothing, anything
/// else in compact JSON notation.
pub open spec fn json_text(v: JsonNode) -> Seq<char> {
    match v {
        JsonNode::Null => Seq::empty(),
        JsonNode::Text(s) => s@,
        JsonNode::Scalar(c) => c@,
        JsonNode::Array(_, c) => c@,
        JsonNode::Object(_, c) => c@,
    }
}

/// The text found along the dotted path in the document `doc` (`(parse error)`
/// when there is no document).
pub open spec fn path_text(doc: Option<JsonNode>, path: Seq<char>) -> Seq<char> {
    match doc {
        None => "(parse error)"@,
        Some(d) => json_text(json_walk(d, split_dots(path))),
    }
}

/// Removing a member with another name leaves the first member named `k` as it was.
proof fn lemma_member_named_remove(m: Seq<(String, JsonNode)>, p: int, k: Seq<char>)
    requires
        0 <= p < m.len(),
        m[p].0@ != k,
    ensures
        member_named(m.remove(p), k) == member_named(m, k),
    decreases m.len(),
{
    if p == 0 {
        assert(m.remove(0) == m.drop_first());
    } else {
        assert(m.remove(p)[0] == m[0]);
        if m[0].0@ != k {
            assert(m.remove(p).drop_first() == m.drop_first().remove(p - 1));
            lemma_member_named_remove(m.drop_first(), p - 1, k);
        }
    }
}

/// Moves the first of `members` named `key` out of the list; the first member of
/// every other name stays as it was.
pub fn take_member(members: &mut Vec<(String, JsonNode)>, key: &str) -> (r: Option<JsonNode>)
    ensures
        r == member_named(old(members)@, key@),
        forall|k: Seq<char>| k != key@ ==> #[trigger] member_named(final(members)@, k) == member_named(old(members)@, k),
{
    match member_position(members, key) {
        Some(p) => {
            let ghost m = members@;
            let (_name, x) = members.remove(p);
            proof {
                assert forall|k: Seq<char>| k != key@ implies #[trigger] member_named(members@, k) == member_named(m, k) by {
                    lemma_member_named_remove(m, p as int, k);
                }
            }
            Some(x)
        },
        None => None,
    }
}

/// The position of the first of `members` named `k`.
pub(crate) fn member_position(members: &Vec<(String, JsonNode)>, k: &str) -> (r: Option<usize>)
    ensures
        match r {
            Some(p) => p < members@.len() && member_named(members@, k@) == Some(members@[p as int].1)
                && members@[p as int].0@ == k@,
            None => member_named(members@, k@) is None,
        },
{
    let ghost m = members@;
    proof {
        assert(m.subrange(0, m.len() as int) == m);
    }
    let mut i: usize = 0;
    while i < members.len()
        invariant
            m == members@,
            i <= m.len(),
            member_named(m, k@) == member_named(m.subrange(i as int, m.len() as int), k@),
        decreases m.len() - i,
    {
        let ghost rest = m.subrange(i as int, m.len() as int);
        proof {
            assert(rest[0] == m[i as int]);
            assert(rest.drop_first() == m.subrange(i + 1, m.len() as int));
        }
        if crate::text::str_eq(members[i].0.as_str(), k) {
            return Some(i);
        }
        i += 1;
    }
    proof {
        assert(m.subrange(i as int, m.len() as int).len() == 0);
    }
    None
}

/// The text found in the document `doc` along the dotted path `path`: each piece
/// that reads as a position takes that element of an array, any other piece the
/// member of an object with that name (`null` where there is none); a string found
/// is given as it is, `null` as nothing, anything else in compact JSON notation.
pub fn json_path_text(doc: &JsonNode, path: &str) -> (r: String)
    ensures
        r@ == json_text(json_walk(*doc, split_dots(path@))),
{
    let steps = json_path_steps(path);
    let ghost pieces = split_dots(path@);
    let null = JsonNode::Null;
    let mut cur: &JsonNode = doc;
    let mut i: usize = 0;
    while i < steps.len()
        invariant
            i <= steps@.len(),
            steps@.len() == pieces.len(),
            forall|j: int| 0 <= j < steps@.len() ==> step_matches(#[trigger] steps@[j], pieces[j]),
            *cur == json_walk(*doc, pieces.take(i as int)),
            null == JsonNode::Null,
        decreases steps@.len() - i,
    {
        proof {
            assert(pieces.take(i + 1).drop_last() == pieces.take(i as int));
            assert(pieces.take(i + 1).last() == pieces[i as int]);
            assert(step_matches(steps@[i as int], pieces[i as int]));
        }
        let next: &JsonNode = match &steps[i] {
            PathStep::Index(n) => match cur {
                JsonNode::Array(items, _) => if *n < items.len() {
                    &items[*n]
                } else {
                    &null
                },
                _ => &null,
            },
            PathStep::Key(k) => match cur {
                JsonNode::Object(members, _) => match member_position(members, k.as_str()) {
                    Some(p) => &members[p].1,
                    None => &null,
                },
                _ => &null,
            },
        };
        cur = next;
        i += 1;
    }
    proof {
        assert(pieces.take(pieces.len() as int) == pieces);
    }
    match cur {
        JsonNode::Null => String::new(),
        JsonNode::Text(s) => s.clone(),
        JsonNode::Scalar(c) => c.clone(),
        JsonNode::Array(_, c) => c.clone(),
        JsonNode::Object(_, c) => c.clone(),
    }
}

/// The text found in the JSON document `json_str` along the dotted path `path`,
/// as `json_path_text` reads it; text that is no JSON document gives
/// `(parse error)`.
pub fn extract_json_path(json_str: &str, path: &str) -> (r: String)
    ensures
        r@ == path_text(json_document(json_str@), path@),
{
    match parse_json(json_str) {
        Some(doc) => json_path_text(&doc, path),
        None => "(parse error)".to_owned(),
    }
}

} // verus!
