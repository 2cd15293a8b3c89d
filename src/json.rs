//! A JSON document tree, and the parse of JSON text into it.
use vstd::prelude::*;

verus! {

/// A JSON value. Numbers keep their text; an object keeps its members in
/// order.
#[derive(Debug)]
pub enum JsonValue {
    Null,
    Bool(bool),
    Number(String),
    Str(String),
    Array(Vec<JsonValue>),
    Object(Vec<(String, JsonValue)>),
}

/// Value of the last member of `ms` named `key`.
pub open spec fn member(ms: Seq<(String, JsonValue)>, key: Seq<char>) -> Option<JsonValue>
    decreases ms.len(),
{
    if ms.len() == 0 {
        None
    } else if ms.last().0@ == key {
        Some(ms.last().1)
    } else {
        member(ms.drop_last(), key)
    }
}

/// The member `key` of `v` when `v` is an object.
pub open spec fn json_get(v: JsonValue, key: Seq<char>) -> Option<JsonValue> {
    match v {
        JsonValue::Object(ms) => member(ms@, key),
        _ => None,
    }
}

pub proof fn lemma_member_within(ms: Seq<(String, JsonValue)>, key: Seq<char>)
    ensures
        member(ms, key) matches Some(x) ==> exists|j: int| 0 <= j < ms.len() && (#[trigger] ms[j]).1 == x,
    decreases ms.len(),
{
    if ms.len() > 0 && ms.last().0@ != key {
        lemma_member_within(ms.drop_last(), key);
        if let Some(x) = member(ms, key) {
            let j = choose|j: int| 0 <= j < ms.drop_last().len() && (#[trigger] ms.drop_last()[j]).1 == x;
            assert(ms[j] == ms.drop_last()[j]);
        }
    } else if ms.len() > 0 {
        assert(ms[ms.len() - 1] == ms.last());
    }
}

/// Text of `v` when it is a JSON string.
pub open spec fn str_of(v: Option<JsonValue>) -> Option<Seq<char>> {
    match v {
        Some(JsonValue::Str(s)) => Some(s@),
        _ => None,
    }
}

/// `o`'s text, or `default` when there is none.
pub open spec fn text_or(o: Option<Seq<char>>, default: Seq<char>) -> Seq<char> {
    match o {
        Some(t) => t,
        None => default,
    }
}

/// The member `key` of `v`, when `v` is an object that has one.
pub fn get_member<'a>(v: &'a JsonValue, key: &str) -> (r: Option<&'a JsonValue>)
    ensures
        match r {
            Some(x) => json_get(*v, key@) == Some(*x),
            None => json_get(*v, key@) is None,
        },
{
    match v {
        JsonValue::Object(ms) => {
            let k = key.to_owned();
            let mut i: usize = ms.len();
            assert(ms@.take(i as int) =~= ms@);
            while i > 0
                invariant
                    i <= ms.len(),
                    k@ == key@,
                    json_get(*v, key@) == member(ms@, key@),
                    member(ms@, key@) == member(ms@.take(i as int), key@),
                decreases i,
            {
                assert(ms@.take(i as int).drop_last() =~= ms@.take(i - 1));
                assert(ms@.take(i as int).last() == ms@[i - 1]);
                if ms[i - 1].0 == k {
                    assert(member(ms@.take(i as int), key@) == Some(ms@[i - 1].1));
                    return Some(&ms[i - 1].1);
                }
                i = i - 1;
            }
            assert(ms@.take(0) =~= Seq::<(String, JsonValue)>::empty());
            None
        },
        _ => None,
    }
}

/// The member `key` of `v` when it is a JSON string.
pub fn get_str<'a>(v: &'a JsonValue, key: &str) -> (r: Option<&'a String>)
    ensures
        match r {
            Some(s) => str_of(json_get(*v, key@)) == Some(s@),
            None => str_of(json_get(*v, key@)) is None,
        },
{
    match get_member(v, key) {
        Some(JsonValue::Str(s)) => Some(s),
        _ => None,
    }
}

/// What serde_json makes of `text`: the document tree, or nothing when the
/// text is not JSON.
pub uninterp spec fn json_document(text: Seq<char>) -> Option<JsonValue>;

#[verifier::external_type_specification]
#[verifier::external_body]
pub struct ExJsonValue(serde_json::Value);

/// Relies on serde_json::Value's six variants, each copied into the
/// `JsonValue` variant of the same name (a number as its text).
#[verifier::external_body]
fn tree_of(v: serde_json::Value) -> JsonValue {
    match v {
        serde_json::Value::Null => JsonValue::Null,
        serde_json::Value::Bool(b) => JsonValue::Bool(b),
        serde_json::Value::Number(n) => JsonValue::Number(n.to_string()),
        serde_json::Value::String(s) => JsonValue::Str(s),
        serde_json::Value::Array(a) => JsonValue::Array(a.into_iter().map(tree_of).collect()),
        serde_json::Value::Object(m) => JsonValue::Object(m.into_iter().map(|(k, x)| (k, tree_of(x))).collect()),
    }
}

/// Relies on serde_json::from_str into a serde_json::Value: the outcome
/// depends on the text alone; on failure the parser's reason is returned.
#[verifier::external_body]
pub(crate) fn parse_json(text: &str) -> (r: Result<JsonValue, String>)
    ensures
        match r {
            Ok(v) => json_document(text@) == Some(v),
            Err(_) => json_document(text@) is None,
        },
{
    match serde_json::from_str::<serde_json::Value>(text) {
        Ok(v) => Ok(tree_of(v)),
        Err(e) => Err(e.to_string()),
    }
}

} // verus!
