//! A JSON value as the library reads it: Jira's issue `fields` object, whose
//! custom fields are only known at run time. Numbers keep what the logic
//! reads of them: their value when it is an integer that fits `i64`.

use vstd::prelude::*;

use serde_json::Value;

use crate::text;

verus! {

pub enum JsonValue {
    Null,
    Bool(bool),
    /// A number; `Some` when it is an integer in `i64`'s range.
    Number(Option<i64>),
    Str(String),
    Array(Vec<JsonValue>),
    /// An object's members, each key once.
    Object(Vec<(String, JsonValue)>),
}

/// The value under `key` in an object's members (the first member so named).
pub open spec fn member(entries: Seq<(String, JsonValue)>, key: Seq<char>) -> Option<JsonValue>
    decreases entries.len(),
{
    if entries.len() == 0 {
        None
    } else if entries[0].0@ == key {
        Some(entries[0].1)
    } else {
        member(entries.drop_first(), key)
    }
}

pub open spec fn get_spec(v: JsonValue, key: Seq<char>) -> Option<JsonValue> {
    match v {
        JsonValue::Object(entries) => member(entries@, key),
        _ => None,
    }
}

pub open spec fn str_spec(v: JsonValue) -> Option<Seq<char>> {
    match v {
        JsonValue::Str(s) => Some(s@),
        _ => None,
    }
}

/// Follows a path of object keys.
pub open spec fn path_spec(v: JsonValue, path: Seq<Seq<char>>) -> Option<JsonValue>
    decreases path.len(),
{
    if path.len() == 0 {
        Some(v)
    } else {
        match get_spec(v, path[0]) {
            Some(inner) => path_spec(inner, path.drop_first()),
            None => None,
        }
    }
}

/// The string at the end of a path of object keys.
pub open spec fn path_str_spec(v: JsonValue, path: Seq<Seq<char>>) -> Option<Seq<char>> {
    match path_spec(v, path) {
        Some(x) => str_spec(x),
        None => None,
    }
}

impl JsonValue {
    /// `serde_json::Value::get` with a key: the member of an object.
    pub fn get(&self, key: &str) -> (r: Option<&JsonValue>)
        ensures
            r matches Some(x) ==> get_spec(*self, key@) == Some(*x),
            r is None ==> get_spec(*self, key@) is None,
    {
        match self {
            JsonValue::Object(entries) => {
                let k = text::chars_of(key);
                let mut i: usize = 0;
                assert(entries@.subrange(0, entries.len() as int) =~= entries@);
                while i < entries.len()
                    invariant
                        i <= entries.len(),
                        k@ == key@,
                        get_spec(*self, key@) == member(entries@, key@),
                        member(entries@, key@) == member(entries@.subrange(i as int, entries.len() as int), key@),
                    decreases entries.len() - i,
                {
                    let ghost rest = entries@.subrange(i as int, entries.len() as int);
                    assert(rest.drop_first() =~= entries@.subrange(i + 1, entries.len() as int));
                    let name = text::chars_of(entries[i].0.as_str());
                    assert(rest[0] == entries@[i as int]);
                    if text::seq_eq(&name, &k) {
                        assert(rest.len() > 0);
                        assert(rest[0].0@ == key@);
                        assert(member(rest, key@) == Some(entries@[i as int].1));
                        return Some(&entries[i].1);
                    }
                    i = i + 1;
                }
                None
            },
            _ => None,
        }
    }

    pub fn as_str(&self) -> (r: Option<&String>)
        ensures
            r matches Some(s) ==> str_spec(*self) == Some(s@),
            r is None ==> str_spec(*self) is None,
    {
        match self {
            JsonValue::Str(s) => Some(s),
            _ => None,
        }
    }

    pub fn is_number(&self) -> (r: bool)
        ensures
            r == (*self is Number),
    {
        match self {
            JsonValue::Number(_) => true,
            _ => false,
        }
    }
}

/// The string at the end of a path of object keys (`get_str` of the mapper).
pub fn get_str(v: &JsonValue, path: &Vec<&str>) -> (r: Option<String>)
    ensures
        r matches Some(s) ==> path_str_spec(*v, path@.map_values(|p: &str| p@)) == Some(s@),
        r is None ==> path_str_spec(*v, path@.map_values(|p: &str| p@)) is None,
{
    let ghost keys = path@.map_values(|p: &str| p@);
    let mut cur: &JsonValue = v;
    let mut i: usize = 0;
    assert(keys.subrange(0, keys.len() as int) =~= keys);
    while i < path.len()
        invariant
            i <= path.len(),
            keys == path@.map_values(|p: &str| p@),
            path_spec(*v, keys) == path_spec(*cur, keys.subrange(i as int, keys.len() as int)),
        decreases path.len() - i,
    {
        let ghost rest = keys.subrange(i as int, keys.len() as int);
        assert(rest.drop_first() =~= keys.subrange(i + 1, keys.len() as int));
        assert(rest[0] == path@[i as int]@);
        match cur.get(path[i]) {
            Some(next) => {
                cur = next;
            },
            None => {
                return None;
            },
        }
        i = i + 1;
    }
    assert(keys.subrange(path.len() as int, keys.len() as int) =~= Seq::<Seq<char>>::empty());
    match cur.as_str() {
        Some(s) => Some(s.clone()),
        None => None,
    }
}

/// The value `serde_json::from_str::<serde_json::Value>` reads from a text
/// (`None` when it is not JSON), numbers kept as `Number` says.
pub uninterp spec fn json_document(text: Seq<char>) -> Option<JsonValue>;

/// `serde_json::from_str::<serde_json::Value>`, converted member by member:
/// each element or member value is converted the same way, through its own
/// JSON text. The result is named, not stated.
#[verifier::external_body]
pub(crate) fn parse_json(text: &str) -> (r: Option<JsonValue>)
    ensures
        r == json_document(text@),
{
    let v: Value = serde_json::from_str(text).ok()?;
    Some(match v {
        Value::Null => JsonValue::Null,
        Value::Bool(b) => JsonValue::Bool(b),
        Value::Number(n) => JsonValue::Number(n.as_i64()),
        Value::String(s) => JsonValue::Str(s),
        Value::Array(a) => JsonValue::Array(a.iter().map(|x| parse_json(&x.to_string())).collect::<Option<_>>()?),
        Value::Object(m) => JsonValue::Object(
            m.iter().map(|(k, x)| Some((k.clone(), parse_json(&x.to_string())?))).collect::<Option<_>>()?,
        ),
    })
}

} // verus!
