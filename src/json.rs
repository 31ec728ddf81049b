//! The JSON documents that the sources store, as values the library can
//! reason about; reading and writing their text is left to `serde_json`.

use vstd::prelude::*;

verus! {

#[verifier::external_type_specification]
#[verifier::external_body]
pub struct ExNumber(serde_json::Number);

#[verifier::external_type_specification]
#[verifier::external_body]
pub struct ExValue(serde_json::Value);

/// A JSON number: its integer readings, and the number itself, carried
/// through unchanged so that writing the document back loses nothing.
pub struct JsonNumber {
    pub int: Option<i64>,
    pub uint: Option<u64>,
    pub raw: serde_json::Number,
}

/// A JSON value. An object keeps its members in the order it was given
/// them; text parsed by `parse_json` yields them sorted by key, as
/// serde_json's default map does.
pub enum Json {
    Null,
    Bool(bool),
    Number(JsonNumber),
    Str(String),
    Array(Vec<Json>),
    Object(Vec<(String, Json)>),
}

/// The value that parsing `text` as JSON yields, `None` for text that is not
/// JSON.
pub uninterp spec fn json_parsed(text: Seq<char>) -> Option<Json>;

/// The compact text that `doc` is written as.
pub uninterp spec fn json_rendered(doc: Json) -> Seq<char>;

/// Relies on `serde_json::Value`'s variants and `serde_json::Number`'s
/// `as_i64`/`as_u64`: the same value, one variant for one.
#[verifier::external_body]
fn json_from_value(v: serde_json::Value) -> Json {
    match v {
        serde_json::Value::Null => Json::Null,
        serde_json::Value::Bool(b) => Json::Bool(b),
        serde_json::Value::Number(n) => Json::Number(JsonNumber { int: n.as_i64(), uint: n.as_u64(), raw: n }),
        serde_json::Value::String(s) => Json::Str(s),
        serde_json::Value::Array(a) => Json::Array(a.into_iter().map(json_from_value).collect()),
        serde_json::Value::Object(m) => Json::Object(m.into_iter().map(|(k, x)| (k, json_from_value(x))).collect()),
    }
}

/// Relies on `serde_json::Value`'s variants: the same value, one variant for
/// one.
#[verifier::external_body]
fn json_into_value(j: &Json) -> serde_json::Value {
    match j {
        Json::Null => serde_json::Value::Null,
        Json::Bool(b) => serde_json::Value::Bool(*b),
        Json::Number(n) => serde_json::Value::Number(n.raw.clone()),
        Json::Str(s) => serde_json::Value::String(s.clone()),
        Json::Array(a) => serde_json::Value::Array(a.iter().map(json_into_value).collect()),
        Json::Object(m) => serde_json::Value::Object(m.iter().map(|(k, x)| (k.clone(), json_into_value(x))).collect()),
    }
}

/// Relies on `serde_json::from_str`: parses `text` as one JSON value.
#[verifier::external_body]
pub(crate) fn parse_json(text: &str) -> (r: Option<Json>)
    ensures
        r == json_parsed(text@),
{
    serde_json::from_str::<serde_json::Value>(text).ok().map(json_from_value)
}

/// Relies on `serde_json::to_string`: writes `doc` as compact JSON text.
#[verifier::external_body]
pub(crate) fn render_json(doc: &Json) -> (r: String)
    ensures
        r@ == json_rendered(*doc),
{
    serde_json::to_string(&json_into_value(doc)).unwrap_or_default()
}

/// The value of member `key` of an object: its first member of that name;
/// `None` for a value that is not an object.
pub open spec fn obj_lookup(members: Seq<(String, Json)>, key: Seq<char>) -> Option<Json>
    decreases members.len(),
{
    if members.len() == 0 {
        None
    } else if members[0].0@ == key {
        Some(members[0].1)
    } else {
        obj_lookup(members.drop_first(), key)
    }
}

impl Json {
    /// Member `key` of this value, where it is an object that has one.
    pub open spec fn field(self, key: Seq<char>) -> Option<Json> {
        match self {
            Json::Object(m) => obj_lookup(m@, key),
            _ => None,
        }
    }

    /// This value's text, where it is a string.
    pub open spec fn str_view(self) -> Option<Seq<char>> {
        match self {
            Json::Str(s) => Some(s@),
            _ => None,
        }
    }

    /// Member `key`, where this value is an object that has one.
    pub fn get(&self, key: &str) -> (r: Option<&Json>)
        ensures
            match r {
                Some(x) => self.field(key@) == Some(*x),
                None => self.field(key@) is None,
            },
    {
        match self {
            Json::Object(m) => {
                let mut i: usize = 0;
                assert(m@.skip(0) =~= m@);
                while i < m.len()
                    invariant
                        i <= m.len(),
                        self.field(key@) == obj_lookup(m@, key@),
                        obj_lookup(m@.skip(i as int), key@) == obj_lookup(m@, key@),
                    decreases m.len() - i,
                {
                    let k = crate::text::chars_of(m[i].0.as_str());
                    let q = crate::text::chars_of(key);
                    assert(m@.skip(i as int).drop_first() =~= m@.skip(i + 1));
                    assert(m@.skip(i as int)[0] == m@[i as int]);
                    if crate::text::chars_eq(&k, &q) {
                        assert(obj_lookup(m@.skip(i as int), key@) == Some(m@[i as int].1));
                        return Some(&m[i].1);
                    }
                    i = i + 1;
                }
                None
            },
            _ => None,
        }
    }

    /// This value's text, where it is a string.
    pub fn as_str(&self) -> (r: Option<&String>)
        ensures
            match r {
                Some(s) => self.str_view() == Some(s@),
                None => self.str_view() is None,
            },
    {
        match self {
            Json::Str(s) => Some(s),
            _ => None,
        }
    }
}

} // verus!
