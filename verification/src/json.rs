//! JSON values as the subtitle logic reads them. Parsing and string quoting
//! are done by `serde_json`; what the logic takes out of a value is verified.
use vstd::prelude::*;

use crate::text::str_eq;

verus! {

/// A JSON number: a non-negative integer, a negative integer, or any other
/// (fractional, exponent or out-of-range) number.
#[derive(Debug)]
pub enum JsonNumber {
    PosInt(u64),
    NegInt(i64),
    Other,
}

/// A parsed JSON value. Object members are kept in the order `serde_json`
/// gives them, with each key once.
#[derive(Debug)]
pub enum Json {
    Null,
    Bool(bool),
    Number(JsonNumber),
    Str(String),
    Array(Vec<Json>),
    Object(Vec<(String, Json)>),
}

#[verifier::external_type_specification]
#[verifier::external_body]
pub struct ExJsonError(serde_json::Error);

#[verifier::external_type_specification]
#[verifier::external_body]
pub struct ExJsonValue(serde_json::Value);

/// What `serde_json::from_str::<serde_json::Value>` gives for a text, as a
/// `Json` tree, or `None` where it fails.
pub uninterp spec fn json_of_text(text: Seq<char>) -> Option<Json>;

/// A lowercase hexadecimal digit.
pub open spec fn hex_lower(d: u32) -> char {
    if d < 10 {
        (48 + d) as char
    } else {
        (87 + d) as char
    }
}

/// How `serde_json` writes one character inside a string literal: `"` and
/// `\` and the control characters below U+0020 escaped (the usual short
/// forms for backspace, tab, line feed, form feed and carriage return,
/// `\u00xx` with lowercase hex for the others), every other character as
/// it is.
pub open spec fn json_char_escape(c: char) -> Seq<char> {
    if c == '"' {
        seq!['\\', '"']
    } else if c == '\\' {
        seq!['\\', '\\']
    } else if c == '\u{8}' {
        seq!['\\', 'b']
    } else if c == '\t' {
        seq!['\\', 't']
    } else if c == '\n' {
        seq!['\\', 'n']
    } else if c == '\u{c}' {
        seq!['\\', 'f']
    } else if c == '\r' {
        seq!['\\', 'r']
    } else if (c as u32) < 0x20 {
        seq!['\\', 'u', '0', '0', hex_lower((c as u32) / 16), hex_lower((c as u32) % 16)]
    } else {
        seq![c]
    }
}

/// The characters of a string, each written as `json_char_escape` writes it.
pub open spec fn json_escaped(s: Seq<char>) -> Seq<char>
    decreases s.len(),
{
    if s.len() == 0 {
        seq![]
    } else {
        json_escaped(s.drop_last()) + json_char_escape(s.last())
    }
}

/// What `serde_json::to_string` writes for a string: the escaped characters
/// between double quotes.
pub open spec fn json_string_literal(s: Seq<char>) -> Seq<char> {
    seq!['"'] + json_escaped(s) + seq!['"']
}

/// Parses a text with `serde_json::from_str::<serde_json::Value>` and turns
/// the value into a `Json` tree; the result is named `json_of_text`.
#[verifier::external_body]
pub(crate) fn parse_json(text: &str) -> (r: Result<Json, serde_json::Error>)
    ensures
        r is Ok <==> json_of_text(text@) is Some,
        r is Ok ==> json_of_text(text@) == Some(r->Ok_0),
{
    serde_json::from_str::<serde_json::Value>(text).map(json_from_value)
}

/// Turns a `serde_json::Value` into a `Json` tree, variant by variant; used
/// only by `parse_json`.
#[verifier::external_body]
fn json_from_value(v: serde_json::Value) -> Json {
    match v {
        serde_json::Value::Null => Json::Null,
        serde_json::Value::Bool(b) => Json::Bool(b),
        serde_json::Value::Number(n) => Json::Number(match (n.as_u64(), n.as_i64()) {
            (Some(u), _) => JsonNumber::PosInt(u),
            (None, Some(i)) => JsonNumber::NegInt(i),
            (None, None) => JsonNumber::Other,
        }),
        serde_json::Value::String(s) => Json::Str(s),
        serde_json::Value::Array(a) => Json::Array(a.into_iter().map(json_from_value).collect()),
        serde_json::Value::Object(m) => Json::Object(m.into_iter().map(|(k, x)| (k, json_from_value(x))).collect()),
    }
}

/// The message of a `serde_json` error (its `Display` text).
#[verifier::external_body]
pub(crate) fn json_error_text(e: &serde_json::Error) -> String {
    e.to_string()
}

/// Writes a string as a JSON string literal with `serde_json::to_string`,
/// which cannot fail for a string.
#[verifier::external_body]
pub(crate) fn quote_json_string(s: &str) -> (r: String)
    ensures
        r@ == json_string_literal(s@),
{
    serde_json::to_string(s).unwrap_or_default()
}

/// The member `key` of an object (the first one, as keys are unique).
pub open spec fn member(members: Seq<(String, Json)>, key: Seq<char>) -> Option<Json>
    decreases members.len(),
{
    if members.len() == 0 {
        None
    } else if members[0].0@ == key {
        Some(members[0].1)
    } else {
        member(members.drop_first(), key)
    }
}

/// `Value::get` with a string key.
pub open spec fn get_key(v: Json, key: Seq<char>) -> Option<Json> {
    match v {
        Json::Object(m) => member(m@, key),
        _ => None,
    }
}

/// `Value::get` with an index.
pub open spec fn get_index(v: Json, i: int) -> Option<Json> {
    match v {
        Json::Array(a) => if 0 <= i < a@.len() {
            Some(a@[i])
        } else {
            None
        },
        _ => None,
    }
}

/// `Value::as_str`.
pub open spec fn as_str(v: Json) -> Option<Seq<char>> {
    match v {
        Json::Str(s) => Some(s@),
        _ => None,
    }
}

pub fn get_key_exec<'a>(v: &'a Json, key: &str) -> (r: Option<&'a Json>)
    ensures
        match r {
            Some(x) => get_key(*v, key@) == Some(*x),
            None => get_key(*v, key@) is None,
        },
{
    match v {
        Json::Object(m) => {
            let mut i: usize = 0;
            assert(m@.subrange(0, m@.len() as int) =~= m@);
            while i < m.len()
                invariant
                    i <= m.len(),
                    *v == Json::Object(*m),
                    member(m@, key@) == member(m@.subrange(i as int, m@.len() as int), key@),
                decreases m.len() - i,
            {
                let ghost rest = m@.subrange(i as int, m@.len() as int);
                assert(rest.drop_first() =~= m@.subrange(i + 1, m@.len() as int));
                assert(rest[0] == m@[i as int]);
                if str_eq(m[i].0.as_str(), key) {
                    return Some(&m[i].1);
                }
                i += 1;
            }
            None
        },
        _ => None,
    }
}

pub fn get_index_exec<'a>(v: &'a Json, i: usize) -> (r: Option<&'a Json>)
    ensures
        match r {
            Some(x) => get_index(*v, i as int) == Some(*x),
            None => get_index(*v, i as int) is None,
        },
{
    match v {
        Json::Array(a) => if i < a.len() {
            Some(&a[i])
        } else {
            None
        },
        _ => None,
    }
}

pub fn as_str_exec(v: &Json) -> (r: Option<&String>)
    ensures
        match r {
            Some(s) => as_str(*v) == Some(s@),
            None => as_str(*v) is None,
        },
{
    match v {
        Json::Str(s) => Some(s),
        _ => None,
    }
}

/// `serde_json::from_str::<Vec<usize>>`, read from the parsed value: an
/// array of non-negative integers that fit in `usize`.
pub open spec fn usize_items(v: Json) -> Option<Seq<usize>> {
    match v {
        Json::Array(a) => if forall|i: int|
            0 <= i < a@.len() ==> (#[trigger] a@[i] matches Json::Number(JsonNumber::PosInt(n)) && n <= usize::MAX) {
            Some(
                Seq::new(
                    a@.len(),
                    |i: int|
                        match a@[i] {
                            Json::Number(JsonNumber::PosInt(n)) => n as usize,
                            _ => 0usize,
                        },
                ),
            )
        } else {
            None
        },
        _ => None,
    }
}

pub fn usize_items_exec(v: &Json) -> (r: Option<Vec<usize>>)
    ensures
        match r {
            Some(x) => usize_items(*v) == Some(x@),
            None => usize_items(*v) is None,
        },
{
    match v {
        Json::Array(a) => {
            let mut out: Vec<usize> = Vec::new();
            let mut i: usize = 0;
            while i < a.len()
                invariant
                    i <= a.len(),
                    *v == Json::Array(*a),
                    out.len() == i,
                    forall|j: int|
                        0 <= j < i ==> (#[trigger] a@[j] matches Json::Number(JsonNumber::PosInt(n)) && n
                            <= usize::MAX && out@[j] == n as usize),
                decreases a.len() - i,
            {
                match &a[i] {
                    Json::Number(JsonNumber::PosInt(n)) => {
                        if *n > usize::MAX as u64 {
                            assert(!(a@[i as int] matches Json::Number(JsonNumber::PosInt(n)) && n <= usize::MAX));
                            return None;
                        }
                        out.push(*n as usize);
                    },
                    _ => {
                        assert(!(a@[i as int] matches Json::Number(JsonNumber::PosInt(n)) && n <= usize::MAX));
                        return None;
                    },
                }
                i += 1;
            }
            assert(usize_items(*v) == Some(out@)) by {
                assert(Seq::new(
                    a@.len(),
                    |i: int|
                        match a@[i] {
                            Json::Number(JsonNumber::PosInt(n)) => n as usize,
                            _ => 0usize,
                        },
                ) =~= out@);
            }
            Some(out)
        },
        _ => None,
    }
}

} // verus!
