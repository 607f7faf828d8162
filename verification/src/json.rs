//! JSON documents as plain values, read with `serde_json`.
use vstd::prelude::*;

verus! {

/// A JSON value. Numbers keep the text that `serde_json` writes for them; object members
/// keep the order in which `serde_json::Map` hands them out.
#[derive(Debug)]
pub enum Json {
    Null,
    Bool(bool),
    Number(String),
    Str(String),
    Array(Vec<Json>),
    Object(Vec<(String, Json)>),
}

/// `serde_json::Value`, declared so that the wrapper below may carry it; nothing inside it
/// is visible to proofs.
#[verifier::external_type_specification]
#[verifier::external_body]
pub struct ExJsonValue(serde_json::Value);

/// What `serde_json::from_str::<serde_json::Value>` makes of a text: the document as a
/// [`Json`], or the text of the error it reports.
pub uninterp spec fn json_reading(text: Seq<char>) -> Result<Json, Seq<char>>;

/// Converts a `serde_json::Value` into a [`Json`], variant for variant (numbers by the
/// text `Number` displays as); used by [`parse_json`] alone. It carries no contract:
/// what `parse_json` returns is named as a whole by [`json_reading`].
#[verifier::external_body]
fn json_tree(v: serde_json::Value) -> Json {
    match v {
        serde_json::Value::Null => Json::Null,
        serde_json::Value::Bool(b) => Json::Bool(b),
        serde_json::Value::Number(n) => Json::Number(n.to_string()),
        serde_json::Value::String(s) => Json::Str(s),
        serde_json::Value::Array(a) => Json::Array(a.into_iter().map(json_tree).collect()),
        serde_json::Value::Object(m) => Json::Object(
            m.into_iter().map(|(k, v)| (k, json_tree(v))).collect(),
        ),
    }
}

/// `serde_json::from_str::<serde_json::Value>`: the document, or the error's text. The
/// result is named by [`json_reading`]; it depends on the text alone.
#[verifier::external_body]
pub(crate) fn parse_json(text: &str) -> (res: Result<Json, String>)
    ensures
        match res {
            Ok(v) => json_reading(text@) == Ok::<Json, Seq<char>>(v),
            Err(e) => json_reading(text@) == Err::<Json, Seq<char>>(e@),
        },
{
    serde_json::from_str::<serde_json::Value>(text).map(json_tree).map_err(|e| e.to_string())
}

/// The first member of `members` under `key`.
pub open spec fn member(members: Seq<(String, Json)>, key: Seq<char>) -> Option<Json>
    decreases members.len(),
{
    if members.len() == 0 {
        None
    } else if members[0].0@ == key {
        Some(members[0].1)
    } else {
        member(members.drop_first(), key)
    }
}

/// `Value::get(key)`: the member under `key` when `v` is an object.
pub open spec fn lookup(v: Json, key: Seq<char>) -> Option<Json> {
    match v {
        Json::Object(members) => member(members@, key),
        _ => None,
    }
}

/// `Value::as_str`: the text of a string value.
pub open spec fn text_of(v: Option<Json>) -> Option<Seq<char>> {
    match v {
        Some(Json::Str(s)) => Some(s@),
        _ => None,
    }
}

/// The member under `key` when `v` is an object (`Value::get`).
pub fn get<'a>(v: &'a Json, key: &str) -> (res: Option<&'a Json>)
    ensures
        match res {
            Some(r) => lookup(*v, key@) == Some(*r),
            None => lookup(*v, key@) is None,
        },
{
    match v {
        Json::Object(members) => {
            let mut i: usize = 0;
            assert(members@.skip(0) == members@);
            while i < members.len()
                invariant
                    i <= members.len(),
                    *v == Json::Object(*members),
                    member(members@, key@) == member(members@.skip(i as int), key@),
                decreases members.len() - i,
            {
                assert(members@.skip(i as int).drop_first() == members@.skip(i + 1));
                if crate::text::str_eq(members[i].0.as_str(), key) {
                    assert(members@.skip(i as int)[0] == members@[i as int]);
                    return Some(&members[i].1);
                }
                i = i + 1;
            }
            None
        },
        _ => None,
    }
}

/// The error for a required member that an object lacks (as serde words it).
pub open spec fn missing_field(key: Seq<char>) -> Seq<char> {
    "missing field `"@ + key + "`"@
}

/// The error for a member whose value has the wrong type.
pub open spec fn invalid_field(key: Seq<char>) -> Seq<char> {
    "invalid type for field `"@ + key + "`"@
}

/// The error for a row that is not an object.
pub open spec fn not_an_object() -> Seq<char> {
    "invalid type: expected an object"@
}

/// A `String` field read out of an object: the member must be a JSON string.
pub open spec fn string_field(v: Json, key: Seq<char>) -> Result<Seq<char>, Seq<char>> {
    match lookup(v, key) {
        None => Err(missing_field(key)),
        Some(Json::Str(s)) => Ok(s@),
        Some(_) => Err(invalid_field(key)),
    }
}

/// An `Option<String>` field: missing or `null` is `None`, a string is its text.
pub open spec fn optional_string_field(v: Json, key: Seq<char>) -> Result<Option<Seq<char>>, Seq<char>> {
    match lookup(v, key) {
        None => Ok(None),
        Some(Json::Null) => Ok(None),
        Some(Json::Str(s)) => Ok(Some(s@)),
        Some(_) => Err(invalid_field(key)),
    }
}

/// An unsigned integer field no greater than `max`: the member must be a number written
/// as plain decimal digits, in range.
pub open spec fn uint_field(v: Json, key: Seq<char>, max: nat) -> Result<nat, Seq<char>> {
    match lookup(v, key) {
        None => Err(missing_field(key)),
        Some(Json::Number(t)) => if t@.len() > 0 && t@[0] != '+' {
            match crate::num::parse_unsigned(t@, 10, max) {
                Some(n) => Ok(n),
                None => Err(invalid_field(key)),
            }
        } else {
            Err(invalid_field(key))
        },
        Some(_) => Err(invalid_field(key)),
    }
}

/// A `bool` field: the member must be `true` or `false`.
pub open spec fn bool_field(v: Json, key: Seq<char>) -> Result<bool, Seq<char>> {
    match lookup(v, key) {
        None => Err(missing_field(key)),
        Some(Json::Bool(b)) => Ok(b),
        Some(_) => Err(invalid_field(key)),
    }
}

fn field_error(key: &str, missing: bool) -> (res: String)
    ensures
        res@ == if missing {
            missing_field(key@)
        } else {
            invalid_field(key@)
        },
{
    let mut out: Vec<char> = Vec::new();
    if missing {
        crate::text::extend_str(&mut out, "missing field `");
    } else {
        crate::text::extend_str(&mut out, "invalid type for field `");
    }
    crate::text::extend_str(&mut out, key);
    crate::text::extend_str(&mut out, "`");
    crate::text::string_of(&out)
}

/// Reads a `String` field of an object.
pub fn string_member(v: &Json, key: &str) -> (res: Result<String, String>)
    ensures
        match res {
            Ok(s) => string_field(*v, key@) == Ok::<Seq<char>, Seq<char>>(s@),
            Err(e) => string_field(*v, key@) == Err::<Seq<char>, Seq<char>>(e@),
        },
{
    match get(v, key) {
        None => Err(field_error(key, true)),
        Some(Json::Str(s)) => Ok(s.clone()),
        Some(_) => Err(field_error(key, false)),
    }
}

/// Reads an `Option<String>` field of an object.
pub fn optional_string_member(v: &Json, key: &str) -> (res: Result<Option<String>, String>)
    ensures
        match res {
            Ok(None) => optional_string_field(*v, key@) == Ok::<Option<Seq<char>>, Seq<char>>(None),
            Ok(Some(s)) => optional_string_field(*v, key@) == Ok::<Option<Seq<char>>, Seq<char>>(
                Some(s@),
            ),
            Err(e) => optional_string_field(*v, key@) == Err::<Option<Seq<char>>, Seq<char>>(e@),
        },
{
    match get(v, key) {
        None => Ok(None),
        Some(Json::Null) => Ok(None),
        Some(Json::Str(s)) => Ok(Some(s.clone())),
        Some(_) => Err(field_error(key, false)),
    }
}

/// Reads a `u64` field of an object.
pub fn u64_member(v: &Json, key: &str) -> (res: Result<u64, String>)
    ensures
        match res {
            Ok(n) => uint_field(*v, key@, u64::MAX as nat) == Ok::<nat, Seq<char>>(n as nat),
            Err(e) => uint_field(*v, key@, u64::MAX as nat) == Err::<nat, Seq<char>>(e@),
        },
{
    match get(v, key) {
        None => Err(field_error(key, true)),
        Some(Json::Number(t)) => {
            let cs = crate::text::chars_of(t.as_str());
            if cs.len() > 0 && cs[0] != '+' {
                match crate::num::parse_u64(&cs) {
                    Some(n) => Ok(n),
                    None => Err(field_error(key, false)),
                }
            } else {
                Err(field_error(key, false))
            }
        },
        Some(_) => Err(field_error(key, false)),
    }
}

/// Reads a `u32` field of an object.
pub fn u32_member(v: &Json, key: &str) -> (res: Result<u32, String>)
    ensures
        match res {
            Ok(n) => uint_field(*v, key@, u32::MAX as nat) == Ok::<nat, Seq<char>>(n as nat),
            Err(e) => uint_field(*v, key@, u32::MAX as nat) == Err::<nat, Seq<char>>(e@),
        },
{
    match get(v, key) {
        None => Err(field_error(key, true)),
        Some(Json::Number(t)) => {
            let cs = crate::text::chars_of(t.as_str());
            if cs.len() > 0 && cs[0] != '+' {
                match crate::num::parse_u32(&cs) {
                    Some(n) => Ok(n),
                    None => Err(field_error(key, false)),
                }
            } else {
                Err(field_error(key, false))
            }
        },
        Some(_) => Err(field_error(key, false)),
    }
}

/// Reads a `bool` field of an object.
pub fn bool_member(v: &Json, key: &str) -> (res: Result<bool, String>)
    ensures
        match res {
            Ok(b) => bool_field(*v, key@) == Ok::<bool, Seq<char>>(b),
            Err(e) => bool_field(*v, key@) == Err::<bool, Seq<char>>(e@),
        },
{
    match get(v, key) {
        None => Err(field_error(key, true)),
        Some(Json::Bool(b)) => Ok(*b),
        Some(_) => Err(field_error(key, false)),
    }
}

} // verus!
