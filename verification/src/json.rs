//! JSON documents as plain values, and the few ways the app-server's replies are read.
use vstd::prelude::*;

verus! {

#[verifier::external_type_specification]
#[verifier::external_body]
pub struct ExJsonValue(serde_json::Value);

/// A parsed JSON document.
#[derive(Debug)]
pub enum JsonValue {
    Null,
    Bool(bool),
    /// The number's integer value when it is an integer that fits in an `i64` or a
    /// `u64`, and its JSON text.
    Number(Option<i128>, String),
    Str(String),
    /// The items, and the array's compact JSON text.
    Array(Vec<JsonValue>, String),
    /// The members in key order, and the object's compact JSON text.
    Object(Vec<(String, JsonValue)>, String),
}

/// The document that `serde_json::from_str::<serde_json::Value>` reads from `text`, as a
/// `JsonValue`; `None` when the text is not JSON.
pub uninterp spec fn parsed_json(text: Seq<char>) -> Option<JsonValue>;

/// A `serde_json::Value` taken over member by member.
#[verifier::external_body]
fn json_of(v: &serde_json::Value) -> JsonValue {
    match v {
        serde_json::Value::Null => JsonValue::Null,
        serde_json::Value::Bool(b) => JsonValue::Bool(*b),
        serde_json::Value::Number(n) => JsonValue::Number(
            n.as_u64().map(i128::from).or_else(|| n.as_i64().map(i128::from)),
            v.to_string(),
        ),
        serde_json::Value::String(s) => JsonValue::Str(s.clone()),
        serde_json::Value::Array(a) => JsonValue::Array(a.iter().map(json_of).collect(), v.to_string()),
        serde_json::Value::Object(m) => JsonValue::Object(
            m.iter().map(|(k, x)| (k.clone(), json_of(x))).collect(),
            v.to_string(),
        ),
    }
}

/// Parses `text` with `serde_json::from_str::<serde_json::Value>`; the document is the
/// one `parsed_json` names, and the error is serde_json's.
#[verifier::external_body]
pub(crate) fn parse_json(text: &str) -> (r: Result<JsonValue, serde_json::Error>)
    ensures
        match r {
            Ok(v) => parsed_json(text@) == Some(v),
            Err(_) => parsed_json(text@) is None,
        },
{
    serde_json::from_str::<serde_json::Value>(text).map(|v| json_of(&v))
}

/// Reads a JSON document; `None` when the text is not JSON.
pub fn read_json(text: &str) -> (r: Option<JsonValue>)
    ensures
        r == parsed_json(text@),
{
    match parse_json(text) {
        Ok(v) => Some(v),
        Err(_) => None,
    }
}

/// The value of the first member named `key`, when `v` is an object.
pub open spec fn member(entries: Seq<(String, JsonValue)>, key: Seq<char>) -> Option<JsonValue>
    decreases entries.len(),
{
    if entries.len() == 0 {
        None
    } else {
        match member(entries.drop_last(), key) {
            Some(x) => Some(x),
            None => if entries.last().0@ == key {
                Some(entries.last().1)
            } else {
                None
            },
        }
    }
}

/// `v.get(key)`: the member `key` of an object, nothing for any other value.
pub open spec fn get(v: Option<JsonValue>, key: Seq<char>) -> Option<JsonValue> {
    match v {
        Some(JsonValue::Object(entries, _)) => member(entries@, key),
        _ => None,
    }
}

/// `a.or(b)`.
pub open spec fn either(a: Option<JsonValue>, b: Option<JsonValue>) -> Option<JsonValue> {
    match a {
        Some(_) => a,
        None => b,
    }
}

/// `Value::as_str`.
pub open spec fn json_str(v: Option<JsonValue>) -> Option<Seq<char>> {
    match v {
        Some(JsonValue::Str(s)) => Some(s@),
        _ => None,
    }
}

/// `Value::as_bool`.
pub open spec fn json_bool(v: Option<JsonValue>) -> Option<bool> {
    match v {
        Some(JsonValue::Bool(b)) => Some(b),
        _ => None,
    }
}

/// `Value::as_u64`: non-negative integers only.
pub open spec fn json_pos_u64(v: Option<JsonValue>) -> Option<u64> {
    match v {
        Some(JsonValue::Number(Some(i), _)) => if 0 <= i <= u64::MAX {
            Some(i as u64)
        } else {
            None
        },
        _ => None,
    }
}

/// A non-negative count: negative integers count as zero.
pub open spec fn json_u64(v: Option<JsonValue>) -> Option<u64> {
    match v {
        Some(JsonValue::Number(Some(i), _)) => if 0 <= i <= u64::MAX {
            Some(i as u64)
        } else if i64::MIN <= i < 0 {
            Some(0)
        } else {
            None
        },
        _ => None,
    }
}

/// A signed integer: integers above `i64::MAX` wrap around as `as i64` does.
pub open spec fn json_i64(v: Option<JsonValue>) -> Option<i64> {
    match v {
        Some(JsonValue::Number(Some(i), _)) => if i64::MIN <= i <= i64::MAX {
            Some(i as i64)
        } else if 0 <= i <= u64::MAX {
            Some((i - 0x1_0000_0000_0000_0000) as i64)
        } else {
            None
        },
        _ => None,
    }
}

/// The value is an object.
pub open spec fn is_object(v: Option<JsonValue>) -> bool {
    v matches Some(JsonValue::Object(_, _))
}

/// The items of an array.
pub open spec fn json_array(v: Option<JsonValue>) -> Option<Seq<JsonValue>> {
    match v {
        Some(JsonValue::Array(items, _)) => Some(items@),
        _ => None,
    }
}

/// A request id as text: a string as it is, any other value as its JSON text.
pub open spec fn id_text(v: JsonValue) -> Seq<char> {
    match v {
        JsonValue::Null => "null"@,
        JsonValue::Bool(b) => if b {
            "true"@
        } else {
            "false"@
        },
        JsonValue::Number(_, t) => t@,
        JsonValue::Str(s) => s@,
        JsonValue::Array(_, t) => t@,
        JsonValue::Object(_, t) => t@,
    }
}

/// `v.get(key)`.
pub fn get_member<'a>(v: Option<&'a JsonValue>, key: &str) -> (r: Option<&'a JsonValue>)
    ensures
        match r {
            Some(x) => get(deref_opt(v), key@) == Some(*x),
            None => get(deref_opt(v), key@) is None,
        },
{
    let x = match v {
        Some(x) => x,
        None => return None,
    };
    assert(deref_opt(v) == Some(*x));
    match x {
        JsonValue::Object(entries, _) => {
            assert(get(deref_opt(v), key@) == member(entries@, key@));
            let mut i: usize = 0;
            while i < entries.len()
                invariant
                    i <= entries.len(),
                    member(entries@.take(i as int), key@) is None,
                    get(deref_opt(v), key@) == member(entries@, key@),
                decreases entries.len() - i,
            {
                assert(entries@.take(i + 1).drop_last() =~= entries@.take(i as int));
                if crate::text::str_eq(entries[i].0.as_str(), key) {
                    proof {
                        lemma_member_prefix(entries@, i as int, key@);
                    }
                    return Some(&entries[i].1);
                }
                i = i + 1;
            }
            assert(entries@.take(entries.len() as int) =~= entries@);
            None
        },
        _ => None,
    }
}

/// The first member named `key` in a prefix is the first in the whole list.
proof fn lemma_member_prefix(entries: Seq<(String, JsonValue)>, i: int, key: Seq<char>)
    requires
        0 <= i < entries.len(),
        member(entries.take(i), key) is None,
        entries[i].0@ == key,
    ensures
        member(entries, key) == Some(entries[i].1),
    decreases entries.len(),
{
    if i + 1 < entries.len() {
        let d = entries.drop_last();
        assert(d.take(i) =~= entries.take(i));
        lemma_member_prefix(d, i, key);
    } else {
        assert(entries.drop_last() =~= entries.take(i));
    }
}

/// The value behind an optional reference.
pub open spec fn deref_opt(v: Option<&JsonValue>) -> Option<JsonValue> {
    match v {
        Some(y) => Some(*y),
        None => None,
    }
}

/// `a.or(b)` on references.
pub fn either_ref<'a>(a: Option<&'a JsonValue>, b: Option<&'a JsonValue>) -> (r: Option<&'a JsonValue>)
    ensures
        deref_opt(r) == either(deref_opt(a), deref_opt(b)),
{
    match a {
        Some(x) => Some(x),
        None => b,
    }
}

/// `Value::as_str`.
pub fn str_of<'a>(v: Option<&'a JsonValue>) -> (r: Option<&'a String>)
    ensures
        match r {
            Some(s) => json_str(deref_opt(v)) == Some(s@),
            None => json_str(deref_opt(v)) is None,
        },
{
    match v {
        Some(JsonValue::Str(s)) => Some(s),
        _ => None,
    }
}

/// `Value::as_str`, copied.
pub fn owned_str_of(v: Option<&JsonValue>) -> (r: Option<String>)
    ensures
        match r {
            Some(s) => json_str(deref_opt(v)) == Some(s@),
            None => json_str(deref_opt(v)) is None,
        },
{
    match v {
        Some(JsonValue::Str(s)) => Some(s.clone()),
        _ => None,
    }
}

/// `Value::as_bool`.
pub fn bool_of(v: Option<&JsonValue>) -> (r: Option<bool>)
    ensures
        r == json_bool(deref_opt(v)),
{
    match v {
        Some(JsonValue::Bool(b)) => Some(*b),
        _ => None,
    }
}

/// `Value::as_u64`.
pub fn pos_u64_of(v: Option<&JsonValue>) -> (r: Option<u64>)
    ensures
        r == json_pos_u64(deref_opt(v)),
{
    match v {
        Some(JsonValue::Number(Some(i), _)) => if 0 <= *i && *i <= u64::MAX as i128 {
            Some(*i as u64)
        } else {
            None
        },
        _ => None,
    }
}

/// A non-negative count; negative integers count as zero.
pub fn u64_of(v: Option<&JsonValue>) -> (r: Option<u64>)
    ensures
        r == json_u64(deref_opt(v)),
{
    match v {
        Some(JsonValue::Number(Some(i), _)) => if 0 <= *i && *i <= u64::MAX as i128 {
            Some(*i as u64)
        } else if i64::MIN as i128 <= *i && *i < 0 {
            Some(0)
        } else {
            None
        },
        _ => None,
    }
}

/// A signed integer; integers above `i64::MAX` wrap around.
pub fn i64_of(v: Option<&JsonValue>) -> (r: Option<i64>)
    ensures
        r == json_i64(deref_opt(v)),
{
    match v {
        Some(JsonValue::Number(Some(i), _)) => if i64::MIN as i128 <= *i && *i <= i64::MAX as i128 {
            Some(*i as i64)
        } else if 0 <= *i && *i <= u64::MAX as i128 {
            Some((*i - 0x1_0000_0000_0000_0000i128) as i64)
        } else {
            None
        },
        _ => None,
    }
}

/// The items of an array.
pub fn array_of<'a>(v: Option<&'a JsonValue>) -> (r: Option<&'a Vec<JsonValue>>)
    ensures
        match r {
            Some(items) => json_array(deref_opt(v)) == Some(items@),
            None => json_array(deref_opt(v)) is None,
        },
{
    match v {
        Some(JsonValue::Array(items, _)) => Some(items),
        _ => None,
    }
}

/// A request id as text.
pub fn id_text_of(v: &JsonValue) -> (r: String)
    ensures
        r@ == id_text(*v),
{
    match v {
        JsonValue::Null => "null".to_owned(),
        JsonValue::Bool(b) => if *b {
            "true".to_owned()
        } else {
            "false".to_owned()
        },
        JsonValue::Number(_, t) => t.clone(),
        JsonValue::Str(s) => s.clone(),
        JsonValue::Array(_, t) => t.clone(),
        JsonValue::Object(_, t) => t.clone(),
    }
}

} // verus!
