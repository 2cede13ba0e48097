//! A plain tree model of a structured document, and the trusted bridge that
//! fills it by parsing text with serde_json. Everything that reads the tree
//! (field lookup, the descriptor schema) is verified code in other modules.

use vstd::prelude::*;

verus! {

/// One node of a parsed structured document. Mirrors the shapes a document
/// can take; numbers carry no payload because no rule of this crate reads a
/// numeric value.
pub enum JsonValue {
    Null,
    Bool(bool),
    Num,
    Str(String),
    Arr(Vec<JsonValue>),
    Obj(Vec<(String, JsonValue)>),
}

#[verifier::external_type_specification]
#[verifier::external_body]
pub struct ExSerdeValue(serde_json::Value);

/// The document that parsing `s` yields: `Some` exactly when `s` is a
/// syntactically valid document, and then the parsed tree. Parsing is a
/// function of the text alone, so the result only gets a name here; the
/// trusted `parse_json` below ties it to serde_json.
pub uninterp spec fn json_doc_of(s: Seq<char>) -> Option<JsonValue>;

/// Relies on the variants of `serde_json::Value`: each arm moves one
/// variant's fields into the library's model, recursing into children. The
/// numeric payload is dropped because no rule of this crate reads it. What
/// the conversion means is stated on `parse_json`, whose body is the only
/// caller.
#[verifier::external_body]
fn convert_json(v: serde_json::Value) -> JsonValue {
    match v {
        serde_json::Value::Null => JsonValue::Null,
        serde_json::Value::Bool(b) => JsonValue::Bool(b),
        serde_json::Value::Number(_) => JsonValue::Num,
        serde_json::Value::String(s) => JsonValue::Str(s),
        serde_json::Value::Array(a) => JsonValue::Arr(a.into_iter().map(convert_json).collect()),
        serde_json::Value::Object(m) => JsonValue::Obj(
            m.into_iter().map(|(k, val)| (k, convert_json(val))).collect(),
        ),
    }
}

/// Relies on `serde_json::from_str::<serde_json::Value>`: it returns `Ok`
/// exactly when the text is a syntactically valid document, deterministically
/// in the text alone, and the parsed value is converted node for node by
/// `convert_json`. On failure the parser's message is handed back for
/// diagnostics; nothing is promised about it.
#[verifier::external_body]
pub fn parse_json(s: &str) -> (r: Result<JsonValue, String>)
    ensures
        r is Ok <==> json_doc_of(s@) is Some,
        r matches Ok(d) ==> json_doc_of(s@) == Some(d),
{
    match serde_json::from_str::<serde_json::Value>(s) {
        Ok(v) => Ok(convert_json(v)),
        Err(e) => Err(e.to_string()),
    }
}

/// The first binding of `key` in an object's pair list, if any.
pub open spec fn spec_obj_get(pairs: Seq<(String, JsonValue)>, key: Seq<char>) -> Option<JsonValue>
    decreases pairs.len(),
{
    if pairs.len() == 0 {
        None
    } else if pairs[0].0@ == key {
        Some(pairs[0].1)
    } else {
        spec_obj_get(pairs.drop_first(), key)
    }
}

/// If no binding sits among the first `i` pairs, the lookup is decided by the
/// remaining pairs.
proof fn lemma_obj_get_skip(pairs: Seq<(String, JsonValue)>, key: Seq<char>, i: int)
    requires
        0 <= i <= pairs.len(),
        forall|j: int| 0 <= j < i ==> pairs[j].0@ != key,
    ensures
        spec_obj_get(pairs, key) == spec_obj_get(pairs.skip(i), key),
    decreases i,
{
    if i == 0 {
        assert(pairs.skip(0) =~= pairs);
    } else {
        lemma_obj_get_skip(pairs.drop_first(), key, i - 1);
        assert(pairs.drop_first().skip(i - 1) =~= pairs.skip(i));
    }
}

/// Looks `key` up in an object's pair list; the first binding wins.
pub fn obj_get<'a>(pairs: &'a Vec<(String, JsonValue)>, key: &str) -> (r: Option<&'a JsonValue>)
    ensures
        r matches Some(v) ==> spec_obj_get(pairs@, key@) == Some(*v),
        r is None <==> spec_obj_get(pairs@, key@) is None,
{
    let n = pairs.len();
    let mut i: usize = 0;
    while i < n
        invariant
            n == pairs@.len(),
            i <= n,
            forall|j: int| 0 <= j < i ==> pairs@[j].0@ != key@,
        decreases n - i,
    {
        if crate::strings::str_eq(pairs[i].0.as_str(), key) {
            proof {
                lemma_obj_get_skip(pairs@, key@, i as int);
                assert(pairs@.skip(i as int)[0] == pairs@[i as int]);
            }
            return Some(&pairs[i].1);
        }
        i = i + 1;
    }
    proof {
        lemma_obj_get_skip(pairs@, key@, i as int);
    }
    None
}

} // verus!
