//! JSON documents as plain library data.
//!
//! Exchange responses arrive as JSON text. The I/O-free core works on this
//! owned tree type, so that field lookup and every parsing decision is
//! verified. The one step taken on trust is the bridge from raw text to
//! [`JsonVal`]: `serde_json` parses the text and the tree is carried over
//! node for node, named by [`json_doc_of`] so that response contracts are
//! total over the text.

use vstd::prelude::*;

verus! {

/// One JSON value. Numbers that are not exactly representable as a signed
/// 64-bit integer (fractions, huge magnitudes) are kept only as
/// [`JsonVal::InexactNum`]: the endpoints this crate parses encode every
/// number it reads either as an integer or inside a string.
pub enum JsonVal {
    Null,
    Bool(bool),
    Int(i64),
    InexactNum,
    Str(String),
    Arr(Vec<JsonVal>),
    Obj(Vec<(String, JsonVal)>),
}

/// The value under the first entry of `entries` whose key reads `key`, if
/// any.
pub open spec fn spec_obj_get(entries: Seq<(String, JsonVal)>, key: Seq<char>) -> Option<JsonVal>
    decreases entries.len(),
{
    if entries.len() == 0 {
        None
    } else if entries[0].0@ == key {
        Some(entries[0].1)
    } else {
        spec_obj_get(entries.drop_first(), key)
    }
}

/// String equality by contents.
pub fn str_eq(a: &str, b: &str) -> (r: bool)
    ensures
        r == (a@ == b@),
{
    let aa = a.to_owned();
    let bb = b.to_owned();
    aa == bb
}

/// Look `key` up among the entries of a JSON object, first match wins.
pub fn obj_get<'a>(entries: &'a Vec<(String, JsonVal)>, key: &str) -> (r: Option<&'a JsonVal>)
    ensures
        match r {
            Some(v) => spec_obj_get(entries@, key@) == Some(*v),
            None => spec_obj_get(entries@, key@) is None,
        },
{
    let mut idx: usize = 0;
    proof {
        assert(entries@.skip(0) =~= entries@);
    }
    while idx < entries.len()
        invariant
            idx <= entries.len(),
            spec_obj_get(entries@.skip(idx as int), key@) == spec_obj_get(entries@, key@),
        decreases entries.len() - idx,
    {
        if str_eq(entries[idx].0.as_str(), key) {
            proof {
                assert(entries@.skip(idx as int)[0] == entries@[idx as int]);
            }
            return Some(&entries[idx].1);
        }
        proof {
            assert(entries@.skip(idx as int).drop_first() =~= entries@.skip(idx + 1));
        }
        idx += 1;
    }
    None
}

#[verifier::external_type_specification]
#[verifier::external_body]
pub struct ExJsonValue(serde_json::Value);

/// The document behind a piece of JSON text: `serde_json::from_str` parses
/// the text — a function of the text alone — and the result is carried over
/// into [`JsonVal`] node for node, so `None` stands exactly for text that is
/// not valid JSON.
pub uninterp spec fn json_doc_of(s: Seq<char>) -> Option<JsonVal>;

/// Relies on the variants of `serde_json::Value`: each is carried over, one
/// node for one node — integers representable as `i64` become
/// [`JsonVal::Int`], every other number [`JsonVal::InexactNum`], object
/// entries owned pairs in iteration order. Recursion is bounded because
/// `serde_json::from_str` caps nesting depth when it builds the tree.
#[verifier::external_body]
fn json_val_from(v: &serde_json::Value) -> JsonVal {
    match v {
        serde_json::Value::Null => JsonVal::Null,
        serde_json::Value::Bool(b) => JsonVal::Bool(*b),
        serde_json::Value::Number(n) => match n.as_i64() {
            Some(i) => JsonVal::Int(i),
            None => JsonVal::InexactNum,
        },
        serde_json::Value::String(t) => JsonVal::Str(t.clone()),
        serde_json::Value::Array(items) => JsonVal::Arr(items.iter().map(json_val_from).collect()),
        serde_json::Value::Object(m) => JsonVal::Obj(
            m.iter().map(|(k, val)| (k.clone(), json_val_from(val))).collect(),
        ),
    }
}

/// Relies on `serde_json::from_str::<serde_json::Value>`: parsing is a
/// function of the text alone, failing exactly on invalid JSON; the parsed
/// tree is handed over node for node. [`json_doc_of`] names that document.
#[verifier::external_body]
pub(crate) fn from_json_text(s: &str) -> (r: Option<JsonVal>)
    ensures
        r == json_doc_of(s@),
{
    match serde_json::from_str::<serde_json::Value>(s) {
        Ok(v) => Some(json_val_from(&v)),
        Err(_) => None,
    }
}

} // verus!
