//! Bytes to values and back: MessagePack and JSON text, as `rmp_serde`,
//! `rmpv` and `serde_json` read and write them.

use vstd::prelude::*;
use crate::json::{Json, JsonModel, Member};

verus! {

/// `serde_json::Value`, of which nothing is known here.
#[verifier::external_type_specification]
#[verifier::external_body]
pub struct ExTree(serde_json::Value);

/// `serde_json::Number`, of which nothing is known here.
#[verifier::external_type_specification]
#[verifier::external_body]
pub struct ExNumber(serde_json::Number);

/// The bytes that `rmp_serde::to_vec_named` writes for a value, where it
/// writes any.
pub uninterp spec fn msgpack_of(v: JsonModel) -> Option<Seq<u8>>;

/// The value that `rmp_serde::from_slice` reads from bytes, if it reads one.
pub uninterp spec fn msgpack_value(bytes: Seq<u8>) -> Option<JsonModel>;

/// The value that `rmpv::decode::read_value` reads from bytes, if it reads
/// one that `rmpv::ext::from_value` can turn into a structured value.
pub uninterp spec fn msgpack_tree(bytes: Seq<u8>) -> Option<JsonModel>;

/// The value that `serde_json::from_slice` reads from bytes, if it reads one.
pub uninterp spec fn json_value(bytes: Seq<u8>) -> Option<JsonModel>;

/// The text that `serde_json` writes for a value.
pub uninterp spec fn json_text(v: JsonModel) -> Seq<char>;

/// Builds the `serde_json::Value` for a number held as text: the binary64
/// nearest to what the text writes, and null for a text that writes no
/// finite number. Nothing is claimed of the result.
#[verifier::external_body]
fn number_tree(t: &str) -> serde_json::Value {
    t.parse().ok().and_then(serde_json::Number::from_f64).map_or(
        serde_json::Value::Null,
        serde_json::Value::Number,
    )
}

/// Builds the `serde_json::Value` with the content of `v`, variant by
/// variant. Nothing is claimed of the result.
#[verifier::external_body]
fn to_tree(v: &Json) -> serde_json::Value {
    match v {
        Json::Null => serde_json::Value::Null,
        Json::Bool(b) => serde_json::Value::Bool(*b),
        Json::Int(n) => serde_json::Value::from(*n),
        Json::UInt(n) => serde_json::Value::from(*n),
        Json::Float(t) => number_tree(t),
        Json::Str(s) => serde_json::Value::String(s.clone()),
        Json::Array(a) => serde_json::Value::Array(a.iter().map(to_tree).collect()),
        Json::Object(o) => serde_json::Value::Object(
            o.iter().map(|m| (m.key.clone(), to_tree(&m.value))).collect(),
        ),
    }
}

/// Builds the number with the content of a `serde_json::Number`: what
/// `as_i64` gives, else what `as_u64` gives, else the text that `serde_json`
/// writes for it. Nothing is claimed of the result.
#[verifier::external_body]
fn from_number(n: &serde_json::Number) -> Json {
    match (n.as_i64(), n.as_u64()) {
        (Some(i), _) => Json::Int(i),
        (None, Some(u)) => Json::UInt(u),
        (None, None) => Json::Float(n.to_string()),
    }
}

/// Builds the value with the content of a `serde_json::Value`, variant by
/// variant. Nothing is claimed of the result.
#[verifier::external_body]
fn from_tree(t: &serde_json::Value) -> Json {
    match t {
        serde_json::Value::Null => Json::Null,
        serde_json::Value::Bool(b) => Json::Bool(*b),
        serde_json::Value::Number(n) => from_number(n),
        serde_json::Value::String(s) => Json::Str(s.clone()),
        serde_json::Value::Array(a) => Json::Array(a.iter().map(from_tree).collect()),
        serde_json::Value::Object(o) => Json::Object(
            o.iter().map(|(k, v)| Member { key: k.clone(), value: from_tree(v) }).collect(),
        ),
    }
}

/// `rmp_serde::to_vec_named` on the value: its MessagePack bytes, maps
/// written with their keys, or `None` where the encoder fails. The result
/// depends on the value alone.
#[verifier::external_body]
fn try_encode(v: &Json) -> (r: Option<Vec<u8>>)
    ensures
        match r {
            Some(bytes) => msgpack_of(v@) == Some(bytes@),
            None => msgpack_of(v@) is None,
        },
{
    rmp_serde::to_vec_named(&to_tree(v)).ok()
}

/// The bytes that go on the wire for a value: its MessagePack bytes, and
/// none where it cannot be encoded.
pub open spec fn wire_bytes(v: JsonModel) -> Seq<u8> {
    match msgpack_of(v) {
        Some(bytes) => bytes,
        None => Seq::empty(),
    }
}

/// What is encoded in place of a value that cannot be encoded.
pub open spec fn encode_failure() -> JsonModel {
    JsonModel::Object(
        seq![("ok"@, JsonModel::Bool(false)), ("error"@, JsonModel::Str("encode"@))],
    )
}

/// The bytes that go on the wire for `v`.
pub fn to_wire(v: &Json) -> (bytes: Vec<u8>)
    ensures
        bytes@ == wire_bytes(v@),
{
    match try_encode(v) {
        Some(bytes) => bytes,
        None => Vec::new(),
    }
}

/// The number of bytes that `v` takes when encoded, where it can be
/// encoded.
pub fn encoded_len(v: &Json) -> (n: Option<usize>)
    ensures
        match n {
            Some(len) => msgpack_of(v@) is Some && len == msgpack_of(v@)->0.len(),
            None => msgpack_of(v@) is None,
        },
{
    match try_encode(v) {
        Some(bytes) => Some(bytes.len()),
        None => None,
    }
}

/// The MessagePack bytes of `v`; for a value that cannot be encoded, those
/// of an object that says so.
pub fn encode_msgpack(v: &Json) -> (bytes: Vec<u8>)
    ensures
        bytes@ == match msgpack_of(v@) {
            Some(b) => b,
            None => wire_bytes(encode_failure()),
        },
{
    match try_encode(v) {
        Some(bytes) => bytes,
        None => {
            let mut m: Vec<Member> = Vec::new();
            m.push(crate::json::member("ok", Json::Bool(false)));
            m.push(crate::json::member("error", Json::text("encode")));
            proof {
                assert(crate::json::entries(m@) =~= encode_failure()->Object_0);
            }
            to_wire(&crate::json::object(m))
        },
    }
}

/// `rmp_serde::from_slice`: the structured value at the start of the bytes,
/// or `None` where they hold none. The result depends on the bytes alone.
#[verifier::external_body]
pub fn decode_msgpack(bytes: &[u8]) -> (r: Option<Json>)
    ensures
        match r {
            Some(v) => msgpack_value(bytes@) == Some(v@),
            None => msgpack_value(bytes@) is None,
        },
{
    rmp_serde::from_slice::<serde_json::Value>(bytes).ok().map(|t| from_tree(&t))
}

/// `rmpv::decode::read_value`, then `rmpv::ext::from_value`: the MessagePack
/// value at the start of the bytes as a structured value, or `None` where
/// the bytes hold none or it has no structured form. The result depends on
/// the bytes alone.
#[verifier::external_body]
pub fn decode_msgpack_value(bytes: &[u8]) -> (r: Option<Json>)
    ensures
        match r {
            Some(v) => msgpack_tree(bytes@) == Some(v@),
            None => msgpack_tree(bytes@) is None,
        },
{
    let mut rest = bytes;
    let raw = rmpv::decode::read_value(&mut rest).ok()?;
    rmpv::ext::from_value::<serde_json::Value>(raw).ok().map(|t| from_tree(&t))
}

/// `serde_json::from_slice`: the value that the bytes write as JSON text, or
/// `None` where they write none. The result depends on the bytes alone.
#[verifier::external_body]
pub fn decode_json(bytes: &[u8]) -> (r: Option<Json>)
    ensures
        match r {
            Some(v) => json_value(bytes@) == Some(v@),
            None => json_value(bytes@) is None,
        },
{
    serde_json::from_slice::<serde_json::Value>(bytes).ok().map(|t| from_tree(&t))
}

/// `serde_json::Value`'s `to_string`: the value as compact JSON text. The
/// result depends on the value alone.
#[verifier::external_body]
pub(crate) fn to_json_text(v: &Json) -> (s: String)
    ensures
        s@ == json_text(v@),
{
    to_tree(v).to_string()
}

/// The text that stands for a value where one is asked for: a string's own
/// text, and the JSON text of anything else.
pub open spec fn stringified(v: JsonModel) -> Seq<char> {
    match v {
        JsonModel::Str(s) => s,
        _ => json_text(v),
    }
}

/// The text that stands for `v`.
pub fn text_for(v: &Json) -> (s: String)
    ensures
        s@ == stringified(v@),
{
    match v {
        Json::Str(t) => t.clone(),
        _ => to_json_text(v),
    }
}

} // verus!
