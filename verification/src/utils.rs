//! Small readers of structured values.

use vstd::prelude::*;
use crate::json::{Json, JsonModel, Member};

verus! {

/// The members of `v` where it is an object.
pub fn json_obj(v: &Json) -> (r: Option<&Vec<Member>>)
    ensures
        match r {
            Some(o) => v@ == JsonModel::Object(crate::json::entries(o@)),
            None => !(v@ is Object),
        },
{
    match v {
        Json::Object(o) => {
            proof {
                crate::json::lemma_object_view(*o);
            }
            Some(o)
        },
        _ => None,
    }
}

/// The entry `key` of the map `m`; `None` where `m` is no map or has no
/// such entry.
pub fn mp_get<'a>(m: &'a Json, key: &str) -> (r: Option<&'a Json>)
    ensures
        match r {
            Some(v) => m@.get(key@) == Some(v@),
            None => m@.get(key@) is None,
        },
{
    m.get(key)
}

/// The entry `key` of `m` as a string.
pub open spec fn str_entry(m: JsonModel, key: Seq<char>) -> Option<Seq<char>> {
    match m.get(key) {
        Some(v) => v.as_str(),
        None => None,
    }
}

/// The entry `key` of `m` as a signed integer: an `Int`, or a whole number
/// beyond it taken modulo 2^64.
pub open spec fn i64_entry(m: JsonModel, key: Seq<char>) -> Option<i64> {
    match m.get(key) {
        Some(v) => match v.as_i64() {
            Some(n) => Some(n),
            None => match v.as_u64() {
                Some(u) => Some(u as i64),
                None => None,
            },
        },
        None => None,
    }
}

/// The entry `key` of `m` as a truth value.
pub open spec fn bool_entry(m: JsonModel, key: Seq<char>) -> Option<bool> {
    match m.get(key) {
        Some(v) => v.as_bool(),
        None => None,
    }
}

/// The entry `key` of the map `m`, where it is a string.
pub fn mp_get_str<'a>(m: &'a Json, key: &str) -> (r: Option<&'a str>)
    ensures
        match r {
            Some(s) => str_entry(m@, key@) == Some(s@),
            None => str_entry(m@, key@) is None,
        },
{
    match m.get(key) {
        Some(v) => v.as_str(),
        None => None,
    }
}

/// The entry `key` of the map `m`, where it is an integer.
pub fn mp_get_i64(m: &Json, key: &str) -> (r: Option<i64>)
    ensures
        r == i64_entry(m@, key@),
{
    match m.get(key) {
        Some(v) => match v.as_i64() {
            Some(n) => Some(n),
            None => match v.as_u64() {
                Some(u) => Some(#[verifier::truncate] (u as i64)),
                None => None,
            },
        },
        None => None,
    }
}

/// The entry `key` of the map `m`, where it is a truth value.
pub fn mp_get_bool(m: &Json, key: &str) -> (r: Option<bool>)
    ensures
        r == bool_entry(m@, key@),
{
    match m.get(key) {
        Some(v) => v.as_bool(),
        None => None,
    }
}

} // verus!
