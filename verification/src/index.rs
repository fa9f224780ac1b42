//! The index record of an event: the fields of its payload by which events
//! are filtered and told apart.

use vstd::prelude::*;
use crate::decimal::{decimal_of_text, parse_decimal, Decimal};
use crate::json::{entries, member, object, Json, JsonModel, Member};
use crate::text::{as_i64_spec, int_of_text, parse_i64};

verus! {

/// The entry `key` of `payload` as a string that is not empty, else null.
pub open spec fn text_field(payload: JsonModel, key: Seq<char>) -> JsonModel {
    match payload.get(key) {
        Some(v) => match v.as_text() {
            Some(s) => JsonModel::Str(s),
            None => JsonModel::Null,
        },
        None => JsonModel::Null,
    }
}

/// The priority that `payload` states: its entry `priority` when that is an
/// `Int`, the integer that it writes when it is a string that writes one
/// within 64 bits, and 0 otherwise.
pub open spec fn priority_of(payload: JsonModel) -> i64 {
    match payload.get("priority"@) {
        Some(JsonModel::Int(n)) => n,
        Some(JsonModel::Str(s)) => match as_i64_spec(int_of_text(s)) {
            Some(n) => n,
            None => 0,
        },
        _ => 0,
    }
}

/// The time that `payload` states: its entry `timestamp`, or `time` where it
/// has no `timestamp`, read as a decimal when it is a number or a string that
/// writes one; `default_ts` otherwise.
pub open spec fn timestamp_of(payload: JsonModel, default_ts: Decimal) -> Decimal {
    let raw = match payload.get("timestamp"@) {
        Some(v) => Some(v),
        None => payload.get("time"@),
    };
    match raw {
        Some(JsonModel::Str(s)) => match decimal_of_text(s) {
            Some(d) => d,
            None => default_ts,
        },
        Some(v) => match v.as_decimal() {
            Some(d) => d,
            None => default_ts,
        },
        None => default_ts,
    }
}

/// The names under which a payload may carry its identifier, in the order in
/// which they are tried.
pub open spec fn id_keys() -> Seq<Seq<char>> {
    seq!["message_id"@, "event_id"@, "lifecycle_id"@, "id"@, "task_id"@, "run_id"@]
}

/// The first of the entries `keys[from..]` of `payload` that is a string
/// that is not empty, else null.
pub open spec fn first_text(payload: JsonModel, keys: Seq<Seq<char>>, from: int) -> JsonModel
    decreases keys.len() - from,
{
    if from < 0 || from >= keys.len() {
        JsonModel::Null
    } else if text_field(payload, keys[from]) is Str {
        text_field(payload, keys[from])
    } else {
        first_text(payload, keys, from + 1)
    }
}

/// The kind of record that `payload` states: its entry `type`, or
/// `message_type` where `type` is no string that is not empty.
pub open spec fn type_of(payload: JsonModel) -> JsonModel {
    if text_field(payload, "type"@) is Str {
        text_field(payload, "type"@)
    } else {
        text_field(payload, "message_type"@)
    }
}

/// The index record of `payload`: seven entries, each present whatever the
/// payload holds.
pub open spec fn index_record(payload: JsonModel, default_ts: Decimal) -> JsonModel {
    JsonModel::Object(
        seq![
            ("plugin_id"@, text_field(payload, "plugin_id"@)),
            ("source"@, text_field(payload, "source"@)),
            ("priority"@, JsonModel::Int(priority_of(payload))),
            ("kind"@, text_field(payload, "kind"@)),
            ("type"@, type_of(payload)),
            ("timestamp"@, JsonModel::Float(timestamp_of(payload, default_ts).literal_text())),
            ("id"@, first_text(payload, id_keys(), 0)),
        ],
    )
}

fn read_text_field(payload: &Json, key: &str) -> (r: Json)
    ensures
        r@ == text_field(payload@, key@),
{
    match payload.get(key) {
        Some(v) => match v.as_text() {
            Some(s) => Json::text(s),
            None => Json::Null,
        },
        None => Json::Null,
    }
}

fn read_priority(payload: &Json) -> (r: i64)
    ensures
        r == priority_of(payload@),
{
    match payload.get("priority") {
        Some(Json::Int(n)) => *n,
        Some(Json::Str(s)) => match parse_i64(s.as_str()) {
            Some(n) => n,
            None => 0,
        },
        _ => 0,
    }
}

fn read_timestamp(payload: &Json, default_ts: &Decimal) -> (r: Decimal)
    ensures
        r == timestamp_of(payload@, *default_ts),
{
    let raw = match payload.get("timestamp") {
        Some(v) => Some(v),
        None => payload.get("time"),
    };
    match raw {
        Some(Json::Str(s)) => match parse_decimal(s.as_str()) {
            Some(d) => d,
            None => *default_ts,
        },
        Some(v) => match v.as_decimal() {
            Some(d) => d,
            None => *default_ts,
        },
        None => *default_ts,
    }
}

fn read_id(payload: &Json) -> (r: Json)
    ensures
        r@ == first_text(payload@, id_keys(), 0),
{
    proof {
        reveal_with_fuel(first_text, 8);
    }
    let a = read_text_field(payload, "message_id");
    if a.is_string() {
        return a;
    }
    let b = read_text_field(payload, "event_id");
    if b.is_string() {
        return b;
    }
    let c = read_text_field(payload, "lifecycle_id");
    if c.is_string() {
        return c;
    }
    let d = read_text_field(payload, "id");
    if d.is_string() {
        return d;
    }
    let e = read_text_field(payload, "task_id");
    if e.is_string() {
        return e;
    }
    let f = read_text_field(payload, "run_id");
    f
}

/// The index record of `payload`. It depends on the payload and on
/// `default_ts` alone.
pub fn extract_index(payload: &Json, default_ts: &Decimal) -> (r: Json)
    ensures
        r@ == index_record(payload@, *default_ts),
{
    let plugin_id = read_text_field(payload, "plugin_id");
    let source = read_text_field(payload, "source");
    let priority = read_priority(payload);
    let kind = read_text_field(payload, "kind");
    let first = read_text_field(payload, "type");
    let type_ = if first.is_string() {
        first
    } else {
        read_text_field(payload, "message_type")
    };
    let ts = read_timestamp(payload, default_ts);
    let id = read_id(payload);
    let mut m: Vec<Member> = Vec::new();
    m.push(member("plugin_id", plugin_id));
    m.push(member("source", source));
    m.push(member("priority", Json::Int(priority)));
    m.push(member("kind", kind));
    m.push(member("type", type_));
    m.push(member("timestamp", Json::from_decimal(&ts)));
    m.push(member("id", id));
    proof {
        assert(entries(m@) =~= index_record(payload@, *default_ts)->Object_0);
    }
    object(m)
}

} // verus!
