//! The operations of a plan that take one run of events: `limit`, `sort`,
//! `filter` and the `where_*` family.

use std::sync::Arc;
use vstd::prelude::*;
use crate::codec::{stringified, text_for};
use crate::decimal::{decimal_of_text, parse_decimal, Decimal};
use crate::event::{event_models, Event, EventModel};
use crate::filter::zero;
use crate::json::{lookup, same_json, Json, JsonModel};
use crate::order::{sort_events, sorted_by, Order, OrderModel};
use crate::pattern::{maybe_match_regex, match_verdict, pattern_usable, usable};
use crate::select::{head, lemma_masked_is_filter, pick};
use crate::text::{
    as_i64_spec, contains, int_of_text, parse_i64, str_eq, text_contains, trim, trimmed,
};

verus! {

/// The fields by which `sort` orders where it is told none.
pub open spec fn default_sort_fields() -> Seq<Seq<char>> {
    seq!["timestamp"@, "created_at"@, "time"@]
}

/// The fields by which `sort` orders: the entry `by` where it is a string,
/// the texts that stand for its items where it is an array, and the three
/// default fields otherwise.
pub open spec fn sort_fields(params: JsonModel) -> Seq<Seq<char>> {
    match params.get("by"@) {
        Some(JsonModel::Str(s)) => seq![s],
        Some(JsonModel::Array(a)) => a.map_values(|x: JsonModel| stringified(x)),
        _ => default_sort_fields(),
    }
}

/// The entry `key` of `params` as a truth value, or `default` where it is
/// none.
pub open spec fn flag(params: JsonModel, key: Seq<char>, default: bool) -> bool {
    match params.get(key) {
        Some(JsonModel::Bool(b)) => b,
        _ => default,
    }
}

/// The order that the parameters of `sort` ask for.
pub open spec fn sort_order(params: JsonModel) -> OrderModel {
    OrderModel::Fields { names: sort_fields(params), reverse: flag(params, "reverse"@, false) }
}

/// What `limit` keeps: the first `n` events, and none where `n` is missing,
/// no `Int`, zero or negative.
pub open spec fn limit_result(items: Seq<EventModel>, params: JsonModel) -> Seq<EventModel> {
    match params.get("n"@) {
        Some(JsonModel::Int(n)) => if n <= 0 {
            Seq::empty()
        } else if items.len() > n {
            items.take(n as int)
        } else {
            items
        },
        _ => Seq::empty(),
    }
}

/// The entry `key` as `filter` reads it: from the object under `flt` where
/// that has the entry, else from the parameters themselves.
pub open spec fn effective(params: JsonModel, key: Seq<char>) -> Option<JsonModel> {
    match params.get("flt"@) {
        Some(JsonModel::Object(f)) => match lookup(f, key) {
            Some(v) => Some(v),
            None => params.get(key),
        },
        _ => params.get(key),
    }
}

/// A value as an integer: an `Int`, or a string that writes one.
pub open spec fn int_value(v: JsonModel) -> Option<i64> {
    match v {
        JsonModel::Int(n) => Some(n),
        JsonModel::Str(s) => as_i64_spec(int_of_text(s)),
        _ => None,
    }
}

/// A value as a decimal: a number, or a string that writes one.
pub open spec fn decimal_value(v: JsonModel) -> Option<Decimal> {
    match v {
        JsonModel::Str(s) => decimal_of_text(s),
        _ => v.as_decimal(),
    }
}

/// The field `priority` of an event as an integer; 0 where it is no `Int`.
pub open spec fn field_priority(ev: EventModel) -> i64 {
    match ev.field("priority"@) {
        Some(JsonModel::Int(n)) => n,
        _ => 0,
    }
}

/// The field `timestamp` of an event as a decimal; zero where it is no
/// number.
pub open spec fn field_time(ev: EventModel) -> Decimal {
    match ev.field("timestamp"@) {
        Some(v) => match v.as_decimal() {
            Some(d) => d,
            None => zero(),
        },
        None => zero(),
    }
}

/// The field `key` equals what `filter` asks of it, or nothing is asked.
pub open spec fn equal_met(params: JsonModel, ev: EventModel, key: Seq<char>) -> bool {
    match effective(params, key) {
        Some(want) => match ev.field(key) {
            Some(got) => same_json(got, want),
            None => false,
        },
        None => true,
    }
}

/// The criterion `priority_min` of `filter` is met. One that cannot be read
/// as an integer fails every event when `strict` and none otherwise.
pub open spec fn priority_met(params: JsonModel, ev: EventModel, strict: bool) -> bool {
    match effective(params, "priority_min"@) {
        Some(want) => match int_value(want) {
            Some(n) => field_priority(ev) >= n,
            None => !strict,
        },
        None => true,
    }
}

/// The criterion `since_ts` of `filter` is met.
pub open spec fn since_met(params: JsonModel, ev: EventModel, strict: bool) -> bool {
    match effective(params, "since_ts"@) {
        Some(want) => match decimal_value(want) {
            Some(d) => !field_time(ev).lt_spec(d),
            None => !strict,
        },
        None => true,
    }
}

/// The criterion `until_ts` of `filter` is met.
pub open spec fn until_met(params: JsonModel, ev: EventModel, strict: bool) -> bool {
    match effective(params, "until_ts"@) {
        Some(want) => match decimal_value(want) {
            Some(d) => !d.lt_spec(field_time(ev)),
            None => !strict,
        },
        None => true,
    }
}

/// The pattern under `key`, where it is a string that is not empty, does not
/// fail `value`.
pub open spec fn pattern_met(
    params: JsonModel,
    key: Seq<char>,
    value: Option<JsonModel>,
    strict: bool,
) -> bool {
    match effective(params, key) {
        Some(p) => match p.as_text() {
            Some(pattern) => match_verdict(pattern, value, strict) != Some(false),
            None => true,
        },
        None => true,
    }
}

/// Whether `filter` keeps `ev`. `strict` is the entry of that name in the
/// parameters, and true where it is no truth value.
pub open spec fn filter_admits(params: JsonModel, ev: EventModel) -> bool {
    let strict = flag(params, "strict"@, true);
    &&& equal_met(params, ev, "plugin_id"@)
    &&& equal_met(params, ev, "source"@)
    &&& equal_met(params, ev, "kind"@)
    &&& equal_met(params, ev, "type"@)
    &&& priority_met(params, ev, strict)
    &&& since_met(params, ev, strict)
    &&& until_met(params, ev, strict)
    &&& pattern_met(params, "plugin_id_re"@, ev.field("plugin_id"@), strict)
    &&& pattern_met(params, "source_re"@, ev.field("source"@), strict)
    &&& pattern_met(params, "kind_re"@, ev.field("kind"@), strict)
    &&& pattern_met(params, "type_re"@, ev.field("type"@), strict)
    &&& pattern_met(params, "content_re"@, ev.payload.get("content"@), strict)
}

/// The field that a `where_*` operation names: the entry `field` without
/// the whitespace around it; empty where it is no string.
pub open spec fn where_field(params: JsonModel) -> Seq<char> {
    match params.get("field"@) {
        Some(JsonModel::Str(s)) => trimmed(s),
        _ => Seq::empty(),
    }
}

/// The entry `key` of `params` as a string; empty where it is none.
pub open spec fn text_or_empty(params: JsonModel, key: Seq<char>) -> Seq<char> {
    match params.get(key) {
        Some(JsonModel::Str(s)) => s,
        _ => Seq::empty(),
    }
}

/// Two optional values are equal: both are missing, or both are there and
/// equal.
pub open spec fn same_option(a: Option<JsonModel>, b: Option<JsonModel>) -> bool {
    match (a, b) {
        (None, None) => true,
        (Some(x), Some(y)) => same_json(x, y),
        _ => false,
    }
}

/// The text that stands for a field's value, a missing one counting as
/// null.
pub open spec fn field_text(ev: EventModel, field: Seq<char>) -> Seq<char> {
    match ev.field(field) {
        Some(v) => stringified(v),
        None => stringified(JsonModel::Null),
    }
}

/// `t` is the text that stands for one of `values`.
pub open spec fn among(values: Seq<JsonModel>, t: Seq<char>) -> bool {
    exists|i: int| 0 <= i < values.len() && stringified(#[trigger] values[i]) == t
}

/// What `where_eq` keeps: the events whose field equals the entry `value`.
/// All events where no field is named.
pub open spec fn where_eq_result(items: Seq<EventModel>, params: JsonModel) -> Seq<EventModel> {
    if where_field(params).len() == 0 {
        items
    } else {
        items.filter(
            |e: EventModel| same_option(e.field(where_field(params)), params.get("value"@)),
        )
    }
}

/// What `where_in` keeps: the events whose field, as text, is the text of
/// one of the items of the array `values`. All events where no field is
/// named or `values` is no array.
pub open spec fn where_in_result(items: Seq<EventModel>, params: JsonModel) -> Seq<EventModel> {
    match params.get("values"@) {
        Some(JsonModel::Array(values)) => if where_field(params).len() == 0 {
            items
        } else {
            items.filter(|e: EventModel| among(values, field_text(e, where_field(params))))
        },
        _ => items,
    }
}

/// What `where_contains` keeps: the events whose field, as text, holds the
/// string `value`. All events where no field is named or `value` is no
/// string that is not empty.
pub open spec fn where_contains_result(items: Seq<EventModel>, params: JsonModel) -> Seq<
    EventModel,
> {
    if where_field(params).len() == 0 || text_or_empty(params, "value"@).len() == 0 {
        items
    } else {
        items.filter(
            |e: EventModel|
                text_contains(
                    field_text(e, where_field(params)),
                    text_or_empty(params, "value"@),
                ),
        )
    }
}

/// What `where_regex` keeps: the events whose field is there and, as text,
/// matches the string `pattern`. All events where no field is named or
/// `pattern` is no string that is not empty. For a pattern that cannot be
/// used: no event when `strict`, all events otherwise.
pub open spec fn where_regex_result(items: Seq<EventModel>, params: JsonModel) -> Seq<EventModel> {
    let field = where_field(params);
    let pattern = text_or_empty(params, "pattern"@);
    let strict = flag(params, "strict"@, true);
    if field.len() == 0 || pattern.len() == 0 {
        items
    } else if !usable(pattern) {
        if strict {
            Seq::empty()
        } else {
            items
        }
    } else {
        items.filter(|e: EventModel| match_verdict(pattern, e.field(field), strict) == Some(true))
    }
}

/// What a unary operation makes of `items`; `None` for an operation that is
/// not known.
pub open spec fn unary_result(items: Seq<EventModel>, op: Seq<char>, params: JsonModel) -> Option<
    Seq<EventModel>,
> {
    if op == "limit"@ {
        Some(limit_result(items, params))
    } else if op == "sort"@ {
        Some(sorted_by(items, sort_order(params)))
    } else if op == "filter"@ {
        Some(items.filter(|e: EventModel| filter_admits(params, e)))
    } else if op == "where_eq"@ {
        Some(where_eq_result(items, params))
    } else if op == "where_in"@ {
        Some(where_in_result(items, params))
    } else if op == "where_contains"@ {
        Some(where_contains_result(items, params))
    } else if op == "where_regex"@ {
        Some(where_regex_result(items, params))
    } else {
        None
    }
}

fn read_flag(params: &Json, key: &str, default: bool) -> (r: bool)
    ensures
        r == flag(params@, key@, default),
{
    match params.get(key) {
        Some(Json::Bool(b)) => *b,
        _ => default,
    }
}

fn effective_get<'a>(params: &'a Json, key: &str) -> (r: Option<&'a Json>)
    ensures
        match r {
            Some(v) => effective(params@, key@) == Some(v@),
            None => effective(params@, key@) is None,
        },
{
    match params.get("flt") {
        Some(f) => {
            if f.is_object() {
                match f.get(key) {
                    Some(v) => Some(v),
                    None => params.get(key),
                }
            } else {
                params.get(key)
            }
        },
        None => params.get(key),
    }
}

fn read_int_value(v: &Json) -> (r: Option<i64>)
    ensures
        r == int_value(v@),
{
    match v {
        Json::Int(n) => Some(*n),
        Json::Str(s) => parse_i64(s.as_str()),
        _ => None,
    }
}

fn read_decimal_value(v: &Json) -> (r: Option<Decimal>)
    ensures
        r == decimal_value(v@),
{
    match v {
        Json::Str(s) => parse_decimal(s.as_str()),
        _ => v.as_decimal(),
    }
}

fn priority_of_field(ev: &Event) -> (r: i64)
    ensures
        r == field_priority(ev@),
{
    match ev.field("priority") {
        Some(Json::Int(n)) => n,
        _ => 0,
    }
}

fn time_of_field(ev: &Event) -> (r: Decimal)
    ensures
        r == field_time(ev@),
{
    match ev.field("timestamp") {
        Some(v) => match v.as_decimal() {
            Some(d) => d,
            None => Decimal { neg: false, mant: 0, exp: 0 },
        },
        None => Decimal { neg: false, mant: 0, exp: 0 },
    }
}

fn check_equal(params: &Json, ev: &Event, key: &str) -> (r: bool)
    ensures
        r == equal_met(params@, ev@, key@),
{
    match effective_get(params, key) {
        Some(want) => match ev.field(key) {
            Some(got) => got.same(want),
            None => false,
        },
        None => true,
    }
}

fn check_priority(params: &Json, ev: &Event, strict: bool) -> (r: bool)
    ensures
        r == priority_met(params@, ev@, strict),
{
    match effective_get(params, "priority_min") {
        Some(want) => match read_int_value(want) {
            Some(n) => priority_of_field(ev) >= n,
            None => !strict,
        },
        None => true,
    }
}

fn check_since(params: &Json, ev: &Event, strict: bool) -> (r: bool)
    ensures
        r == since_met(params@, ev@, strict),
{
    match effective_get(params, "since_ts") {
        Some(want) => match read_decimal_value(want) {
            Some(d) => !time_of_field(ev).lt(&d),
            None => !strict,
        },
        None => true,
    }
}

fn check_until(params: &Json, ev: &Event, strict: bool) -> (r: bool)
    ensures
        r == until_met(params@, ev@, strict),
{
    match effective_get(params, "until_ts") {
        Some(want) => match read_decimal_value(want) {
            Some(d) => !d.lt(&time_of_field(ev)),
            None => !strict,
        },
        None => true,
    }
}

fn check_pattern(params: &Json, key: &str, value: Option<&Json>, strict: bool) -> (r: bool)
    ensures
        r == pattern_met(
            params@,
            key@,
            match value {
                Some(v) => Some(v@),
                None => None,
            },
            strict,
        ),
{
    match effective_get(params, key) {
        Some(p) => match p.as_text() {
            Some(pattern) => {
                let verdict = maybe_match_regex(pattern, value, strict);
                match verdict {
                    Some(false) => false,
                    _ => true,
                }
            },
            None => true,
        },
        None => true,
    }
}

fn check_field_pattern(params: &Json, key: &str, field: &str, ev: &Event, strict: bool) -> (r:
    bool)
    ensures
        r == pattern_met(params@, key@, ev@.field(field@), strict),
{
    let got = ev.field(field);
    match &got {
        Some(v) => check_pattern(params, key, Some(v), strict),
        None => check_pattern(params, key, None, strict),
    }
}

/// Whether `filter` with the parameters `params` keeps `ev`.
pub fn filter_keeps(params: &Json, ev: &Event) -> (r: bool)
    ensures
        r == filter_admits(params@, ev@),
{
    let strict = read_flag(params, "strict", true);
    check_equal(params, ev, "plugin_id") && check_equal(params, ev, "source") && check_equal(
        params,
        ev,
        "kind",
    ) && check_equal(params, ev, "type") && check_priority(params, ev, strict) && check_since(
        params,
        ev,
        strict,
    ) && check_until(params, ev, strict) && check_field_pattern(
        params,
        "plugin_id_re",
        "plugin_id",
        ev,
        strict,
    ) && check_field_pattern(params, "source_re", "source", ev, strict) && check_field_pattern(
        params,
        "kind_re",
        "kind",
        ev,
        strict,
    ) && check_field_pattern(params, "type_re", "type", ev, strict) && check_pattern(
        params,
        "content_re",
        ev.payload.get("content"),
        strict,
    )
}

fn read_where_field(params: &Json) -> (r: String)
    ensures
        r@ == where_field(params@),
{
    match params.get("field") {
        Some(Json::Str(s)) => trim(s.as_str()),
        _ => String::new(),
    }
}

fn read_text_or_empty<'a>(params: &'a Json, key: &str) -> (r: &'a str)
    ensures
        r@ == text_or_empty(params@, key@),
{
    match params.get(key) {
        Some(Json::Str(s)) => s.as_str(),
        _ => {
            let e: &'static str = "";
            proof {
                reveal_strlit("");
            }
            e
        },
    }
}

fn read_sort_fields(params: &Json) -> (names: Vec<String>)
    ensures
        names@.map_values(|s: String| s@) == sort_fields(params@),
{
    let mut names: Vec<String> = Vec::new();
    match params.get("by") {
        Some(Json::Str(s)) => {
            names.push(s.clone());
            proof {
                assert(names@.map_values(|s: String| s@) =~= sort_fields(params@));
            }
        },
        Some(Json::Array(a)) => {
            proof {
                crate::json::lemma_array_view(*a);
            }
            let mut i: usize = 0;
            while i < a.len()
                invariant
                    i <= a.len(),
                    names.len() == i,
                    forall|j: int| 0 <= j < i ==> names@[j]@ == stringified(a@[j]@),
                decreases a.len() - i,
            {
                names.push(text_for(&a[i]));
                i += 1;
            }
            proof {
                assert(names@.map_values(|s: String| s@) =~= sort_fields(params@));
            }
        },
        _ => {
            names.push(String::from_str("timestamp"));
            names.push(String::from_str("created_at"));
            names.push(String::from_str("time"));
            proof {
                assert(names@.map_values(|s: String| s@) =~= default_sort_fields());
            }
        },
    }
    names
}

fn same_as_option(a: &Option<Json>, b: Option<&Json>) -> (r: bool)
    ensures
        r == same_option(
            match a {
                Some(x) => Some(x@),
                None => None,
            },
            match b {
                Some(x) => Some(x@),
                None => None,
            },
        ),
{
    match (a, b) {
        (None, None) => true,
        (Some(x), Some(y)) => x.same(y),
        _ => false,
    }
}

fn text_of_field(ev: &Event, field: &str) -> (r: String)
    ensures
        r@ == field_text(ev@, field@),
{
    match ev.field(field) {
        Some(v) => text_for(&v),
        None => text_for(&Json::Null),
    }
}

fn is_among(texts: &Vec<String>, t: &str, Ghost(values): Ghost<Seq<JsonModel>>) -> (r: bool)
    requires
        texts.len() == values.len(),
        forall|i: int| 0 <= i < texts.len() ==> texts@[i]@ == stringified(values[i]),
    ensures
        r == among(values, t@),
{
    let mut i: usize = 0;
    while i < texts.len()
        invariant
            i <= texts.len(),
            texts.len() == values.len(),
            forall|j: int| 0 <= j < texts.len() ==> texts@[j]@ == stringified(values[j]),
            forall|j: int| 0 <= j < i ==> stringified(#[trigger] values[j]) != t@,
        decreases texts.len() - i,
    {
        if str_eq(texts[i].as_str(), t) {
            assert(stringified(values[i as int]) == t@);
            return true;
        }
        i += 1;
    }
    false
}

fn apply_limit(items: Vec<Arc<Event>>, params: &Json) -> (out: Vec<Arc<Event>>)
    ensures
        event_models(out@) == limit_result(event_models(items@), params@),
{
    let n: i64 = match params.get("n") {
        Some(Json::Int(n)) => *n,
        _ => 0,
    };
    if n <= 0 {
        let out: Vec<Arc<Event>> = Vec::new();
        assert(event_models(out@) =~= Seq::<EventModel>::empty());
        return out;
    }
    let len: usize = items.len();
    if n as u64 >= len as u64 {
        assert(event_models(items@).len() == len);
        return items;
    }
    head(items, n as usize)
}

fn apply_filter(items: &Vec<Arc<Event>>, params: &Json) -> (out: Vec<Arc<Event>>)
    ensures
        event_models(out@) == event_models(items@).filter(
            |e: EventModel| filter_admits(params@, e),
        ),
{
    let mut keep: Vec<bool> = Vec::new();
    let mut i: usize = 0;
    while i < items.len()
        invariant
            i <= items.len(),
            keep.len() == i,
            forall|j: int| 0 <= j < i ==> keep@[j] == filter_admits(params@, items@[j]@),
        decreases items.len() - i,
    {
        keep.push(filter_keeps(params, &items[i]));
        i += 1;
    }
    let out = pick(items, &keep);
    proof {
        lemma_masked_is_filter(
            event_models(items@),
            keep@,
            |e: EventModel| filter_admits(params@, e),
        );
    }
    out
}

fn apply_where_eq(items: Vec<Arc<Event>>, params: &Json) -> (out: Vec<Arc<Event>>)
    ensures
        event_models(out@) == where_eq_result(event_models(items@), params@),
{
    let field = read_where_field(params);
    if field.as_str().unicode_len() == 0 {
        return items;
    }
    let value = params.get("value");
    let mut keep: Vec<bool> = Vec::new();
    let mut i: usize = 0;
    while i < items.len()
        invariant
            i <= items.len(),
            keep.len() == i,
            field@ == where_field(params@),
            match value {
                Some(v) => params@.get("value"@) == Some(v@),
                None => params@.get("value"@) is None,
            },
            forall|j: int|
                0 <= j < i ==> keep@[j] == same_option(
                    items@[j]@.field(where_field(params@)),
                    params@.get("value"@),
                ),
        decreases items.len() - i,
    {
        let got = items[i].field(field.as_str());
        keep.push(same_as_option(&got, value));
        i += 1;
    }
    let out = pick(&items, &keep);
    proof {
        lemma_masked_is_filter(
            event_models(items@),
            keep@,
            |e: EventModel| same_option(e.field(where_field(params@)), params@.get("value"@)),
        );
    }
    out
}

fn apply_where_in(items: Vec<Arc<Event>>, params: &Json) -> (out: Vec<Arc<Event>>)
    ensures
        event_models(out@) == where_in_result(event_models(items@), params@),
{
    let field = read_where_field(params);
    let values = match params.get("values") {
        Some(Json::Array(a)) => a,
        _ => {
            return items;
        },
    };
    proof {
        crate::json::lemma_array_view(*values);
    }
    if field.as_str().unicode_len() == 0 {
        return items;
    }
    let ghost vals = crate::json::models(values@);
    let mut texts: Vec<String> = Vec::new();
    let mut k: usize = 0;
    while k < values.len()
        invariant
            k <= values.len(),
            texts.len() == k,
            vals == crate::json::models(values@),
            forall|j: int| 0 <= j < k ==> texts@[j]@ == stringified(vals[j]),
        decreases values.len() - k,
    {
        texts.push(text_for(&values[k]));
        k += 1;
    }
    let mut keep: Vec<bool> = Vec::new();
    let mut i: usize = 0;
    while i < items.len()
        invariant
            i <= items.len(),
            keep.len() == i,
            field@ == where_field(params@),
            texts.len() == vals.len(),
            forall|j: int| 0 <= j < texts.len() ==> texts@[j]@ == stringified(vals[j]),
            forall|j: int|
                0 <= j < i ==> keep@[j] == among(
                    vals,
                    field_text(items@[j]@, where_field(params@)),
                ),
        decreases items.len() - i,
    {
        let t = text_of_field(&items[i], field.as_str());
        keep.push(is_among(&texts, t.as_str(), Ghost(vals)));
        i += 1;
    }
    let out = pick(&items, &keep);
    proof {
        lemma_masked_is_filter(
            event_models(items@),
            keep@,
            |e: EventModel| among(vals, field_text(e, where_field(params@))),
        );
    }
    out
}

fn apply_where_contains(items: Vec<Arc<Event>>, params: &Json) -> (out: Vec<Arc<Event>>)
    ensures
        event_models(out@) == where_contains_result(event_models(items@), params@),
{
    let field = read_where_field(params);
    let value = read_text_or_empty(params, "value");
    if field.as_str().unicode_len() == 0 || value.unicode_len() == 0 {
        return items;
    }
    let mut keep: Vec<bool> = Vec::new();
    let mut i: usize = 0;
    while i < items.len()
        invariant
            i <= items.len(),
            keep.len() == i,
            field@ == where_field(params@),
            value@ == text_or_empty(params@, "value"@),
            forall|j: int|
                0 <= j < i ==> keep@[j] == text_contains(
                    field_text(items@[j]@, where_field(params@)),
                    text_or_empty(params@, "value"@),
                ),
        decreases items.len() - i,
    {
        let t = text_of_field(&items[i], field.as_str());
        keep.push(contains(t.as_str(), value));
        i += 1;
    }
    let out = pick(&items, &keep);
    proof {
        lemma_masked_is_filter(
            event_models(items@),
            keep@,
            |e: EventModel|
                text_contains(
                    field_text(e, where_field(params@)),
                    text_or_empty(params@, "value"@),
                ),
        );
    }
    out
}

fn apply_where_regex(items: Vec<Arc<Event>>, params: &Json) -> (out: Vec<Arc<Event>>)
    ensures
        event_models(out@) == where_regex_result(event_models(items@), params@),
{
    let field = read_where_field(params);
    let pattern = read_text_or_empty(params, "pattern");
    let strict = read_flag(params, "strict", true);
    if field.as_str().unicode_len() == 0 || pattern.unicode_len() == 0 {
        return items;
    }
    if !pattern_usable(pattern) {
        if strict {
            let out: Vec<Arc<Event>> = Vec::new();
            assert(event_models(out@) =~= Seq::<EventModel>::empty());
            return out;
        } else {
            return items;
        }
    }
    let mut keep: Vec<bool> = Vec::new();
    let mut i: usize = 0;
    while i < items.len()
        invariant
            i <= items.len(),
            keep.len() == i,
            field@ == where_field(params@),
            pattern@ == text_or_empty(params@, "pattern"@),
            forall|j: int|
                0 <= j < i ==> keep@[j] == (match_verdict(
                    pattern@,
                    items@[j]@.field(field@),
                    strict,
                ) == Some(true)),
        decreases items.len() - i,
    {
        let got = items[i].field(field.as_str());
        let verdict = match &got {
            Some(v) => maybe_match_regex(pattern, Some(v), strict),
            None => maybe_match_regex(pattern, None, strict),
        };
        keep.push(
            match verdict {
                Some(true) => true,
                _ => false,
            },
        );
        i += 1;
    }
    let out = pick(&items, &keep);
    proof {
        lemma_masked_is_filter(
            event_models(items@),
            keep@,
            |e: EventModel| match_verdict(pattern@, e.field(field@), strict) == Some(true),
        );
    }
    out
}

/// Applies the unary operation `op` with the parameters `params` to
/// `items`. `None` for an operation that is not known.
pub fn apply_unary_op(items: Vec<Arc<Event>>, op: &str, params: &Json) -> (r: Option<
    Vec<Arc<Event>>,
>)
    ensures
        match r {
            Some(out) => unary_result(event_models(items@), op@, params@) == Some(
                event_models(out@),
            ),
            None => unary_result(event_models(items@), op@, params@) is None,
        },
{
    if str_eq(op, "limit") {
        Some(apply_limit(items, params))
    } else if str_eq(op, "sort") {
        let names = read_sort_fields(params);
        let reverse = read_flag(params, "reverse", false);
        let order = Order::Fields { names, reverse };
        Some(sort_events(&items, &order))
    } else if str_eq(op, "filter") {
        Some(apply_filter(&items, params))
    } else if str_eq(op, "where_eq") {
        Some(apply_where_eq(items, params))
    } else if str_eq(op, "where_in") {
        Some(apply_where_in(items, params))
    } else if str_eq(op, "where_contains") {
        Some(apply_where_contains(items, params))
    } else if str_eq(op, "where_regex") {
        Some(apply_where_regex(items, params))
    } else {
        None
    }
}

} // verus!
