//! Criteria on the index record of events, as `bus.query` and the `get` leaf
//! of a plan state them.

use std::sync::Arc;
use vstd::prelude::*;
use crate::decimal::{decimal_of_text, parse_decimal, Decimal};
use crate::event::{event_models, Event, EventModel};
use crate::json::{Json, JsonModel};
use crate::order::{sort_events, sorted_by, Order, OrderModel};
use crate::select::{head, lemma_masked_is_filter, pick};
use crate::text::{as_i64_spec, int_of_text, parse_i64, str_eq};

verus! {

/// What an event must meet to be found. A criterion that is `None` admits
/// every event.
pub struct Criteria {
    pub plugin_id: Option<String>,
    pub source: Option<String>,
    pub kind: Option<String>,
    pub type_: Option<String>,
    pub priority_min: Option<i64>,
    pub since_ts: Option<Decimal>,
    pub until_ts: Option<Decimal>,
}

/// The mathematical value of [`Criteria`].
pub ghost struct CriteriaModel {
    pub plugin_id: Option<Seq<char>>,
    pub source: Option<Seq<char>>,
    pub kind: Option<Seq<char>>,
    pub type_: Option<Seq<char>>,
    pub priority_min: Option<i64>,
    pub since_ts: Option<Decimal>,
    pub until_ts: Option<Decimal>,
}

/// The text of an optional string.
pub open spec fn text_view(s: Option<String>) -> Option<Seq<char>> {
    match s {
        Some(t) => Some(t@),
        None => None,
    }
}

impl View for Criteria {
    type V = CriteriaModel;

    open spec fn view(&self) -> CriteriaModel {
        CriteriaModel {
            plugin_id: text_view(self.plugin_id),
            source: text_view(self.source),
            kind: text_view(self.kind),
            type_: text_view(self.type_),
            priority_min: self.priority_min,
            since_ts: self.since_ts,
            until_ts: self.until_ts,
        }
    }
}

/// The entry `key` of `args` as a string that is not empty.
pub open spec fn text_arg(args: JsonModel, key: Seq<char>) -> Option<Seq<char>> {
    match args.get(key) {
        Some(v) => v.as_text(),
        None => None,
    }
}

/// The entry `key` of `args` as an integer: an `Int`, or a string that
/// writes an integer within 64 bits.
pub open spec fn int_arg(args: JsonModel, key: Seq<char>) -> Option<i64> {
    match args.get(key) {
        Some(JsonModel::Int(n)) => Some(n),
        Some(JsonModel::Str(s)) => as_i64_spec(int_of_text(s)),
        _ => None,
    }
}

/// The entry `key` of `args` as a decimal: a number, or a string that
/// writes one.
pub open spec fn decimal_arg(args: JsonModel, key: Seq<char>) -> Option<Decimal> {
    match args.get(key) {
        Some(JsonModel::Str(s)) => decimal_of_text(s),
        Some(v) => v.as_decimal(),
        None => None,
    }
}

/// The criteria that `args` state.
pub open spec fn criteria_of(args: JsonModel) -> CriteriaModel {
    CriteriaModel {
        plugin_id: text_arg(args, "plugin_id"@),
        source: text_arg(args, "source"@),
        kind: text_arg(args, "kind"@),
        type_: text_arg(args, "type"@),
        priority_min: int_arg(args, "priority_min"@),
        since_ts: decimal_arg(args, "since_ts"@),
        until_ts: decimal_arg(args, "until_ts"@),
    }
}

/// The number zero.
pub open spec fn zero() -> Decimal {
    Decimal { neg: false, mant: 0, exp: 0 }
}

/// The entry `key` of the index record as a string.
pub open spec fn index_text(ev: EventModel, key: Seq<char>) -> Option<Seq<char>> {
    match ev.index.get(key) {
        Some(v) => v.as_str(),
        None => None,
    }
}

/// The priority in the index record; 0 where it holds no `Int`.
pub open spec fn index_priority(ev: EventModel) -> i64 {
    match ev.index.get("priority"@) {
        Some(JsonModel::Int(n)) => n,
        _ => 0,
    }
}

/// The timestamp in the index record; zero where it holds no number.
pub open spec fn index_time(ev: EventModel) -> Decimal {
    match ev.index.get("timestamp"@) {
        Some(v) => match v.as_decimal() {
            Some(d) => d,
            None => zero(),
        },
        None => zero(),
    }
}

/// An optional text criterion is met.
pub open spec fn text_met(want: Option<Seq<char>>, got: Option<Seq<char>>) -> bool {
    want is Some ==> got == want
}

impl CriteriaModel {
    /// No criterion is set.
    pub open spec fn is_open(self) -> bool {
        &&& self.plugin_id is None
        &&& self.source is None
        &&& self.kind is None
        &&& self.type_ is None
        &&& self.priority_min is None
        &&& self.since_ts is None
        &&& self.until_ts is None
    }

    /// Whether `ev` meets the criteria: its index record is an object, each
    /// of `plugin_id`, `source`, `kind` and `type` that is asked for is the
    /// string held there, the priority is not below `priority_min`, and the
    /// timestamp is neither before `since_ts` nor after `until_ts`.
    pub open spec fn admits(self, ev: EventModel) -> bool {
        &&& ev.index is Object
        &&& text_met(self.plugin_id, index_text(ev, "plugin_id"@))
        &&& text_met(self.source, index_text(ev, "source"@))
        &&& text_met(self.kind, index_text(ev, "kind"@))
        &&& text_met(self.type_, index_text(ev, "type"@))
        &&& (self.priority_min is Some ==> index_priority(ev) >= self.priority_min->0)
        &&& (self.since_ts is Some ==> !index_time(ev).lt_spec(self.since_ts->0))
        &&& (self.until_ts is Some ==> !self.until_ts->0.lt_spec(index_time(ev)))
    }
}

/// The events of `s` that meet `c`.
pub open spec fn matching(s: Seq<EventModel>, c: CriteriaModel) -> Seq<EventModel> {
    s.filter(|e: EventModel| c.admits(e))
}

/// The first `limit` items of `s`.
pub open spec fn first_n<T>(s: Seq<T>, limit: usize) -> Seq<T> {
    if s.len() > limit {
        s.take(limit as int)
    } else {
        s
    }
}

/// The events of `s` that meet `c`, highest sequence number first, at most
/// `limit` of them.
pub open spec fn found(s: Seq<EventModel>, c: CriteriaModel, limit: usize) -> Seq<EventModel> {
    first_n(sorted_by(matching(s, c), OrderModel::SeqDescending), limit)
}

fn read_text_arg(args: &Json, key: &str) -> (r: Option<String>)
    ensures
        text_view(r) == text_arg(args@, key@),
{
    match args.get(key) {
        Some(v) => match v.as_text() {
            Some(s) => Some(String::from_str(s)),
            None => None,
        },
        None => None,
    }
}

/// The entry `key` of `args` as an integer.
pub fn read_int_arg(args: &Json, key: &str) -> (r: Option<i64>)
    ensures
        r == int_arg(args@, key@),
{
    match args.get(key) {
        Some(Json::Int(n)) => Some(*n),
        Some(Json::Str(s)) => parse_i64(s.as_str()),
        _ => None,
    }
}

/// The entry `key` of `args` as a decimal.
pub fn read_decimal_arg(args: &Json, key: &str) -> (r: Option<Decimal>)
    ensures
        r == decimal_arg(args@, key@),
        r is Some ==> r->0.wf(),
{
    match args.get(key) {
        Some(Json::Str(s)) => parse_decimal(s.as_str()),
        Some(v) => v.as_decimal(),
        None => None,
    }
}

fn text_is(want: &Option<String>, ev: &Event, key: &str) -> (r: bool)
    ensures
        r == text_met(text_view(*want), index_text(ev@, key@)),
{
    match want {
        None => true,
        Some(w) => match ev.index.get(key) {
            Some(v) => match v.as_str() {
                Some(s) => str_eq(s, w.as_str()),
                None => false,
            },
            None => false,
        },
    }
}

/// The timestamp in the index record of `ev`.
pub fn time_of(ev: &Event) -> (d: Decimal)
    ensures
        d == index_time(ev@),
{
    match ev.index.get("timestamp") {
        Some(v) => match v.as_decimal() {
            Some(d) => d,
            None => Decimal { neg: false, mant: 0, exp: 0 },
        },
        None => Decimal { neg: false, mant: 0, exp: 0 },
    }
}

/// The priority in the index record of `ev`.
pub fn priority_in(ev: &Event) -> (p: i64)
    ensures
        p == index_priority(ev@),
{
    match ev.index.get("priority") {
        Some(Json::Int(n)) => *n,
        _ => 0,
    }
}

impl Criteria {
    /// The criteria that `args` state.
    pub fn parse(args: &Json) -> (c: Criteria)
        ensures
            c@ == criteria_of(args@),
    {
        Criteria {
            plugin_id: read_text_arg(args, "plugin_id"),
            source: read_text_arg(args, "source"),
            kind: read_text_arg(args, "kind"),
            type_: read_text_arg(args, "type"),
            priority_min: read_int_arg(args, "priority_min"),
            since_ts: read_decimal_arg(args, "since_ts"),
            until_ts: read_decimal_arg(args, "until_ts"),
        }
    }

    /// Whether no criterion is set.
    pub fn is_open(&self) -> (r: bool)
        ensures
            r == self@.is_open(),
    {
        self.plugin_id.is_none() && self.source.is_none() && self.kind.is_none()
            && self.type_.is_none() && self.priority_min.is_none() && self.since_ts.is_none()
            && self.until_ts.is_none()
    }

    /// Whether `ev` meets the criteria.
    pub fn admits(&self, ev: &Event) -> (r: bool)
        ensures
            r == self@.admits(ev@),
    {
        if !ev.index.is_object() {
            return false;
        }
        if !text_is(&self.plugin_id, ev, "plugin_id") {
            return false;
        }
        if !text_is(&self.source, ev, "source") {
            return false;
        }
        if !text_is(&self.kind, ev, "kind") {
            return false;
        }
        if !text_is(&self.type_, ev, "type") {
            return false;
        }
        if let Some(p) = self.priority_min {
            if priority_in(ev) < p {
                return false;
            }
        }
        if let Some(s) = self.since_ts {
            if time_of(ev).lt(&s) {
                return false;
            }
        }
        if let Some(u) = self.until_ts {
            if u.lt(&time_of(ev)) {
                return false;
            }
        }
        true
    }
}

/// The events of `items` that meet `c`, highest sequence number first, at
/// most `limit` of them.
pub fn search(items: &Vec<Arc<Event>>, c: &Criteria, limit: usize) -> (out: Vec<Arc<Event>>)
    ensures
        event_models(out@) == found(event_models(items@), c@, limit),
{
    let mut keep: Vec<bool> = Vec::new();
    let mut i: usize = 0;
    while i < items.len()
        invariant
            i <= items.len(),
            keep.len() == i,
            forall|j: int| 0 <= j < i ==> keep@[j] == c@.admits(items@[j]@),
        decreases items.len() - i,
    {
        keep.push(c.admits(&items[i]));
        i += 1;
    }
    let hits = pick(items, &keep);
    proof {
        lemma_masked_is_filter(event_models(items@), keep@, |e: EventModel| c@.admits(e));
    }
    let sorted = sort_events(&hits, &Order::SeqDescending);
    head(sorted, limit)
}

} // verus!
