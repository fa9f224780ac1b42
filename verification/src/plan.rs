//! Query plans: trees of `get` leaves, unary and binary operations, and
//! their evaluation against a store.

use std::sync::Arc;
use vstd::prelude::*;
use crate::binary::{apply_binary_op, binary_result};
use crate::event::{event_models, Event, EventModel};
use crate::filter::{criteria_of, found, search, Criteria};
use crate::json::{Json, JsonModel};
use crate::store::{Store, StoreModel};
use crate::text::str_eq;
use crate::unary::{apply_unary_op, unary_result};

verus! {

/// Deepest nesting of a plan that is evaluated.
pub const PLAN_DEPTH: usize = 1024;

/// Number of events that a request gets where it asks for none, or for none
/// that is positive.
pub const DEFAULT_LIMIT: usize = 200;

/// The entry `key` of `v`, or null where it has none.
pub open spec fn entry_or_null(v: JsonModel, key: Seq<char>) -> JsonModel {
    match v.get(key) {
        Some(x) => x,
        None => JsonModel::Null,
    }
}

/// The entry `key` of `v` as a string; empty where it is none.
pub open spec fn name_or_empty(v: JsonModel, key: Seq<char>) -> Seq<char> {
    match v.get(key) {
        Some(JsonModel::Str(s)) => s,
        _ => Seq::empty(),
    }
}

/// The number of events asked for, held within `max_limit`; [`DEFAULT_LIMIT`]
/// where that leaves nothing positive.
pub open spec fn clamped(requested: int, max_limit: usize) -> usize {
    let capped = if requested > max_limit {
        max_limit as int
    } else {
        requested
    };
    if capped <= 0 {
        DEFAULT_LIMIT
    } else {
        capped as usize
    }
}

/// The number of events that a `get` leaf asks for: its entry `max_count`,
/// or `limit` where it has no `max_count`; [`DEFAULT_LIMIT`] where that is
/// no `Int`.
pub open spec fn requested_count(p: JsonModel) -> int {
    let raw = match p.get("max_count"@) {
        Some(v) => Some(v),
        None => p.get("limit"@),
    };
    match raw {
        Some(JsonModel::Int(n)) => n as int,
        _ => DEFAULT_LIMIT as int,
    }
}

/// The topic that a `get` leaf reads: its entry `topic`, or `all` where that
/// is no string.
pub open spec fn leaf_topic(p: JsonModel) -> Seq<char> {
    match p.get("topic"@) {
        Some(JsonModel::Str(s)) => s,
        _ => "all"@,
    }
}

/// What a `get` leaf with the parameters `p` reads from `m`, and `m` after
/// the read. Without criteria it reads the most recent events of the topic,
/// oldest first, and the read is counted. With criteria it reads the events
/// of the topic that meet them, highest sequence number first.
pub open spec fn leaf_result(m: StoreModel, p: JsonModel, max_limit: usize) -> (
    Seq<EventModel>,
    StoreModel,
) {
    let c = criteria_of(p);
    let limit = clamped(requested_count(p), max_limit);
    let topic = leaf_topic(p);
    if c.is_open() {
        (m.recent(topic, limit), m.after_recent(topic))
    } else {
        (found(m.buffer(topic), c, limit), m)
    }
}

/// What the plan `node` yields on `m`, and `m` after its evaluation. `None`
/// for a node that is no object, has no `kind` or one that is not known, has
/// no child where it needs one, names an operation that is not known, or is
/// nested deeper than `depth`.
pub open spec fn plan_result(m: StoreModel, node: JsonModel, max_limit: usize, depth: nat) -> (
    Option<Seq<EventModel>>,
    StoreModel,
)
    decreases depth,
{
    let kind = name_or_empty(node, "kind"@);
    let op = name_or_empty(node, "op"@);
    let params = entry_or_null(node, "params"@);
    if depth == 0 || !(node is Object) || node.get("kind"@) is None {
        (None, m)
    } else if kind == "get"@ {
        let r = leaf_result(m, entry_or_null(params, "params"@), max_limit);
        (Some(r.0), r.1)
    } else if kind == "unary"@ {
        match node.get("child"@) {
            None => (None, m),
            Some(child) => {
                let r = plan_result(m, child, max_limit, (depth - 1) as nat);
                match r.0 {
                    None => (None, r.1),
                    Some(base) => (unary_result(base, op, params), r.1),
                }
            },
        }
    } else if kind == "binary"@ {
        match node.get("left"@) {
            None => (None, m),
            Some(left) => {
                let l = plan_result(m, left, max_limit, (depth - 1) as nat);
                match (l.0, node.get("right"@)) {
                    (Some(ls), Some(right)) => {
                        let r = plan_result(l.1, right, max_limit, (depth - 1) as nat);
                        match r.0 {
                            None => (None, r.1),
                            Some(rs) => (binary_result(ls, rs, op), r.1),
                        }
                    },
                    _ => (None, l.1),
                }
            },
        }
    } else {
        (None, m)
    }
}

/// Evaluating a plan changes nothing of a store but its counts of hits and
/// misses.
pub proof fn lemma_plan_keeps_events(m: StoreModel, node: JsonModel, max_limit: usize, depth: nat)
    ensures
        plan_result(m, node, max_limit, depth).1 == (StoreModel {
            cache_hits: plan_result(m, node, max_limit, depth).1.cache_hits,
            cache_misses: plan_result(m, node, max_limit, depth).1.cache_misses,
            ..m
        }),
        m.wf() ==> plan_result(m, node, max_limit, depth).1.wf(),
    decreases depth,
{
    if depth > 0 && node is Object && node.get("kind"@) is Some {
        let kind = name_or_empty(node, "kind"@);
        if kind == "get"@ {
        } else if kind == "unary"@ {
            if let Some(child) = node.get("child"@) {
                lemma_plan_keeps_events(m, child, max_limit, (depth - 1) as nat);
            }
        } else if kind == "binary"@ {
            if let Some(left) = node.get("left"@) {
                lemma_plan_keeps_events(m, left, max_limit, (depth - 1) as nat);
                let l = plan_result(m, left, max_limit, (depth - 1) as nat);
                if let Some(right) = node.get("right"@) {
                    lemma_plan_keeps_events(l.1, right, max_limit, (depth - 1) as nat);
                }
            }
        }
    }
}

/// The number of events asked for, held within `max_limit`.
pub fn clamp_limit(requested: i64, max_limit: usize) -> (r: usize)
    ensures
        r == clamped(requested as int, max_limit),
{
    let capped: i64 = if requested > 0 && requested as u64 > max_limit as u64 {
        if max_limit as u64 > 0x7fff_ffff_ffff_ffff {
            requested
        } else {
            max_limit as i64
        }
    } else {
        requested
    };
    if capped <= 0 {
        DEFAULT_LIMIT
    } else {
        capped as usize
    }
}

fn read_name<'a>(v: &'a Json, key: &str) -> (r: &'a str)
    ensures
        r@ == name_or_empty(v@, key@),
{
    match v.get(key) {
        Some(Json::Str(s)) => s.as_str(),
        _ => {
            let e: &'static str = "";
            proof {
                reveal_strlit("");
            }
            e
        },
    }
}

fn read_requested(p: &Json) -> (r: i64)
    ensures
        r == requested_count(p@),
{
    let raw = match p.get("max_count") {
        Some(v) => Some(v),
        None => p.get("limit"),
    };
    match raw {
        Some(Json::Int(n)) => *n,
        _ => 200,
    }
}

fn eval_leaf(store: &mut Store, p: &Json, max_limit: usize) -> (out: Vec<Arc<Event>>)
    ensures
        (event_models(out@), final(store)@) == leaf_result(old(store)@, p@, max_limit),
{
    let c = Criteria::parse(p);
    let limit = clamp_limit(read_requested(p), max_limit);
    let topic: &str = match p.get("topic") {
        Some(Json::Str(s)) => s.as_str(),
        _ => "all",
    };
    if c.is_open() {
        store.get_recent("", topic, limit)
    } else {
        let all = store.buffer(topic);
        search(&all, &c, limit)
    }
}

/// Evaluates the plan `node` on `store`, to the depth `depth`.
pub fn eval_plan_to(store: &mut Store, node: &Json, max_limit: usize, depth: usize) -> (r: Option<
    Vec<Arc<Event>>,
>)
    ensures
        final(store)@ == plan_result(old(store)@, node@, max_limit, depth as nat).1,
        match r {
            Some(out) => plan_result(old(store)@, node@, max_limit, depth as nat).0 == Some(
                event_models(out@),
            ),
            None => plan_result(old(store)@, node@, max_limit, depth as nat).0 is None,
        },
    decreases depth,
{
    if depth == 0 || !node.is_object() || node.get("kind").is_none() {
        return None;
    }
    let kind = read_name(node, "kind");
    let op = read_name(node, "op");
    let null = Json::Null;
    let params: &Json = match node.get("params") {
        Some(x) => x,
        None => &null,
    };
    if str_eq(kind, "get") {
        let p: &Json = match params.get("params") {
            Some(x) => x,
            None => &null,
        };
        Some(eval_leaf(store, p, max_limit))
    } else if str_eq(kind, "unary") {
        let child = match node.get("child") {
            Some(c) => c,
            None => {
                return None;
            },
        };
        let base = match eval_plan_to(store, child, max_limit, depth - 1) {
            Some(b) => b,
            None => {
                return None;
            },
        };
        apply_unary_op(base, op, params)
    } else if str_eq(kind, "binary") {
        let left = match node.get("left") {
            Some(l) => l,
            None => {
                return None;
            },
        };
        let ls = eval_plan_to(store, left, max_limit, depth - 1);
        let ls = match ls {
            Some(l) => l,
            None => {
                return None;
            },
        };
        let right = match node.get("right") {
            Some(r) => r,
            None => {
                return None;
            },
        };
        let rs = match eval_plan_to(store, right, max_limit, depth - 1) {
            Some(r) => r,
            None => {
                return None;
            },
        };
        apply_binary_op(ls, rs, op)
    } else {
        None
    }
}

/// Evaluates the plan `node` on `store`. Returns the events that it yields,
/// or `None` for a plan that is not supported.
pub fn eval_plan(store: &mut Store, node: &Json, max_limit: usize) -> (r: Option<
    Vec<Arc<Event>>,
>)
    ensures
        final(store)@ == plan_result(old(store)@, node@, max_limit, PLAN_DEPTH as nat).1,
        match r {
            Some(out) => plan_result(old(store)@, node@, max_limit, PLAN_DEPTH as nat).0 == Some(
                event_models(out@),
            ),
            None => plan_result(old(store)@, node@, max_limit, PLAN_DEPTH as nat).0 is None,
        },
{
    eval_plan_to(store, node, max_limit, PLAN_DEPTH)
}

} // verus!
