//! Request handlers: from a request, the stores and the configuration to an
//! answer, the stores after it, and the event to fan out.

use std::sync::Arc;
use vstd::prelude::*;
use vstd::utf8::encode_utf8;
use crate::clock::now_ts;
use crate::codec::{encoded_len, msgpack_of, to_wire, wire_bytes};
use crate::config::{Config, ValidateMode};
use crate::decimal::Decimal;
use crate::event::{event_models, events_json, events_to_json, Event, EventModel, PubMsg};
use crate::filter::{criteria_of, first_n, found, search, Criteria, CriteriaModel};
use crate::json::{entries, member, object, Json, JsonModel, Member};
use crate::plan::{entry_or_null, eval_plan, plan_result, DEFAULT_LIMIT, PLAN_DEPTH};
use crate::rpc::{
    err_envelope, err_json, health_json, ok_envelope, ok_json, publish_result_json,
    replay_result_json, topic_result_json, RpcGetRecentResult, RpcHealthResult, RpcPublishResult,
    RpcQueryResult, RpcReplayResult,
};
use crate::select::head;
use crate::state::{lemma_store_position, lemma_with_store, MpState, StateModel};
use crate::store::{all_events, lemma_published, StoreModel};
use crate::text::{concat, i64_to_text, int_text, str_eq, trim, trimmed};
use crate::unary::flag;

verus! {

/// Most events in one answer to `bus.query`.
pub const QUERY_MAX_LIMIT: i64 = 10000;

/// What a request brings about: the answer, the stores after it, and the
/// event to fan out, if any.
pub ghost struct Reply {
    pub response: JsonModel,
    pub state: StateModel,
    pub fanout: Option<EventModel>,
}

/// The entry `key` of `args` as a string, or `default` where it is none.
pub open spec fn arg_text(args: JsonModel, key: Seq<char>, default: Seq<char>) -> Seq<char> {
    match args.get(key) {
        Some(JsonModel::Str(s)) => s,
        _ => default,
    }
}

/// The length of a text in bytes of UTF-8.
pub open spec fn byte_len(s: Seq<char>) -> usize {
    encode_utf8(s).len() as usize
}

/// A refusal: the stores stay as they are and nothing is fanned out.
pub open spec fn refuse(
    s: StateModel,
    req_id: Seq<char>,
    code: Seq<char>,
    message: Seq<char>,
    explicit: bool,
) -> Reply {
    Reply {
        response: err_envelope(req_id, code, message, None, explicit),
        state: s,
        fanout: None,
    }
}

/// The protocol version that a request states. `None` where it states none
/// and the mode is strict; 1 where it states none in another mode. A
/// version that is no `Int` counts as -1 in strict mode and as 1 otherwise.
pub open spec fn version_of(req: JsonModel, mode: ValidateMode) -> Option<i64> {
    match req.get("v"@) {
        None => if mode == ValidateMode::Strict {
            None
        } else {
            Some(1i64)
        },
        Some(JsonModel::Int(n)) => Some(n),
        Some(_) => if mode == ValidateMode::Strict {
            Some(-1i64)
        } else {
            Some(1i64)
        },
    }
}

/// The number of events that `bus.get_recent` returns at most: the entry
/// `limit` where it is a whole number that is not negative, else
/// [`DEFAULT_LIMIT`]; and `max_limit` where that is less.
pub open spec fn recent_limit(args: JsonModel, max_limit: usize) -> usize {
    let asked = match args.get("limit"@) {
        Some(v) => match v.as_u64() {
            Some(n) => n as int,
            None => DEFAULT_LIMIT as int,
        },
        None => DEFAULT_LIMIT as int,
    };
    if asked > max_limit {
        max_limit
    } else {
        asked as usize
    }
}

/// The answer to `bus.get_recent`.
pub open spec fn get_recent_reply(
    req_id: Seq<char>,
    args: JsonModel,
    s: StateModel,
    cfg: Config,
    explicit: bool,
) -> Reply {
    let store = arg_text(args, "store"@, "messages"@);
    let topic = arg_text(args, "topic"@, "all"@);
    let limit = recent_limit(args, cfg.get_recent_max_limit);
    let light = flag(args, "light"@, false);
    match s.find(store) {
        None => refuse(s, req_id, "BAD_STORE"@, "invalid store"@, explicit),
        Some(k) => Reply {
            response: ok_envelope(
                req_id,
                topic_result_json(
                    store,
                    topic,
                    events_json(s.stores[k].1.recent(topic, limit), light),
                    light,
                ),
                explicit,
            ),
            state: s.with_store(k, s.stores[k].1.after_recent(topic)),
            fanout: None,
        },
    }
}

/// The payload that `bus.publish` stores: the entry `payload`, or null
/// where there is none. On the text path a payload that is no object is put
/// under `value` in an object of its own.
pub open spec fn publish_payload(args: JsonModel, binary: bool) -> JsonModel {
    let given = entry_or_null(args, "payload"@);
    if binary || given is Object {
        given
    } else {
        JsonModel::Object(seq![("value"@, given)])
    }
}

/// Why `bus.publish` refuses a request: the code and the message of the
/// error, or `None` for a request that it serves. The first of these that
/// holds decides: the topic is missing or empty; it is longer than the
/// configuration allows; the payload cannot be encoded or is larger encoded
/// than the configuration allows, where payloads are held to a size; the
/// store is not known; the topic is new
/// and the store has reached its limit of topics; the store's sequence
/// numbers are used up.
pub open spec fn publish_refusal(args: JsonModel, s: StateModel, cfg: Config, binary: bool)
    -> Option<(Seq<char>, Seq<char>)> {
    let store = arg_text(args, "store"@, "messages"@);
    let topic = arg_text(args, "topic"@, Seq::empty());
    let payload = publish_payload(args, binary);
    if topic.len() == 0 {
        Some(("BAD_ARGS"@, "topic is required"@))
    } else if byte_len(topic) > cfg.topic_name_max_len {
        Some(("BAD_ARGS"@, "topic too long"@))
    } else if cfg.validate_payload_bytes && msgpack_of(payload) is None {
        Some(("BAD_ARGS"@, "payload not serializable"@))
    } else if cfg.validate_payload_bytes && msgpack_of(payload)->0.len() > cfg.payload_max_bytes {
        Some(("BAD_ARGS"@, "payload too large"@))
    } else {
        match s.find(store) {
            None => Some(("BAD_STORE"@, "invalid store"@)),
            Some(k) => {
                let st = s.stores[k].1;
                if !st.has_topic(topic) && st.topics.len() >= st.topic_max {
                    Some(("BAD_ARGS"@, "too many topics"@))
                } else if st.next_seq == u64::MAX {
                    Some(("BAD_REQ"@, "sequence numbers exhausted"@))
                } else {
                    None
                }
            },
        }
    }
}

/// The answer to `bus.publish`. A request that is not refused publishes
/// the payload to the topic of the store at the time `now`; the answer
/// carries the new event in full, and the event is fanned out where the
/// configuration says so.
pub open spec fn publish_reply(
    req_id: Seq<char>,
    args: JsonModel,
    s: StateModel,
    cfg: Config,
    now: Decimal,
    binary: bool,
) -> Reply {
    let explicit = !binary;
    let store = arg_text(args, "store"@, "messages"@);
    let topic = arg_text(args, "topic"@, Seq::empty());
    let payload = publish_payload(args, binary);
    match publish_refusal(args, s, cfg, binary) {
        Some(why) => refuse(s, req_id, why.0, why.1, explicit),
        None => {
            let k = s.find(store)->0;
            let st = s.stores[k].1;
            let ev = st.new_event(store, topic, payload, now);
            Reply {
                response: ok_envelope(req_id, publish_result_json(true, ev.to_json(false)), explicit),
                state: s.with_store(k, st.published(store, topic, payload, now)),
                fanout: if cfg.pub_enabled {
                    Some(ev)
                } else {
                    None
                },
            }
        },
    }
}

/// A publication to a new topic of a store that has reached its limit of
/// topics is refused as `BAD_ARGS`, "too many topics", and changes nothing.
pub proof fn lemma_topic_cap(
    req_id: Seq<char>,
    args: JsonModel,
    s: StateModel,
    cfg: Config,
    now: Decimal,
    binary: bool,
)
    requires
        arg_text(args, "topic"@, Seq::empty()).len() > 0,
        byte_len(arg_text(args, "topic"@, Seq::empty())) <= cfg.topic_name_max_len,
        !cfg.validate_payload_bytes || (msgpack_of(publish_payload(args, binary)) is Some
            && msgpack_of(publish_payload(args, binary))->0.len() <= cfg.payload_max_bytes),
        s.find(arg_text(args, "store"@, "messages"@)) is Some,
        ({
            let st = s.stores[s.find(arg_text(args, "store"@, "messages"@))->0].1;
            !st.has_topic(arg_text(args, "topic"@, Seq::empty())) && st.topics.len()
                == st.topic_max
        }),
    ensures
        publish_reply(req_id, args, s, cfg, now, binary) == refuse(
            s,
            req_id,
            "BAD_ARGS"@,
            "too many topics"@,
            !binary,
        ),
        publish_reply(req_id, args, s, cfg, now, binary).state == s,
{
}

/// A publication that is served causes one frame where publications are
/// fanned out, and none otherwise; one that is refused causes none.
pub proof fn lemma_one_frame_per_publication(
    req_id: Seq<char>,
    args: JsonModel,
    s: StateModel,
    cfg: Config,
    now: Decimal,
    binary: bool,
)
    ensures
        publish_reply(req_id, args, s, cfg, now, binary).fanout is Some <==> cfg.pub_enabled
            && publish_refusal(args, s, cfg, binary) is None,
{
}

/// The number of events that `bus.query` is asked for: the entry `limit`
/// where it is an `Int`, else [`DEFAULT_LIMIT`].
pub open spec fn query_asked(args: JsonModel) -> int {
    match args.get("limit"@) {
        Some(JsonModel::Int(n)) => n as int,
        _ => DEFAULT_LIMIT as int,
    }
}

/// The number of events that `bus.query` returns at most, for a number
/// asked for that was not refused.
pub open spec fn query_limit(asked: int) -> usize {
    if asked <= 0 {
        DEFAULT_LIMIT
    } else if asked > QUERY_MAX_LIMIT {
        QUERY_MAX_LIMIT as usize
    } else {
        asked as usize
    }
}

/// The events that `bus.query` looks through: those of all topics where the
/// topic is `*`, with or without whitespace around it, else those of the
/// topic named.
pub open spec fn query_scan(st: StoreModel, topic: Seq<char>) -> Seq<EventModel> {
    if trimmed(topic) == "*"@ {
        all_events(st.topics)
    } else {
        st.buffer(topic)
    }
}

/// The events that `bus.query` finds in the store named `store`; none where
/// there is no such store.
pub open spec fn query_events(
    s: StateModel,
    store: Seq<char>,
    topic: Seq<char>,
    c: CriteriaModel,
    limit: usize,
) -> Seq<EventModel> {
    match s.find(store) {
        None => Seq::empty(),
        Some(k) => found(query_scan(s.stores[k].1, topic), c, limit),
    }
}

/// The answer to `bus.query`.
pub open spec fn query_reply(
    req_id: Seq<char>,
    args: JsonModel,
    s: StateModel,
    cfg: Config,
    explicit: bool,
) -> Reply {
    let strict = cfg.validate_mode == ValidateMode::Strict;
    let store = arg_text(args, "store"@, "messages"@);
    let given = arg_text(args, "topic"@, "*"@);
    let topic = if given.len() == 0 {
        "*"@
    } else {
        given
    };
    let light = flag(args, "light"@, false);
    let asked = query_asked(args);
    if asked <= 0 && strict {
        refuse(s, req_id, "BAD_ARGS"@, "invalid args: limit<=0"@, explicit)
    } else if given.len() == 0 && strict {
        refuse(s, req_id, "BAD_ARGS"@, "invalid args: empty topic"@, explicit)
    } else {
        Reply {
            response: ok_envelope(
                req_id,
                topic_result_json(
                    store,
                    topic,
                    events_json(
                        query_events(s, store, topic, criteria_of(args), query_limit(asked)),
                        light,
                    ),
                    light,
                ),
                explicit,
            ),
            state: s,
            fanout: None,
        }
    }
}

/// Without criteria, the events found in a run whose sequence numbers grow
/// strictly are its last ones.
proof fn lemma_open_search(b: Seq<EventModel>, c: CriteriaModel, limit: usize)
    requires
        c.is_open(),
        forall|i: int, j: int| 0 <= i < j < b.len() ==> b[i].seq < b[j].seq,
        forall|i: int| 0 <= i < b.len() ==> (#[trigger] b[i]).index is Object,
    ensures
        found(b, c, limit).to_multiset() == crate::store::last_n(b, limit as int).to_multiset(),
{
    let pred = |e: EventModel| c.admits(e);
    assert(b.filter(pred) == b) by {
        assert forall|i: int| 0 <= i < b.len() implies pred(#[trigger] b[i]) by {
            assert(b[i].index is Object);
        }
        lemma_filter_all(b, pred);
    }
    crate::order::lemma_descending_reverses(b);
    let tail = crate::store::last_n(b, limit as int);
    assert(first_n(b.reverse(), limit) =~= tail.reverse());
    tail.lemma_reverse_to_multiset();
}

/// A `get` leaf and `bus.query` find the same events, in whatever order,
/// where they read the same topic of the same store with the same criteria
/// and the same limit. This holds for a topic that `bus.query` does not take
/// for all topics.
#[verifier::rlimit(40)]
pub proof fn lemma_leaf_matches_query(
    st: StoreModel,
    p: JsonModel,
    args: JsonModel,
    max_limit: usize,
)
    requires
        st.wf(),
        criteria_of(p) == criteria_of(args),
        crate::plan::leaf_topic(p) == arg_text(args, "topic"@, "*"@),
        trimmed(crate::plan::leaf_topic(p)) != "*"@,
        crate::plan::clamped(crate::plan::requested_count(p), max_limit) == query_limit(
            query_asked(args),
        ),
    ensures
        crate::plan::leaf_result(st, p, max_limit).0.to_multiset() == found(
            query_scan(st, arg_text(args, "topic"@, "*"@)),
            criteria_of(args),
            query_limit(query_asked(args)),
        ).to_multiset(),
{
    let c = criteria_of(p);
    let topic = crate::plan::leaf_topic(p);
    let limit = query_limit(query_asked(args));
    let b = st.buffer(topic);
    assert(query_scan(st, topic) == b);
    if c.is_open() {
        assert(crate::plan::leaf_result(st, p, max_limit).0 == crate::store::last_n(
            b,
            limit as int,
        ));
        crate::store::lemma_position(st.topics, topic);
        assert forall|i: int| 0 <= i < b.len() implies (#[trigger] b[i]).index is Object by {
            assert(b[i].index == crate::index::index_record(b[i].payload, b[i].ts));
        }
        lemma_open_search(b, c, limit);
    } else {
        assert(crate::plan::leaf_result(st, p, max_limit).0 == found(b, c, limit));
    }
}

/// A filter that every item passes keeps the run as it is.
pub proof fn lemma_filter_all<T>(s: Seq<T>, pred: spec_fn(T) -> bool)
    requires
        forall|i: int| 0 <= i < s.len() ==> pred(#[trigger] s[i]),
    ensures
        s.filter(pred) == s,
    decreases s.len(),
{
    reveal(Seq::filter);
    if s.len() > 0 {
        let t = s.drop_last();
        assert forall|i: int| 0 <= i < t.len() implies pred(#[trigger] t[i]) by {
            assert(t[i] == s[i]);
        }
        lemma_filter_all(t, pred);
        assert(t.push(s.last()) =~= s);
    }
}

/// Only `bus.publish` fans anything out, and only where the configuration
/// says so.
pub proof fn lemma_only_publish_fans_out(
    req: JsonModel,
    s: StateModel,
    cfg: Config,
    now: Decimal,
    binary: bool,
)
    ensures
        reply(req, s, cfg, now, binary).fanout is Some ==> cfg.pub_enabled && arg_text(
            req,
            "op"@,
            Seq::empty(),
        ) == "bus.publish"@,
{
}

/// The store that `bus.replay` names: the entry `store` where it is a
/// string, else `bus` where that is one.
pub open spec fn replay_store(args: JsonModel) -> Option<Seq<char>> {
    match args.get("store"@) {
        Some(JsonModel::Str(s)) => Some(s),
        _ => match args.get("bus"@) {
            Some(JsonModel::Str(s)) => Some(s),
            _ => None,
        },
    }
}

/// The plan that `bus.replay` is given: the entry `plan`, or `trace` where
/// there is no `plan`.
pub open spec fn replay_plan(args: JsonModel) -> Option<JsonModel> {
    match args.get("plan"@) {
        Some(v) => Some(v),
        None => args.get("trace"@),
    }
}

/// The answer to `bus.replay`.
pub open spec fn replay_reply(
    req_id: Seq<char>,
    args: JsonModel,
    s: StateModel,
    cfg: Config,
    explicit: bool,
) -> Reply {
    let strict = cfg.validate_mode == ValidateMode::Strict;
    let named = replay_store(args);
    let plan = replay_plan(args);
    let has_plan = plan is Some && plan->0 is Object;
    let store = match named {
        Some(n) => n,
        None => "messages"@,
    };
    let light = flag(args, "light"@, false);
    if strict && named is None {
        refuse(s, req_id, "BAD_ARGS"@, "invalid args: missing store"@, explicit)
    } else if strict && !has_plan {
        refuse(s, req_id, "BAD_ARGS"@, "invalid args: missing/invalid plan"@, explicit)
    } else if !has_plan {
        refuse(s, req_id, "BAD_ARGS"@, "plan is required"@, explicit)
    } else {
        match s.find(store) {
            None => refuse(s, req_id, "BAD_STORE"@, "invalid store"@, explicit),
            Some(k) => {
                let r = plan_result(
                    s.stores[k].1,
                    plan->0,
                    cfg.get_recent_max_limit,
                    PLAN_DEPTH as nat,
                );
                match r.0 {
                    None => Reply {
                        response: err_envelope(
                            req_id,
                            "BAD_ARGS"@,
                            "unsupported plan"@,
                            None,
                            explicit,
                        ),
                        state: s.with_store(k, r.1),
                        fanout: None,
                    },
                    Some(items) => Reply {
                        response: ok_envelope(
                            req_id,
                            replay_result_json(
                                store,
                                events_json(first_n(items, cfg.get_recent_max_limit), light),
                                light,
                            ),
                            explicit,
                        ),
                        state: s.with_store(k, r.1),
                        fanout: None,
                    },
                }
            },
        }
    }
}

/// What a request brings about at the time `now`. `binary` tells the path
/// on which it came: on the text path a request that is no object is
/// refused, and answers write every entry, with null for one that has no
/// value.
pub open spec fn reply(req: JsonModel, s: StateModel, cfg: Config, now: Decimal, binary: bool)
    -> Reply {
    let explicit = !binary;
    let req_id = arg_text(req, "req_id"@, Seq::empty());
    let op = arg_text(req, "op"@, Seq::empty());
    let args = entry_or_null(req, "args"@);
    if !binary && !(req is Object) {
        refuse(s, Seq::empty(), "BAD_REQ"@, "invalid request"@, explicit)
    } else {
        match version_of(req, cfg.validate_mode) {
            None => refuse(s, req_id, "BAD_VERSION"@, "missing protocol version"@, explicit),
            Some(v) => if v != 1 {
                refuse(
                    s,
                    req_id,
                    "BAD_VERSION"@,
                    "unsupported protocol version: "@ + int_text(v as int),
                    explicit,
                )
            } else if op == "ping"@ || op == "health"@ {
                Reply {
                    response: ok_envelope(req_id, health_json(true, now), explicit),
                    state: s,
                    fanout: None,
                }
            } else if op == "bus.get_recent"@ {
                get_recent_reply(req_id, args, s, cfg, explicit)
            } else if op == "bus.replay"@ {
                replay_reply(req_id, args, s, cfg, explicit)
            } else if op == "bus.query"@ {
                query_reply(req_id, args, s, cfg, explicit)
            } else if op == "bus.publish"@ {
                publish_reply(req_id, args, s, cfg, now, binary)
            } else {
                refuse(s, req_id, "UNKNOWN_OP"@, "unknown op: "@ + op, explicit)
            },
        }
    }
}

/// Whether `m` is the frame of `ev`, or neither is there.
pub open spec fn is_frame_of(m: Option<PubMsg>, ev: Option<EventModel>) -> bool {
    match (m, ev) {
        (None, None) => true,
        (Some(f), Some(e)) => f.topic@ == encode_utf8(e.frame_key()) && f.body@ == wire_bytes(
            e.to_json(false),
        ),
        _ => false,
    }
}

fn read_arg<'a>(args: &'a Json, key: &str, default: &'a str) -> (r: &'a str)
    ensures
        r@ == arg_text(args@, key@, default@),
{
    match args.get(key) {
        Some(Json::Str(s)) => s.as_str(),
        _ => default,
    }
}

fn read_bool(args: &Json, key: &str, default: bool) -> (r: bool)
    ensures
        r == flag(args@, key@, default),
{
    match args.get(key) {
        Some(Json::Bool(b)) => *b,
        _ => default,
    }
}

fn refusal(req_id: &str, code: &str, message: &str, explicit: bool) -> (r: (Json, Option<PubMsg>))
    ensures
        r.0@ == err_envelope(req_id@, code@, message@, None, explicit),
        r.1 is None,
{
    (err_json(req_id, code, message, None, explicit), None)
}

fn read_version(req: &Json, mode: ValidateMode) -> (r: Option<i64>)
    ensures
        r == version_of(req@, mode),
{
    let strict = match mode {
        ValidateMode::Strict => true,
        _ => false,
    };
    match req.get("v") {
        None => if strict {
            None
        } else {
            Some(1)
        },
        Some(Json::Int(n)) => Some(*n),
        Some(_) => if strict {
            Some(-1)
        } else {
            Some(1)
        },
    }
}

fn read_recent_limit(args: &Json, max_limit: usize) -> (r: usize)
    ensures
        r == recent_limit(args@, max_limit),
{
    let asked: u64 = match args.get("limit") {
        Some(v) => match v.as_u64() {
            Some(n) => n,
            None => 200,
        },
        None => 200,
    };
    if asked > max_limit as u64 {
        max_limit
    } else {
        asked as usize
    }
}

#[verifier::rlimit(40)]
fn handle_get_recent(req_id: &str, args: &Json, state: &mut MpState, cfg: &Config, explicit: bool)
    -> (r: (Json, Option<PubMsg>))
    ensures
        r.0@ == get_recent_reply(req_id@, args@, old(state)@, *cfg, explicit).response,
        final(state)@ == get_recent_reply(req_id@, args@, old(state)@, *cfg, explicit).state,
        r.1 is None,
        old(state)@.wf() ==> final(state)@.wf(),
{
    let store = read_arg(args, "store", "messages");
    let topic = read_arg(args, "topic", "all");
    let limit = read_recent_limit(args, cfg.get_recent_max_limit);
    let light = read_bool(args, "light", false);
    let k = match state.store_index(store) {
        Some(k) => k,
        None => {
            return refusal(req_id, "BAD_STORE", "invalid store", explicit);
        },
    };
    proof {
        lemma_store_position(state@.stores, store@, 0);
        assert(state@.stores[k as int] == state.stores@[k as int]@);
    }
    let items = state.stores[k].store.get_recent("", topic, limit);
    proof {
        let want = old(state)@.with_store(k as int, old(state)@.stores[k as int].1.after_recent(topic@));
        assert(state@.stores =~= want.stores) by {
            assert forall|j: int| 0 <= j < state@.stores.len() implies state@.stores[j]
                == want.stores[j] by {
                if j != k {
                    assert(state.stores@[j] == old(state).stores@[j]);
                }
            }
        }
        if old(state)@.wf() {
            lemma_with_store(
                old(state)@,
                k as int,
                old(state)@.stores[k as int].1.after_recent(topic@),
                store@,
            );
        }
    }
    let result = RpcGetRecentResult {
        store: String::from_str(store),
        topic: String::from_str(topic),
        items: events_to_json(&items, light),
        light,
    };
    (ok_json(req_id, result.to_json(), explicit), None)
}

fn read_payload(args: &Json, binary: bool) -> (p: Json)
    ensures
        p@ == publish_payload(args@, binary),
{
    let given = match args.get("payload") {
        Some(v) => v.duplicate(),
        None => Json::Null,
    };
    if binary || given.is_object() {
        given
    } else {
        let mut m: Vec<Member> = Vec::new();
        m.push(member("value", given));
        proof {
            assert(entries(m@) =~= seq![("value"@, given@)]);
        }
        object(m)
    }
}

#[verifier::rlimit(40)]
fn handle_publish(
    req_id: &str,
    args: &Json,
    state: &mut MpState,
    cfg: &Config,
    now: Decimal,
    binary: bool,
) -> (r: (Json, Option<PubMsg>))
    ensures
        r.0@ == publish_reply(req_id@, args@, old(state)@, *cfg, now, binary).response,
        final(state)@ == publish_reply(req_id@, args@, old(state)@, *cfg, now, binary).state,
        is_frame_of(r.1, publish_reply(req_id@, args@, old(state)@, *cfg, now, binary).fanout),
        old(state)@.wf() ==> final(state)@.wf(),
{
    let explicit = !binary;
    let store = read_arg(args, "store", "messages");
    let topic = read_arg(args, "topic", "");
    proof {
        reveal_strlit("");
        assert(""@ =~= Seq::<char>::empty());
    }
    if topic.unicode_len() == 0 {
        return refusal(req_id, "BAD_ARGS", "topic is required", explicit);
    }
    if topic.len() > cfg.topic_name_max_len {
        return refusal(req_id, "BAD_ARGS", "topic too long", explicit);
    }
    let payload = read_payload(args, binary);
    if cfg.validate_payload_bytes {
        match encoded_len(&payload) {
            None => {
                return refusal(req_id, "BAD_ARGS", "payload not serializable", explicit);
            },
            Some(len) => {
                if len > cfg.payload_max_bytes {
                    return refusal(req_id, "BAD_ARGS", "payload too large", explicit);
                }
            },
        }
    }
    let k = match state.store_index(store) {
        Some(k) => k,
        None => {
            return refusal(req_id, "BAD_STORE", "invalid store", explicit);
        },
    };
    proof {
        lemma_store_position(state@.stores, store@, 0);
        assert(state@.stores[k as int] == state.stores@[k as int]@);
    }
    if state.stores[k].store.at_topic_cap(topic) {
        return refusal(req_id, "BAD_ARGS", "too many topics", explicit);
    }
    if !state.stores[k].store.can_publish() {
        return refusal(req_id, "BAD_REQ", "sequence numbers exhausted", explicit);
    }
    let ghost before = state.stores@[k as int].store@;
    let ghost payload_model = payload@;
    let ev = state.stores[k].store.publish_at(store, topic, payload, now);
    proof {
        let after = before.published(store@, topic@, payload_model, now);
        let want = old(state)@.with_store(k as int, after);
        assert(state@.stores =~= want.stores) by {
            assert forall|j: int| 0 <= j < state@.stores.len() implies state@.stores[j]
                == want.stores[j] by {
                if j != k {
                    assert(state.stores@[j] == old(state).stores@[j]);
                }
            }
        }
        if old(state)@.wf() {
            lemma_published(before, store@, topic@, payload_model, now);
            lemma_with_store(old(state)@, k as int, after, store@);
        }
    }
    let frame = if cfg.pub_enabled {
        Some(ev.frame())
    } else {
        None
    };
    let result = RpcPublishResult { accepted: true, event: ev.to_json(false) };
    (ok_json(req_id, result.to_json(), explicit), frame)
}

fn read_query_asked(args: &Json) -> (r: i64)
    ensures
        r == query_asked(args@),
{
    match args.get("limit") {
        Some(Json::Int(n)) => *n,
        _ => 200,
    }
}

fn clamp_query(asked: i64) -> (r: usize)
    ensures
        r == query_limit(asked as int),
{
    if asked <= 0 {
        DEFAULT_LIMIT
    } else if asked > QUERY_MAX_LIMIT {
        QUERY_MAX_LIMIT as usize
    } else {
        asked as usize
    }
}

fn run_query(state: &MpState, store: &str, topic: &str, c: &Criteria, limit: usize) -> (out: Vec<
    Arc<Event>,
>)
    ensures
        event_models(out@) == query_events(state@, store@, topic@, c@, limit),
{
    match state.store(store) {
        None => {
            let out: Vec<Arc<Event>> = Vec::new();
            assert(event_models(out@) =~= Seq::<EventModel>::empty());
            out
        },
        Some(st) => {
            let t = trim(topic);
            let all = if str_eq(t.as_str(), "*") {
                st.scan(None)
            } else {
                st.buffer(topic)
            };
            search(&all, c, limit)
        },
    }
}

fn handle_query(req_id: &str, args: &Json, state: &MpState, cfg: &Config, explicit: bool) -> (r: (
    Json,
    Option<PubMsg>,
))
    ensures
        r.0@ == query_reply(req_id@, args@, state@, *cfg, explicit).response,
        r.1 is None,
{
    let strict = match cfg.validate_mode {
        ValidateMode::Strict => true,
        _ => false,
    };
    let store = read_arg(args, "store", "messages");
    let given = read_arg(args, "topic", "*");
    let light = read_bool(args, "light", false);
    let asked = read_query_asked(args);
    if asked <= 0 && strict {
        return refusal(req_id, "BAD_ARGS", "invalid args: limit<=0", explicit);
    }
    let topic = if given.unicode_len() == 0 {
        if strict {
            return refusal(req_id, "BAD_ARGS", "invalid args: empty topic", explicit);
        }
        "*"
    } else {
        given
    };
    let c = Criteria::parse(args);
    let items = run_query(state, store, topic, &c, clamp_query(asked));
    let result = RpcQueryResult {
        store: String::from_str(store),
        topic: String::from_str(topic),
        items: events_to_json(&items, light),
        light,
    };
    (ok_json(req_id, result.to_json(), explicit), None)
}

fn read_replay_store<'a>(args: &'a Json) -> (r: Option<&'a str>)
    ensures
        match r {
            Some(s) => replay_store(args@) == Some(s@),
            None => replay_store(args@) is None,
        },
{
    match args.get("store") {
        Some(Json::Str(s)) => Some(s.as_str()),
        _ => match args.get("bus") {
            Some(Json::Str(s)) => Some(s.as_str()),
            _ => None,
        },
    }
}

fn read_replay_plan<'a>(args: &'a Json) -> (r: Option<&'a Json>)
    ensures
        match r {
            Some(p) => replay_plan(args@) == Some(p@),
            None => replay_plan(args@) is None,
        },
{
    match args.get("plan") {
        Some(v) => Some(v),
        None => args.get("trace"),
    }
}

#[verifier::rlimit(40)]
fn handle_replay(req_id: &str, args: &Json, state: &mut MpState, cfg: &Config, explicit: bool) -> (r:
    (Json, Option<PubMsg>))
    ensures
        r.0@ == replay_reply(req_id@, args@, old(state)@, *cfg, explicit).response,
        final(state)@ == replay_reply(req_id@, args@, old(state)@, *cfg, explicit).state,
        r.1 is None,
        old(state)@.wf() ==> final(state)@.wf(),
{
    let strict = match cfg.validate_mode {
        ValidateMode::Strict => true,
        _ => false,
    };
    let named = read_replay_store(args);
    let plan = read_replay_plan(args);
    let has_plan = match plan {
        Some(p) => p.is_object(),
        None => false,
    };
    if strict && named.is_none() {
        return refusal(req_id, "BAD_ARGS", "invalid args: missing store", explicit);
    }
    if strict && !has_plan {
        return refusal(req_id, "BAD_ARGS", "invalid args: missing/invalid plan", explicit);
    }
    if !has_plan {
        return refusal(req_id, "BAD_ARGS", "plan is required", explicit);
    }
    let store: &str = match named {
        Some(n) => n,
        None => "messages",
    };
    let light = read_bool(args, "light", false);
    let k = match state.store_index(store) {
        Some(k) => k,
        None => {
            return refusal(req_id, "BAD_STORE", "invalid store", explicit);
        },
    };
    proof {
        lemma_store_position(state@.stores, store@, 0);
        assert(state@.stores[k as int] == state.stores@[k as int]@);
    }
    let ghost before = state.stores@[k as int].store@;
    let found = eval_plan(&mut state.stores[k].store, plan.unwrap(), cfg.get_recent_max_limit);
    proof {
        let r = plan_result(before, plan->0@, cfg.get_recent_max_limit, PLAN_DEPTH as nat);
        let want = old(state)@.with_store(k as int, r.1);
        assert(state@.stores =~= want.stores) by {
            assert forall|j: int| 0 <= j < state@.stores.len() implies state@.stores[j]
                == want.stores[j] by {
                if j != k {
                    assert(state.stores@[j] == old(state).stores@[j]);
                }
            }
        }
        crate::plan::lemma_plan_keeps_events(
            before,
            plan->0@,
            cfg.get_recent_max_limit,
            PLAN_DEPTH as nat,
        );
        if old(state)@.wf() {
            lemma_with_store(old(state)@, k as int, r.1, store@);
        }
    }
    match found {
        None => refusal(req_id, "BAD_ARGS", "unsupported plan", explicit),
        Some(items) => {
            let items = head(items, cfg.get_recent_max_limit);
            let result = RpcReplayResult {
                store: String::from_str(store),
                items: events_to_json(&items, light),
                light,
            };
            (ok_json(req_id, result.to_json(), explicit), None)
        },
    }
}

/// Serves the request `req` at the time `now`.
#[verifier::rlimit(40)]
pub fn handle_at(req: &Json, state: &mut MpState, cfg: &Config, now: Decimal, binary: bool) -> (r:
    (Json, Option<PubMsg>))
    ensures
        r.0@ == reply(req@, old(state)@, *cfg, now, binary).response,
        final(state)@ == reply(req@, old(state)@, *cfg, now, binary).state,
        is_frame_of(r.1, reply(req@, old(state)@, *cfg, now, binary).fanout),
        old(state)@.wf() ==> final(state)@.wf(),
{
    let explicit = !binary;
    proof {
        reveal_strlit("");
        assert(""@ =~= Seq::<char>::empty());
    }
    if !binary && !req.is_object() {
        return refusal("", "BAD_REQ", "invalid request", explicit);
    }
    let req_id = read_arg(req, "req_id", "");
    let op = read_arg(req, "op", "");
    let null = Json::Null;
    let args: &Json = match req.get("args") {
        Some(a) => a,
        None => &null,
    };
    let v = match read_version(req, cfg.validate_mode) {
        None => {
            return refusal(req_id, "BAD_VERSION", "missing protocol version", explicit);
        },
        Some(v) => v,
    };
    if v != 1 {
        let n = i64_to_text(v);
        let message = concat("unsupported protocol version: ", n.as_str());
        return refusal(req_id, "BAD_VERSION", message.as_str(), explicit);
    }
    if str_eq(op, "ping") || str_eq(op, "health") {
        let result = RpcHealthResult { ok: true, ts: now };
        (ok_json(req_id, result.to_json(), explicit), None)
    } else if str_eq(op, "bus.get_recent") {
        handle_get_recent(req_id, args, state, cfg, explicit)
    } else if str_eq(op, "bus.replay") {
        handle_replay(req_id, args, state, cfg, explicit)
    } else if str_eq(op, "bus.query") {
        handle_query(req_id, args, state, cfg, explicit)
    } else if str_eq(op, "bus.publish") {
        handle_publish(req_id, args, state, cfg, now, binary)
    } else {
        let message = concat("unknown op: ", op);
        refusal(req_id, "UNKNOWN_OP", message.as_str(), explicit)
    }
}

/// Serves a request that came as structured text, at the time that the
/// clock gives. The answer writes every entry.
pub fn handle_rpc(req: &Json, state: &mut MpState, cfg: &Config) -> (r: (Json, Option<PubMsg>))
    ensures
        exists|now: Decimal|
            {
                &&& r.0@ == (#[trigger] reply(req@, old(state)@, *cfg, now, false)).response
                &&& final(state)@ == reply(req@, old(state)@, *cfg, now, false).state
                &&& is_frame_of(r.1, reply(req@, old(state)@, *cfg, now, false).fanout)
            },
        old(state)@.wf() ==> final(state)@.wf(),
{
    let now = now_ts();
    handle_at(req, state, cfg, now, false)
}

/// Serves a request that came in binary form, at the time that the clock
/// gives, and encodes the answer.
pub fn handle_rpc_mp(req: &Json, state: &mut MpState, cfg: &Config) -> (r: (Vec<u8>, Option<PubMsg>))
    ensures
        exists|now: Decimal|
            {
                &&& r.0@ == wire_bytes(
                    (#[trigger] reply(req@, old(state)@, *cfg, now, true)).response,
                )
                &&& final(state)@ == reply(req@, old(state)@, *cfg, now, true).state
                &&& is_frame_of(r.1, reply(req@, old(state)@, *cfg, now, true).fanout)
            },
        old(state)@.wf() ==> final(state)@.wf(),
{
    let now = now_ts();
    let (answer, frame) = handle_at(req, state, cfg, now, true);
    (to_wire(&answer), frame)
}

} // verus!
