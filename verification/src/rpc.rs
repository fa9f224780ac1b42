//! The envelopes in which answers travel, and the results that they carry.

use vstd::prelude::*;
use crate::codec::{to_wire, wire_bytes};
use crate::decimal::Decimal;
use crate::event::{Event, EventModel};
use crate::json::{array, entries, member, models, object, Json, JsonModel, Member};

verus! {

/// What went wrong with a request.
pub struct RpcError {
    /// One of `BAD_REQ`, `BAD_VERSION`, `BAD_STORE`, `BAD_ARGS` and
    /// `UNKNOWN_OP`.
    pub code: String,
    pub message: String,
    pub details: Option<Json>,
}

/// An answer: the protocol version, the request's identifier, and a result
/// or an error.
pub struct RpcEnvelope {
    pub v: i32,
    pub req_id: String,
    pub ok: bool,
    pub result: Option<Json>,
    pub error: Option<RpcError>,
}

/// The result of `ping` and `health`.
pub struct RpcHealthResult {
    pub ok: bool,
    pub ts: Decimal,
}

/// An event as it is sent: its own entries, its index record, and its
/// payload unless the light form is asked for.
pub struct EventView {
    pub seq: u64,
    pub ts: Decimal,
    pub store: String,
    pub topic: String,
    pub payload: Option<Json>,
    pub index: Json,
}

/// The result of `bus.get_recent`.
pub struct RpcGetRecentResult {
    pub store: String,
    pub topic: String,
    pub items: Vec<Json>,
    pub light: bool,
}

/// The result of `bus.replay`.
pub struct RpcReplayResult {
    pub store: String,
    pub items: Vec<Json>,
    pub light: bool,
}

/// The result of `bus.query`.
pub struct RpcQueryResult {
    pub store: String,
    pub topic: String,
    pub items: Vec<Json>,
    pub light: bool,
}

/// The result of `bus.publish`.
pub struct RpcPublishResult {
    pub accepted: bool,
    pub event: Json,
}

/// The events of a topic after a sequence number.
pub struct RpcGetSinceResult {
    pub store: String,
    pub topic: String,
    pub items: Vec<Json>,
    pub after_seq: u64,
}

/// An error as it is sent. `details` is written where there are any, and as
/// null where `explicit` asks for every entry.
pub open spec fn error_json(
    code: Seq<char>,
    message: Seq<char>,
    details: Option<JsonModel>,
    explicit: bool,
) -> JsonModel {
    match details {
        Some(d) => JsonModel::Object(
            seq![
                ("code"@, JsonModel::Str(code)),
                ("message"@, JsonModel::Str(message)),
                ("details"@, d),
            ],
        ),
        None => if explicit {
            JsonModel::Object(
                seq![
                    ("code"@, JsonModel::Str(code)),
                    ("message"@, JsonModel::Str(message)),
                    ("details"@, JsonModel::Null),
                ],
            )
        } else {
            JsonModel::Object(
                seq![("code"@, JsonModel::Str(code)), ("message"@, JsonModel::Str(message))],
            )
        },
    }
}

/// The answer to a request that was served. With `explicit` the entry
/// `error` is written, as null.
pub open spec fn ok_envelope(req_id: Seq<char>, result: JsonModel, explicit: bool) -> JsonModel {
    if explicit {
        JsonModel::Object(
            seq![
                ("v"@, JsonModel::Int(1)),
                ("req_id"@, JsonModel::Str(req_id)),
                ("ok"@, JsonModel::Bool(true)),
                ("result"@, result),
                ("error"@, JsonModel::Null),
            ],
        )
    } else {
        JsonModel::Object(
            seq![
                ("v"@, JsonModel::Int(1)),
                ("req_id"@, JsonModel::Str(req_id)),
                ("ok"@, JsonModel::Bool(true)),
                ("result"@, result),
            ],
        )
    }
}

/// The answer to a request that was refused. With `explicit` the entries
/// `result` and `details` are written, as null.
pub open spec fn err_envelope(
    req_id: Seq<char>,
    code: Seq<char>,
    message: Seq<char>,
    details: Option<JsonModel>,
    explicit: bool,
) -> JsonModel {
    if explicit {
        JsonModel::Object(
            seq![
                ("v"@, JsonModel::Int(1)),
                ("req_id"@, JsonModel::Str(req_id)),
                ("ok"@, JsonModel::Bool(false)),
                ("result"@, JsonModel::Null),
                ("error"@, error_json(code, message, details, explicit)),
            ],
        )
    } else {
        JsonModel::Object(
            seq![
                ("v"@, JsonModel::Int(1)),
                ("req_id"@, JsonModel::Str(req_id)),
                ("ok"@, JsonModel::Bool(false)),
                ("error"@, error_json(code, message, details, explicit)),
            ],
        )
    }
}

/// The result of `ping` as it is sent.
pub open spec fn health_json(ok: bool, ts: Decimal) -> JsonModel {
    JsonModel::Object(
        seq![("ok"@, JsonModel::Bool(ok)), ("ts"@, JsonModel::Float(ts.literal_text()))],
    )
}

/// The result of a read of one topic as it is sent.
pub open spec fn topic_result_json(
    store: Seq<char>,
    topic: Seq<char>,
    items: Seq<JsonModel>,
    light: bool,
) -> JsonModel {
    JsonModel::Object(
        seq![
            ("store"@, JsonModel::Str(store)),
            ("topic"@, JsonModel::Str(topic)),
            ("items"@, JsonModel::Array(items)),
            ("light"@, JsonModel::Bool(light)),
        ],
    )
}

/// The result of `bus.replay` as it is sent.
pub open spec fn replay_result_json(store: Seq<char>, items: Seq<JsonModel>, light: bool)
    -> JsonModel {
    JsonModel::Object(
        seq![
            ("store"@, JsonModel::Str(store)),
            ("items"@, JsonModel::Array(items)),
            ("light"@, JsonModel::Bool(light)),
        ],
    )
}

/// The result of `bus.publish` as it is sent.
pub open spec fn publish_result_json(accepted: bool, event: JsonModel) -> JsonModel {
    JsonModel::Object(seq![("accepted"@, JsonModel::Bool(accepted)), ("event"@, event)])
}

/// The events of a topic after a sequence number as they are sent.
pub open spec fn since_result_json(
    store: Seq<char>,
    topic: Seq<char>,
    items: Seq<JsonModel>,
    after_seq: u64,
) -> JsonModel {
    JsonModel::Object(
        seq![
            ("store"@, JsonModel::Str(store)),
            ("topic"@, JsonModel::Str(topic)),
            ("items"@, JsonModel::Array(items)),
            ("after_seq"@, crate::json::json_of_u64(after_seq)),
        ],
    )
}

impl RpcError {
    /// The error as it is sent.
    pub fn to_json(self, explicit: bool) -> (r: Json)
        ensures
            r@ == error_json(
                self.code@,
                self.message@,
                match self.details {
                    Some(d) => Some(d@),
                    None => None,
                },
                explicit,
            ),
    {
        let mut m: Vec<Member> = Vec::new();
        m.push(member("code", Json::Str(self.code)));
        m.push(member("message", Json::Str(self.message)));
        match self.details {
            Some(d) => {
                m.push(member("details", d));
            },
            None => {
                if explicit {
                    m.push(member("details", Json::Null));
                }
            },
        }
        proof {
            assert(entries(m@) =~= error_json(
                self.code@,
                self.message@,
                match self.details {
                    Some(d) => Some(d@),
                    None => None,
                },
                explicit,
            )->Object_0);
        }
        object(m)
    }
}

/// The answer to a request that was served.
pub fn ok_json(req_id: &str, result: Json, explicit: bool) -> (r: Json)
    ensures
        r@ == ok_envelope(req_id@, result@, explicit),
{
    let mut m: Vec<Member> = Vec::new();
    m.push(member("v", Json::Int(1)));
    m.push(member("req_id", Json::text(req_id)));
    m.push(member("ok", Json::Bool(true)));
    m.push(member("result", result));
    if explicit {
        m.push(member("error", Json::Null));
    }
    proof {
        assert(entries(m@) =~= ok_envelope(req_id@, result@, explicit)->Object_0);
    }
    object(m)
}

/// The answer to a request that was refused.
pub fn err_json(req_id: &str, code: &str, message: &str, details: Option<Json>, explicit: bool) -> (r:
    Json)
    ensures
        r@ == err_envelope(
            req_id@,
            code@,
            message@,
            match details {
                Some(d) => Some(d@),
                None => None,
            },
            explicit,
        ),
{
    let e = RpcError { code: String::from_str(code), message: String::from_str(message), details };
    let mut m: Vec<Member> = Vec::new();
    m.push(member("v", Json::Int(1)));
    m.push(member("req_id", Json::text(req_id)));
    m.push(member("ok", Json::Bool(false)));
    if explicit {
        m.push(member("result", Json::Null));
    }
    m.push(member("error", e.to_json(explicit)));
    proof {
        assert(entries(m@) =~= err_envelope(
            req_id@,
            code@,
            message@,
            match details {
                Some(d) => Some(d@),
                None => None,
            },
            explicit,
        )->Object_0);
    }
    object(m)
}

/// The encoded answer to a request that was served: version 1, the
/// request's identifier, and the result.
pub fn rpc_ok(req_id: &str, result: Json) -> (bytes: Vec<u8>)
    ensures
        bytes@ == wire_bytes(ok_envelope(req_id@, result@, false)),
{
    to_wire(&ok_json(req_id, result, false))
}

/// The encoded answer to a request that was refused: version 1, the
/// request's identifier, and the error with its code and message.
pub fn rpc_err(req_id: &str, code: &str, message: &str, details: Option<Json>) -> (bytes: Vec<u8>)
    ensures
        bytes@ == wire_bytes(
            err_envelope(
                req_id@,
                code@,
                message@,
                match details {
                    Some(d) => Some(d@),
                    None => None,
                },
                false,
            ),
        ),
{
    to_wire(&err_json(req_id, code, message, details, false))
}

/// The entry `key` of an envelope: written where it has a value, and as
/// null where `explicit` asks for every entry.
pub open spec fn optional_entry(key: Seq<char>, value: Option<JsonModel>, explicit: bool) -> Seq<
    (Seq<char>, JsonModel),
> {
    match value {
        Some(v) => seq![(key, v)],
        None => if explicit {
            seq![(key, JsonModel::Null)]
        } else {
            Seq::empty()
        },
    }
}

/// An envelope as it is sent: version, identifier, verdict, then the result
/// and the error.
pub open spec fn envelope_json(
    v: i32,
    req_id: Seq<char>,
    ok: bool,
    result: Option<JsonModel>,
    error: Option<JsonModel>,
    explicit: bool,
) -> JsonModel {
    JsonModel::Object(
        seq![
            ("v"@, JsonModel::Int(v as i64)),
            ("req_id"@, JsonModel::Str(req_id)),
            ("ok"@, JsonModel::Bool(ok)),
        ] + optional_entry("result"@, result, explicit) + optional_entry("error"@, error, explicit),
    )
}

/// The envelopes of answers that were served and of answers that were
/// refused are envelopes of version 1 with a result, or with an error.
pub proof fn lemma_envelope_forms(
    req_id: Seq<char>,
    result: JsonModel,
    code: Seq<char>,
    message: Seq<char>,
    details: Option<JsonModel>,
    explicit: bool,
)
    ensures
        ok_envelope(req_id, result, explicit) == envelope_json(
            1,
            req_id,
            true,
            Some(result),
            None,
            explicit,
        ),
        err_envelope(req_id, code, message, details, explicit) == envelope_json(
            1,
            req_id,
            false,
            None,
            Some(error_json(code, message, details, explicit)),
            explicit,
        ),
{
    assert(ok_envelope(req_id, result, explicit)->Object_0 =~= envelope_json(
        1,
        req_id,
        true,
        Some(result),
        None,
        explicit,
    )->Object_0);
    assert(err_envelope(req_id, code, message, details, explicit)->Object_0 =~= envelope_json(
        1,
        req_id,
        false,
        None,
        Some(error_json(code, message, details, explicit)),
        explicit,
    )->Object_0);
}

impl RpcEnvelope {
    /// The envelope as it is sent.
    pub fn to_json(self, explicit: bool) -> (r: Json)
        ensures
            r@ == envelope_json(
                self.v,
                self.req_id@,
                self.ok,
                match self.result {
                    Some(x) => Some(x@),
                    None => None,
                },
                match self.error {
                    Some(e) => Some(
                        error_json(
                            e.code@,
                            e.message@,
                            match e.details {
                                Some(d) => Some(d@),
                                None => None,
                            },
                            explicit,
                        ),
                    ),
                    None => None,
                },
                explicit,
            ),
    {
        let mut m: Vec<Member> = Vec::new();
        m.push(member("v", Json::Int(self.v as i64)));
        m.push(member("req_id", Json::Str(self.req_id)));
        m.push(member("ok", Json::Bool(self.ok)));
        let ghost head = entries(m@);
        proof {
            assert(head =~= seq![
                ("v"@, JsonModel::Int(self.v as i64)),
                ("req_id"@, JsonModel::Str(self.req_id@)),
                ("ok"@, JsonModel::Bool(self.ok)),
            ]);
        }
        let ghost want_result = optional_entry(
            "result"@,
            if self.result is Some {
                Some(self.result->0@)
            } else {
                None
            },
            explicit,
        );
        match self.result {
            Some(x) => {
                m.push(member("result", x));
            },
            None => {
                if explicit {
                    m.push(member("result", Json::Null));
                }
            },
        }
        proof {
            assert(entries(m@) =~= head + want_result);
        }
        let ghost mid = entries(m@);
        match self.error {
            Some(e) => {
                let ghost ej = error_json(
                    e.code@,
                    e.message@,
                    if e.details is Some {
                        Some(e.details->0@)
                    } else {
                        None
                    },
                    explicit,
                );
                m.push(member("error", e.to_json(explicit)));
                proof {
                    assert(entries(m@) =~= mid + optional_entry("error"@, Some(ej), explicit));
                }
            },
            None => {
                if explicit {
                    m.push(member("error", Json::Null));
                }
                proof {
                    assert(entries(m@) =~= mid + optional_entry("error"@, None, explicit));
                }
            },
        }
        object(m)
    }
}

impl EventView {
    /// What is sent of `ev`.
    pub fn of(ev: &Event, light: bool) -> (v: EventView)
        ensures
            v.seq == ev.seq,
            v.ts == ev.ts,
            v.store@ == ev.store@,
            v.topic@ == ev.topic@,
            v.index@ == ev.index@,
            match v.payload {
                Some(p) => !light && p@ == ev.payload@,
                None => light,
            },
    {
        EventView {
            seq: ev.seq,
            ts: ev.ts,
            store: ev.store.clone(),
            topic: ev.topic.clone(),
            payload: if light {
                None
            } else {
                Some(ev.payload.duplicate())
            },
            index: ev.index.duplicate(),
        }
    }

    /// The event as it is sent.
    pub fn to_json(self) -> (r: Json)
        ensures
            r@ == (EventModel {
                seq: self.seq,
                ts: self.ts,
                store: self.store@,
                topic: self.topic@,
                payload: match self.payload {
                    Some(p) => p@,
                    None => JsonModel::Null,
                },
                index: self.index@,
            }).to_json(self.payload is None),
    {
        let ghost e = EventModel {
            seq: self.seq,
            ts: self.ts,
            store: self.store@,
            topic: self.topic@,
            payload: if self.payload is Some {
                self.payload->0@
            } else {
                JsonModel::Null
            },
            index: self.index@,
        };
        let ghost light = self.payload is None;
        let mut m: Vec<Member> = Vec::new();
        m.push(member("seq", Json::from_u64(self.seq)));
        m.push(member("ts", Json::from_decimal(&self.ts)));
        m.push(member("store", Json::Str(self.store)));
        m.push(member("topic", Json::Str(self.topic)));
        match self.payload {
            Some(p) => {
                m.push(member("payload", p));
            },
            None => {},
        }
        m.push(member("index", self.index));
        proof {
            assert(entries(m@) =~= e.to_json(light)->Object_0);
        }
        object(m)
    }
}

impl RpcHealthResult {
    /// The result as it is sent.
    pub fn to_json(&self) -> (r: Json)
        ensures
            r@ == health_json(self.ok, self.ts),
    {
        let mut m: Vec<Member> = Vec::new();
        m.push(member("ok", Json::Bool(self.ok)));
        m.push(member("ts", Json::from_decimal(&self.ts)));
        proof {
            assert(entries(m@) =~= health_json(self.ok, self.ts)->Object_0);
        }
        object(m)
    }
}

impl RpcGetRecentResult {
    /// The result as it is sent.
    pub fn to_json(self) -> (r: Json)
        ensures
            r@ == topic_result_json(self.store@, self.topic@, models(self.items@), self.light),
    {
        let mut m: Vec<Member> = Vec::new();
        m.push(member("store", Json::Str(self.store)));
        m.push(member("topic", Json::Str(self.topic)));
        m.push(member("items", array(self.items)));
        m.push(member("light", Json::Bool(self.light)));
        proof {
            assert(entries(m@) =~= topic_result_json(
                self.store@,
                self.topic@,
                models(self.items@),
                self.light,
            )->Object_0);
        }
        object(m)
    }
}

impl RpcQueryResult {
    /// The result as it is sent.
    pub fn to_json(self) -> (r: Json)
        ensures
            r@ == topic_result_json(self.store@, self.topic@, models(self.items@), self.light),
    {
        let mut m: Vec<Member> = Vec::new();
        m.push(member("store", Json::Str(self.store)));
        m.push(member("topic", Json::Str(self.topic)));
        m.push(member("items", array(self.items)));
        m.push(member("light", Json::Bool(self.light)));
        proof {
            assert(entries(m@) =~= topic_result_json(
                self.store@,
                self.topic@,
                models(self.items@),
                self.light,
            )->Object_0);
        }
        object(m)
    }
}

impl RpcReplayResult {
    /// The result as it is sent.
    pub fn to_json(self) -> (r: Json)
        ensures
            r@ == replay_result_json(self.store@, models(self.items@), self.light),
    {
        let mut m: Vec<Member> = Vec::new();
        m.push(member("store", Json::Str(self.store)));
        m.push(member("items", array(self.items)));
        m.push(member("light", Json::Bool(self.light)));
        proof {
            assert(entries(m@) =~= replay_result_json(
                self.store@,
                models(self.items@),
                self.light,
            )->Object_0);
        }
        object(m)
    }
}

impl RpcPublishResult {
    /// The result as it is sent.
    pub fn to_json(self) -> (r: Json)
        ensures
            r@ == publish_result_json(self.accepted, self.event@),
    {
        let mut m: Vec<Member> = Vec::new();
        m.push(member("accepted", Json::Bool(self.accepted)));
        m.push(member("event", self.event));
        proof {
            assert(entries(m@) =~= publish_result_json(self.accepted, self.event@)->Object_0);
        }
        object(m)
    }
}

impl RpcGetSinceResult {
    /// The result as it is sent.
    pub fn to_json(self) -> (r: Json)
        ensures
            r@ == since_result_json(self.store@, self.topic@, models(self.items@), self.after_seq),
    {
        let mut m: Vec<Member> = Vec::new();
        m.push(member("store", Json::Str(self.store)));
        m.push(member("topic", Json::Str(self.topic)));
        m.push(member("items", array(self.items)));
        m.push(member("after_seq", Json::from_u64(self.after_seq)));
        proof {
            assert(entries(m@) =~= since_result_json(
                self.store@,
                self.topic@,
                models(self.items@),
                self.after_seq,
            )->Object_0);
        }
        object(m)
    }
}

} // verus!
