//! Events: one immutable record per publication, shared by reference.

use std::sync::Arc;
use vstd::prelude::*;
use crate::codec::{to_wire, wire_bytes};
use crate::decimal::Decimal;
use crate::json::{entries, json_of_u64, member, object, Json, JsonModel, Member};
use crate::text::concat;

verus! {

/// One publication.
pub struct Event {
    /// Sequence number, unique within the store that published the event.
    pub seq: u64,
    /// Time of publication, in seconds since the epoch.
    pub ts: Decimal,
    /// Name of the store.
    pub store: String,
    /// Name of the topic.
    pub topic: String,
    pub payload: Json,
    /// The index record of `payload`.
    pub index: Json,
}

/// The mathematical value of an [`Event`].
pub ghost struct EventModel {
    pub seq: u64,
    pub ts: Decimal,
    pub store: Seq<char>,
    pub topic: Seq<char>,
    pub payload: JsonModel,
    pub index: JsonModel,
}

impl View for Event {
    type V = EventModel;

    open spec fn view(&self) -> EventModel {
        EventModel {
            seq: self.seq,
            ts: self.ts,
            store: self.store@,
            topic: self.topic@,
            payload: self.payload@,
            index: self.index@,
        }
    }
}

/// The values of a run of shared events.
pub open spec fn event_models(s: Seq<Arc<Event>>) -> Seq<EventModel> {
    s.map_values(|e: Arc<Event>| e@)
}

/// The values of a run with one more event are the values of the run with
/// the value of that event.
pub proof fn lemma_event_models_push(s: Seq<Arc<Event>>, e: Arc<Event>)
    ensures
        event_models(s.push(e)) == event_models(s).push(e@),
{
    assert(event_models(s.push(e)) =~= event_models(s).push(e@));
}

/// The values of a part of a run are that part of its values.
pub proof fn lemma_event_models_take(s: Seq<Arc<Event>>, n: int)
    requires
        0 <= n <= s.len(),
    ensures
        event_models(s.take(n)) == event_models(s).take(n),
        event_models(s.skip(n)) == event_models(s).skip(n),
{
    assert(event_models(s.take(n)) =~= event_models(s).take(n));
    assert(event_models(s.skip(n)) =~= event_models(s).skip(n));
}

/// `Arc::clone`: another reference to the same value.
#[verifier::external_body]
pub(crate) fn share<T>(e: &Arc<T>) -> (r: Arc<T>)
    ensures
        r == *e,
{
    Arc::clone(e)
}

/// A frame of the fan-out channel: the key by which subscribers pick
/// topics, and the encoded event.
#[derive(Debug, Clone)]
pub struct PubMsg {
    pub topic: Vec<u8>,
    pub body: Vec<u8>,
}

impl EventModel {
    /// The event as it is sent to clients. The light form leaves the payload
    /// out and keeps every other entry.
    pub open spec fn to_json(self, light: bool) -> JsonModel {
        if light {
            JsonModel::Object(
                seq![
                    ("seq"@, json_of_u64(self.seq)),
                    ("ts"@, JsonModel::Float(self.ts.literal_text())),
                    ("store"@, JsonModel::Str(self.store)),
                    ("topic"@, JsonModel::Str(self.topic)),
                    ("index"@, self.index),
                ],
            )
        } else {
            JsonModel::Object(
                seq![
                    ("seq"@, json_of_u64(self.seq)),
                    ("ts"@, JsonModel::Float(self.ts.literal_text())),
                    ("store"@, JsonModel::Str(self.store)),
                    ("topic"@, JsonModel::Str(self.topic)),
                    ("payload"@, self.payload),
                    ("index"@, self.index),
                ],
            )
        }
    }

    /// The key of the event's frame on the fan-out channel: store, a point,
    /// topic.
    pub open spec fn frame_key(self) -> Seq<char> {
        self.store + "."@ + self.topic
    }

    /// The value of a named field: the entry of the index record, else the
    /// entry of the payload, else one of the event's own `seq`, `ts`,
    /// `store` and `topic`; `None` for any other name.
    pub open spec fn field(self, name: Seq<char>) -> Option<JsonModel> {
        if self.index.get(name) is Some {
            self.index.get(name)
        } else if self.payload.get(name) is Some {
            self.payload.get(name)
        } else if name == "seq"@ {
            Some(json_of_u64(self.seq))
        } else if name == "ts"@ {
            Some(JsonModel::Float(self.ts.literal_text()))
        } else if name == "store"@ {
            Some(JsonModel::Str(self.store))
        } else if name == "topic"@ {
            Some(JsonModel::Str(self.topic))
        } else {
            None
        }
    }
}

/// The light form of an event is its full form without the payload.
pub proof fn lemma_light_omits_payload(e: EventModel)
    ensures
        e.to_json(true)->Object_0 == e.to_json(false)->Object_0.remove(4),
        e.to_json(false)->Object_0[4] == ("payload"@, e.payload),
        e.to_json(true).get("payload"@) is None,
{
    assert(e.to_json(true)->Object_0 =~= e.to_json(false)->Object_0.remove(4));
    reveal_with_fuel(crate::json::lookup, 7);
    reveal_strlit("payload");
    reveal_strlit("seq");
    reveal_strlit("ts");
    reveal_strlit("store");
    reveal_strlit("topic");
    reveal_strlit("index");
    assert("seq"@ != "payload"@) by {
        assert("seq"@.len() != "payload"@.len());
    }
    assert("ts"@ != "payload"@) by {
        assert("ts"@.len() != "payload"@.len());
    }
    assert("store"@ != "payload"@) by {
        assert("store"@.len() != "payload"@.len());
    }
    assert("topic"@ != "payload"@) by {
        assert("topic"@.len() != "payload"@.len());
    }
    assert("index"@ != "payload"@) by {
        assert("index"@.len() != "payload"@.len());
    }
}

impl Event {
    /// The event as it is sent to clients.
    pub fn to_json(&self, light: bool) -> (r: Json)
        ensures
            r@ == self@.to_json(light),
    {
        let mut m: Vec<Member> = Vec::new();
        m.push(member("seq", Json::from_u64(self.seq)));
        m.push(member("ts", Json::from_decimal(&self.ts)));
        m.push(member("store", Json::text(self.store.as_str())));
        m.push(member("topic", Json::text(self.topic.as_str())));
        if !light {
            m.push(member("payload", self.payload.duplicate()));
        }
        m.push(member("index", self.index.duplicate()));
        proof {
            assert(entries(m@) =~= self@.to_json(light)->Object_0);
        }
        object(m)
    }

    /// The value of a named field.
    pub fn field(&self, name: &str) -> (r: Option<Json>)
        ensures
            match r {
                Some(v) => self@.field(name@) == Some(v@),
                None => self@.field(name@) is None,
            },
    {
        if let Some(v) = self.index.get(name) {
            return Some(v.duplicate());
        }
        if let Some(v) = self.payload.get(name) {
            return Some(v.duplicate());
        }
        if crate::text::str_eq(name, "seq") {
            Some(Json::from_u64(self.seq))
        } else if crate::text::str_eq(name, "ts") {
            Some(Json::from_decimal(&self.ts))
        } else if crate::text::str_eq(name, "store") {
            Some(Json::text(self.store.as_str()))
        } else if crate::text::str_eq(name, "topic") {
            Some(Json::text(self.topic.as_str()))
        } else {
            None
        }
    }

    /// The event's frame for the fan-out channel.
    pub fn frame(&self) -> (m: PubMsg)
        ensures
            m.topic@ == vstd::utf8::encode_utf8(self@.frame_key()),
            m.body@ == wire_bytes(self@.to_json(false)),
    {
        let key = concat(self.store.as_str(), ".");
        let key = key.concat(self.topic.as_str());
        let full = self.to_json(false);
        PubMsg { topic: key.as_str().as_bytes_vec(), body: to_wire(&full) }
    }
}

/// The value of the field `field` of `ev`: the entry of its index record,
/// else the entry of its payload, else one of its own `seq`, `ts`, `store`
/// and `topic`; `None` for any other name.
pub fn field_value(ev: &Event, field: &str) -> (r: Option<Json>)
    ensures
        match r {
            Some(v) => ev@.field(field@) == Some(v@),
            None => ev@.field(field@) is None,
        },
{
    ev.field(field)
}

/// The events of `items` as they are sent to clients.
pub open spec fn events_json(items: Seq<EventModel>, light: bool) -> Seq<JsonModel> {
    items.map_values(|e: EventModel| e.to_json(light))
}

/// The events of `items` as they are sent to clients.
pub fn events_to_json(items: &Vec<Arc<Event>>, light: bool) -> (out: Vec<Json>)
    ensures
        crate::json::models(out@) == events_json(event_models(items@), light),
{
    let mut out: Vec<Json> = Vec::new();
    let mut i: usize = 0;
    while i < items.len()
        invariant
            i <= items.len(),
            out.len() == i,
            forall|j: int| 0 <= j < i ==> out@[j]@ == items@[j]@.to_json(light),
        decreases items.len() - i,
    {
        let v = items[i].to_json(light);
        out.push(v);
        i += 1;
    }
    proof {
        assert(crate::json::models(out@) =~= events_json(event_models(items@), light));
    }
    out
}

} // verus!
