//! The ingest path: batches of records from producers, applied to the
//! stores without an answer. What cannot be applied is dropped.

use std::sync::Arc;
use vstd::prelude::*;
use crate::codec::{encoded_len, msgpack_of};
use crate::config::Config;
use crate::decimal::Decimal;
use crate::event::{event_models, lemma_event_models_push, Event, EventModel, PubMsg};
use crate::handlers::{byte_len, is_frame_of};
use crate::json::{entries, lemma_array_view, member, models, object, Json, JsonModel, Member};
use crate::plan::entry_or_null;
use crate::state::{lemma_store_position, lemma_with_store, MpState, StateModel};
use crate::store::{lemma_buffer_bounded, lemma_cleared, lemma_published};
use crate::text::str_eq;

verus! {

/// The store that a record names: its entry `store`, or `bus` where it has
/// no `store`, where that is a string; `messages` otherwise.
pub open spec fn record_store(rec: JsonModel) -> Seq<char> {
    let named = match rec.get("store"@) {
        Some(v) => Some(v),
        None => rec.get("bus"@),
    };
    match named {
        Some(JsonModel::Str(s)) => s,
        _ => "messages"@,
    }
}

/// The entry `key` of `rec` as a string, or `default` where it is none.
pub open spec fn record_text(rec: JsonModel, key: Seq<char>, default: Seq<char>) -> Seq<char> {
    match rec.get(key) {
        Some(JsonModel::Str(s)) => s,
        _ => default,
    }
}

/// Whether a topic name can be used: it is not empty and not longer than
/// the configuration allows.
pub open spec fn topic_usable(topic: Seq<char>, cfg: Config) -> bool {
    topic.len() > 0 && byte_len(topic) <= cfg.topic_name_max_len
}

/// Whether a payload can be encoded and is small enough, where payloads are
/// held to a size.
pub open spec fn payload_fits(payload: JsonModel, cfg: Config) -> bool {
    !cfg.validate_payload_bytes || (msgpack_of(payload) is Some && msgpack_of(payload)->0.len()
        <= cfg.payload_max_bytes)
}

/// The items of a snapshot that become records: the objects that are small
/// enough.
pub open spec fn snapshot_records(items: Seq<JsonModel>, cfg: Config) -> Seq<JsonModel> {
    items.filter(|it: JsonModel| it is Object && payload_fits(it, cfg))
}

/// The items of a message: its entry `items` where that is an array, else
/// none.
pub open spec fn message_items(msg: JsonModel) -> Seq<JsonModel> {
    match msg.get("items"@) {
        Some(JsonModel::Array(a)) => a,
        _ => Seq::empty(),
    }
}

/// What a snapshot brings about: the stores after it and the events that it
/// created. A snapshot is dropped as a whole where its topic cannot be used,
/// its store is not known, its topic would be one too many, or the sequence
/// numbers do not suffice. With the mode `append` the records are published
/// to the topic; with any other mode they replace what it holds.
pub open spec fn snapshot_result(s: StateModel, msg: JsonModel, cfg: Config, now: Decimal) -> (
    StateModel,
    Seq<EventModel>,
) {
    let store = record_store(msg);
    let topic = record_text(msg, "topic"@, "snapshot.all"@);
    let mode = record_text(msg, "mode"@, "replace"@);
    let records = snapshot_records(message_items(msg), cfg);
    if !topic_usable(topic, cfg) {
        (s, Seq::empty())
    } else {
        match s.find(store) {
            None => (s, Seq::empty()),
            Some(k) => {
                let st = s.stores[k].1;
                if !st.has_topic(topic) && st.topics.len() >= st.topic_max {
                    (s, Seq::empty())
                } else if st.next_seq + records.len() > u64::MAX {
                    (s, Seq::empty())
                } else if mode == "append"@ {
                    (
                        s.with_store(
                            k,
                            st.published_all(store, topic, records, now, records.len() as int),
                        ),
                        st.batch_events(store, topic, records, now),
                    )
                } else {
                    (
                        s.with_store(k, st.replaced(store, topic, records, now)),
                        st.cleared(topic, now).batch_events(store, topic, records, now),
                    )
                }
            },
        }
    }
}

/// The payload of a record of a batch: its entry `payload`, put under
/// `value` in an object of its own where it is no object.
pub open spec fn record_payload(rec: JsonModel) -> JsonModel {
    let given = entry_or_null(rec, "payload"@);
    if given is Object {
        given
    } else {
        JsonModel::Object(seq![("value"@, given)])
    }
}

/// What one record of a batch brings about: the stores after it and the
/// event that it created, if any. A record is dropped where it is no
/// object, its topic cannot be used, its payload is too large, its store is
/// not known, its topic would be one too many, or the sequence numbers are
/// used up.
pub open spec fn record_result(s: StateModel, rec: JsonModel, cfg: Config, now: Decimal) -> (
    StateModel,
    Option<EventModel>,
) {
    let store = record_store(rec);
    let topic = record_text(rec, "topic"@, "all"@);
    let payload = record_payload(rec);
    if !(rec is Object) || !topic_usable(topic, cfg) || !payload_fits(payload, cfg) {
        (s, None)
    } else {
        match s.find(store) {
            None => (s, None),
            Some(k) => {
                let st = s.stores[k].1;
                if !st.has_topic(topic) && st.topics.len() >= st.topic_max {
                    (s, None)
                } else if st.next_seq == u64::MAX {
                    (s, None)
                } else {
                    (
                        s.with_store(k, st.published(store, topic, payload, now)),
                        Some(st.new_event(store, topic, payload, now)),
                    )
                }
            },
        }
    }
}

/// What the records `items[..n]` of a batch bring about, one after the
/// other: the stores after them and the events that they created.
pub open spec fn batch_result(
    s: StateModel,
    items: Seq<JsonModel>,
    cfg: Config,
    now: Decimal,
    n: int,
) -> (StateModel, Seq<EventModel>)
    decreases n,
{
    if n <= 0 {
        (s, Seq::empty())
    } else {
        let before = batch_result(s, items, cfg, now, n - 1);
        let step = record_result(before.0, items[n - 1], cfg, now);
        match step.1 {
            Some(ev) => (step.0, before.1.push(ev)),
            None => (step.0, before.1),
        }
    }
}

/// What a message of the ingest channel brings about. A message that is no
/// object is dropped. One of the kind `snapshot` is a snapshot; any other is
/// a batch of records.
pub open spec fn ingest_result(s: StateModel, msg: JsonModel, cfg: Config, now: Decimal) -> (
    StateModel,
    Seq<EventModel>,
) {
    if !(msg is Object) {
        (s, Seq::empty())
    } else if record_text(msg, "kind"@, "delta_batch"@) == "snapshot"@ {
        snapshot_result(s, msg, cfg, now)
    } else {
        batch_result(s, message_items(msg), cfg, now, message_items(msg).len() as int)
    }
}

/// The frames to send for the events that were created: one for each event,
/// in their order, where publications are fanned out; none otherwise.
pub open spec fn frames_match(frames: Seq<PubMsg>, events: Seq<EventModel>, cfg: Config) -> bool {
    if cfg.pub_enabled {
        &&& frames.len() == events.len()
        &&& forall|i: int|
            0 <= i < frames.len() ==> is_frame_of(Some(#[trigger] frames[i]), Some(events[i]))
    } else {
        frames.len() == 0
    }
}

fn read_store<'a>(rec: &'a Json) -> (r: &'a str)
    ensures
        r@ == record_store(rec@),
{
    let named = match rec.get("store") {
        Some(v) => Some(v),
        None => rec.get("bus"),
    };
    match named {
        Some(Json::Str(s)) => s.as_str(),
        _ => "messages",
    }
}

fn read_text<'a>(rec: &'a Json, key: &str, default: &'a str) -> (r: &'a str)
    ensures
        r@ == record_text(rec@, key@, default@),
{
    match rec.get(key) {
        Some(Json::Str(s)) => s.as_str(),
        _ => default,
    }
}

fn usable_topic(topic: &str, cfg: &Config) -> (r: bool)
    ensures
        r == topic_usable(topic@, *cfg),
{
    topic.unicode_len() > 0 && topic.len() <= cfg.topic_name_max_len
}

fn fits(payload: &Json, cfg: &Config) -> (r: bool)
    ensures
        r == payload_fits(payload@, *cfg),
{
    if cfg.validate_payload_bytes {
        match encoded_len(payload) {
            Some(len) => len <= cfg.payload_max_bytes,
            None => false,
        }
    } else {
        true
    }
}

fn frames_of(events: &Vec<Arc<Event>>, cfg: &Config) -> (frames: Vec<PubMsg>)
    ensures
        frames_match(frames@, event_models(events@), *cfg),
{
    let mut frames: Vec<PubMsg> = Vec::new();
    if cfg.pub_enabled {
        let mut i: usize = 0;
        while i < events.len()
            invariant
                i <= events.len(),
                frames.len() == i,
                forall|j: int|
                    0 <= j < i ==> is_frame_of(Some(#[trigger] frames@[j]), Some(events@[j]@)),
            decreases events.len() - i,
        {
            frames.push(events[i].frame());
            i += 1;
        }
    }
    frames
}

fn read_records(msg: &Json, cfg: &Config) -> (records: Vec<Json>)
    ensures
        models(records@) == snapshot_records(message_items(msg@), *cfg),
{
    let ghost pred = |it: JsonModel| it is Object && payload_fits(it, *cfg);
    let mut records: Vec<Json> = Vec::new();
    proof {
        reveal(Seq::filter);
        assert(models(records@) =~= Seq::<JsonModel>::empty());
    }
    match msg.get("items") {
        Some(Json::Array(a)) => {
            proof {
                lemma_array_view(*a);
            }
            let ghost all = models(a@);
            let mut i: usize = 0;
            assert(all.take(0) =~= Seq::<JsonModel>::empty());
            while i < a.len()
                invariant
                    i <= a.len(),
                    all == models(a@),
                    pred == (|it: JsonModel| it is Object && payload_fits(it, *cfg)),
                    models(records@) == all.take(i as int).filter(pred),
                decreases a.len() - i,
            {
                proof {
                    reveal(Seq::filter);
                    assert(all.take(i + 1).drop_last() =~= all.take(i as int));
                    assert(all.take(i + 1).last() == a@[i as int]@);
                }
                if a[i].is_object() && fits(&a[i], cfg) {
                    let ghost prev = records@;
                    records.push(a[i].duplicate());
                    proof {
                        assert(models(records@) =~= models(prev).push(a@[i as int]@));
                    }
                }
                i += 1;
            }
            assert(all.take(a.len() as int) =~= all);
        },
        _ => {},
    }
    records
}

/// Applies a snapshot at the time `now`. Returns the frames to send.
#[verifier::rlimit(40)]
pub fn handle_snapshot(state: &mut MpState, msg: &Json, cfg: &Config, now: Decimal) -> (frames:
    Vec<PubMsg>)
    ensures
        final(state)@ == snapshot_result(old(state)@, msg@, *cfg, now).0,
        frames_match(frames@, snapshot_result(old(state)@, msg@, *cfg, now).1, *cfg),
        old(state)@.wf() ==> final(state)@.wf(),
{
    let store = read_store(msg);
    let topic = read_text(msg, "topic", "snapshot.all");
    let mode = read_text(msg, "mode", "replace");
    if !usable_topic(topic, cfg) {
        return Vec::new();
    }
    let records = read_records(msg, cfg);
    let k = match state.store_index(store) {
        Some(k) => k,
        None => {
            return Vec::new();
        },
    };
    proof {
        lemma_store_position(state@.stores, store@, 0);
        assert(state@.stores[k as int] == state.stores@[k as int]@);
    }
    if state.stores[k].store.at_topic_cap(topic) {
        return Vec::new();
    }
    if records.len() as u64 > u64::MAX - state.stores[k].store.next_seq {
        return Vec::new();
    }
    let ghost before = state.stores@[k as int].store@;
    let ghost recs = models(records@);
    let events = if str_eq(mode, "append") {
        state.stores[k].store.publish_all_at(store, topic, &records, now)
    } else {
        state.stores[k].store.replace_topic_at(store, topic, &records, now)
    };
    proof {
        let after = if mode@ == "append"@ {
            before.published_all(store@, topic@, recs, now, recs.len() as int)
        } else {
            before.replaced(store@, topic@, recs, now)
        };
        let want = old(state)@.with_store(k as int, after);
        assert(state@.stores =~= want.stores) by {
            assert forall|j: int| 0 <= j < state@.stores.len() implies state@.stores[j]
                == want.stores[j] by {
                if j != k {
                    assert(state.stores@[j] == old(state).stores@[j]);
                }
            }
        }
        if old(state)@.wf() {
            if mode@ == "append"@ {
                lemma_buffer_bounded(before, store@, topic@, recs, now, recs.len() as int);
            } else {
                lemma_cleared(before, topic@, now);
                lemma_buffer_bounded(
                    before.cleared(topic@, now),
                    store@,
                    topic@,
                    recs,
                    now,
                    recs.len() as int,
                );
                assert(before.cleared(topic@, now).maxlen == before.maxlen);
                assert(before.cleared(topic@, now).topic_max == before.topic_max);
            }
            lemma_with_store(old(state)@, k as int, after, store@);
        }
    }
    frames_of(&events, cfg)
}

fn read_record_payload(rec: &Json) -> (p: Json)
    ensures
        p@ == record_payload(rec@),
{
    let given = match rec.get("payload") {
        Some(v) => v.duplicate(),
        None => Json::Null,
    };
    if given.is_object() {
        given
    } else {
        let mut m: Vec<Member> = Vec::new();
        m.push(member("value", given));
        proof {
            assert(entries(m@) =~= seq![("value"@, given@)]);
        }
        object(m)
    }
}

#[verifier::rlimit(40)]
fn apply_record(state: &mut MpState, rec: &Json, cfg: &Config, now: Decimal) -> (r: Option<
    Arc<Event>,
>)
    ensures
        final(state)@ == record_result(old(state)@, rec@, *cfg, now).0,
        match r {
            Some(ev) => record_result(old(state)@, rec@, *cfg, now).1 == Some(ev@),
            None => record_result(old(state)@, rec@, *cfg, now).1 is None,
        },
        old(state)@.wf() ==> final(state)@.wf(),
{
    if !rec.is_object() {
        return None;
    }
    let store = read_store(rec);
    let topic = read_text(rec, "topic", "all");
    if !usable_topic(topic, cfg) {
        return None;
    }
    let payload = read_record_payload(rec);
    if !fits(&payload, cfg) {
        return None;
    }
    let k = match state.store_index(store) {
        Some(k) => k,
        None => {
            return None;
        },
    };
    proof {
        lemma_store_position(state@.stores, store@, 0);
        assert(state@.stores[k as int] == state.stores@[k as int]@);
    }
    if state.stores[k].store.at_topic_cap(topic) {
        return None;
    }
    if !state.stores[k].store.can_publish() {
        return None;
    }
    let ghost before = state.stores@[k as int].store@;
    let ghost payload_model = payload@;
    let ev = state.stores[k].store.publish_at(store, topic, payload, now);
    proof {
        let after = before.published(store@, topic@, payload_model, now);
        let want = old(state)@.with_store(k as int, after);
        assert(state@.stores =~= want.stores) by {
            assert forall|j: int| 0 <= j < state@.stores.len() implies state@.stores[j]
                == want.stores[j] by {
                if j != k {
                    assert(state.stores@[j] == old(state).stores@[j]);
                }
            }
        }
        if old(state)@.wf() {
            lemma_published(before, store@, topic@, payload_model, now);
            lemma_with_store(old(state)@, k as int, after, store@);
        }
    }
    Some(ev)
}

/// Applies a batch of records at the time `now`, one record after the
/// other. Returns the frames to send.
#[verifier::rlimit(40)]
pub fn handle_delta_batch(state: &mut MpState, msg: &Json, cfg: &Config, now: Decimal) -> (frames:
    Vec<PubMsg>)
    ensures
        final(state)@ == batch_result(
            old(state)@,
            message_items(msg@),
            *cfg,
            now,
            message_items(msg@).len() as int,
        ).0,
        frames_match(
            frames@,
            batch_result(
                old(state)@,
                message_items(msg@),
                *cfg,
                now,
                message_items(msg@).len() as int,
            ).1,
            *cfg,
        ),
        old(state)@.wf() ==> final(state)@.wf(),
{
    let mut events: Vec<Arc<Event>> = Vec::new();
    proof {
        assert(event_models(events@) =~= Seq::<EventModel>::empty());
    }
    match msg.get("items") {
        Some(Json::Array(a)) => {
            proof {
                lemma_array_view(*a);
            }
            let ghost items = models(a@);
            let mut i: usize = 0;
            while i < a.len()
                invariant
                    i <= a.len(),
                    items == models(a@),
                    old(state)@.wf() ==> state@.wf(),
                    state@ == batch_result(old(state)@, items, *cfg, now, i as int).0,
                    event_models(events@) == batch_result(old(state)@, items, *cfg, now, i as int).1,
                decreases a.len() - i,
            {
                proof {
                    assert(items[i as int] == a@[i as int]@);
                }
                match apply_record(state, &a[i], cfg, now) {
                    Some(ev) => {
                        let ghost prev = events@;
                        events.push(ev);
                        proof {
                            lemma_event_models_push(prev, ev);
                        }
                    },
                    None => {},
                }
                i += 1;
            }
        },
        _ => {},
    }
    frames_of(&events, cfg)
}

/// Applies a message of the ingest channel at the time `now`. Returns the
/// frames to send.
pub fn handle_ingest(state: &mut MpState, msg: &Json, cfg: &Config, now: Decimal) -> (frames: Vec<
    PubMsg,
>)
    ensures
        final(state)@ == ingest_result(old(state)@, msg@, *cfg, now).0,
        frames_match(frames@, ingest_result(old(state)@, msg@, *cfg, now).1, *cfg),
        old(state)@.wf() ==> final(state)@.wf(),
{
    if !msg.is_object() {
        return Vec::new();
    }
    let kind = read_text(msg, "kind", "delta_batch");
    if str_eq(kind, "snapshot") {
        handle_snapshot(state, msg, cfg, now)
    } else {
        handle_delta_batch(state, msg, cfg, now)
    }
}

} // verus!
