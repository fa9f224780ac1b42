//! Stores: named topics, each a bounded history of events, with one
//! sequence counter for all of them.

use std::collections::VecDeque;
use std::sync::Arc;
use vstd::prelude::*;
use crate::decimal::Decimal;
use crate::event::{event_models, share, Event, EventModel};
use crate::index::{extract_index, index_record};
use crate::clock::now_ts;
use crate::json::{models, Json, JsonModel};
use crate::order::{sort_events, sorted_by, Order, OrderModel};
use crate::text::str_eq;

verus! {

/// Counters of one store, as read at one moment.
#[derive(Debug, Clone)]
pub struct StoreMetrics {
    pub total_events: u64,
    pub cache_hits: u64,
    pub cache_misses: u64,
    pub total_publishes: u64,
    pub total_queries: u64,
}

/// What a store records of a topic besides its events.
#[derive(Debug, Clone)]
pub struct TopicMeta {
    pub created_at: Decimal,
    pub last_ts: Decimal,
    pub count_total: u64,
}

/// A topic: its name, the events that it still holds, oldest first, and
/// whether a snapshot for fast reads has been taken since it was created.
pub struct Topic {
    pub name: String,
    pub events: VecDeque<Arc<Event>>,
    pub meta: TopicMeta,
    pub cached: bool,
}

/// A store.
pub struct Store {
    /// Most events that a topic holds.
    pub maxlen: usize,
    /// Most topics that the store is meant to hold. Callers check it before
    /// they publish to a new topic; the store does not.
    pub topic_max: usize,
    /// The sequence number of the next event.
    pub next_seq: u64,
    pub topics: Vec<Topic>,
    pub total_publishes: u64,
    pub total_queries: u64,
    pub cache_hits: u64,
    pub cache_misses: u64,
}

/// The mathematical value of a [`Topic`].
pub ghost struct TopicModel {
    pub name: Seq<char>,
    pub events: Seq<EventModel>,
    pub created_at: Decimal,
    pub last_ts: Decimal,
    pub count_total: u64,
    pub cached: bool,
}

/// The mathematical value of a [`Store`].
pub ghost struct StoreModel {
    pub maxlen: usize,
    pub topic_max: usize,
    pub next_seq: u64,
    pub topics: Seq<TopicModel>,
    pub total_publishes: u64,
    pub total_queries: u64,
    pub cache_hits: u64,
    pub cache_misses: u64,
}

impl View for Topic {
    type V = TopicModel;

    open spec fn view(&self) -> TopicModel {
        TopicModel {
            name: self.name@,
            events: event_models(self.events@),
            created_at: self.meta.created_at,
            last_ts: self.meta.last_ts,
            count_total: self.meta.count_total,
            cached: self.cached,
        }
    }
}

impl View for Store {
    type V = StoreModel;

    open spec fn view(&self) -> StoreModel {
        StoreModel {
            maxlen: self.maxlen,
            topic_max: self.topic_max,
            next_seq: self.next_seq,
            topics: self.topics@.map_values(|t: Topic| t@),
            total_publishes: self.total_publishes,
            total_queries: self.total_queries,
            cache_hits: self.cache_hits,
            cache_misses: self.cache_misses,
        }
    }
}

/// `n + 1`, or `n` where that is the largest value.
pub open spec fn bump(n: u64) -> u64 {
    if n < u64::MAX {
        (n + 1) as u64
    } else {
        n
    }
}

/// The last `n` items of `s`, or all of `s` where it has no more.
pub open spec fn last_n<T>(s: Seq<T>, n: int) -> Seq<T> {
    if n < 0 {
        Seq::empty()
    } else if s.len() > n {
        s.skip(s.len() - n)
    } else {
        s
    }
}

/// The position of the first topic named `name`; the number of topics where
/// there is none.
pub open spec fn position(topics: Seq<TopicModel>, name: Seq<char>) -> int
    decreases topics.len(),
{
    if topics.len() == 0 {
        0
    } else if topics[0].name == name {
        0
    } else {
        1 + position(topics.drop_first(), name)
    }
}

/// The events of all topics, topic after topic.
pub open spec fn all_events(topics: Seq<TopicModel>) -> Seq<EventModel>
    decreases topics.len(),
{
    if topics.len() == 0 {
        Seq::empty()
    } else {
        all_events(topics.drop_last()) + topics.last().events
    }
}

/// The events of `s` with a sequence number above `after`.
pub open spec fn newer(s: Seq<EventModel>, after: u64) -> Seq<EventModel> {
    s.filter(|e: EventModel| e.seq > after)
}

/// Sequence numbers grow strictly along `s` and stay below `limit`, and
/// every event carries the index record of its payload.
pub open spec fn ascending(s: Seq<EventModel>, limit: u64) -> bool {
    &&& forall|i: int, j: int| 0 <= i < j < s.len() ==> s[i].seq < s[j].seq
    &&& forall|i: int|
        0 <= i < s.len() ==> (#[trigger] s[i]).seq < limit && s[i].index == index_record(
            s[i].payload,
            s[i].ts,
        )
}

/// The position found for a name holds a topic of that name, and no topic
/// before it does.
pub proof fn lemma_position(topics: Seq<TopicModel>, name: Seq<char>)
    ensures
        0 <= position(topics, name) <= topics.len(),
        position(topics, name) < topics.len() ==> topics[position(topics, name)].name == name,
        forall|i: int| 0 <= i < position(topics, name) ==> (#[trigger] topics[i]).name != name,
    decreases topics.len(),
{
    if topics.len() > 0 && topics[0].name != name {
        let rest = topics.drop_first();
        lemma_position(rest, name);
        assert forall|i: int| 0 <= i < position(topics, name) implies (#[trigger] topics[i]).name
            != name by {
            if i > 0 {
                assert(topics[i] == rest[i - 1]);
            }
        }
    }
}

impl TopicModel {
    /// A topic without events, created at `ts`.
    pub open spec fn fresh(name: Seq<char>, ts: Decimal) -> TopicModel {
        TopicModel {
            name,
            events: Seq::empty(),
            created_at: ts,
            last_ts: ts,
            count_total: 0,
            cached: false,
        }
    }

    /// The topic after `ev` was appended under the limit `maxlen`: the
    /// oldest events leave until no more than `maxlen` are held.
    pub open spec fn appended(self, ev: EventModel, maxlen: usize) -> TopicModel {
        TopicModel {
            events: last_n(self.events.push(ev), maxlen as int),
            last_ts: ev.ts,
            count_total: bump(self.count_total),
            cached: true,
            ..self
        }
    }

    /// The topic emptied at `ts`.
    pub open spec fn cleared(self, ts: Decimal) -> TopicModel {
        TopicModel {
            events: Seq::empty(),
            created_at: ts,
            last_ts: ts,
            count_total: 0,
            ..self
        }
    }
}

impl StoreModel {
    /// What every store built and changed by this module's functions holds:
    /// the counter starts at 1, topic names are distinct, no topic holds more
    /// than `maxlen` events, within a topic sequence numbers grow strictly
    /// and lie below the counter, and every event carries the index record
    /// of its payload.
    pub open spec fn wf(self) -> bool {
        &&& self.next_seq >= 1
        &&& forall|i: int, j: int|
            0 <= i < j < self.topics.len() ==> self.topics[i].name != self.topics[j].name
        &&& forall|i: int|
            0 <= i < self.topics.len() ==> (#[trigger] self.topics[i]).events.len() <= self.maxlen
        &&& forall|i: int|
            0 <= i < self.topics.len() ==> ascending(
                (#[trigger] self.topics[i]).events,
                self.next_seq,
            )
    }

    /// Whether the store has a topic named `name`.
    pub open spec fn has_topic(self, name: Seq<char>) -> bool {
        position(self.topics, name) < self.topics.len()
    }

    /// The events that the topic named `name` holds; none where the store
    /// has no such topic.
    pub open spec fn buffer(self, name: Seq<char>) -> Seq<EventModel> {
        if self.has_topic(name) {
            self.topics[position(self.topics, name)].events
        } else {
            Seq::empty()
        }
    }

    /// The event that a publication at `ts` creates.
    pub open spec fn new_event(
        self,
        store: Seq<char>,
        topic: Seq<char>,
        payload: JsonModel,
        ts: Decimal,
    ) -> EventModel {
        EventModel {
            seq: self.next_seq,
            ts,
            store,
            topic,
            payload,
            index: index_record(payload, ts),
        }
    }

    /// The store with a topic named `name`, created at `ts` where it was
    /// missing.
    pub open spec fn with_topic(self, name: Seq<char>, ts: Decimal) -> StoreModel {
        if self.has_topic(name) {
            self
        } else {
            StoreModel { topics: self.topics.push(TopicModel::fresh(name, ts)), ..self }
        }
    }

    /// The store after a publication to `topic` at `ts`.
    pub open spec fn published(
        self,
        store: Seq<char>,
        topic: Seq<char>,
        payload: JsonModel,
        ts: Decimal,
    ) -> StoreModel {
        let s = self.with_topic(topic, ts);
        let i = position(s.topics, topic);
        let ev = self.new_event(store, topic, payload, ts);
        StoreModel {
            topics: s.topics.update(i, s.topics[i].appended(ev, self.maxlen)),
            next_seq: (self.next_seq + 1) as u64,
            total_publishes: bump(self.total_publishes),
            ..s
        }
    }

    /// The store after the payloads `items[..n]` were published to `topic`
    /// at `ts`, one after the other.
    pub open spec fn published_all(
        self,
        store: Seq<char>,
        topic: Seq<char>,
        items: Seq<JsonModel>,
        ts: Decimal,
        n: int,
    ) -> StoreModel
        decreases n,
    {
        if n <= 0 {
            self
        } else {
            self.published_all(store, topic, items, ts, n - 1).published(
                store,
                topic,
                items[n - 1],
                ts,
            )
        }
    }

    /// The events that the publication of `items` to `topic` at `ts`
    /// creates, in the order of `items`.
    pub open spec fn batch_events(
        self,
        store: Seq<char>,
        topic: Seq<char>,
        items: Seq<JsonModel>,
        ts: Decimal,
    ) -> Seq<EventModel> {
        Seq::new(
            items.len(),
            |k: int| self.published_all(store, topic, items, ts, k).new_event(
                store,
                topic,
                items[k],
                ts,
            ),
        )
    }

    /// The store with `topic` emptied at `ts`, and created where it was
    /// missing.
    pub open spec fn cleared(self, topic: Seq<char>, ts: Decimal) -> StoreModel {
        let s = self.with_topic(topic, ts);
        let i = position(s.topics, topic);
        StoreModel { topics: s.topics.update(i, s.topics[i].cleared(ts)), ..s }
    }

    /// The store after `topic` was replaced by `items` at `ts`.
    pub open spec fn replaced(
        self,
        store: Seq<char>,
        topic: Seq<char>,
        items: Seq<JsonModel>,
        ts: Decimal,
    ) -> StoreModel {
        self.cleared(topic, ts).published_all(store, topic, items, ts, items.len() as int)
    }

    /// The most recent events of `topic`, at most `limit`, oldest first.
    pub open spec fn recent(self, topic: Seq<char>, limit: usize) -> Seq<EventModel> {
        last_n(self.buffer(topic), limit as int)
    }

    /// The store after a read of the most recent events of `topic`: one more
    /// hit where the topic has a snapshot, else one more miss.
    pub open spec fn after_recent(self, topic: Seq<char>) -> StoreModel {
        if self.has_topic(topic) && self.topics[position(self.topics, topic)].cached {
            StoreModel { cache_hits: bump(self.cache_hits), ..self }
        } else {
            StoreModel { cache_misses: bump(self.cache_misses), ..self }
        }
    }

    /// Whether `topic` names one topic, and not all of them.
    pub open spec fn names_one(topic: Option<Seq<char>>) -> bool {
        topic is Some && topic->0.len() > 0 && topic->0 != "*"@
    }

    /// The events that a scan of `topic` visits: those of the topic named,
    /// or those of all topics where none, the empty name or `*` is given.
    pub open spec fn scanned(self, topic: Option<Seq<char>>) -> Seq<EventModel> {
        if Self::names_one(topic) {
            self.buffer(topic->0)
        } else {
            all_events(self.topics)
        }
    }

    /// The events of `topic` with a sequence number above `after_seq`, lowest
    /// first, at most `limit` of them.
    pub open spec fn since(self, topic: Option<Seq<char>>, after_seq: u64, limit: usize) -> Seq<
        EventModel,
    > {
        let hits = sorted_by(newer(self.scanned(topic), after_seq), OrderModel::SeqAscending);
        if hits.len() > limit {
            hits.take(limit as int)
        } else {
            hits
        }
    }

    /// The counters of the store.
    pub open spec fn metrics(self) -> StoreMetrics {
        StoreMetrics {
            total_events: if self.next_seq >= 1 {
                (self.next_seq - 1) as u64
            } else {
                0
            },
            cache_hits: self.cache_hits,
            cache_misses: self.cache_misses,
            total_publishes: self.total_publishes,
            total_queries: self.total_queries,
        }
    }
}

/// Making sure that a topic is there keeps a store well formed and every
/// topic in its place.
pub proof fn lemma_with_topic(m: StoreModel, name: Seq<char>, ts: Decimal)
    requires
        m.wf(),
    ensures
        m.with_topic(name, ts).wf(),
        m.with_topic(name, ts).has_topic(name),
        position(m.with_topic(name, ts).topics, name) == position(m.topics, name),
        m.with_topic(name, ts).buffer(name) == m.buffer(name),
{
    lemma_position(m.topics, name);
    let s = m.with_topic(name, ts);
    if !m.has_topic(name) {
        lemma_position_push(m.topics, TopicModel::fresh(name, ts), name);
        assert forall|i: int, j: int| 0 <= i < j < s.topics.len() implies s.topics[i].name
            != s.topics[j].name by {
            if j == m.topics.len() {
                assert(s.topics[i] == m.topics[i]);
            } else {
                assert(s.topics[i] == m.topics[i] && s.topics[j] == m.topics[j]);
            }
        }
        assert forall|i: int| 0 <= i < s.topics.len() implies (#[trigger] s.topics[i]).events.len()
            <= s.maxlen && ascending(s.topics[i].events, s.next_seq) by {
            if i < m.topics.len() {
                assert(s.topics[i] == m.topics[i]);
            }
        }
    }
}

proof fn lemma_position_push(topics: Seq<TopicModel>, t: TopicModel, name: Seq<char>)
    ensures
        position(topics, name) < topics.len() ==> position(topics.push(t), name) == position(
            topics,
            name,
        ),
        position(topics, name) == topics.len() && t.name == name ==> position(
            topics.push(t),
            name,
        ) == topics.len(),
    decreases topics.len(),
{
    lemma_position(topics, name);
    if topics.len() == 0 {
        assert(topics.push(t)[0] == t);
    } else {
        assert(topics.push(t)[0] == topics[0]);
        if topics[0].name != name {
            lemma_position_push(topics.drop_first(), t, name);
            assert(topics.push(t).drop_first() =~= topics.drop_first().push(t));
        }
    }
}

/// A publication keeps a store well formed, gives the event the counter's
/// value, and moves the counter on by one.
#[verifier::rlimit(40)]
pub proof fn lemma_published(
    m: StoreModel,
    store: Seq<char>,
    topic: Seq<char>,
    payload: JsonModel,
    ts: Decimal,
)
    requires
        m.wf(),
        m.next_seq < u64::MAX,
    ensures
        m.published(store, topic, payload, ts).wf(),
        m.published(store, topic, payload, ts).next_seq == m.next_seq + 1,
        m.published(store, topic, payload, ts).has_topic(topic),
        m.published(store, topic, payload, ts).buffer(topic) == last_n(
            m.buffer(topic).push(m.new_event(store, topic, payload, ts)),
            m.maxlen as int,
        ),
        m.published(store, topic, payload, ts).buffer(topic).len() <= m.maxlen,
        m.published(store, topic, payload, ts).maxlen == m.maxlen,
        m.published(store, topic, payload, ts).topic_max == m.topic_max,
        m.published(store, topic, payload, ts).topics.len() == if m.has_topic(topic) {
            m.topics.len()
        } else {
            m.topics.len() + 1
        },
{
    lemma_with_topic(m, topic, ts);
    let s = m.with_topic(topic, ts);
    let i = position(s.topics, topic);
    lemma_position(s.topics, topic);
    let ev = m.new_event(store, topic, payload, ts);
    let r = m.published(store, topic, payload, ts);
    let grown = s.topics[i].events.push(ev);
    assert(ascending(grown, r.next_seq)) by {
        assert forall|a: int, b: int| 0 <= a < b < grown.len() implies grown[a].seq
            < grown[b].seq by {
            if b == grown.len() - 1 {
                assert(grown[a] == s.topics[i].events[a]);
            } else {
                assert(grown[a] == s.topics[i].events[a] && grown[b] == s.topics[i].events[b]);
            }
        }
        assert forall|a: int| 0 <= a < grown.len() implies (#[trigger] grown[a]).seq
            < r.next_seq && grown[a].index == index_record(grown[a].payload, grown[a].ts) by {
            if a < grown.len() - 1 {
                assert(grown[a] == s.topics[i].events[a]);
            }
        }
    }
    let kept = last_n(grown, m.maxlen as int);
    assert(ascending(kept, r.next_seq));
    assert forall|a: int, b: int| 0 <= a < b < r.topics.len() implies r.topics[a].name
        != r.topics[b].name by {
        assert(r.topics[a].name == s.topics[a].name);
        assert(r.topics[b].name == s.topics[b].name);
    }
    assert forall|a: int| 0 <= a < r.topics.len() implies (#[trigger] r.topics[a]).events.len()
        <= r.maxlen && ascending(r.topics[a].events, r.next_seq) by {
        if a != i {
            assert(r.topics[a] == s.topics[a]);
            assert(ascending(s.topics[a].events, s.next_seq));
        }
    }
    lemma_position_update(s.topics, i, s.topics[i].appended(ev, m.maxlen), topic);
}

/// Replacing a topic by one of the same name leaves every position as it
/// was.
pub proof fn lemma_position_update(
    topics: Seq<TopicModel>,
    i: int,
    t: TopicModel,
    name: Seq<char>,
)
    requires
        0 <= i < topics.len(),
        t.name == topics[i].name,
    ensures
        position(topics.update(i, t), name) == position(topics, name),
    decreases topics.len(),
{
    let u = topics.update(i, t);
    if i == 0 {
        assert(u.drop_first() =~= topics.drop_first());
    } else {
        assert(u[0] == topics[0]);
        if topics[0].name != name {
            lemma_position_update(topics.drop_first(), i - 1, t, name);
            assert(u.drop_first() =~= topics.drop_first().update(i - 1, t));
        }
    }
}

/// Every event that a store holds is older than the next one that it
/// publishes: its sequence number is lower.
pub proof fn lemma_held_events_are_older(
    m: StoreModel,
    store: Seq<char>,
    topic: Seq<char>,
    payload: JsonModel,
    ts: Decimal,
    held: Seq<char>,
    i: int,
)
    requires
        m.wf(),
        0 <= i < m.buffer(held).len(),
    ensures
        m.buffer(held)[i].seq < m.new_event(store, topic, payload, ts).seq,
{
    lemma_position(m.topics, held);
    let k = position(m.topics, held);
    assert(ascending(m.topics[k].events, m.next_seq));
}

/// Two events of one store that were published one after the other carry
/// sequence numbers in that order.
pub proof fn lemma_seq_grows(
    m: StoreModel,
    store: Seq<char>,
    topic_a: Seq<char>,
    payload_a: JsonModel,
    ts_a: Decimal,
    topic_b: Seq<char>,
    payload_b: JsonModel,
    ts_b: Decimal,
)
    requires
        m.wf(),
        m.next_seq < u64::MAX,
    ensures
        m.new_event(store, topic_a, payload_a, ts_a).seq < m.published(
            store,
            topic_a,
            payload_a,
            ts_a,
        ).new_event(store, topic_b, payload_b, ts_b).seq,
{
    lemma_published(m, store, topic_a, payload_a, ts_a);
}

/// However many payloads are published to a topic, it never holds more
/// events than the store's limit.
pub proof fn lemma_buffer_bounded(
    m: StoreModel,
    store: Seq<char>,
    topic: Seq<char>,
    items: Seq<JsonModel>,
    ts: Decimal,
    n: int,
)
    requires
        m.wf(),
        0 <= n <= items.len(),
        m.next_seq + n <= u64::MAX,
    ensures
        m.published_all(store, topic, items, ts, n).wf(),
        m.published_all(store, topic, items, ts, n).next_seq == m.next_seq + n,
        m.published_all(store, topic, items, ts, n).maxlen == m.maxlen,
        m.published_all(store, topic, items, ts, n).topic_max == m.topic_max,
        m.published_all(store, topic, items, ts, n).buffer(topic).len() <= m.maxlen,
    decreases n,
{
    if n > 0 {
        lemma_buffer_bounded(m, store, topic, items, ts, n - 1);
        lemma_published(
            m.published_all(store, topic, items, ts, n - 1),
            store,
            topic,
            items[n - 1],
            ts,
        );
    } else {
        lemma_position(m.topics, topic);
    }
}

/// Emptying a topic keeps a store well formed and the counter where it is.
pub proof fn lemma_cleared(m: StoreModel, topic: Seq<char>, ts: Decimal)
    requires
        m.wf(),
    ensures
        m.cleared(topic, ts).wf(),
        m.cleared(topic, ts).next_seq == m.next_seq,
        m.cleared(topic, ts).has_topic(topic),
        m.cleared(topic, ts).buffer(topic) == Seq::<EventModel>::empty(),
{
    lemma_with_topic(m, topic, ts);
    let s = m.with_topic(topic, ts);
    let i = position(s.topics, topic);
    lemma_position(s.topics, topic);
    let r = m.cleared(topic, ts);
    lemma_position_update(s.topics, i, s.topics[i].cleared(ts), topic);
    assert forall|a: int, b: int| 0 <= a < b < r.topics.len() implies r.topics[a].name
        != r.topics[b].name by {
        assert(r.topics[a].name == s.topics[a].name);
        assert(r.topics[b].name == s.topics[b].name);
    }
    assert forall|a: int| 0 <= a < r.topics.len() implies (#[trigger] r.topics[a]).events.len()
        <= r.maxlen && ascending(r.topics[a].events, r.next_seq) by {
        if a != i {
            assert(r.topics[a] == s.topics[a]);
        }
    }
}

/// The events `q[from..]`.
fn copy_from(q: &VecDeque<Arc<Event>>, from: usize) -> (out: Vec<Arc<Event>>)
    requires
        from <= q.len(),
    ensures
        event_models(out@) == event_models(q@).skip(from as int),
        out@ == q@.skip(from as int),
{
    let mut out: Vec<Arc<Event>> = Vec::new();
    let mut i: usize = from;
    while i < q.len()
        invariant
            from <= i <= q.len(),
            out@ == q@.subrange(from as int, i as int),
        decreases q.len() - i,
    {
        out.push(share(&q[i]));
        proof {
            assert(q@.subrange(from as int, i + 1) =~= q@.subrange(from as int, i as int).push(
                q@[i as int],
            ));
        }
        i += 1;
    }
    proof {
        assert(q@.subrange(from as int, q.len() as int) =~= q@.skip(from as int));
        crate::event::lemma_event_models_take(q@, from as int);
    }
    out
}

/// The events of `items` with a sequence number above `after`.
pub fn keep_newer(items: &Vec<Arc<Event>>, after: u64) -> (out: Vec<Arc<Event>>)
    ensures
        event_models(out@) == newer(event_models(items@), after),
{
    let ghost pred = |e: EventModel| e.seq > after;
    let ghost all = event_models(items@);
    let mut out: Vec<Arc<Event>> = Vec::new();
    let mut i: usize = 0;
    proof {
        reveal(Seq::filter);
        assert(all.take(0) =~= Seq::<EventModel>::empty());
        assert(event_models(out@) =~= Seq::<EventModel>::empty());
    }
    while i < items.len()
        invariant
            i <= items.len(),
            all == event_models(items@),
            pred == (|e: EventModel| e.seq > after),
            event_models(out@) == all.take(i as int).filter(pred),
        decreases items.len() - i,
    {
        proof {
            reveal(Seq::filter);
            assert(all.take(i + 1).drop_last() =~= all.take(i as int));
            assert(all.take(i + 1).last() == items@[i as int]@);
        }
        if items[i].seq > after {
            let ghost prev = out@;
            out.push(share(&items[i]));
            proof {
                crate::event::lemma_event_models_push(prev, items@[i as int]);
            }
        }
        i += 1;
    }
    assert(all.take(items.len() as int) =~= all);
    out
}

/// Appends `ev` to `q` and drops events from the front until no more than
/// `maxlen` are left.
fn push_bounded(q: &mut VecDeque<Arc<Event>>, ev: Arc<Event>, maxlen: usize)
    ensures
        event_models(final(q)@) == last_n(event_models(old(q)@).push(ev@), maxlen as int),
{
    let ghost full = event_models(old(q)@).push(ev@);
    q.push_back(ev);
    proof {
        assert(event_models(q@) =~= full);
    }
    while q.len() > maxlen
        invariant
            q@.len() <= full.len(),
            q@.len() == full.len() || q@.len() >= maxlen,
            event_models(q@) == full.skip(full.len() - q@.len()),
        decreases q@.len(),
    {
        let ghost prev = q@;
        q.pop_front();
        proof {
            assert(event_models(q@) =~= event_models(prev).skip(1));
            assert(full.skip(full.len() - prev.len()).skip(1) =~= full.skip(
                full.len() - q@.len(),
            ));
        }
    }
    proof {
        assert(full.skip(0) =~= full);
    }
}

impl Store {
    /// A store without topics.
    pub fn new(maxlen: usize, topic_max: usize) -> (s: Store)
        ensures
            s@.wf(),
            s@.maxlen == maxlen,
            s@.topic_max == topic_max,
            s@.next_seq == 1,
            s@.topics.len() == 0,
            s@.total_publishes == 0 && s@.total_queries == 0,
            s@.cache_hits == 0 && s@.cache_misses == 0,
    {
        Store {
            maxlen,
            topic_max,
            next_seq: 1,
            topics: Vec::new(),
            total_publishes: 0,
            total_queries: 0,
            cache_hits: 0,
            cache_misses: 0,
        }
    }

    /// The counters of the store.
    pub fn get_metrics(&self) -> (m: StoreMetrics)
        ensures
            m == self@.metrics(),
    {
        StoreMetrics {
            total_events: self.next_seq.saturating_sub(1),
            cache_hits: self.cache_hits,
            cache_misses: self.cache_misses,
            total_publishes: self.total_publishes,
            total_queries: self.total_queries,
        }
    }

    /// The position of the topic named `name`.
    pub fn find_topic(&self, name: &str) -> (r: Option<usize>)
        ensures
            match r {
                Some(i) => self@.has_topic(name@) && i == position(self@.topics, name@),
                None => !self@.has_topic(name@),
            },
    {
        let ghost topics = self@.topics;
        let mut i: usize = 0;
        assert(topics.skip(0) =~= topics);
        while i < self.topics.len()
            invariant
                i <= self.topics.len(),
                topics == self@.topics,
                position(topics, name@) == i + position(topics.skip(i as int), name@),
            decreases self.topics.len() - i,
        {
            proof {
                assert(topics.skip(i as int)[0] == self.topics@[i as int]@);
                assert(topics.skip(i as int).drop_first() =~= topics.skip(i + 1));
            }
            if str_eq(self.topics[i].name.as_str(), name) {
                return Some(i);
            }
            i += 1;
        }
        None
    }

    /// Whether the store has a topic named `name`.
    pub fn has_topic(&self, name: &str) -> (r: bool)
        ensures
            r == self@.has_topic(name@),
    {
        self.find_topic(name).is_some()
    }

    /// Number of topics.
    pub fn topic_count(&self) -> (n: usize)
        ensures
            n == self@.topics.len(),
    {
        self.topics.len()
    }

    /// Whether a publication to `topic` would add a topic to a store that
    /// has reached its limit of topics.
    pub fn at_topic_cap(&self, topic: &str) -> (r: bool)
        ensures
            r == (!self@.has_topic(topic@) && self@.topics.len() >= self@.topic_max),
    {
        !self.has_topic(topic) && self.topics.len() >= self.topic_max
    }

    fn ensure_topic(&mut self, name: &str, ts: Decimal) -> (i: usize)
        ensures
            final(self)@ == old(self)@.with_topic(name@, ts),
            i == position(final(self)@.topics, name@),
            i < final(self).topics.len(),
    {
        match self.find_topic(name) {
            Some(i) => i,
            None => {
                let t = Topic {
                    name: String::from_str(name),
                    events: VecDeque::new(),
                    meta: TopicMeta { created_at: ts, last_ts: ts, count_total: 0 },
                    cached: false,
                };
                proof {
                    assert(t@ == TopicModel::fresh(name@, ts)) by {
                        assert(t@.events =~= Seq::<EventModel>::empty());
                    }
                    lemma_position(old(self)@.topics, name@);
                    lemma_position_push(old(self)@.topics, t@, name@);
                }
                self.topics.push(t);
                proof {
                    assert(self@.topics =~= old(self)@.topics.push(t@));
                }
                self.topics.len() - 1
            },
        }
    }

    fn append_to(&mut self, i: usize, ev: Arc<Event>)
        requires
            i < old(self).topics.len(),
        ensures
            final(self)@ == (StoreModel {
                topics: old(self)@.topics.update(
                    i as int,
                    old(self)@.topics[i as int].appended(ev@, old(self).maxlen),
                ),
                ..old(self)@
            }),
    {
        let ts = ev.ts;
        push_bounded(&mut self.topics[i].events, ev, self.maxlen);
        self.topics[i].meta.last_ts = ts;
        self.topics[i].meta.count_total = self.topics[i].meta.count_total.saturating_add(1);
        self.topics[i].cached = true;
        proof {
            let want = old(self)@.topics.update(
                i as int,
                old(self)@.topics[i as int].appended(ev@, old(self).maxlen),
            );
            assert(self@.topics.len() == want.len());
            assert forall|j: int| 0 <= j < self@.topics.len() implies self@.topics[j]
                == want[j] by {
                if j != i {
                    assert(self.topics@[j] == old(self).topics@[j]);
                }
            }
            assert(self@.topics =~= want);
        }
    }

    /// Publishes `payload` to `topic` at time `ts`: the event gets the next
    /// sequence number and the index record of its payload, the topic is
    /// created where it was missing, and its oldest events leave until it
    /// holds no more than `maxlen`.
    #[verifier::rlimit(40)]
    pub fn publish_at(&mut self, store: &str, topic: &str, payload: Json, ts: Decimal) -> (ev: Arc<
        Event,
    >)
        requires
            old(self).next_seq < u64::MAX,
        ensures
            final(self)@ == old(self)@.published(store@, topic@, payload@, ts),
            ev@ == old(self)@.new_event(store@, topic@, payload@, ts),
            old(self)@.wf() ==> final(self)@.wf(),
    {
        let index = extract_index(&payload, &ts);
        let ev = Arc::new(
            Event {
                seq: self.next_seq,
                ts,
                store: String::from_str(store),
                topic: String::from_str(topic),
                payload,
                index,
            },
        );
        let ghost want = old(self)@.published(store@, topic@, payload@, ts);
        let i = self.ensure_topic(topic, ts);
        let ghost s1 = self@;
        self.append_to(i, share(&ev));
        let ghost s2 = self@;
        self.next_seq = self.next_seq + 1;
        self.total_publishes = self.total_publishes.saturating_add(1);
        proof {
            assert(self@ == (StoreModel {
                next_seq: (s2.next_seq + 1) as u64,
                total_publishes: bump(s2.total_publishes),
                ..s2
            }));
            assert(self@ == want);
        }
        proof {
            if old(self)@.wf() {
                lemma_published(old(self)@, store@, topic@, payload@, ts);
            }
        }
        ev
    }

    /// Publishes `payload` to `topic` at the time that the clock gives.
    pub fn publish(&mut self, store: &str, topic: &str, payload: Json) -> (ev: Arc<Event>)
        requires
            old(self).next_seq < u64::MAX,
        ensures
            final(self)@ == old(self)@.published(store@, topic@, payload@, ev.ts),
            ev@ == old(self)@.new_event(store@, topic@, payload@, ev.ts),
            old(self)@.wf() ==> final(self)@.wf(),
    {
        let ts = now_ts();
        self.publish_at(store, topic, payload, ts)
    }

    /// Publishes each of `items` to `topic` at `ts`, one after the other.
    /// Returns the new events in the order of `items`.
    #[verifier::rlimit(40)]
    pub fn publish_all_at(&mut self, store: &str, topic: &str, items: &Vec<Json>, ts: Decimal) -> (out:
        Vec<Arc<Event>>)
        requires
            old(self).next_seq + items.len() <= u64::MAX,
        ensures
            final(self)@ == old(self)@.published_all(
                store@,
                topic@,
                models(items@),
                ts,
                items.len() as int,
            ),
            old(self)@.wf() ==> final(self)@.wf(),
            event_models(out@) == old(self)@.batch_events(store@, topic@, models(items@), ts),
    {
        let ghost start = self@;
        let mut out: Vec<Arc<Event>> = Vec::new();
        let mut k: usize = 0;
        while k < items.len()
            invariant
                k <= items.len(),
                out.len() == k,
                start.next_seq + items.len() <= u64::MAX,
                self@ == start.published_all(store@, topic@, models(items@), ts, k as int),
                start.wf() ==> self@.wf(),
                self@.next_seq == start.next_seq + k,
                forall|j: int|
                    0 <= j < k ==> (#[trigger] out@[j])@ == start.published_all(
                        store@,
                        topic@,
                        models(items@),
                        ts,
                        j,
                    ).new_event(store@, topic@, models(items@)[j], ts),
            decreases items.len() - k,
        {
            let ev = self.publish_at(store, topic, items[k].duplicate(), ts);
            out.push(ev);
            proof {
                assert(models(items@)[k as int] == items@[k as int]@);
            }
            k += 1;
        }
        proof {
            assert(event_models(out@) =~= start.batch_events(store@, topic@, models(items@), ts));
        }
        out
    }

    /// Replaces what `topic` holds by one event for each of `items`, all
    /// published at `ts`; the topic is created where it was missing. Returns
    /// the new events in the order of `items`.
    #[verifier::rlimit(40)]
    pub fn replace_topic_at(&mut self, store: &str, topic: &str, items: &Vec<Json>, ts: Decimal) -> (out:
        Vec<Arc<Event>>)
        requires
            old(self).next_seq + items.len() <= u64::MAX,
        ensures
            final(self)@ == old(self)@.replaced(store@, topic@, models(items@), ts),
            old(self)@.wf() ==> final(self)@.wf(),
            event_models(out@) == old(self)@.cleared(topic@, ts).batch_events(
                store@,
                topic@,
                models(items@),
                ts,
            ),
    {
        let i = self.ensure_topic(topic, ts);
        let ghost mid = self@;
        self.topics[i].events.clear();
        self.topics[i].meta.created_at = ts;
        self.topics[i].meta.last_ts = ts;
        self.topics[i].meta.count_total = 0;
        proof {
            assert(self@.topics =~= old(self)@.cleared(topic@, ts).topics) by {
                assert(event_models(self.topics@[i as int].events@) =~= Seq::<EventModel>::empty());
                assert forall|j: int| 0 <= j < self@.topics.len() implies self@.topics[j] == old(
                    self,
                )@.cleared(topic@, ts).topics[j] by {
                    if j != i {
                        assert(self@.topics[j] == mid.topics[j]);
                    }
                }
            }
            if old(self)@.wf() {
                lemma_cleared(old(self)@, topic@, ts);
            }
        }
        self.publish_all_at(store, topic, items, ts)
    }

    /// Replaces what `topic` holds by one event for each of `items`, all
    /// published at the time that the clock gives.
    pub fn replace_topic(&mut self, store: &str, topic: &str, items: &Vec<Json>) -> (out: Vec<
        Arc<Event>,
    >)
        requires
            old(self).next_seq + items.len() <= u64::MAX,
        ensures
            exists|ts: Decimal|
                {
                    &&& #[trigger] final(self)@ == old(self)@.replaced(
                        store@,
                        topic@,
                        models(items@),
                        ts,
                    )
                    &&& event_models(out@) == old(self)@.cleared(topic@, ts).batch_events(
                        store@,
                        topic@,
                        models(items@),
                        ts,
                    )
                },
            old(self)@.wf() ==> final(self)@.wf(),
            out.len() == items.len(),
    {
        let ts = now_ts();
        let out = self.replace_topic_at(store, topic, items, ts);
        assert(event_models(out@).len() == out.len());
        out
    }

    /// The most recent events of `topic`, at most `limit` of them, oldest
    /// first; none where the store has no such topic. The read is counted as
    /// a hit or as a miss.
    pub fn get_recent(&mut self, _store: &str, topic: &str, limit: usize) -> (out: Vec<Arc<Event>>)
        ensures
            event_models(out@) == old(self)@.recent(topic@, limit),
            final(self)@ == old(self)@.after_recent(topic@),
    {
        match self.find_topic(topic) {
            None => {
                self.cache_misses = self.cache_misses.saturating_add(1);
                let out: Vec<Arc<Event>> = Vec::new();
                assert(event_models(out@) =~= Seq::<EventModel>::empty());
                out
            },
            Some(i) => {
                if self.topics[i].cached {
                    self.cache_hits = self.cache_hits.saturating_add(1);
                } else {
                    self.cache_misses = self.cache_misses.saturating_add(1);
                }
                let q = &self.topics[i].events;
                let n: usize = if limit < q.len() {
                    limit
                } else {
                    q.len()
                };
                let from: usize = q.len() - n;
                let out = copy_from(q, from);
                proof {
                    assert(event_models(q@).skip(0) =~= event_models(q@));
                }
                out
            },
        }
    }

    /// The events that the topic named holds, or those of all topics where
    /// none, the empty name or `*` is given, in the order in which they are
    /// held.
    pub fn scan(&self, topic: Option<&str>) -> (out: Vec<Arc<Event>>)
        ensures
            event_models(out@) == self@.scanned(
                match topic {
                    Some(t) => Some(t@),
                    None => None,
                },
            ),
    {
        let one = match topic {
            Some(t) => t.unicode_len() > 0 && !str_eq(t, "*"),
            None => false,
        };
        if one {
            match self.find_topic(topic.unwrap()) {
                Some(i) => {
                    let out = copy_from(&self.topics[i].events, 0);
                    proof {
                        assert(event_models(self.topics@[i as int].events@).skip(0)
                            =~= event_models(self.topics@[i as int].events@));
                    }
                    out
                },
                None => {
                    let out: Vec<Arc<Event>> = Vec::new();
                    assert(event_models(out@) =~= Seq::<EventModel>::empty());
                    out
                },
            }
        } else {
            let mut out: Vec<Arc<Event>> = Vec::new();
            let mut t: usize = 0;
            assert(self@.topics.take(0) =~= Seq::<TopicModel>::empty());
            assert(event_models(out@) =~= Seq::<EventModel>::empty());
            while t < self.topics.len()
                invariant
                    t <= self.topics.len(),
                    event_models(out@) == all_events(self@.topics.take(t as int)),
                decreases self.topics.len() - t,
            {
                let mut part = copy_from(&self.topics[t].events, 0);
                proof {
                    let q = self.topics@[t as int].events@;
                    assert(event_models(q).skip(0) =~= event_models(q));
                    let upto = self@.topics.take(t + 1);
                    assert(upto.drop_last() =~= self@.topics.take(t as int));
                    assert(upto.last() == self.topics@[t as int]@);
                    assert(event_models(out@ + part@) =~= event_models(out@) + event_models(part@));
                }
                out.append(&mut part);
                t += 1;
            }
            assert(self@.topics.take(self.topics.len() as int) =~= self@.topics);
            out
        }
    }

    /// The events of `topic` (of all topics where none, the empty name or
    /// `*` is given) with a sequence number above `after_seq`, lowest first,
    /// at most `limit` of them. The read is counted as a query.
    pub fn get_since(&mut self, _store: &str, topic: Option<&str>, after_seq: u64, limit: usize) -> (out:
        Vec<Arc<Event>>)
        ensures
            event_models(out@) == old(self)@.since(
                match topic {
                    Some(t) => Some(t@),
                    None => None,
                },
                after_seq,
                limit,
            ),
            final(self)@ == (StoreModel {
                total_queries: bump(old(self)@.total_queries),
                ..old(self)@
            }),
    {
        self.total_queries = self.total_queries.saturating_add(1);
        let all = self.scan(topic);
        let hits = keep_newer(&all, after_seq);
        let mut sorted = sort_events(&hits, &Order::SeqAscending);
        if sorted.len() > limit {
            let ghost full = sorted@;
            sorted.truncate(limit);
            proof {
                assert(sorted@ =~= full.take(limit as int));
                crate::event::lemma_event_models_take(full, limit as int);
            }
        }
        sorted
    }

    /// The events that the topic named `topic` holds, oldest first.
    pub fn buffer(&self, topic: &str) -> (out: Vec<Arc<Event>>)
        ensures
            event_models(out@) == self@.buffer(topic@),
    {
        match self.find_topic(topic) {
            Some(i) => {
                let out = copy_from(&self.topics[i].events, 0);
                proof {
                    assert(event_models(self.topics@[i as int].events@).skip(0) =~= event_models(
                        self.topics@[i as int].events@,
                    ));
                }
                out
            },
            None => {
                let out: Vec<Arc<Event>> = Vec::new();
                assert(event_models(out@) =~= Seq::<EventModel>::empty());
                out
            },
        }
    }

    /// Whether the counter can still give a sequence number.
    pub fn can_publish(&self) -> (r: bool)
        ensures
            r == (self.next_seq < u64::MAX),
    {
        self.next_seq < u64::MAX
    }
}

} // verus!
