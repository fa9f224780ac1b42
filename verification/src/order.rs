//! Orders on events and a stable sort by them.

use std::sync::Arc;
use vstd::prelude::*;
use crate::codec::{stringified, text_for};
use crate::event::{event_models, lemma_event_models_push, share, Event, EventModel};
use crate::json::{Json, JsonModel};
use crate::text::{str_lt, text_lt};

verus! {

/// How a run of events is ordered.
pub enum Order {
    /// By sequence number, lowest first.
    SeqAscending,
    /// By sequence number, highest first.
    SeqDescending,
    /// By the sort keys of the named fields, field by field; with `reverse`,
    /// highest key first.
    Fields { names: Vec<String>, reverse: bool },
}

/// The mathematical value of an [`Order`].
pub ghost enum OrderModel {
    SeqAscending,
    SeqDescending,
    Fields { names: Seq<Seq<char>>, reverse: bool },
}

impl View for Order {
    type V = OrderModel;

    open spec fn view(&self) -> OrderModel {
        match self {
            Order::SeqAscending => OrderModel::SeqAscending,
            Order::SeqDescending => OrderModel::SeqDescending,
            Order::Fields { names, reverse } => OrderModel::Fields {
                names: names@.map_values(|s: String| s@),
                reverse: *reverse,
            },
        }
    }
}

/// The sort key of a field's value: a tag and a text. Numbers carry tag 0 and
/// their positional text, a missing or null value tag 2 and no text, and
/// anything else tag 1 and the text that stands for it. Keys compare by tag,
/// then by text, so that numbers come before texts and null comes last.
pub open spec fn sort_key(v: Option<JsonModel>) -> (int, Seq<char>) {
    match v {
        None => (2, Seq::empty()),
        Some(JsonModel::Null) => (2, Seq::empty()),
        Some(x) => match x.as_decimal() {
            Some(d) => (0, d.plain_text()),
            None => (1, stringified(x)),
        },
    }
}

/// `a` comes strictly before `b`.
pub open spec fn key_lt(a: (int, Seq<char>), b: (int, Seq<char>)) -> bool {
    a.0 < b.0 || (a.0 == b.0 && text_lt(a.1, b.1))
}

/// The keys of `a` come strictly before those of `b`, compared field by
/// field from `names[from]` on; the first field whose keys differ decides.
pub open spec fn keys_lt(a: EventModel, b: EventModel, names: Seq<Seq<char>>, from: int) -> bool
    decreases names.len() - from,
{
    if from < 0 || from >= names.len() {
        false
    } else {
        let ka = sort_key(a.field(names[from]));
        let kb = sort_key(b.field(names[from]));
        if key_lt(ka, kb) {
            true
        } else if key_lt(kb, ka) {
            false
        } else {
            keys_lt(a, b, names, from + 1)
        }
    }
}

/// `a` must come before `b` under `order`.
pub open spec fn before(order: OrderModel, a: EventModel, b: EventModel) -> bool {
    match order {
        OrderModel::SeqAscending => a.seq < b.seq,
        OrderModel::SeqDescending => a.seq > b.seq,
        OrderModel::Fields { names, reverse } => if reverse {
            keys_lt(b, a, names, 0)
        } else {
            keys_lt(a, b, names, 0)
        },
    }
}

/// `s`, which is sorted, with `x` put in after every event that need not
/// come after it.
pub open spec fn insert_event(s: Seq<EventModel>, x: EventModel, order: OrderModel) -> Seq<
    EventModel,
>
    decreases s.len(),
{
    if s.len() > 0 && before(order, x, s.last()) {
        insert_event(s.drop_last(), x, order).push(s.last())
    } else {
        s.push(x)
    }
}

/// `s` sorted by `order`; events of which neither must come before the other
/// keep the order that they have in `s`.
pub open spec fn sorted_by(s: Seq<EventModel>, order: OrderModel) -> Seq<EventModel>
    decreases s.len(),
{
    if s.len() == 0 {
        s
    } else {
        insert_event(sorted_by(s.drop_last(), order), s.last(), order)
    }
}

/// No event of `s` must come before an earlier one.
pub open spec fn is_sorted(s: Seq<EventModel>, order: OrderModel) -> bool {
    forall|i: int, j: int| 0 <= i < j < s.len() ==> !before(order, s[j], s[i])
}

proof fn lemma_text_lt_asymmetric(a: Seq<char>, b: Seq<char>)
    ensures
        text_lt(a, b) ==> !text_lt(b, a),
    decreases a.len(),
{
    if a.len() > 0 && b.len() > 0 && a[0] == b[0] {
        lemma_text_lt_asymmetric(a.drop_first(), b.drop_first());
    }
}

proof fn lemma_text_lt_transitive(a: Seq<char>, b: Seq<char>, c: Seq<char>)
    ensures
        text_lt(a, b) && text_lt(b, c) ==> text_lt(a, c),
    decreases a.len(),
{
    if a.len() > 0 && b.len() > 0 && c.len() > 0 && a[0] == b[0] && b[0] == c[0] {
        lemma_text_lt_transitive(a.drop_first(), b.drop_first(), c.drop_first());
    }
}

proof fn lemma_text_lt_total(a: Seq<char>, b: Seq<char>)
    ensures
        !text_lt(a, b) && !text_lt(b, a) ==> a == b,
    decreases a.len(),
{
    if !text_lt(a, b) && !text_lt(b, a) {
        if a.len() > 0 && b.len() > 0 {
            lemma_text_lt_total(a.drop_first(), b.drop_first());
            assert(a =~= seq![a[0]] + a.drop_first());
            assert(b =~= seq![b[0]] + b.drop_first());
        } else {
            assert(a =~= b);
        }
    }
}

/// Sort keys are in a strict total order.
proof fn lemma_key_lt(a: (int, Seq<char>), b: (int, Seq<char>), c: (int, Seq<char>))
    ensures
        key_lt(a, b) ==> !key_lt(b, a),
        key_lt(a, b) && key_lt(b, c) ==> key_lt(a, c),
        !key_lt(a, b) && !key_lt(b, a) ==> a == b,
        !key_lt(b, a) && !key_lt(c, b) ==> !key_lt(c, a),
{
    lemma_text_lt_asymmetric(a.1, b.1);
    lemma_text_lt_transitive(a.1, b.1, c.1);
    lemma_text_lt_transitive(c.1, b.1, a.1);
    lemma_text_lt_total(a.1, b.1);
    lemma_text_lt_total(b.1, c.1);
    lemma_text_lt_total(a.1, c.1);
    lemma_text_lt_asymmetric(b.1, c.1);
    lemma_text_lt_asymmetric(c.1, a.1);
}

proof fn lemma_keys_lt_asymmetric(a: EventModel, b: EventModel, names: Seq<Seq<char>>, from: int)
    requires
        0 <= from,
    ensures
        keys_lt(a, b, names, from) ==> !keys_lt(b, a, names, from),
    decreases names.len() - from,
{
    if from < names.len() {
        let ka = sort_key(a.field(names[from]));
        let kb = sort_key(b.field(names[from]));
        lemma_key_lt(ka, kb, ka);
        lemma_keys_lt_asymmetric(a, b, names, from + 1);
    }
}

proof fn lemma_keys_lt_carries(
    a: EventModel,
    b: EventModel,
    c: EventModel,
    names: Seq<Seq<char>>,
    from: int,
)
    requires
        0 <= from,
    ensures
        !keys_lt(b, a, names, from) && !keys_lt(c, b, names, from) ==> !keys_lt(
            c,
            a,
            names,
            from,
        ),
    decreases names.len() - from,
{
    if from < names.len() {
        let ka = sort_key(a.field(names[from]));
        let kb = sort_key(b.field(names[from]));
        let kc = sort_key(c.field(names[from]));
        lemma_key_lt(ka, kb, kc);
        lemma_key_lt(kb, ka, kc);
        lemma_key_lt(ka, kc, kb);
        lemma_key_lt(kc, kb, ka);
        lemma_key_lt(kb, kc, ka);
        lemma_key_lt(kc, ka, kb);
        lemma_keys_lt_carries(a, b, c, names, from + 1);
    }
}

/// Every order is consistent: no two events must each come before the
/// other, and where `b` need not come after `a` and `c` need not come after
/// `b`, `c` need not come after `a`.
pub proof fn lemma_order_consistent(order: OrderModel)
    ensures
        forall|a: EventModel, b: EventModel| #[trigger]
            before(order, a, b) ==> !before(order, b, a),
        forall|a: EventModel, b: EventModel, c: EventModel|
            !#[trigger] before(order, b, a) && !#[trigger] before(order, c, b) ==> !before(
                order,
                c,
                a,
            ),
{
    assert forall|a: EventModel, b: EventModel| #[trigger]
        before(order, a, b) implies !before(order, b, a) by {
        if let OrderModel::Fields { names, reverse } = order {
            lemma_keys_lt_asymmetric(a, b, names, 0);
            lemma_keys_lt_asymmetric(b, a, names, 0);
        }
    }
    assert forall|a: EventModel, b: EventModel, c: EventModel|
        !#[trigger] before(order, b, a) && !#[trigger] before(order, c, b) implies !before(
            order,
            c,
            a,
        ) by {
        if let OrderModel::Fields { names, reverse } = order {
            lemma_keys_lt_carries(a, b, c, names, 0);
            lemma_keys_lt_carries(c, b, a, names, 0);
        }
    }
}

/// Putting an event into a run adds that event and no other.
pub proof fn lemma_insert_event_len(s: Seq<EventModel>, x: EventModel, order: OrderModel)
    ensures
        insert_event(s, x, order).len() == s.len() + 1,
        insert_event(s, x, order).to_multiset() == s.to_multiset().insert(x),
    decreases s.len(),
{
    broadcast use vstd::seq_lib::group_to_multiset_ensures;

    if s.len() > 0 && before(order, x, s.last()) {
        lemma_insert_event_len(s.drop_last(), x, order);
        assert(s =~= s.drop_last().push(s.last()));
        assert(s.drop_last().to_multiset().insert(x).insert(s.last()) =~= s.drop_last().to_multiset().insert(
            s.last(),
        ).insert(x));
    }
}

/// Sorting keeps the events: each occurs as often after as before.
pub proof fn lemma_sorted_by_permutes(s: Seq<EventModel>, order: OrderModel)
    ensures
        sorted_by(s, order).len() == s.len(),
        sorted_by(s, order).to_multiset() == s.to_multiset(),
    decreases s.len(),
{
    broadcast use vstd::seq_lib::group_to_multiset_ensures;

    if s.len() > 0 {
        lemma_sorted_by_permutes(s.drop_last(), order);
        lemma_insert_event_len(sorted_by(s.drop_last(), order), s.last(), order);
        assert(s =~= s.drop_last().push(s.last()));
    }
}

proof fn lemma_insert_event_sorted(s: Seq<EventModel>, x: EventModel, order: OrderModel)
    requires
        is_sorted(s, order),
    ensures
        is_sorted(insert_event(s, x, order), order),
        forall|i: int|
            0 <= i < insert_event(s, x, order).len() ==> #[trigger] insert_event(s, x, order)[i]
                == x || s.contains(insert_event(s, x, order)[i]),
    decreases s.len(),
{
    let r = insert_event(s, x, order);
    lemma_order_consistent(order);
    if s.len() > 0 && before(order, x, s.last()) {
        let t = s.drop_last();
        assert(is_sorted(t, order)) by {
            assert forall|i: int, j: int| 0 <= i < j < t.len() implies !before(
                order,
                t[j],
                t[i],
            ) by {
                assert(t[i] == s[i] && t[j] == s[j]);
            }
        }
        lemma_insert_event_sorted(t, x, order);
        let u = insert_event(t, x, order);
        lemma_insert_event_len(t, x, order);
        assert forall|i: int, j: int| 0 <= i < j < r.len() implies !before(order, r[j], r[i]) by {
            if j < u.len() {
                assert(r[i] == u[i] && r[j] == u[j]);
            } else {
                assert(r[j] == s.last());
                assert(r[i] == u[i]);
                if u[i] == x {
                } else {
                    assert(t.contains(u[i]));
                    let k = choose|k: int| 0 <= k < t.len() && t[k] == u[i];
                    assert(s[k] == u[i]);
                    assert(!before(order, s[s.len() - 1], s[k]));
                }
            }
        }
        assert forall|i: int| 0 <= i < r.len() implies #[trigger] r[i] == x || s.contains(
            r[i],
        ) by {
            if i < u.len() {
                assert(r[i] == u[i]);
                if u[i] != x {
                    let k = choose|k: int| 0 <= k < t.len() && t[k] == u[i];
                    assert(s[k] == u[i]);
                }
            } else {
                assert(r[i] == s[s.len() - 1]);
            }
        }
    } else {
        assert forall|i: int, j: int| 0 <= i < j < r.len() implies !before(order, r[j], r[i]) by {
            if j < s.len() {
                assert(r[i] == s[i] && r[j] == s[j]);
            } else {
                assert(r[j] == x);
                assert(r[i] == s[i]);
                assert(!before(order, x, s.last()));
                if i < s.len() - 1 {
                    assert(!before(order, s[s.len() - 1], s[i]));
                }
            }
        }
        assert forall|i: int| 0 <= i < r.len() implies #[trigger] r[i] == x || s.contains(
            r[i],
        ) by {
            if i < s.len() {
                assert(r[i] == s[i]);
            }
        }
    }
}

/// The result of sorting is sorted: no event of it must come before an
/// earlier one.
pub proof fn lemma_sorted_by_sorts(s: Seq<EventModel>, order: OrderModel)
    ensures
        is_sorted(sorted_by(s, order), order),
    decreases s.len(),
{
    if s.len() > 0 {
        lemma_sorted_by_sorts(s.drop_last(), order);
        lemma_insert_event_sorted(sorted_by(s.drop_last(), order), s.last(), order);
    }
}

/// A run that is sorted already is left as it is: sorting is stable. So is
/// any run sorted by a key that is the same for all its events.
pub proof fn lemma_sorted_by_keeps_sorted(s: Seq<EventModel>, order: OrderModel)
    requires
        is_sorted(s, order),
    ensures
        sorted_by(s, order) == s,
    decreases s.len(),
{
    if s.len() > 0 {
        let t = s.drop_last();
        assert(is_sorted(t, order)) by {
            assert forall|i: int, j: int| 0 <= i < j < t.len() implies !before(
                order,
                t[j],
                t[i],
            ) by {
                assert(t[i] == s[i] && t[j] == s[j]);
            }
        }
        lemma_sorted_by_keeps_sorted(t, order);
        if t.len() > 0 {
            assert(t.last() == s[s.len() - 2]);
            assert(!before(order, s[s.len() - 1], s[s.len() - 2]));
        }
        assert(t.push(s.last()) =~= s);
    }
}

proof fn lemma_text_lt_irreflexive(s: Seq<char>)
    ensures
        !text_lt(s, s),
    decreases s.len(),
{
    if s.len() > 0 {
        lemma_text_lt_irreflexive(s.drop_first());
    }
}

proof fn lemma_equal_keys(a: EventModel, b: EventModel, names: Seq<Seq<char>>, from: int)
    requires
        0 <= from,
        forall|k: int|
            from <= k < names.len() ==> sort_key(a.field(#[trigger] names[k])) == sort_key(
                b.field(names[k]),
            ),
    ensures
        !keys_lt(a, b, names, from),
    decreases names.len() - from,
{
    if from < names.len() {
        let k = sort_key(a.field(names[from]));
        lemma_text_lt_irreflexive(k.1);
        lemma_equal_keys(a, b, names, from + 1);
    }
}

/// Sorting by fields for which all events have the same keys returns the
/// events in the order in which they came.
pub proof fn lemma_constant_key_keeps_order(
    items: Seq<EventModel>,
    names: Seq<Seq<char>>,
    reverse: bool,
)
    requires
        forall|i: int, j: int, k: int|
            0 <= i < items.len() && 0 <= j < items.len() && 0 <= k < names.len() ==> sort_key(
                (#[trigger] items[i]).field(#[trigger] names[k]),
            ) == sort_key((#[trigger] items[j]).field(names[k])),
    ensures
        sorted_by(items, OrderModel::Fields { names, reverse }) == items,
{
    let order = OrderModel::Fields { names, reverse };
    assert forall|i: int, j: int| 0 <= i < j < items.len() implies !before(
        order,
        items[j],
        items[i],
    ) by {
        lemma_equal_keys(items[i], items[j], names, 0);
        lemma_equal_keys(items[j], items[i], names, 0);
    }
    lemma_sorted_by_keeps_sorted(items, order);
}

/// Sorting by sequence number gives a run in which the numbers never fall
/// (lowest first) or never rise (highest first).
pub proof fn lemma_seq_order_sorts(s: Seq<EventModel>, order: OrderModel)
    requires
        order is SeqAscending || order is SeqDescending,
    ensures
        is_sorted(sorted_by(s, order), order),
        order is SeqAscending ==> forall|i: int, j: int|
            0 <= i < j < s.len() ==> sorted_by(s, order)[i].seq <= sorted_by(s, order)[j].seq,
        order is SeqDescending ==> forall|i: int, j: int|
            0 <= i < j < s.len() ==> sorted_by(s, order)[i].seq >= sorted_by(s, order)[j].seq,
{
    lemma_sorted_by_sorts(s, order);
    lemma_sorted_by_permutes(s, order);
    let r = sorted_by(s, order);
    assert forall|i: int, j: int| 0 <= i < j < s.len() implies (order is SeqAscending ==> r[i].seq
        <= r[j].seq) && (order is SeqDescending ==> r[i].seq >= r[j].seq) by {
        assert(!before(order, r[j], r[i]));
    }
}

/// An event that must come before every event of a sorted run is put at
/// its front.
pub proof fn lemma_insert_event_front(s: Seq<EventModel>, x: EventModel, order: OrderModel)
    requires
        forall|i: int| 0 <= i < s.len() ==> before(order, x, #[trigger] s[i]),
    ensures
        insert_event(s, x, order) == seq![x] + s,
    decreases s.len(),
{
    if s.len() > 0 {
        let t = s.drop_last();
        assert forall|i: int| 0 <= i < t.len() implies before(order, x, #[trigger] t[i]) by {
            assert(t[i] == s[i]);
        }
        lemma_insert_event_front(t, x, order);
        assert(before(order, x, s[s.len() - 1]));
        assert((seq![x] + t).push(s.last()) =~= seq![x] + s);
    } else {
        assert(s.push(x) =~= seq![x] + s);
    }
}

/// Sorting a run whose sequence numbers grow strictly, highest first,
/// reverses it.
pub proof fn lemma_descending_reverses(s: Seq<EventModel>)
    requires
        forall|i: int, j: int| 0 <= i < j < s.len() ==> s[i].seq < s[j].seq,
    ensures
        sorted_by(s, OrderModel::SeqDescending) == s.reverse(),
    decreases s.len(),
{
    if s.len() > 0 {
        let t = s.drop_last();
        let x = s.last();
        assert forall|i: int, j: int| 0 <= i < j < t.len() implies t[i].seq < t[j].seq by {
            assert(t[i] == s[i] && t[j] == s[j]);
        }
        lemma_descending_reverses(t);
        let u = t.reverse();
        assert forall|i: int| 0 <= i < u.len() implies before(
            OrderModel::SeqDescending,
            x,
            #[trigger] u[i],
        ) by {
            assert(u[i] == s[t.len() - 1 - i]);
        }
        lemma_insert_event_front(u, x, OrderModel::SeqDescending);
        assert(seq![x] + u =~= s.reverse());
    } else {
        assert(s.reverse() =~= s);
    }
}

/// The sort key of a field's value.
pub fn sort_key_of(v: &Option<Json>) -> (k: (u8, String))
    ensures
        (k.0 as int, k.1@) == sort_key(
            match v {
                Some(x) => Some(x@),
                None => None,
            },
        ),
{
    match v {
        None => (2, String::new()),
        Some(Json::Null) => (2, String::new()),
        Some(x) => match x.as_decimal() {
            Some(d) => (0, d.plain()),
            None => (1, text_for(x)),
        },
    }
}

fn key_before(a: &(u8, String), b: &(u8, String)) -> (r: bool)
    ensures
        r == key_lt((a.0 as int, a.1@), (b.0 as int, b.1@)),
{
    a.0 < b.0 || (a.0 == b.0 && str_lt(a.1.as_str(), b.1.as_str()))
}

fn keys_before(a: &Event, b: &Event, names: &Vec<String>) -> (r: bool)
    ensures
        r == keys_lt(a@, b@, names@.map_values(|s: String| s@), 0),
{
    let ghost ns = names@.map_values(|s: String| s@);
    let mut i: usize = 0;
    while i < names.len()
        invariant
            i <= names.len(),
            ns == names@.map_values(|s: String| s@),
            keys_lt(a@, b@, ns, 0) == keys_lt(a@, b@, ns, i as int),
        decreases names.len() - i,
    {
        assert(ns[i as int] == names@[i as int]@);
        let va = a.field(names[i].as_str());
        let vb = b.field(names[i].as_str());
        let ka = sort_key_of(&va);
        let kb = sort_key_of(&vb);
        if key_before(&ka, &kb) {
            return true;
        }
        if key_before(&kb, &ka) {
            return false;
        }
        i += 1;
    }
    false
}

impl Order {
    /// Whether `a` must come before `b`.
    pub fn puts_before(&self, a: &Event, b: &Event) -> (r: bool)
        ensures
            r == before(self@, a@, b@),
    {
        match self {
            Order::SeqAscending => a.seq < b.seq,
            Order::SeqDescending => a.seq > b.seq,
            Order::Fields { names, reverse } => {
                if *reverse {
                    keys_before(b, a, names)
                } else {
                    keys_before(a, b, names)
                }
            },
        }
    }
}

/// Two sorted runs as one: the events of both, those of `a` before those of
/// `b` where neither must come before the other.
pub open spec fn merged(a: Seq<EventModel>, b: Seq<EventModel>, order: OrderModel) -> Seq<
    EventModel,
>
    decreases a.len() + b.len(),
{
    if a.len() == 0 {
        b
    } else if b.len() == 0 {
        a
    } else if before(order, b.last(), a.last()) {
        merged(a.drop_last(), b, order).push(a.last())
    } else {
        merged(a, b.drop_last(), order).push(b.last())
    }
}

/// Putting an event into the merger of two runs is merging the first with
/// the second after the event was put into it.
#[verifier::rlimit(40)]
proof fn lemma_insert_into_merged(
    a: Seq<EventModel>,
    b: Seq<EventModel>,
    x: EventModel,
    order: OrderModel,
)
    ensures
        insert_event(merged(a, b, order), x, order) == merged(a, insert_event(b, x, order), order),
    decreases a.len() + b.len(),
{
    lemma_order_consistent(order);
    let lhs = insert_event(merged(a, b, order), x, order);
    let bx = insert_event(b, x, order);
    let rhs = merged(a, bx, order);
    lemma_insert_event_len(b, x, order);
    if a.len() == 0 {
        assert(lhs == rhs);
    } else if b.len() == 0 {
        assert(bx =~= seq![x]);
        assert(bx.last() == x);
        assert(bx.drop_last() =~= b);
        assert(merged(a, b, order) == a);
        if before(order, x, a.last()) {
            lemma_insert_into_merged(a.drop_last(), b, x, order);
            assert(merged(a.drop_last(), b, order) == a.drop_last());
            assert(insert_event(b, x, order) == bx);
            assert(rhs == merged(a.drop_last(), bx, order).push(a.last()));
            assert(lhs == insert_event(a.drop_last(), x, order).push(a.last()));
            assert(lhs == rhs);
        } else {
            assert(rhs == merged(a, bx.drop_last(), order).push(x));
            assert(lhs == a.push(x));
            assert(lhs == rhs);
        }
    } else {
        let al = a.last();
        let bl = b.last();
        let m = merged(a, b, order);
        if before(order, x, bl) {
            assert(bx == insert_event(b.drop_last(), x, order).push(bl));
            assert(bx.last() == bl);
            assert(bx.drop_last() =~= insert_event(b.drop_last(), x, order));
            if before(order, bl, al) {
                lemma_insert_into_merged(a.drop_last(), b, x, order);
                assert(before(order, x, al)) by {
                    if !before(order, x, al) {
                        assert(!before(order, al, bl));
                        assert(!before(order, bl, x));
                        assert(!before(order, al, x));
                    }
                }
                assert(m == merged(a.drop_last(), b, order).push(al));
                assert(m.last() == al);
                assert(m.drop_last() =~= merged(a.drop_last(), b, order));
                assert(lhs == insert_event(merged(a.drop_last(), b, order), x, order).push(al));
                assert(rhs == merged(a.drop_last(), bx, order).push(al));
                assert(lhs == rhs);
            } else {
                lemma_insert_into_merged(a, b.drop_last(), x, order);
                assert(m == merged(a, b.drop_last(), order).push(bl));
                assert(m.last() == bl);
                assert(m.drop_last() =~= merged(a, b.drop_last(), order));
                assert(lhs == insert_event(merged(a, b.drop_last(), order), x, order).push(bl));
                assert(rhs == merged(a, bx.drop_last(), order).push(bl));
                assert(lhs == rhs);
            }
        } else {
            assert(bx == b.push(x));
            assert(bx.last() == x);
            assert(bx.drop_last() =~= b);
            if before(order, x, al) {
                lemma_insert_into_merged(a.drop_last(), b, x, order);
                assert(before(order, bl, al)) by {
                    if !before(order, bl, al) {
                        assert(!before(order, x, bl));
                        assert(!before(order, x, al));
                    }
                }
                assert(m == merged(a.drop_last(), b, order).push(al));
                assert(m.last() == al);
                assert(m.drop_last() =~= merged(a.drop_last(), b, order));
                assert(lhs == insert_event(merged(a.drop_last(), b, order), x, order).push(al));
                assert(rhs == merged(a.drop_last(), bx, order).push(al));
                assert(lhs == rhs);
            } else {
                assert(m.len() > 0 && (m.last() == al || m.last() == bl));
                assert(lhs == m.push(x));
                assert(rhs == merged(a, bx.drop_last(), order).push(x));
                assert(lhs == rhs);
            }
        }
    }
}

/// Sorting two runs and merging them is sorting the one after the other.
pub proof fn lemma_merged_sorts(a: Seq<EventModel>, b: Seq<EventModel>, order: OrderModel)
    ensures
        sorted_by(a + b, order) == merged(sorted_by(a, order), sorted_by(b, order), order),
    decreases b.len(),
{
    if b.len() == 0 {
        assert(a + b =~= a);
        let s = sorted_by(a, order);
        assert(merged(s, b, order) == s);
    } else {
        let t = b.drop_last();
        lemma_merged_sorts(a, t, order);
        assert((a + b).drop_last() =~= a + t);
        assert((a + b).last() == b.last());
        lemma_insert_into_merged(sorted_by(a, order), sorted_by(t, order), b.last(), order);
    }
}

/// The merger of two runs ends with the last event of the first where the
/// second is empty or its last event must come before that one.
proof fn lemma_merged_ends_left(a: Seq<EventModel>, b: Seq<EventModel>, order: OrderModel)
    requires
        a.len() > 0,
        b.len() == 0 || before(order, b.last(), a.last()),
    ensures
        merged(a, b, order) == merged(a.drop_last(), b, order).push(a.last()),
{
    if b.len() == 0 {
        assert(merged(a.drop_last(), b, order) == a.drop_last());
        assert(a.drop_last().push(a.last()) =~= a);
    }
}

/// It ends with the last event of the second otherwise.
proof fn lemma_merged_ends_right(a: Seq<EventModel>, b: Seq<EventModel>, order: OrderModel)
    requires
        b.len() > 0,
        a.len() == 0 || !before(order, b.last(), a.last()),
    ensures
        merged(a, b, order) == merged(a, b.drop_last(), order).push(b.last()),
{
    if a.len() == 0 {
        assert(merged(a, b.drop_last(), order) == b.drop_last());
        assert(b.drop_last().push(b.last()) =~= b);
    }
}

/// What was taken from the end of a run, in the order of taking, is the end
/// of the run backwards.
proof fn lemma_taken_from_end(
    whole: Seq<EventModel>,
    rest: Seq<EventModel>,
    taken: Seq<EventModel>,
    e: EventModel,
)
    requires
        whole == rest.push(e) + taken.reverse(),
    ensures
        whole == rest + taken.push(e).reverse(),
{
    assert(taken.push(e).reverse() =~= seq![e] + taken.reverse());
    assert(rest.push(e) + taken.reverse() =~= rest + (seq![e] + taken.reverse()));
}

/// Two sorted runs as one.
#[verifier::rlimit(40)]
fn merge_runs(a: &Vec<Arc<Event>>, b: &Vec<Arc<Event>>, order: &Order) -> (out: Vec<Arc<Event>>)
    ensures
        event_models(out@) == merged(event_models(a@), event_models(b@), order@),
{
    let ghost ma = event_models(a@);
    let ghost mb = event_models(b@);
    let ghost whole = merged(ma, mb, order@);
    let mut rev: Vec<Arc<Event>> = Vec::new();
    let mut i: usize = a.len();
    let mut j: usize = b.len();
    proof {
        assert(ma.take(i as int) =~= ma);
        assert(mb.take(j as int) =~= mb);
        assert(event_models(rev@).reverse() =~= Seq::<EventModel>::empty());
        assert(whole + Seq::<EventModel>::empty() =~= whole);
    }
    while i > 0 || j > 0
        invariant
            i <= a.len(),
            j <= b.len(),
            ma == event_models(a@),
            mb == event_models(b@),
            whole == merged(ma.take(i as int), mb.take(j as int), order@) + event_models(
                rev@,
            ).reverse(),
        decreases i + j,
    {
        let from_a = j == 0 || (i > 0 && order.puts_before(&b[j - 1], &a[i - 1]));
        let ghost taken = event_models(rev@);
        let ghost left = ma.take(i as int);
        let ghost right = mb.take(j as int);
        if from_a {
            let e = share(&a[i - 1]);
            proof {
                assert(left.last() == e@);
                assert(left.drop_last() =~= ma.take(i - 1));
                if j > 0 {
                    assert(right.last() == b@[j - 1]@);
                }
                lemma_merged_ends_left(left, right, order@);
                lemma_taken_from_end(whole, merged(ma.take(i - 1), right, order@), taken, e@);
                lemma_event_models_push(rev@, e);
            }
            rev.push(e);
            i -= 1;
        } else {
            let e = share(&b[j - 1]);
            proof {
                assert(right.last() == e@);
                assert(right.drop_last() =~= mb.take(j - 1));
                if i > 0 {
                    assert(left.last() == a@[i - 1]@);
                }
                lemma_merged_ends_right(left, right, order@);
                lemma_taken_from_end(whole, merged(left, mb.take(j - 1), order@), taken, e@);
                lemma_event_models_push(rev@, e);
            }
            rev.push(e);
            j -= 1;
        }
    }
    let ghost r = event_models(rev@);
    proof {
        assert(ma.take(0) =~= Seq::<EventModel>::empty());
        assert(merged(ma.take(0), mb.take(0), order@) =~= Seq::<EventModel>::empty());
        assert(whole =~= r.reverse());
    }
    let mut out: Vec<Arc<Event>> = Vec::new();
    let mut k: usize = rev.len();
    proof {
        assert(event_models(out@) =~= r.reverse().take(0));
    }
    while k > 0
        invariant
            k <= rev.len(),
            r == event_models(rev@),
            event_models(out@) == r.reverse().take(rev.len() - k),
        decreases k,
    {
        let e = share(&rev[k - 1]);
        proof {
            lemma_event_models_push(out@, e);
            assert(r.reverse()[rev.len() - k] == e@);
            assert(r.reverse().take(rev.len() - k + 1) =~= r.reverse().take(rev.len() - k).push(
                e@,
            ));
        }
        out.push(e);
        k -= 1;
    }
    proof {
        assert(r.reverse().take(rev.len() as int) =~= r.reverse());
    }
    out
}

/// The events `items[lo..hi]` sorted by `order`.
fn sort_range(items: &Vec<Arc<Event>>, lo: usize, hi: usize, order: &Order) -> (out: Vec<
    Arc<Event>,
>)
    requires
        lo <= hi <= items.len(),
    ensures
        event_models(out@) == sorted_by(
            event_models(items@).subrange(lo as int, hi as int),
            order@,
        ),
    decreases hi - lo,
{
    let ghost all = event_models(items@);
    if hi - lo == 0 {
        let out: Vec<Arc<Event>> = Vec::new();
        proof {
            assert(all.subrange(lo as int, hi as int) =~= Seq::<EventModel>::empty());
            assert(event_models(out@) =~= Seq::<EventModel>::empty());
        }
        out
    } else if hi - lo == 1 {
        let mut out: Vec<Arc<Event>> = Vec::new();
        out.push(share(&items[lo]));
        proof {
            let one = all.subrange(lo as int, hi as int);
            assert(one =~= seq![items@[lo as int]@]);
            assert(one.drop_last() =~= Seq::<EventModel>::empty());
            assert(sorted_by(one.drop_last(), order@) =~= Seq::<EventModel>::empty());
            assert(event_models(out@) =~= seq![items@[lo as int]@]);
            assert(insert_event(Seq::<EventModel>::empty(), one.last(), order@) =~= one);
        }
        out
    } else {
        let mid: usize = lo + (hi - lo) / 2;
        let left = sort_range(items, lo, mid, order);
        let right = sort_range(items, mid, hi, order);
        proof {
            lemma_merged_sorts(
                all.subrange(lo as int, mid as int),
                all.subrange(mid as int, hi as int),
                order@,
            );
            assert(all.subrange(lo as int, mid as int) + all.subrange(mid as int, hi as int)
                =~= all.subrange(lo as int, hi as int));
        }
        merge_runs(&left, &right, order)
    }
}

/// The events of `items` sorted by `order`; the sort is stable.
pub fn sort_events(items: &Vec<Arc<Event>>, order: &Order) -> (out: Vec<Arc<Event>>)
    ensures
        event_models(out@) == sorted_by(event_models(items@), order@),
        out.len() == items.len(),
{
    let out = sort_range(items, 0, items.len(), order);
    proof {
        let all = event_models(items@);
        assert(all.subrange(0, items.len() as int) =~= all);
        lemma_sorted_by_permutes(all, order@);
        assert(event_models(out@).len() == out.len());
    }
    out
}

} // verus!
