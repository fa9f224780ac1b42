//! The operations of a plan that take two runs of events: `merge`,
//! `intersection` and `difference`. Events are told apart by their key.

use std::sync::Arc;
use vstd::prelude::*;
use crate::event::{event_models, lemma_event_models_push, share, Event, EventModel};
use crate::json::JsonModel;
use crate::order::{lemma_sorted_by_permutes, sort_events, sorted_by, Order, OrderModel};
use crate::select::{lemma_masked_is_filter, pick};
use crate::text::{nat_text, str_eq, u64_to_text};

verus! {

/// The key that tells events apart: `id` and the identifier in the index
/// record where that is a string that is not empty, else `seq` and the
/// sequence number in base ten.
pub open spec fn dedupe_key_of(ev: EventModel) -> (Seq<char>, Seq<char>) {
    match ev.index.get("id"@) {
        Some(JsonModel::Str(s)) => if s.len() > 0 {
            ("id"@, s)
        } else {
            ("seq"@, nat_text(ev.seq as nat))
        },
        _ => ("seq"@, nat_text(ev.seq as nat)),
    }
}

/// Some event of `s` has the key `k`.
pub open spec fn has_key(s: Seq<EventModel>, k: (Seq<char>, Seq<char>)) -> bool {
    exists|i: int| 0 <= i < s.len() && dedupe_key_of(#[trigger] s[i]) == k
}

/// `s` without the events whose key an earlier event of `s` has.
pub open spec fn dedupe(s: Seq<EventModel>) -> Seq<EventModel>
    decreases s.len(),
{
    if s.len() == 0 {
        s
    } else {
        let d = dedupe(s.drop_last());
        if has_key(d, dedupe_key_of(s.last())) {
            d
        } else {
            d.push(s.last())
        }
    }
}

/// The events of `left` whose key some event of `right` has.
pub open spec fn shared(left: Seq<EventModel>, right: Seq<EventModel>) -> Seq<EventModel> {
    left.filter(|e: EventModel| has_key(right, dedupe_key_of(e)))
}

/// The events of `left` whose key no event of `right` has.
pub open spec fn unshared(left: Seq<EventModel>, right: Seq<EventModel>) -> Seq<EventModel> {
    left.filter(|e: EventModel| !has_key(right, dedupe_key_of(e)))
}

/// `left` followed by `right`, one event for each key, highest sequence
/// number first.
pub open spec fn merge_result(left: Seq<EventModel>, right: Seq<EventModel>) -> Seq<EventModel> {
    sorted_by(dedupe(left + right), OrderModel::SeqDescending)
}

/// The events of `left` whose key occurs in `right`, one for each key,
/// highest sequence number first.
pub open spec fn intersection_result(left: Seq<EventModel>, right: Seq<EventModel>) -> Seq<
    EventModel,
> {
    sorted_by(dedupe(shared(left, right)), OrderModel::SeqDescending)
}

/// The events of `left` whose key does not occur in `right`, one for each
/// key, highest sequence number first.
pub open spec fn difference_result(left: Seq<EventModel>, right: Seq<EventModel>) -> Seq<
    EventModel,
> {
    sorted_by(dedupe(unshared(left, right)), OrderModel::SeqDescending)
}

/// What a binary operation makes of two runs; `None` for an operation that
/// is not known.
pub open spec fn binary_result(left: Seq<EventModel>, right: Seq<EventModel>, op: Seq<char>)
    -> Option<Seq<EventModel>> {
    if op == "merge"@ {
        Some(merge_result(left, right))
    } else if op == "intersection"@ {
        Some(intersection_result(left, right))
    } else if op == "difference"@ {
        Some(difference_result(left, right))
    } else {
        None
    }
}

/// Removing repeated keys keeps only events of the run, and keeps every key.
pub proof fn lemma_dedupe(s: Seq<EventModel>)
    ensures
        forall|i: int| 0 <= i < dedupe(s).len() ==> s.contains(#[trigger] dedupe(s)[i]),
        forall|k: (Seq<char>, Seq<char>)| has_key(dedupe(s), k) == has_key(s, k),
    decreases s.len(),
{
    if s.len() > 0 {
        let t = s.drop_last();
        let d = dedupe(t);
        let last = s.last();
        lemma_dedupe(t);
        assert forall|i: int| 0 <= i < dedupe(s).len() implies s.contains(
            #[trigger] dedupe(s)[i],
        ) by {
            if i < d.len() {
                assert(t.contains(d[i]));
                let j = choose|j: int| 0 <= j < t.len() && t[j] == d[i];
                assert(s[j] == d[i]);
            } else {
                assert(dedupe(s)[i] == s[s.len() - 1]);
            }
        }
        assert forall|k: (Seq<char>, Seq<char>)| has_key(dedupe(s), k) == has_key(s, k) by {
            if has_key(dedupe(s), k) {
                let i = choose|i: int|
                    0 <= i < dedupe(s).len() && dedupe_key_of(#[trigger] dedupe(s)[i]) == k;
                assert(s.contains(dedupe(s)[i]));
                let j = choose|j: int| 0 <= j < s.len() && s[j] == dedupe(s)[i];
                assert(dedupe_key_of(s[j]) == k);
            }
            if has_key(s, k) {
                let j = choose|j: int| 0 <= j < s.len() && dedupe_key_of(#[trigger] s[j]) == k;
                if j < t.len() {
                    assert(t[j] == s[j]);
                    assert(has_key(t, k));
                    assert(has_key(d, k));
                    let i = choose|i: int| 0 <= i < d.len() && dedupe_key_of(#[trigger] d[i]) == k;
                    assert(dedupe(s)[i] == d[i]);
                } else {
                    if has_key(d, dedupe_key_of(last)) {
                        assert(has_key(dedupe(s), k));
                    } else {
                        assert(dedupe(s)[d.len() as int] == last);
                    }
                }
            }
        }
    }
}

/// Events whose keys are all there already add nothing.
proof fn lemma_dedupe_absorbs(x: Seq<EventModel>, y: Seq<EventModel>)
    requires
        forall|i: int| 0 <= i < y.len() ==> has_key(x, dedupe_key_of(#[trigger] y[i])),
    ensures
        dedupe(x + y) == dedupe(x),
    decreases y.len(),
{
    if y.len() == 0 {
        assert(x + y =~= x);
    } else {
        let t = y.drop_last();
        assert forall|i: int| 0 <= i < t.len() implies has_key(
            x,
            dedupe_key_of(#[trigger] t[i]),
        ) by {
            assert(t[i] == y[i]);
        }
        lemma_dedupe_absorbs(x, t);
        assert((x + y).drop_last() =~= x + t);
        assert((x + y).last() == y.last());
        lemma_dedupe(x);
        assert(has_key(x, dedupe_key_of(y[y.len() - 1])));
    }
}

/// Merging a run with itself gives the run with one event for each key.
pub proof fn lemma_merge_self(x: Seq<EventModel>)
    ensures
        merge_result(x, x) == sorted_by(dedupe(x), OrderModel::SeqDescending),
{
    assert forall|i: int| 0 <= i < x.len() implies has_key(x, dedupe_key_of(#[trigger] x[i])) by {}
    lemma_dedupe_absorbs(x, x);
}

proof fn lemma_sorted_contains(s: Seq<EventModel>, order: OrderModel, e: EventModel)
    ensures
        sorted_by(s, order).contains(e) == s.contains(e),
{
    broadcast use vstd::seq_lib::to_multiset_contains;

    lemma_sorted_by_permutes(s, order);
    assert(sorted_by(s, order).to_multiset().count(e) == s.to_multiset().count(e));
}

/// An event of an intersection is an event of the left run, and some event
/// of the right run has its key.
pub proof fn lemma_intersection_within(x: Seq<EventModel>, y: Seq<EventModel>, e: EventModel)
    requires
        intersection_result(x, y).contains(e),
    ensures
        x.contains(e),
        has_key(y, dedupe_key_of(e)),
{
    broadcast use Seq::lemma_filter_contains_rev;

    let pred = |e: EventModel| has_key(y, dedupe_key_of(e));
    let f = x.filter(pred);
    lemma_sorted_contains(dedupe(f), OrderModel::SeqDescending, e);
    lemma_dedupe(f);
    let i = choose|i: int| 0 <= i < dedupe(f).len() && dedupe(f)[i] == e;
    assert(f.contains(dedupe(f)[i]));
    assert(pred(e));
}

/// No event is in both the difference and the intersection of two runs.
pub proof fn lemma_difference_apart(x: Seq<EventModel>, y: Seq<EventModel>, e: EventModel)
    ensures
        !(difference_result(x, y).contains(e) && intersection_result(x, y).contains(e)),
{
    broadcast use Seq::lemma_filter_contains_rev;

    if difference_result(x, y).contains(e) && intersection_result(x, y).contains(e) {
        lemma_intersection_within(x, y, e);
        let pred = |e: EventModel| !has_key(y, dedupe_key_of(e));
        let f = x.filter(pred);
        lemma_sorted_contains(dedupe(f), OrderModel::SeqDescending, e);
        lemma_dedupe(f);
        let i = choose|i: int| 0 <= i < dedupe(f).len() && dedupe(f)[i] == e;
        assert(f.contains(dedupe(f)[i]));
        assert(pred(e));
    }
}

/// The key that tells `ev` apart from other events.
pub fn dedupe_key(ev: &Event) -> (k: (String, String))
    ensures
        (k.0@, k.1@) == dedupe_key_of(ev@),
{
    match ev.index.get("id") {
        Some(v) => match v.as_text() {
            Some(s) => (String::from_str("id"), String::from_str(s)),
            None => (String::from_str("seq"), u64_to_text(ev.seq)),
        },
        None => (String::from_str("seq"), u64_to_text(ev.seq)),
    }
}

fn keys_of(items: &Vec<Arc<Event>>) -> (keys: Vec<(String, String)>)
    ensures
        keys.len() == items.len(),
        forall|i: int|
            0 <= i < items.len() ==> ((#[trigger] keys@[i]).0@, keys@[i].1@) == dedupe_key_of(
                items@[i]@,
            ),
{
    let mut keys: Vec<(String, String)> = Vec::new();
    let mut i: usize = 0;
    while i < items.len()
        invariant
            i <= items.len(),
            keys.len() == i,
            forall|j: int|
                0 <= j < i ==> ((#[trigger] keys@[j]).0@, keys@[j].1@) == dedupe_key_of(
                    items@[j]@,
                ),
        decreases items.len() - i,
    {
        keys.push(dedupe_key(&items[i]));
        i += 1;
    }
    keys
}

fn key_in(keys: &Vec<(String, String)>, k: &(String, String), Ghost(s): Ghost<Seq<EventModel>>)
    -> (r: bool)
    requires
        keys.len() == s.len(),
        forall|i: int|
            0 <= i < s.len() ==> ((#[trigger] keys@[i]).0@, keys@[i].1@) == dedupe_key_of(s[i]),
    ensures
        r == has_key(s, (k.0@, k.1@)),
{
    let mut i: usize = 0;
    while i < keys.len()
        invariant
            i <= keys.len(),
            keys.len() == s.len(),
            forall|j: int|
                0 <= j < s.len() ==> ((#[trigger] keys@[j]).0@, keys@[j].1@) == dedupe_key_of(
                    s[j],
                ),
            forall|j: int| 0 <= j < i ==> dedupe_key_of(#[trigger] s[j]) != (k.0@, k.1@),
        decreases keys.len() - i,
    {
        if str_eq(keys[i].0.as_str(), k.0.as_str()) && str_eq(keys[i].1.as_str(), k.1.as_str()) {
            assert(dedupe_key_of(s[i as int]) == (k.0@, k.1@)) by {
                assert(((keys@[i as int]).0@, keys@[i as int].1@) == dedupe_key_of(s[i as int]));
            }
            return true;
        }
        proof {
            assert(((keys@[i as int]).0@, keys@[i as int].1@) == dedupe_key_of(s[i as int]));
        }
        i += 1;
    }
    false
}

fn dedupe_events(items: &Vec<Arc<Event>>) -> (out: Vec<Arc<Event>>)
    ensures
        event_models(out@) == dedupe(event_models(items@)),
{
    let ghost all = event_models(items@);
    let mut out: Vec<Arc<Event>> = Vec::new();
    let mut seen: Vec<(String, String)> = Vec::new();
    let mut i: usize = 0;
    proof {
        assert(all.take(0) =~= Seq::<EventModel>::empty());
        assert(event_models(out@) =~= Seq::<EventModel>::empty());
    }
    while i < items.len()
        invariant
            i <= items.len(),
            all == event_models(items@),
            event_models(out@) == dedupe(all.take(i as int)),
            seen.len() == out.len(),
            forall|j: int|
                0 <= j < out.len() ==> ((#[trigger] seen@[j]).0@, seen@[j].1@) == dedupe_key_of(
                    event_models(out@)[j],
                ),
        decreases items.len() - i,
    {
        proof {
            assert(all.take(i + 1).drop_last() =~= all.take(i as int));
            assert(all.take(i + 1).last() == items@[i as int]@);
        }
        let k = dedupe_key(&items[i]);
        if !key_in(&seen, &k, Ghost(event_models(out@))) {
            let ghost prev = out@;
            out.push(share(&items[i]));
            seen.push(k);
            proof {
                lemma_event_models_push(prev, items@[i as int]);
                assert forall|j: int| 0 <= j < out.len() implies ((#[trigger] seen@[j]).0@, seen@[j].1@)
                    == dedupe_key_of(event_models(out@)[j]) by {
                    if j < prev.len() {
                        assert(event_models(out@)[j] == event_models(prev)[j]);
                    }
                }
            }
        }
        i += 1;
    }
    proof {
        assert(all.take(items.len() as int) =~= all);
    }
    out
}

fn keep_shared(left: &Vec<Arc<Event>>, right: &Vec<Arc<Event>>, want: bool) -> (out: Vec<
    Arc<Event>,
>)
    ensures
        event_models(out@) == if want {
            shared(event_models(left@), event_models(right@))
        } else {
            unshared(event_models(left@), event_models(right@))
        },
{
    let right_keys = keys_of(right);
    let ghost r = event_models(right@);
    let mut keep: Vec<bool> = Vec::new();
    let mut i: usize = 0;
    while i < left.len()
        invariant
            i <= left.len(),
            keep.len() == i,
            r == event_models(right@),
            right_keys.len() == r.len(),
            forall|j: int|
                0 <= j < r.len() ==> ((#[trigger] right_keys@[j]).0@, right_keys@[j].1@)
                    == dedupe_key_of(r[j]),
            forall|j: int|
                0 <= j < i ==> keep@[j] == (has_key(r, dedupe_key_of(left@[j]@)) == want),
        decreases left.len() - i,
    {
        let k = dedupe_key(&left[i]);
        let there = key_in(&right_keys, &k, Ghost(r));
        keep.push(there == want);
        i += 1;
    }
    let out = pick(left, &keep);
    proof {
        if want {
            lemma_masked_is_filter(
                event_models(left@),
                keep@,
                |e: EventModel| has_key(r, dedupe_key_of(e)),
            );
        } else {
            lemma_masked_is_filter(
                event_models(left@),
                keep@,
                |e: EventModel| !has_key(r, dedupe_key_of(e)),
            );
        }
    }
    out
}

/// Applies the binary operation `op` to `left` and `right`. `None` for an
/// operation that is not known.
pub fn apply_binary_op(left: Vec<Arc<Event>>, right: Vec<Arc<Event>>, op: &str) -> (r: Option<
    Vec<Arc<Event>>,
>)
    ensures
        match r {
            Some(out) => binary_result(event_models(left@), event_models(right@), op@) == Some(
                event_models(out@),
            ),
            None => binary_result(event_models(left@), event_models(right@), op@) is None,
        },
{
    if str_eq(op, "merge") {
        let mut all = left;
        let mut rest = right;
        let ghost l = all@;
        let ghost r = rest@;
        all.append(&mut rest);
        proof {
            assert(event_models(l + r) =~= event_models(l) + event_models(r));
        }
        let kept = dedupe_events(&all);
        Some(sort_events(&kept, &Order::SeqDescending))
    } else if str_eq(op, "intersection") {
        let both = keep_shared(&left, &right, true);
        let kept = dedupe_events(&both);
        Some(sort_events(&kept, &Order::SeqDescending))
    } else if str_eq(op, "difference") {
        let only = keep_shared(&left, &right, false);
        let kept = dedupe_events(&only);
        Some(sort_events(&kept, &Order::SeqDescending))
    } else {
        None
    }
}

} // verus!
