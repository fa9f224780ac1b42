//! Picking events out of a run by a list of verdicts.

use std::sync::Arc;
use vstd::prelude::*;
use crate::event::{event_models, lemma_event_models_push, share, Event, EventModel};

verus! {

/// The items of `s` whose place in `keep` holds `true`, in their order.
pub open spec fn masked<T>(s: Seq<T>, keep: Seq<bool>) -> Seq<T>
    recommends
        s.len() == keep.len(),
    decreases s.len(),
{
    if s.len() == 0 || keep.len() != s.len() {
        Seq::empty()
    } else {
        let rest = masked(s.drop_last(), keep.drop_last());
        if keep.last() {
            rest.push(s.last())
        } else {
            rest
        }
    }
}

/// Where `keep` holds for each item what `pred` says of it, masking by
/// `keep` is filtering by `pred`.
pub proof fn lemma_masked_is_filter<T>(s: Seq<T>, keep: Seq<bool>, pred: spec_fn(T) -> bool)
    requires
        s.len() == keep.len(),
        forall|i: int| 0 <= i < s.len() ==> keep[i] == pred(s[i]),
    ensures
        masked(s, keep) == s.filter(pred),
    decreases s.len(),
{
    reveal(Seq::filter);
    if s.len() > 0 {
        lemma_masked_is_filter(s.drop_last(), keep.drop_last(), pred);
    }
}

/// The events of `items` whose place in `keep` holds `true`.
pub fn pick(items: &Vec<Arc<Event>>, keep: &Vec<bool>) -> (out: Vec<Arc<Event>>)
    requires
        items.len() == keep.len(),
    ensures
        event_models(out@) == masked(event_models(items@), keep@),
{
    let ghost all = event_models(items@);
    let mut out: Vec<Arc<Event>> = Vec::new();
    let mut i: usize = 0;
    proof {
        assert(all.take(0) =~= Seq::<EventModel>::empty());
        assert(event_models(out@) =~= Seq::<EventModel>::empty());
    }
    while i < items.len()
        invariant
            i <= items.len(),
            items.len() == keep.len(),
            all == event_models(items@),
            event_models(out@) == masked(all.take(i as int), keep@.take(i as int)),
        decreases items.len() - i,
    {
        proof {
            assert(all.take(i + 1).drop_last() =~= all.take(i as int));
            assert(keep@.take(i + 1).drop_last() =~= keep@.take(i as int));
            assert(all.take(i + 1).last() == items@[i as int]@);
        }
        if keep[i] {
            let ghost prev = out@;
            out.push(share(&items[i]));
            proof {
                lemma_event_models_push(prev, items@[i as int]);
            }
        }
        i += 1;
    }
    proof {
        assert(all.take(items.len() as int) =~= all);
        assert(keep@.take(items.len() as int) =~= keep@);
    }
    out
}

/// The first `n` events of `items`, or all of them where there are no more.
pub fn head(items: Vec<Arc<Event>>, n: usize) -> (out: Vec<Arc<Event>>)
    ensures
        event_models(out@) == if event_models(items@).len() > n {
            event_models(items@).take(n as int)
        } else {
            event_models(items@)
        },
{
    let mut out = items;
    if out.len() > n {
        let ghost full = out@;
        out.truncate(n);
        proof {
            assert(out@ =~= full.take(n as int));
            crate::event::lemma_event_models_take(full, n as int);
        }
    }
    out
}

} // verus!
