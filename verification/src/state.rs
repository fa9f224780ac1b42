//! The registry of stores: six of them, with fixed names and with limits
//! derived from one pair of numbers.

use vstd::prelude::*;
use crate::store::{Store, StoreModel};
use crate::text::str_eq;

verus! {

/// A store and the name under which requests address it.
pub struct NamedStore {
    pub name: String,
    pub store: Store,
}

/// All stores of one message plane.
pub struct MpState {
    pub maxlen: usize,
    pub topic_max: usize,
    pub stores: Vec<NamedStore>,
}

/// The mathematical value of an [`MpState`].
pub ghost struct StateModel {
    pub maxlen: usize,
    pub topic_max: usize,
    pub stores: Seq<(Seq<char>, StoreModel)>,
}

impl View for NamedStore {
    type V = (Seq<char>, StoreModel);

    open spec fn view(&self) -> (Seq<char>, StoreModel) {
        (self.name@, self.store@)
    }
}

impl View for MpState {
    type V = StateModel;

    open spec fn view(&self) -> StateModel {
        StateModel {
            maxlen: self.maxlen,
            topic_max: self.topic_max,
            stores: self.stores@.map_values(|s: NamedStore| s@),
        }
    }
}

/// The names of the stores, in the order in which they are held.
pub open spec fn store_names() -> Seq<Seq<char>> {
    seq!["messages"@, "events"@, "lifecycle"@, "runs"@, "export"@, "memory"@]
}

/// The larger of `n / by` and `floor`.
pub open spec fn share_of(n: usize, by: usize, floor: usize) -> usize
    recommends
        by > 0,
{
    if by > 0 && n / by > floor {
        n / by
    } else {
        floor
    }
}

/// Most events per topic in the store at position `k`, for the base `maxlen`.
pub open spec fn profile_maxlen(maxlen: usize, k: int) -> usize {
    if k == 0 {
        maxlen
    } else if k == 1 {
        share_of(maxlen, 2, 10000)
    } else if k == 2 {
        share_of(maxlen, 20, 1000)
    } else if k == 3 {
        share_of(maxlen, 40, 500)
    } else if k == 4 {
        share_of(maxlen, 4, 5000)
    } else {
        share_of(maxlen, 10, 2000)
    }
}

/// Most topics in the store at position `k`, for the base `topic_max`.
pub open spec fn profile_topic_max(topic_max: usize, k: int) -> usize {
    if k == 0 {
        topic_max
    } else if k == 1 {
        share_of(topic_max, 2, 1000)
    } else if k == 2 {
        share_of(topic_max, 4, 500)
    } else if k == 3 {
        share_of(topic_max, 10, 200)
    } else if k == 4 {
        share_of(topic_max, 4, 500)
    } else {
        share_of(topic_max, 2, 1000)
    }
}

/// The position of the store named `name`, if there is one at or after
/// `from`.
pub open spec fn store_position(stores: Seq<(Seq<char>, StoreModel)>, name: Seq<char>, from: int)
    -> Option<int>
    decreases stores.len() - from,
{
    if from < 0 || from >= stores.len() {
        None
    } else if stores[from].0 == name {
        Some(from)
    } else {
        store_position(stores, name, from + 1)
    }
}

/// The position found for a name holds a store of that name, and no store
/// from `from` on has the name where none is found.
pub proof fn lemma_store_position(stores: Seq<(Seq<char>, StoreModel)>, name: Seq<char>, from: int)
    requires
        0 <= from,
    ensures
        match store_position(stores, name, from) {
            Some(k) => from <= k < stores.len() && stores[k].0 == name,
            None => forall|k: int| from <= k < stores.len() ==> (#[trigger] stores[k]).0 != name,
        },
    decreases stores.len() - from,
{
    if from < stores.len() && stores[from].0 != name {
        lemma_store_position(stores, name, from + 1);
    }
}

impl StateModel {
    /// Six stores under their names, each well formed and with the limits
    /// of its profile.
    pub open spec fn wf(self) -> bool {
        &&& self.stores.len() == 6
        &&& forall|k: int|
            0 <= k < 6 ==> {
                &&& (#[trigger] self.stores[k]).0 == store_names()[k]
                &&& self.stores[k].1.wf()
                &&& self.stores[k].1.maxlen == profile_maxlen(self.maxlen, k)
                &&& self.stores[k].1.topic_max == profile_topic_max(self.topic_max, k)
            }
    }

    /// The position of the store named `name`.
    pub open spec fn find(self, name: Seq<char>) -> Option<int> {
        store_position(self.stores, name, 0)
    }

    /// This state with the store at position `k` replaced by `s`.
    pub open spec fn with_store(self, k: int, s: StoreModel) -> StateModel {
        StateModel { stores: self.stores.update(k, (self.stores[k].0, s)), ..self }
    }
}

/// Replacing a store by one with the same limits that is well formed keeps
/// the state well formed and every store in its place.
pub proof fn lemma_with_store(m: StateModel, k: int, s: StoreModel, name: Seq<char>)
    requires
        m.wf(),
        0 <= k < 6,
        s.wf(),
        s.maxlen == m.stores[k].1.maxlen,
        s.topic_max == m.stores[k].1.topic_max,
    ensures
        m.with_store(k, s).wf(),
        m.with_store(k, s).find(name) == m.find(name),
{
    let r = m.with_store(k, s);
    assert forall|j: int| 0 <= j < 6 implies {
        &&& (#[trigger] r.stores[j]).0 == store_names()[j]
        &&& r.stores[j].1.wf()
        &&& r.stores[j].1.maxlen == profile_maxlen(r.maxlen, j)
        &&& r.stores[j].1.topic_max == profile_topic_max(r.topic_max, j)
    } by {
        assert(m.stores[j].0 == store_names()[j]);
        if j != k {
            assert(r.stores[j] == m.stores[j]);
        }
    }
    lemma_same_names(m.stores, r.stores, name, 0);
}

proof fn lemma_same_names(
    a: Seq<(Seq<char>, StoreModel)>,
    b: Seq<(Seq<char>, StoreModel)>,
    name: Seq<char>,
    from: int,
)
    requires
        a.len() == b.len(),
        forall|k: int| 0 <= k < a.len() ==> (#[trigger] a[k]).0 == b[k].0,
    ensures
        store_position(a, name, from) == store_position(b, name, from),
    decreases a.len() - from,
{
    if 0 <= from < a.len() {
        assert(a[from].0 == b[from].0);
        if a[from].0 != name {
            lemma_same_names(a, b, name, from + 1);
        }
    }
}

fn larger_share(n: usize, by: usize, floor: usize) -> (r: usize)
    requires
        by > 0,
    ensures
        r == share_of(n, by, floor),
{
    let q: usize = n / by;
    if q > floor {
        q
    } else {
        floor
    }
}

fn named(name: &str, maxlen: usize, topic_max: usize) -> (s: NamedStore)
    ensures
        s@.0 == name@,
        s@.1.wf(),
        s@.1.maxlen == maxlen,
        s@.1.topic_max == topic_max,
        s@.1.topics.len() == 0,
        s@.1.next_seq == 1,
{
    NamedStore { name: String::from_str(name), store: Store::new(maxlen, topic_max) }
}

impl MpState {
    /// Six empty stores: `messages` with the limits given, the others with
    /// their shares of them.
    pub fn new(maxlen: usize, topic_max: usize) -> (s: MpState)
        ensures
            s@.wf(),
            s@.maxlen == maxlen,
            s@.topic_max == topic_max,
            forall|k: int|
                0 <= k < 6 ==> (#[trigger] s@.stores[k]).1.topics.len() == 0
                    && s@.stores[k].1.next_seq == 1,
    {
        let mut stores: Vec<NamedStore> = Vec::new();
        stores.push(named("messages", maxlen, topic_max));
        stores.push(
            named("events", larger_share(maxlen, 2, 10000), larger_share(topic_max, 2, 1000)),
        );
        stores.push(
            named("lifecycle", larger_share(maxlen, 20, 1000), larger_share(topic_max, 4, 500)),
        );
        stores.push(named("runs", larger_share(maxlen, 40, 500), larger_share(topic_max, 10, 200)));
        stores.push(
            named("export", larger_share(maxlen, 4, 5000), larger_share(topic_max, 4, 500)),
        );
        stores.push(
            named("memory", larger_share(maxlen, 10, 2000), larger_share(topic_max, 2, 1000)),
        );
        MpState { maxlen, topic_max, stores }
    }

    /// The position of the store named `name`.
    pub fn store_index(&self, name: &str) -> (r: Option<usize>)
        ensures
            r == match self@.find(name@) {
                Some(k) => Some(k as usize),
                None => None,
            },
            r is Some ==> r->0 < self.stores.len() && self.stores@[r->0 as int].name@ == name@,
    {
        let mut i: usize = 0;
        while i < self.stores.len()
            invariant
                i <= self.stores.len(),
                self@.find(name@) == store_position(self@.stores, name@, i as int),
            decreases self.stores.len() - i,
        {
            assert(self@.stores[i as int] == self.stores@[i as int]@);
            if str_eq(self.stores[i].name.as_str(), name) {
                return Some(i);
            }
            i += 1;
        }
        None
    }

    /// The store named `name`.
    pub fn store(&self, name: &str) -> (r: Option<&Store>)
        ensures
            match r {
                Some(s) => self@.find(name@) is Some && s@ == self@.stores[self@.find(
                    name@,
                )->0].1,
                None => self@.find(name@) is None,
            },
    {
        match self.store_index(name) {
            Some(i) => {
                proof {
                    lemma_store_position(self@.stores, name@, 0);
                    assert(self@.stores[i as int] == self.stores@[i as int]@);
                }
                Some(&self.stores[i].store)
            },
            None => None,
        }
    }
}

} // verus!
