//! The bus: subscriptions grouped by event type.
//!
//! The model of a bus is a map from event type to the sequence of its
//! subscribers in registration order, together with the counter from which
//! subscription ids are drawn. Every operation is specified over that model.

use vstd::prelude::*;

use std::any::TypeId;

use crate::many::{List, seq_has_id, first_with_id};
use crate::single::Slot;

verus! {

#[verifier::external_type_specification]
#[verifier::external_body]
pub struct ExTypeId(TypeId);

/// Compares two event-type keys with `<TypeId as PartialEq>::eq`.
///
/// The contract claims that two `TypeId`s compare equal exactly when they are
/// the same value, which is what std documents for this globally unique
/// identifier of a type.
#[verifier::external_body]
fn same_event_type(a: &TypeId, b: &TypeId) -> (r: bool)
    ensures
        r == (*a == *b),
{
    *a == *b
}

/// Handle returned by [`EventBus::on`]. Pass it to [`EventBus::off`] to unsubscribe.
#[derive(Clone, Copy, PartialEq, Eq, Hash, Debug, Structural)]
pub struct SubscriptionId(pub u64);

/// One subscription: its id and the callback that receives events.
pub struct Subscriber<C> {
    pub id: SubscriptionId,
    pub callback: C,
}

/// The model of a bus: for each event type with at least one subscriber, its
/// subscribers in registration order.
pub type Contents<C> = Map<TypeId, Seq<Subscriber<C>>>;

/// The subscribers of `key`, empty when it has none.
pub open spec fn bucket_of<C>(m: Contents<C>, key: TypeId) -> Seq<Subscriber<C>> {
    if m.contains_key(key) {
        m[key]
    } else {
        Seq::empty()
    }
}

/// The model after subscribing `sub` to `key`: it comes after all present
/// subscribers of that type.
pub open spec fn with_subscriber<C>(m: Contents<C>, key: TypeId, sub: Subscriber<C>) -> Contents<C> {
    m.insert(key, bucket_of(m, key).push(sub))
}

/// Subscription `id` sits at position `i` of the subscribers of `key`.
pub open spec fn holds_at<C>(m: Contents<C>, id: SubscriptionId, key: TypeId, i: int) -> bool {
    &&& m.contains_key(key)
    &&& 0 <= i < m[key].len()
    &&& m[key][i].id == id
}

/// Some event type has a subscription with this id.
pub open spec fn holds_id<C>(m: Contents<C>, id: SubscriptionId) -> bool {
    exists|key: TypeId, i: int| #[trigger] holds_at(m, id, key, i)
}

/// The model after removing subscription `id`. An event type left without
/// subscribers disappears from the map. Unchanged when `id` is not held.
pub open spec fn without_id<C>(m: Contents<C>, id: SubscriptionId) -> Contents<C> {
    if holds_id(m, id) {
        let (key, i) = choose|key: TypeId, i: int| #[trigger] holds_at(m, id, key, i);
        let rest = m[key].remove(i);
        if rest.len() == 0 {
            m.remove(key)
        } else {
            m.insert(key, rest)
        }
    } else {
        m
    }
}

/// What every reachable bus satisfies, with `next` the next id to issue:
/// no event type is present without subscribers, every issued id is below
/// `next`, each type's subscribers are in increasing id order (the order
/// they subscribed in), and no id belongs to two event types.
pub open spec fn valid_contents<C>(m: Contents<C>, next: u64) -> bool {
    &&& m.dom().finite()
    &&& forall|key: TypeId| #[trigger] m.contains_key(key) ==> m[key].len() > 0
    &&& forall|key: TypeId, i: int|
        m.contains_key(key) && 0 <= i < m[key].len() ==> (#[trigger] m[key][i]).id.0 < next
    &&& forall|key: TypeId, i: int, j: int|
        m.contains_key(key) && 0 <= i < j < m[key].len() ==> (#[trigger] m[key][i]).id.0 < (
        #[trigger] m[key][j]).id.0
    &&& forall|k1: TypeId, k2: TypeId, i: int, j: int|
        k1 != k2 && m.contains_key(k1) && m.contains_key(k2) && 0 <= i < m[k1].len() && 0 <= j
            < m[k2].len() ==> (#[trigger] m[k1][i]).id != (#[trigger] m[k2][j]).id
}

/// Per-type storage, shaped by subscriber count: one subscriber inline, two or
/// more in a list.
enum Bucket<C> {
    Single(Slot<C>),
    Many(List<C>),
}

impl<C> Bucket<C> {
    spec fn view(&self) -> Seq<Subscriber<C>> {
        match self {
            Bucket::Single(slot) => seq![slot@],
            Bucket::Many(list) => list@,
        }
    }

    spec fn wf(&self) -> bool {
        match self {
            Bucket::Single(_) => true,
            Bucket::Many(list) => list@.len() >= 2,
        }
    }

    fn holds(&self, id: SubscriptionId) -> (r: bool)
        ensures
            r == seq_has_id(self.view(), id),
    {
        match self {
            Bucket::Single(slot) => {
                let r = slot.matches(id);
                assert(self.view()[0] == slot@);
                r
            },
            Bucket::Many(list) => list.contains(id),
        }
    }
}

struct Entry<C> {
    key: TypeId,
    bucket: Bucket<C>,
}

/// A typed, synchronous event bus. `C` is the type of the callbacks.
pub struct EventBus<C> {
    entries: Vec<Entry<C>>,
    next_id: u64,
    contents: Ghost<Contents<C>>,
}

impl<C> View for EventBus<C> {
    type V = Contents<C>;

    closed spec fn view(&self) -> Contents<C> {
        self.contents@
    }
}

impl<C> EventBus<C> {
    /// The id that the next subscription will get.
    pub closed spec fn id_counter(&self) -> u64 {
        self.next_id
    }

    /// The concrete storage stands for the model and the model is valid.
    pub closed spec fn wf(&self) -> bool {
        let es = self.entries@;
        let m = self.contents@;
        &&& forall|i: int, j: int|
            0 <= i < j < es.len() ==> (#[trigger] es[i]).key != (#[trigger] es[j]).key
        &&& forall|i: int|
            0 <= i < es.len() ==> {
                &&& (#[trigger] es[i]).bucket.wf()
                &&& m.contains_key(es[i].key)
                &&& m[es[i].key] == es[i].bucket.view()
            }
        &&& forall|key: TypeId|
            #[trigger] m.contains_key(key) ==> exists|i: int| 0 <= i < es.len() && (#[trigger] es[i]).key == key
        &&& m.dom().len() == es.len()
        &&& valid_contents(m, self.next_id)
    }

    /// The model of a well-formed bus is valid for its id counter.
    pub proof fn lemma_model_valid(&self)
        requires
            self.wf(),
        ensures
            valid_contents(self@, self.id_counter()),
    {
    }

    /// Position of the entry for `key`, if it has one.
    fn find(&self, key: TypeId) -> (r: Option<usize>)
        requires
            self.wf(),
        ensures
            match r {
                Some(i) => i < self.entries@.len() && self.entries@[i as int].key == key,
                None => !self@.contains_key(key),
            },
    {
        let mut i: usize = 0;
        while i < self.entries.len()
            invariant
                i <= self.entries@.len(),
                forall|j: int| 0 <= j < i ==> (#[trigger] self.entries@[j]).key != key,
            decreases self.entries@.len() - i,
        {
            if same_event_type(&self.entries[i].key, &key) {
                return Some(i);
            }
            i = i + 1;
        }
        None
    }

    /// An empty bus.
    pub fn new() -> (bus: Self)
        ensures
            bus.wf(),
            bus@ == Map::<TypeId, Seq<Subscriber<C>>>::empty(),
            bus.id_counter() == 0,
    {
        Self { entries: Vec::new(), next_id: 0, contents: Ghost(Map::empty()) }
    }
}

/// A subscription is held in at most one place of a valid model.
pub proof fn lemma_holder_unique<C>(
    m: Contents<C>,
    next: u64,
    id: SubscriptionId,
    k1: TypeId,
    i1: int,
    k2: TypeId,
    i2: int,
)
    requires
        valid_contents(m, next),
        holds_at(m, id, k1, i1),
        holds_at(m, id, k2, i2),
    ensures
        k1 == k2,
        i1 == i2,
{
    if k1 != k2 {
    } else if i1 < i2 {
    } else if i2 < i1 {
    }
}

/// Where a held subscription sits is what `without_id` removes.
pub proof fn lemma_without_id_at<C>(m: Contents<C>, next: u64, id: SubscriptionId, key: TypeId, i: int)
    requires
        valid_contents(m, next),
        holds_at(m, id, key, i),
    ensures
        holds_id(m, id),
        without_id(m, id) == (if m[key].remove(i).len() == 0 {
            m.remove(key)
        } else {
            m.insert(key, m[key].remove(i))
        }),
{
    let (k2, i2) = choose|k2: TypeId, i2: int| #[trigger] holds_at(m, id, k2, i2);
    lemma_holder_unique(m, next, id, key, i, k2, i2);
}

impl<C> EventBus<C> {
    /// Subscribes `callback` to events of type `key`.
    ///
    /// Returns a fresh [`SubscriptionId`] that can be passed to [`off`](Self::off).
    /// The new subscriber comes after every present subscriber of that type.
    pub fn on(&mut self, key: TypeId, callback: C) -> (id: SubscriptionId)
        requires
            old(self).wf(),
            old(self).id_counter() < u64::MAX,
        ensures
            final(self).wf(),
            id == SubscriptionId(old(self).id_counter()),
            final(self).id_counter() == old(self).id_counter() + 1,
            final(self)@ == with_subscriber(old(self)@, key, (Subscriber { id, callback })),
    {
        let ghost old_m = self.contents@;
        let ghost old_es = self.entries@;
        let id = SubscriptionId(self.next_id);
        self.next_id = self.next_id + 1;
        let sub = Subscriber { id, callback };
        let ghost g = sub;
        match self.find(key) {
            None => {
                self.entries.push(Entry { key, bucket: Bucket::Single(Slot::new(sub)) });
                self.contents = Ghost(old_m.insert(key, seq![g]));
                proof {
                    let es = self.entries@;
                    let m = self.contents@;
                    assert forall|k: TypeId| #[trigger] m.contains_key(k) implies exists|i: int|
                        0 <= i < es.len() && (#[trigger] es[i]).key == k by {
                        if k != key {
                            let j = choose|j: int| 0 <= j < old_es.len() && (#[trigger] old_es[j]).key == k;
                            assert(es[j].key == k);
                        }
                    }
                    assert(es[es.len() - 1].bucket.view() =~= seq![g]);
                }
            },
            Some(i) => {
                let entry = self.entries.remove(i);
                let bucket = match entry.bucket {
                    Bucket::Single(slot) => Bucket::Many(List::from_two(slot.into_inner(), sub)),
                    Bucket::Many(mut list) => {
                        list.push(sub);
                        Bucket::Many(list)
                    },
                };
                self.entries.insert(i, Entry { key, bucket });
                self.contents = Ghost(old_m.insert(key, old_m[key].push(g)));
                proof {
                    let es = self.entries@;
                    let m = self.contents@;
                    assert(es[i as int].bucket.view() =~= old_m[key].push(g));
                    assert forall|k: TypeId| #[trigger] m.contains_key(k) implies exists|j: int|
                        0 <= j < es.len() && (#[trigger] es[j]).key == k by {
                        let j = choose|j: int| 0 <= j < old_es.len() && (#[trigger] old_es[j]).key == k;
                        assert(es[j].key == k);
                    }
                }
            },
        }
        id
    }
}

impl<C> EventBus<C> {
    /// Removes a subscription. Returns `true` exactly when it was found.
    ///
    /// The other subscribers of its event type keep their order; an event type
    /// left without subscribers is dropped from the bus.
    pub fn off(&mut self, id: SubscriptionId) -> (found: bool)
        requires
            old(self).wf(),
        ensures
            final(self).wf(),
            found == holds_id(old(self)@, id),
            final(self)@ == without_id(old(self)@, id),
            final(self).id_counter() == old(self).id_counter(),
    {
        let ghost old_m = self.contents@;
        let ghost old_es = self.entries@;
        let ghost next = self.next_id;
        let mut i: usize = 0;
        while i < self.entries.len()
            invariant
                self.wf(),
                self.entries@ == old_es,
                self.contents@ == old_m,
                i <= old_es.len(),
                forall|j: int| 0 <= j < i ==> !seq_has_id((#[trigger] old_es[j]).bucket.view(), id),
            ensures
                i < old_es.len() ==> seq_has_id(old_es[i as int].bucket.view(), id),
            decreases old_es.len() - i,
        {
            if self.entries[i].bucket.holds(id) {
                break;
            }
            i = i + 1;
        }
        if i == self.entries.len() {
            proof {
                if holds_id(old_m, id) {
                    let (k, p) = choose|k: TypeId, p: int| #[trigger] holds_at(old_m, id, k, p);
                    let j = choose|j: int| 0 <= j < old_es.len() && (#[trigger] old_es[j]).key == k;
                    assert(seq_has_id(old_es[j].bucket.view(), id));
                }
            }
            return false;
        }
        let ghost key = old_es[i as int].key;
        let entry = self.entries.remove(i);
        let entry_key = entry.key;
        match entry.bucket {
            Bucket::Single(slot) => {
                self.contents = Ghost(old_m.remove(key));
                proof {
                    lemma_without_id_at(old_m, next, id, key, 0);
                    let es = self.entries@;
                    let m = self.contents@;
                    assert forall|k: TypeId| #[trigger] m.contains_key(k) implies exists|j: int|
                        0 <= j < es.len() && (#[trigger] es[j]).key == k by {
                        let j = choose|j: int| 0 <= j < old_es.len() && (#[trigger] old_es[j]).key == k;
                        if j < i {
                            assert(es[j].key == k);
                        } else {
                            assert(es[j - 1].key == k);
                        }
                    }
                }
            },
            Bucket::Many(mut list) => {
                let ghost before = list@;
                list.remove(id);
                let ghost p = choose|p: int| first_with_id(before, id, p) && list@ == before.remove(p);
                let ghost rest = list@;
                if list.len() == 1 {
                    match list.into_single() {
                        Some(sub) => {
                            self.entries.insert(i, Entry { key: entry_key, bucket: Bucket::Single(Slot::new(sub)) });
                        },
                        None => {},
                    }
                } else {
                    self.entries.insert(i, Entry { key: entry_key, bucket: Bucket::Many(list) });
                }
                self.contents = Ghost(old_m.insert(key, rest));
                proof {
                    lemma_without_id_at(old_m, next, id, key, p);
                    let es = self.entries@;
                    let m = self.contents@;
                    assert(es[i as int].bucket.view() =~= rest);
                    assert forall|k: TypeId| #[trigger] m.contains_key(k) implies exists|j: int|
                        0 <= j < es.len() && (#[trigger] es[j]).key == k by {
                        let j = choose|j: int| 0 <= j < old_es.len() && (#[trigger] old_es[j]).key == k;
                        assert(es[j].key == k);
                    }
                }
            },
        }
        true
    }
}

impl<C> EventBus<C> {
    /// Number of event types with at least one subscriber.
    pub fn type_count(&self) -> (n: usize)
        requires
            self.wf(),
        ensures
            n == self@.dom().len(),
    {
        self.entries.len()
    }

    /// Number of subscribers for the event type `key`.
    pub fn subscriber_count(&self, key: TypeId) -> (n: usize)
        requires
            self.wf(),
        ensures
            n == bucket_of(self@, key).len(),
    {
        match self.find(key) {
            None => 0,
            Some(i) => match &self.entries[i].bucket {
                Bucket::Single(_) => 1,
                Bucket::Many(list) => list.len(),
            },
        }
    }

    /// The id that the next subscription will get.
    pub fn next_subscription_id(&self) -> (next: u64)
        ensures
            next == self.id_counter(),
    {
        self.next_id
    }

    /// Delivers `event` to every subscriber of the event type `key`, in
    /// registration order. With no subscribers for that type it does nothing.
    ///
    /// What the contract can say of the calls is that each callback's own
    /// postcondition held for this event: Verus models a call of an `Fn`
    /// closure as a relation between its arguments and its result, with no
    /// state, so how many times a callback ran is not visible to a contract.
    pub fn emit<A: ?Sized>(&self, key: TypeId, event: &A)
        where
            C: Fn(&A),
        requires
            self.wf(),
            forall|i: int|
                0 <= i < bucket_of(self@, key).len() ==> call_requires(
                    #[trigger] bucket_of(self@, key)[i].callback,
                    (event,),
                ),
        ensures
            forall|i: int|
                0 <= i < bucket_of(self@, key).len() ==> call_ensures(
                    #[trigger] bucket_of(self@, key)[i].callback,
                    (event,),
                    (),
                ),
    {
        match self.find(key) {
            None => {},
            Some(i) => {
                let bucket = &self.entries[i].bucket;
                proof {
                    assert(bucket.view() == bucket_of(self@, key));
                }
                match bucket {
                    Bucket::Single(slot) => {
                        assert(bucket_of(self@, key)[0] == slot@);
                        slot.dispatch(event);
                    },
                    Bucket::Many(list) => list.dispatch(event),
                }
            },
        }
    }
}

impl<C> Default for EventBus<C> {
    fn default() -> (bus: Self)
        ensures
            bus.wf(),
            bus@ == Map::<TypeId, Seq<Subscriber<C>>>::empty(),
            bus.id_counter() == 0,
    {
        Self::new()
    }
}

} // verus!
