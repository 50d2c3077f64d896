//! Storage for an event type that has two or more subscribers.
//!
//! A list is created from the slot that held the first subscriber and the
//! subscriber that arrived second. It keeps registration order, so events
//! reach its subscribers in the order they subscribed. When unsubscribing
//! leaves one subscriber, the bus turns the list back into a
//! [`Slot`](crate::single::Slot) through [`List::into_single`].

use vstd::prelude::*;

use crate::eventbus::{Subscriber, SubscriptionId};

verus! {

/// The subscribers of one event type, in registration order.
pub struct List<C> {
    subs: Vec<Subscriber<C>>,
}

impl<C> View for List<C> {
    type V = Seq<Subscriber<C>>;

    closed spec fn view(&self) -> Seq<Subscriber<C>> {
        self.subs@
    }
}

/// Whether some subscriber in `s` has the id `id`.
pub open spec fn seq_has_id<C>(s: Seq<Subscriber<C>>, id: SubscriptionId) -> bool {
    exists|i: int| 0 <= i < s.len() && (#[trigger] s[i]).id == id
}

/// `i` is the first position in `s` whose subscriber has the id `id`.
pub open spec fn first_with_id<C>(s: Seq<Subscriber<C>>, id: SubscriptionId, i: int) -> bool {
    &&& 0 <= i < s.len()
    &&& s[i].id == id
    &&& forall|j: int| 0 <= j < i ==> (#[trigger] s[j]).id != id
}

impl<C> List<C> {
    /// A list of the two subscribers that caused a promotion: the one that was
    /// in the slot, then the one that just arrived.
    pub fn from_two(first: Subscriber<C>, second: Subscriber<C>) -> (list: Self)
        ensures
            list@ == seq![first, second],
    {
        let mut subs: Vec<Subscriber<C>> = Vec::new();
        subs.push(first);
        subs.push(second);
        Self { subs }
    }

    /// Appends a subscriber after all present ones.
    pub fn push(&mut self, sub: Subscriber<C>)
        ensures
            final(self)@ == old(self)@.push(sub),
    {
        self.subs.push(sub);
    }

    /// Number of subscribers held.
    pub fn len(&self) -> (n: usize)
        ensures
            n == self@.len(),
    {
        self.subs.len()
    }

    /// Position of the first subscriber with the given id.
    fn position(&self, id: SubscriptionId) -> (r: Option<usize>)
        ensures
            match r {
                Some(i) => first_with_id(self@, id, i as int),
                None => !seq_has_id(self@, id),
            },
    {
        let mut i: usize = 0;
        while i < self.subs.len()
            invariant
                i <= self.subs@.len(),
                forall|j: int| 0 <= j < i ==> (#[trigger] self.subs@[j]).id != id,
            decreases self.subs@.len() - i,
        {
            if self.subs[i].id == id {
                return Some(i);
            }
            i = i + 1;
        }
        None
    }

    /// Whether some subscriber has the given id.
    pub fn contains(&self, id: SubscriptionId) -> (r: bool)
        ensures
            r == seq_has_id(self@, id),
    {
        match self.position(id) {
            Some(_) => true,
            None => false,
        }
    }

    /// Removes the first subscriber with the given id, keeping the others in
    /// order. Returns whether one was removed.
    pub fn remove(&mut self, id: SubscriptionId) -> (removed: bool)
        ensures
            removed == seq_has_id(old(self)@, id),
            removed ==> exists|i: int|
                first_with_id(old(self)@, id, i) && final(self)@ == old(self)@.remove(i),
            !removed ==> final(self)@ == old(self)@,
    {
        match self.position(id) {
            Some(pos) => {
                self.subs.remove(pos);
                true
            },
            None => false,
        }
    }

    /// Gives back the lone subscriber when exactly one is left, so that the bus
    /// can store it in a slot; otherwise `None`.
    pub fn into_single(self) -> (r: Option<Subscriber<C>>)
        ensures
            r == if self@.len() == 1 {
                Some(self@[0])
            } else {
                None::<Subscriber<C>>
            },
    {
        let mut subs = self.subs;
        if subs.len() == 1 {
            subs.pop()
        } else {
            None
        }
    }

    /// Delivers an event to every subscriber, first to last.
    ///
    /// What the contract can say of the calls is that each callback's own
    /// postcondition held for this event: Verus models a call of an `Fn`
    /// closure as a relation between its arguments and its result, with no
    /// state, so how many times a callback ran is not visible to a contract.
    pub fn dispatch<A: ?Sized>(&self, event: &A)
        where
            C: Fn(&A),
        requires
            forall|i: int| 0 <= i < self@.len() ==> call_requires(#[trigger] self@[i].callback, (event,)),
        ensures
            forall|i: int| 0 <= i < self@.len() ==> call_ensures(#[trigger] self@[i].callback, (event,), ()),
    {
        let mut i: usize = 0;
        while i < self.subs.len()
            invariant
                i <= self.subs@.len(),
                forall|j: int| 0 <= j < self@.len() ==> call_requires(#[trigger] self@[j].callback, (event,)),
                forall|j: int| 0 <= j < i ==> call_ensures(#[trigger] self@[j].callback, (event,), ()),
            decreases self.subs@.len() - i,
        {
            assert(call_requires(self@[i as int].callback, (event,)));
            (self.subs[i].callback)(event);
            i = i + 1;
        }
    }
}

} // verus!
