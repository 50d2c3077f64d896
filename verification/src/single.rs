//! Storage for an event type that has exactly one subscriber.
//!
//! The subscriber is held inline, so delivering an event is one call with
//! no list in between. A second subscription for the same type promotes the
//! slot to a [`List`](crate::many::List).

use vstd::prelude::*;

use crate::eventbus::{Subscriber, SubscriptionId};

verus! {

/// Inline storage for one subscriber.
pub struct Slot<C> {
    sub: Subscriber<C>,
}

impl<C> View for Slot<C> {
    type V = Subscriber<C>;

    closed spec fn view(&self) -> Subscriber<C> {
        self.sub
    }
}

impl<C> Slot<C> {
    /// Wraps one subscriber.
    pub fn new(sub: Subscriber<C>) -> (slot: Self)
        ensures
            slot@ == sub,
    {
        Self { sub }
    }

    /// Whether the held subscriber has the given id.
    pub fn matches(&self, id: SubscriptionId) -> (r: bool)
        ensures
            r == (self@.id == id),
    {
        self.sub.id == id
    }

    /// Gives the held subscriber back, used when a slot is promoted to a list.
    pub fn into_inner(self) -> (sub: Subscriber<C>)
        ensures
            sub == self@,
    {
        self.sub
    }

    /// Delivers an event to the held subscriber.
    ///
    /// What the contract can say of the calls is that each callback's own
    /// postcondition held for this event: Verus models a call of an `Fn`
    /// closure as a relation between its arguments and its result, with no
    /// state, so how many times a callback ran is not visible to a contract.
    pub fn dispatch<A: ?Sized>(&self, event: &A)
        where
            C: Fn(&A),
        requires
            call_requires(self@.callback, (event,)),
        ensures
            call_ensures(self@.callback, (event,), ()),
    {
        (self.sub.callback)(event)
    }
}

} // verus!
