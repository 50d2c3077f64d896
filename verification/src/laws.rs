//! Properties of the bus that span several operations, stated over the
//! model that `EventBus::on`, `EventBus::off`, `EventBus::subscriber_count`,
//! `EventBus::type_count` and `EventBus::emit` are specified by.

use vstd::prelude::*;

use std::any::TypeId;

use crate::eventbus::{
    bucket_of, holds_at, holds_id, lemma_holder_unique, lemma_without_id_at, valid_contents,
    with_subscriber, without_id, Contents, Subscriber, SubscriptionId,
};

verus! {

/// The id handed out by a subscription is new: no present subscription has
/// it, and afterwards the new subscriber holds it, last among its type.
pub proof fn law_fresh_id<C>(m: Contents<C>, next: u64, key: TypeId, callback: C)
    requires
        valid_contents(m, next),
    ensures
        !holds_id(m, SubscriptionId(next)),
        holds_at(
            with_subscriber(m, key, (Subscriber { id: SubscriptionId(next), callback })),
            SubscriptionId(next),
            key,
            bucket_of(m, key).len() as int,
        ),
{
}

/// Subscribing keeps the model valid once the counter has moved past the
/// new id; unsubscribing keeps it valid for the same counter.
pub proof fn law_operations_keep_model_valid<C>(
    m: Contents<C>,
    next: u64,
    key: TypeId,
    callback: C,
    id: SubscriptionId,
)
    requires
        valid_contents(m, next),
        next < u64::MAX,
    ensures
        valid_contents(
            with_subscriber(m, key, (Subscriber { id: SubscriptionId(next), callback })),
            (next + 1) as u64,
        ),
        valid_contents(without_id(m, id), next),
{
    if holds_id(m, id) {
        let (k, p) = choose|k: TypeId, p: int| #[trigger] holds_at(m, id, k, p);
        lemma_without_id_at(m, next, id, k, p);
    }
}

/// Unsubscribing the id that a subscription just handed out gives back the
/// bus as it was before that subscription.
pub proof fn law_off_undoes_on<C>(m: Contents<C>, next: u64, key: TypeId, callback: C)
    requires
        valid_contents(m, next),
    ensures
        without_id(
            with_subscriber(m, key, (Subscriber { id: SubscriptionId(next), callback })),
            SubscriptionId(next),
        ) == m,
{
    let sub = Subscriber { id: SubscriptionId(next), callback };
    let m2 = with_subscriber(m, key, sub);
    let p = bucket_of(m, key).len() as int;
    law_fresh_id(m, next, key, callback);
    assert(m2[key].remove(p) =~= bucket_of(m, key));
}

/// Unsubscribing an id that no subscription holds changes nothing, and an
/// id once unsubscribed is held no more, so unsubscribing it again reports
/// `false`.
pub proof fn law_off_is_idempotent<C>(m: Contents<C>, next: u64, id: SubscriptionId)
    requires
        valid_contents(m, next),
    ensures
        !holds_id(m, id) ==> without_id(m, id) == m,
        !holds_id(without_id(m, id), id),
        without_id(without_id(m, id), id) == without_id(m, id),
{
    if holds_id(m, id) {
        let (k, p) = choose|k: TypeId, p: int| #[trigger] holds_at(m, id, k, p);
        lemma_without_id_at(m, next, id, k, p);
        let m3 = without_id(m, id);
        if holds_id(m3, id) {
            let (k2, q) = choose|k2: TypeId, q: int| #[trigger] holds_at(m3, id, k2, q);
            if k2 == k {
                let q2 = if q < p { q } else { q + 1 };
                lemma_holder_unique(m, next, id, k, p, k, q2);
            } else {
                lemma_holder_unique(m, next, id, k, p, k2, q);
            }
        }
    }
}

/// Event types are independent under subscription: subscribing to one type
/// leaves every other type's subscribers as they were.
pub proof fn law_on_leaves_other_types<C>(m: Contents<C>, key: TypeId, other: TypeId, sub: Subscriber<C>)
    requires
        other != key,
    ensures
        bucket_of(with_subscriber(m, key, sub), other) == bucket_of(m, other),
{
}

/// Event types are independent under unsubscription: it changes only the
/// type that held the subscription.
pub proof fn law_off_leaves_other_types<C>(
    m: Contents<C>,
    next: u64,
    id: SubscriptionId,
    holder: TypeId,
    i: int,
    other: TypeId,
)
    requires
        valid_contents(m, next),
        holds_at(m, id, holder, i),
        other != holder,
    ensures
        bucket_of(without_id(m, id), other) == bucket_of(m, other),
{
    lemma_without_id_at(m, next, id, holder, i);
}

/// Counting under subscription: it adds one subscriber to its type, and adds
/// the type to the bus when the type had none.
pub proof fn law_on_counts<C>(m: Contents<C>, key: TypeId, sub: Subscriber<C>)
    requires
        m.dom().finite(),
    ensures
        bucket_of(with_subscriber(m, key, sub), key).len() == bucket_of(m, key).len() + 1,
        with_subscriber(m, key, sub).dom().len() == m.dom().len() + (if m.contains_key(key) {
            0int
        } else {
            1int
        }),
{
}

/// Counting under unsubscription: it takes one subscriber from the type that
/// held it, and drops that type from the bus when it was its only subscriber.
pub proof fn law_off_counts<C>(m: Contents<C>, next: u64, id: SubscriptionId, holder: TypeId, i: int)
    requires
        valid_contents(m, next),
        holds_at(m, id, holder, i),
    ensures
        bucket_of(without_id(m, id), holder).len() == bucket_of(m, holder).len() - 1,
        without_id(m, id).dom().len() == m.dom().len() - (if m[holder].len() == 1 {
            1int
        } else {
            0int
        }),
{
    lemma_without_id_at(m, next, id, holder, i);
}

/// Delivery order is registration order: each type's subscribers are listed
/// by increasing id, a new subscriber is delivered after all present ones,
/// and unsubscribing keeps the relative order of those that remain. Since ids
/// in a type are distinct, each subscriber appears once in the delivery list.
pub proof fn law_delivery_order<C>(m: Contents<C>, next: u64, key: TypeId, sub: Subscriber<C>, id: SubscriptionId)
    requires
        valid_contents(m, next),
    ensures
        forall|i: int, j: int|
            0 <= i < j < bucket_of(m, key).len() ==> (#[trigger] bucket_of(m, key)[i]).id.0 < (
            #[trigger] bucket_of(m, key)[j]).id.0,
        bucket_of(with_subscriber(m, key, sub), key) == bucket_of(m, key).push(sub),
        forall|p: int|
            #[trigger] holds_at(m, id, key, p) ==> bucket_of(without_id(m, id), key) == bucket_of(
                m,
                key,
            ).remove(p),
{
    assert forall|p: int| #[trigger] holds_at(m, id, key, p) implies bucket_of(without_id(m, id), key)
        == bucket_of(m, key).remove(p) by {
        lemma_without_id_at(m, next, id, key, p);
    }
}

} // verus!
