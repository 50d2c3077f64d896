//! A typed, synchronous publish/subscribe bus.
//!
//! Subscribers are grouped by the type of event they listen to (its
//! `TypeId`). Each group is stored in one of two shapes, chosen by its size:
//! a single inline subscriber ([`single::Slot`]) or a list of two or more
//! ([`many::List`]). Subscribing a second handler to a type promotes its
//! slot to a list; unsubscribing down to one handler demotes it back.
//! Every operation is verified against a model in which the bus is a map
//! from event type to the sequence of its subscribers, in registration
//! order.

pub mod eventbus;
pub mod laws;
pub mod many;
pub mod single;

pub use eventbus::{EventBus, Subscriber, SubscriptionId};
pub use many::List;
pub use single::Slot;
