# rt_events

A typed, synchronous publish/subscribe bus whose bookkeeping is verified
with Verus.

- `src/eventbus.rs` — the bus: subscriptions grouped by event type
  (`TypeId`), the model it is specified by (a map from event type to the
  subscribers in registration order), and `on`, `off`, `emit`,
  `type_count`, `subscriber_count`.
- `src/single.rs`, `src/many.rs` — the two shapes of per-type storage: one
  subscriber inline, or a list of two or more.
- `src/laws.rs` — properties spanning several operations, proved over the
  model.
- `app/lib.rs` — the typed front end that turns closures `Fn(&E)` into the
  bus's callbacks.
- `tests/` — scenarios run against the compiled library.
