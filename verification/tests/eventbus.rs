use rt_events::{EventBus, SubscriptionId};
use std::any::{Any, TypeId};
use std::cell::{Cell, RefCell};
use std::rc::Rc;

type Handler = Box<dyn Fn(&dyn Any)>;
type Bus = EventBus<Handler>;

struct PlayerDied {
    name: String,
}

struct Reload;

fn key<E: 'static>() -> TypeId {
    TypeId::of::<E>()
}

fn on<E: 'static>(bus: &mut Bus, f: impl Fn(&E) + 'static) -> SubscriptionId {
    let h: Handler = Box::new(move |e: &dyn Any| {
        if let Some(e) = e.downcast_ref::<E>() {
            f(e)
        }
    });
    bus.on(key::<E>(), h)
}

fn emit<E: 'static>(bus: &Bus, event: E) {
    bus.emit::<dyn Any>(key::<E>(), &event)
}

fn count<E: 'static>(bus: &Bus) -> usize {
    bus.subscriber_count(key::<E>())
}

#[test]
fn emit_and_receive() {
    let mut bus = Bus::new();
    let received = Rc::new(Cell::new(false));
    let r = received.clone();

    on(&mut bus, move |_: &PlayerDied| {
        r.set(true);
    });

    emit(
        &bus,
        PlayerDied {
            name: "test".into(),
        },
    );
    assert!(received.get());
}

#[test]
fn receives_correct_data() {
    let mut bus = Bus::new();
    let name = Rc::new(Cell::new(String::new()));
    let n = name.clone();

    on(&mut bus, move |e: &PlayerDied| {
        n.set(e.name.clone());
    });

    emit(
        &bus,
        PlayerDied {
            name: "Orión".into(),
        },
    );
    assert_eq!(name.take(), "Orión");
}

#[test]
fn multiple_subscribers() {
    let mut bus = Bus::new();
    let count = Rc::new(Cell::new(0u32));

    for _ in 0..5 {
        let c = count.clone();
        on(&mut bus, move |_: &Reload| {
            c.set(c.get() + 1);
        });
    }

    emit(&bus, Reload);
    assert_eq!(count.get(), 5);
}

#[test]
fn unsubscribe() {
    let mut bus = Bus::new();
    let count = Rc::new(Cell::new(0u32));
    let c = count.clone();

    let id = on(&mut bus, move |_: &Reload| {
        c.set(c.get() + 1);
    });

    emit(&bus, Reload);
    assert_eq!(count.get(), 1);

    assert!(bus.off(id));
    emit(&bus, Reload);
    assert_eq!(count.get(), 1); // unchanged
}

#[test]
fn unsubscribe_nonexistent_returns_false() {
    let mut bus = Bus::new();
    assert!(!bus.off(SubscriptionId(999)));
}

#[test]
fn different_types_are_independent() {
    let mut bus = Bus::new();
    let died = Rc::new(Cell::new(false));
    let reloaded = Rc::new(Cell::new(false));

    let d = died.clone();
    on(&mut bus, move |_: &PlayerDied| d.set(true));

    let r = reloaded.clone();
    on(&mut bus, move |_: &Reload| r.set(true));

    emit(&bus, Reload);
    assert!(!died.get());
    assert!(reloaded.get());
}

#[test]
fn zst_signal() {
    let mut bus = Bus::new();
    let fired = Rc::new(Cell::new(false));
    let f = fired.clone();

    on(&mut bus, move |_: &Reload| f.set(true));
    emit(&bus, Reload);

    assert!(fired.get());
}

#[test]
fn emit_no_subscribers_is_noop() {
    let bus = Bus::new();
    emit(&bus, Reload); // should not panic
}

#[test]
fn subscriber_count() {
    let mut bus = Bus::new();
    assert_eq!(count::<Reload>(&bus), 0);

    let id = on(&mut bus, |_: &Reload| {});
    assert_eq!(count::<Reload>(&bus), 1);

    bus.off(id);
    assert_eq!(count::<Reload>(&bus), 0);
}

#[test]
fn type_count() {
    let mut bus = Bus::new();
    assert_eq!(bus.type_count(), 0);

    on(&mut bus, |_: &Reload| {});
    assert_eq!(bus.type_count(), 1);

    on(&mut bus, |_: &PlayerDied| {});
    assert_eq!(bus.type_count(), 2);
}

#[test]
fn many_events_many_subscribers() {
    let mut bus = Bus::new();
    let total = Rc::new(Cell::new(0u32));

    for _ in 0..100 {
        let t = total.clone();
        on(&mut bus, move |_: &Reload| {
            t.set(t.get() + 1);
        });
    }

    for _ in 0..100 {
        emit(&bus, Reload);
    }

    assert_eq!(total.get(), 10_000);
}

#[test]
fn closure_with_string_capture_drops_cleanly() {
    let held = Rc::new(());
    let weak = Rc::downgrade(&held);

    {
        let mut bus = Bus::new();
        let captured = held.clone();
        on(&mut bus, move |_: &Reload| {
            let _ = &captured;
        });
    }

    drop(held);
    assert!(weak.upgrade().is_none(), "closure capture leaked");
}

#[test]
fn unsubscribe_drops_closure() {
    let held = Rc::new(());
    let weak = Rc::downgrade(&held);

    let mut bus = Bus::new();
    let captured = held.clone();
    let id = on(&mut bus, move |_: &Reload| {
        let _ = &captured;
    });

    bus.off(id);
    drop(held);
    assert!(weak.upgrade().is_none(), "off() did not drop closure");
}

#[test]
fn promotes_single_to_many_on_second_subscribe() {
    let mut bus = Bus::new();
    let a = Rc::new(Cell::new(false));
    let b = Rc::new(Cell::new(false));

    let ac = a.clone();
    on(&mut bus, move |_: &Reload| ac.set(true)); // Single
    let bc = b.clone();
    on(&mut bus, move |_: &Reload| bc.set(true)); // Single → Many

    emit(&bus, Reload);
    assert!(a.get(), "first subscriber lost across promotion");
    assert!(b.get(), "second subscriber not delivered");
    assert_eq!(count::<Reload>(&bus), 2);
}

#[test]
fn demotes_many_to_single_on_off_leaving_one() {
    let mut bus = Bus::new();
    let a = Rc::new(Cell::new(0u32));
    let b = Rc::new(Cell::new(0u32));

    let ac = a.clone();
    let id_a = on(&mut bus, move |_: &Reload| ac.set(ac.get() + 1));
    let bc = b.clone();
    on(&mut bus, move |_: &Reload| bc.set(bc.get() + 1));
    assert_eq!(count::<Reload>(&bus), 2); // Many

    bus.off(id_a); // Many(2) → off → Single(b)
    assert_eq!(count::<Reload>(&bus), 1);

    emit(&bus, Reload);
    assert_eq!(a.get(), 0, "off'd subscriber still receiving");
    assert_eq!(b.get(), 1, "surviving subscriber dropped on demotion");
}

#[test]
fn promotion_preserves_closure_state() {
    let held = Rc::new(());
    let weak = Rc::downgrade(&held);

    {
        let mut bus = Bus::new();
        let c = held.clone();
        on(&mut bus, move |_: &Reload| {
            let _ = &c;
        });
        on(&mut bus, |_: &Reload| {}); // trigger promotion
    }

    drop(held);
    assert!(weak.upgrade().is_none(), "promotion leaked closure capture");
}

#[test]
fn off_back_to_zero_drops_bucket() {
    let mut bus = Bus::new();
    let id = on(&mut bus, |_: &Reload| {});
    assert_eq!(bus.type_count(), 1);

    bus.off(id);
    assert_eq!(bus.type_count(), 0, "empty bucket was not removed");
    assert_eq!(count::<Reload>(&bus), 0);
}

// Further scenarios for the properties of the bus.

#[test]
fn ids_are_issued_in_sequence() {
    let mut bus = Bus::new();
    assert_eq!(bus.next_subscription_id(), 0);
    let a = on(&mut bus, |_: &Reload| {});
    let b = on(&mut bus, |_: &PlayerDied| {});
    let c = on(&mut bus, |_: &Reload| {});
    assert_eq!(a, SubscriptionId(0));
    assert_eq!(b, SubscriptionId(1));
    assert_eq!(c, SubscriptionId(2));
    assert_eq!(bus.next_subscription_id(), 3);
    bus.off(b);
    assert_eq!(bus.next_subscription_id(), 3);
    let d = on(&mut bus, |_: &Reload| {});
    assert_eq!(d, SubscriptionId(3));
}

#[test]
fn delivery_follows_registration_order() {
    let mut bus = Bus::new();
    let log = Rc::new(RefCell::new(Vec::new()));
    let mut ids = Vec::new();
    for n in 0..4u32 {
        let l = log.clone();
        ids.push(on(&mut bus, move |_: &Reload| l.borrow_mut().push(n)));
    }
    emit(&bus, Reload);
    assert_eq!(*log.borrow(), vec![0, 1, 2, 3]);

    log.borrow_mut().clear();
    assert!(bus.off(ids[1]));
    emit(&bus, Reload);
    assert_eq!(*log.borrow(), vec![0, 2, 3]);

    log.borrow_mut().clear();
    let l = log.clone();
    on(&mut bus, move |_: &Reload| l.borrow_mut().push(9));
    emit(&bus, Reload);
    assert_eq!(*log.borrow(), vec![0, 2, 3, 9]);
}

#[test]
fn off_undoes_on() {
    let mut bus = Bus::new();
    on(&mut bus, |_: &Reload| {});
    on(&mut bus, |_: &Reload| {});
    let id = on(&mut bus, |_: &PlayerDied| {});
    assert_eq!(bus.type_count(), 2);
    assert!(bus.off(id));
    assert_eq!(bus.type_count(), 1);
    assert_eq!(count::<Reload>(&bus), 2);
    assert_eq!(count::<PlayerDied>(&bus), 0);
}

#[test]
fn off_twice_reports_false_the_second_time() {
    let mut bus = Bus::new();
    let id = on(&mut bus, |_: &Reload| {});
    on(&mut bus, |_: &Reload| {});
    assert!(bus.off(id));
    assert!(!bus.off(id));
    assert_eq!(count::<Reload>(&bus), 1);
}

#[test]
fn off_leaves_other_types() {
    let mut bus = Bus::new();
    let died = Rc::new(Cell::new(0u32));
    let d = died.clone();
    on(&mut bus, move |_: &PlayerDied| d.set(d.get() + 1));
    let r = on(&mut bus, |_: &Reload| {});
    assert!(bus.off(r));
    assert_eq!(count::<PlayerDied>(&bus), 1);
    emit(
        &bus,
        PlayerDied {
            name: "x".into(),
        },
    );
    assert_eq!(died.get(), 1);
}

#[test]
fn many_shrinks_and_grows_again() {
    let mut bus = Bus::new();
    let hits = Rc::new(Cell::new(0u32));
    let mut ids = Vec::new();
    for _ in 0..3 {
        let h = hits.clone();
        ids.push(on(&mut bus, move |_: &Reload| h.set(h.get() + 1)));
    }
    assert!(bus.off(ids[0]));
    assert!(bus.off(ids[2]));
    assert_eq!(count::<Reload>(&bus), 1);
    let h = hits.clone();
    on(&mut bus, move |_: &Reload| h.set(h.get() + 10));
    assert_eq!(count::<Reload>(&bus), 2);
    emit(&bus, Reload);
    assert_eq!(hits.get(), 11);
    assert!(bus.off(ids[1]));
    assert_eq!(bus.type_count(), 1);
}

#[test]
fn default_is_empty() {
    let bus: Bus = Default::default();
    assert_eq!(bus.type_count(), 0);
    assert_eq!(bus.next_subscription_id(), 0);
}
