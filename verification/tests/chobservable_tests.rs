use rs_observable::chobservable::ChObservable;
use rs_observable::chobservable::NotifyStep;

#[test]
fn registry_ids_strictly_increasing() {
    let mut r: ChObservable<String> = ChObservable::new();
    let a = r.register();
    let b = r.register();
    let c = r.register();
    assert_eq!(a, 1);
    assert_eq!(b, 2);
    assert_eq!(c, 3);
    r.unregister(b);
    let d = r.register();
    assert_eq!(d, 4);
    assert!(!r.contains(b));
    assert!(r.contains(a) && r.contains(c) && r.contains(d));
    assert_eq!(r.subscriber_count(), 3);
}

#[test]
fn fanout_scenario() {
    let mut r: ChObservable<String> = ChObservable::new();
    let s1 = r.register();
    let s2 = r.register();
    let s3 = r.register();

    let t1 = "test-99".to_string();
    assert!(matches!(r.notify(&t1), NotifyStep::Delivered));

    assert_eq!(r.recv(s1), Some(t1.clone()));
    assert_eq!(r.recv(s2), Some(t1.clone()));
    assert_eq!(r.recv(s3), Some(t1.clone()));
    assert_eq!(r.recv(s1), None);
    assert_eq!(r.recv(s2), None);
    assert_eq!(r.recv(s3), None);

    let s4 = r.register();

    let t2 = "test-999".to_string();
    assert!(matches!(r.notify(&t2), NotifyStep::Delivered));

    assert_eq!(r.recv(s1), Some(t2.clone()));
    assert_eq!(r.recv(s2), Some(t2.clone()));
    assert_eq!(r.recv(s3), Some(t2.clone()));
    assert_eq!(r.recv(s4), Some(t2.clone()));
    assert_eq!(r.recv(s4), None);
}

#[test]
fn fifo_order_per_subscriber() {
    let mut r: ChObservable<String> = ChObservable::new();
    let s = r.register();
    assert!(matches!(r.notify(&"one".to_string()), NotifyStep::Delivered));
    assert!(matches!(r.notify(&"two".to_string()), NotifyStep::Delivered));
    assert!(matches!(r.notify(&"three".to_string()), NotifyStep::Delivered));
    assert_eq!(r.recv(s), Some("one".to_string()));
    assert_eq!(r.recv(s), Some("two".to_string()));
    assert_eq!(r.recv(s), Some("three".to_string()));
    assert_eq!(r.recv(s), None);
}

#[test]
fn unregistered_receives_nothing() {
    let mut r: ChObservable<String> = ChObservable::new();
    let a = r.register();
    let b = r.register();
    r.unregister(a);
    assert!(matches!(r.notify(&"v".to_string()), NotifyStep::Delivered));
    assert_eq!(r.recv(a), None);
    assert_eq!(r.recv(b), Some("v".to_string()));
}

#[test]
fn late_subscriber_gets_later_values_only() {
    let mut r: ChObservable<String> = ChObservable::new();
    let a = r.register();
    assert!(matches!(r.notify(&"early".to_string()), NotifyStep::Delivered));
    let b = r.register();
    assert_eq!(r.recv(b), None);
    assert!(matches!(r.notify(&"late".to_string()), NotifyStep::Delivered));
    assert_eq!(r.recv(b), Some("late".to_string()));
    assert_eq!(r.recv(a), Some("early".to_string()));
    assert_eq!(r.recv(a), Some("late".to_string()));
}

#[test]
fn backpressure_capacity_one() {
    let mut r: ChObservable<String> = ChObservable::with_capacity(1);
    let s = r.register();

    let first = "first".to_string();
    let second = "second".to_string();
    assert!(matches!(r.notify(&first), NotifyStep::Delivered));

    // The queue is full: the second publish cannot complete and reports
    // where it would suspend instead of delivering anything.
    match r.notify(&second) {
        NotifyStep::Suspended { index } => assert_eq!(index, 0),
        _ => panic!("second publish must suspend on the full queue"),
    }

    // Only after the subscriber drains the first item can the publish
    // resume and complete.
    assert_eq!(r.recv(s), Some(first));
    assert!(matches!(r.notify_from(&second, 0), NotifyStep::Delivered));
    assert_eq!(r.recv(s), Some(second));
    assert_eq!(r.recv(s), None);
}

#[test]
fn suspended_fanout_resumes_in_table_order() {
    let mut r: ChObservable<String> = ChObservable::with_capacity(1);
    let a = r.register();
    let b = r.register();

    let v1 = "v1".to_string();
    assert!(matches!(r.notify(&v1), NotifyStep::Delivered));

    // Both queues are full now; a new publish suspends on the first one,
    // having delivered nothing yet.
    let v2 = "v2".to_string();
    let index = match r.notify(&v2) {
        NotifyStep::Suspended { index } => index,
        _ => panic!("publish must suspend on the first full queue"),
    };
    assert_eq!(index, 0);

    // Draining the first queue lets the pass get to the second, where it
    // suspends again.
    assert_eq!(r.recv(a), Some(v1.clone()));
    let index = match r.notify_from(&v2, index) {
        NotifyStep::Suspended { index } => index,
        _ => panic!("publish must suspend on the second full queue"),
    };
    assert_eq!(index, 1);

    assert_eq!(r.recv(b), Some(v1));
    assert!(matches!(r.notify_from(&v2, index), NotifyStep::Delivered));

    assert_eq!(r.recv(a), Some(v2.clone()));
    assert_eq!(r.recv(b), Some(v2));
}

#[test]
fn delivery_error_on_dropped_consumer() {
    let mut r: ChObservable<String> = ChObservable::new();
    let a = r.register();
    let b = r.register();
    r.close(a);

    // The fan-out aborts on the dead subscription; the error carries the
    // undelivered value and the subscriptions after it get nothing.
    let v = "lost".to_string();
    match r.notify(&v) {
        NotifyStep::Failed(e) => assert_eq!(e.value, v),
        _ => panic!("publish must fail on a dropped consumer"),
    }
    assert_eq!(r.recv(b), None);

    // The dead subscription is not removed automatically; explicit
    // unregistration is the caller's cleanup.
    assert!(r.contains(a));
    r.unregister(a);
    assert!(!r.contains(a));
    assert!(matches!(r.notify(&"ok".to_string()), NotifyStep::Delivered));
    assert_eq!(r.recv(b), Some("ok".to_string()));
}

#[test]
fn publish_with_no_subscribers_delivers() {
    let mut r: ChObservable<u64> = ChObservable::new();
    assert!(matches!(r.notify(&7), NotifyStep::Delivered));
    assert_eq!(r.subscriber_count(), 0);
}

#[test]
fn unknown_ids_are_inert() {
    let mut r: ChObservable<String> = ChObservable::new();
    let a = r.register();
    r.unregister(42);
    r.close(42);
    assert_eq!(r.recv(42), None);
    assert_eq!(r.subscriber_count(), 1);
    assert!(r.contains(a));
}
