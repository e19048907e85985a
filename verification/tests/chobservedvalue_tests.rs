use rs_observable::chobservable::ChObservedValue;
use rs_observable::chobservable::NotifyStep;

#[test]
fn test_chobservedvalue() {
    let mut cho: ChObservedValue<String> = ChObservedValue::new();
    let id1 = cho.register();
    let id2 = cho.register();
    let id3 = cho.register();

    assert!(cho.value_ref().is_none());

    let t1 = "test-99".to_string();
    assert!(matches!(cho.set_value(&t1), NotifyStep::Delivered));

    assert_eq!(cho.recv(id1), Some(Some(t1.clone())));
    assert_eq!(cho.recv(id2), Some(Some(t1.clone())));
    assert_eq!(cho.recv(id3), Some(Some(t1.clone())));

    let id4 = cho.register();

    assert_eq!(*cho.value_ref(), Some(t1.clone()));
    assert_eq!(cho.recv(id4), None);

    let t2 = "test-999".to_string();
    assert!(matches!(cho.set_value(&t2), NotifyStep::Delivered));

    assert_eq!(cho.recv(id1), Some(Some(t2.clone())));
    assert_eq!(cho.recv(id2), Some(Some(t2.clone())));
    assert_eq!(cho.recv(id3), Some(Some(t2.clone())));
    assert_eq!(cho.recv(id4), Some(Some(t2.clone())));

    assert_eq!(*cho.value_ref(), Some(t2));

    assert!(matches!(cho.reset_value(), NotifyStep::Delivered));

    assert_eq!(cho.recv(id1), Some(None));
    assert_eq!(cho.recv(id2), Some(None));
    assert_eq!(cho.recv(id3), Some(None));
    assert_eq!(cho.recv(id4), Some(None));
    assert!(cho.value_ref().is_none());
}

#[test]
fn set_value_current_round_trip() {
    let mut cho: ChObservedValue<String> = ChObservedValue::new();
    assert!(cho.value_ref().is_none());

    cho.set_value(&"a".to_string());
    assert_eq!(*cho.value_ref(), Some("a".to_string()));

    cho.set_value(&"b".to_string());
    assert_eq!(*cho.value_ref(), Some("b".to_string()));

    cho.reset_value();
    assert_eq!(*cho.value_ref(), None);
}

#[test]
fn observed_value_backpressure_and_resume() {
    let mut cho: ChObservedValue<String> = ChObservedValue::with_capacity(1);
    let id = cho.register();

    assert!(matches!(cho.set_value(&"x".to_string()), NotifyStep::Delivered));

    // The subscriber has not drained: storing succeeds but the republish
    // suspends, so the cache is already ahead of the stream.
    let step = cho.set_value(&"y".to_string());
    match step {
        NotifyStep::Suspended { index } => assert_eq!(index, 0),
        _ => panic!("republish must suspend on the full queue"),
    }
    assert_eq!(*cho.value_ref(), Some("y".to_string()));

    assert_eq!(cho.recv(id), Some(Some("x".to_string())));
    assert!(matches!(cho.resume_notify(0), NotifyStep::Delivered));
    assert_eq!(cho.recv(id), Some(Some("y".to_string())));
    assert_eq!(cho.recv(id), None);
}

#[test]
fn value_mutref_mutates_cache_only() {
    let mut cho: ChObservedValue<String> = ChObservedValue::new();
    let id = cho.register();
    *cho.value_mutref() = Some("direct".to_string());
    assert_eq!(*cho.value_ref(), Some("direct".to_string()));
    // A value written through the mutable reference is not republished.
    assert_eq!(cho.recv(id), None);
}

#[test]
fn observed_value_unregister_and_close() {
    let mut cho: ChObservedValue<String> = ChObservedValue::new();
    let a = cho.register();
    let b = cho.register();

    cho.unregister(a);
    assert!(matches!(cho.set_value(&"v".to_string()), NotifyStep::Delivered));
    assert_eq!(cho.recv(a), None);
    assert_eq!(cho.recv(b), Some(Some("v".to_string())));

    cho.close(b);
    match cho.set_value(&"w".to_string()) {
        NotifyStep::Failed(e) => assert_eq!(e.value, Some("w".to_string())),
        _ => panic!("republish must fail on a dropped consumer"),
    }
    // The failed republish still updated the cache first.
    assert_eq!(*cho.value_ref(), Some("w".to_string()));
}
