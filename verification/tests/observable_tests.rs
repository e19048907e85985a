use rs_observable::observable::MyString;
use rs_observable::observable::Observable;
use rs_observable::observable::ObserverString;

#[test]
fn observable_int_test() {
    let mut o: Observable<MyString, ObserverString> = Observable::new();
    let s1_id = o.register(ObserverString::new("test1"));
    let s2_id = o.register(ObserverString::new("test2"));
    let s3_id = o.register(ObserverString::new("test3"));

    assert_eq!(o.get(s1_id).unwrap().value, MyString::new("test1"));
    assert_eq!(o.get(s2_id).unwrap().value, MyString::new("test2"));
    assert_eq!(o.get(s3_id).unwrap().value, MyString::new("test3"));

    o.notify_observers(MyString::new("test4"));

    assert_eq!(o.get(s1_id).unwrap().value, MyString::new("test4"));
    assert_eq!(o.get(s2_id).unwrap().value, MyString::new("test4"));
    assert_eq!(o.get(s3_id).unwrap().value, MyString::new("test4"));

    let s1 = o.unregister(s1_id).unwrap();

    o.notify_observers(MyString::new("test5"));

    assert_eq!(s1.value, MyString::new("test4"));
    assert_eq!(o.get(s2_id).unwrap().value, MyString::new("test5"));
    assert_eq!(o.get(s3_id).unwrap().value, MyString::new("test5"));

    let s4_id = o.register(ObserverString::new("test20"));

    assert_eq!(s1.value, MyString::new("test4"));
    assert_eq!(o.get(s2_id).unwrap().value, MyString::new("test5"));
    assert_eq!(o.get(s3_id).unwrap().value, MyString::new("test5"));
    assert_eq!(o.get(s4_id).unwrap().value, MyString::new("test20"));

    o.notify_observers(MyString::new("test21"));

    assert_eq!(s1.value, MyString::new("test4"));
    assert_eq!(o.get(s2_id).unwrap().value, MyString::new("test21"));
    assert_eq!(o.get(s3_id).unwrap().value, MyString::new("test21"));
    assert_eq!(o.get(s4_id).unwrap().value, MyString::new("test21"));
}

#[test]
fn observable_ids_strictly_increasing() {
    let mut o: Observable<MyString, ObserverString> = Observable::new();
    let a = o.register(ObserverString::new("a"));
    let b = o.register(ObserverString::new("b"));
    let c = o.register(ObserverString::new("c"));
    assert!(a < b && b < c);
    assert!(o.unregister(b).is_some());
    let d = o.register(ObserverString::new("d"));
    assert!(c < d);
    assert_ne!(d, b);
    assert_eq!(o.observer_count(), 3);
}

#[test]
fn observable_unregister_unknown_id_is_noop() {
    let mut o: Observable<MyString, ObserverString> = Observable::new();
    let a = o.register(ObserverString::new("a"));
    assert!(o.unregister(999).is_none());
    assert_eq!(o.observer_count(), 1);
    assert!(o.unregister(a).is_some());
    assert!(o.unregister(a).is_none());
    assert_eq!(o.observer_count(), 0);
}

#[test]
fn observable_notify_borrowed_matches_owned() {
    let mut o: Observable<MyString, ObserverString> = Observable::new();
    let a = o.register(ObserverString::new("a"));
    let v = MyString::new("borrowed");
    o.notify_observers_borrowed(&v);
    assert_eq!(o.get(a).unwrap().value, v);
}
