use rs_observable::observable::MyString;
use rs_observable::observed_value::ObservedValue;
use rs_observable::observed_value::ObserverString;

#[test]
fn test_01() {
    let mut o: ObservedValue<MyString, ObserverString> = ObservedValue::new();

    let s1_id = o.register(ObserverString::new());
    let s2_id = o.register(ObserverString::new());
    let s3_id = o.register(ObserverString::new());

    assert!(o.get(s1_id).unwrap().value.is_none());
    assert!(o.get(s2_id).unwrap().value.is_none());
    assert!(o.get(s3_id).unwrap().value.is_none());

    let v = MyString::new("test_01");
    o.set_value(&v);

    assert_eq!(*o.get(s1_id).unwrap().value.as_ref().unwrap(), v);
    assert_eq!(*o.get(s2_id).unwrap().value.as_ref().unwrap(), v);
    assert_eq!(*o.get(s3_id).unwrap().value.as_ref().unwrap(), v);

    let s4_id = o.register(ObserverString::new());

    assert_eq!(*o.get(s1_id).unwrap().value.as_ref().unwrap(), v);
    assert_eq!(*o.get(s2_id).unwrap().value.as_ref().unwrap(), v);
    assert_eq!(*o.get(s3_id).unwrap().value.as_ref().unwrap(), v);
    assert!(o.get(s4_id).unwrap().value.is_none());

    let v2 = MyString::new("test_02");
    o.set_value(&v2);

    assert_eq!(*o.get(s1_id).unwrap().value.as_ref().unwrap(), v2);
    assert_eq!(*o.get(s2_id).unwrap().value.as_ref().unwrap(), v2);
    assert_eq!(*o.get(s3_id).unwrap().value.as_ref().unwrap(), v2);
    assert_eq!(*o.get(s4_id).unwrap().value.as_ref().unwrap(), v2);

    let s1 = o.unregister(s1_id).unwrap();

    o.reset_value();

    assert_eq!(*s1.value.as_ref().unwrap(), v2);
    assert!(o.get(s2_id).unwrap().value.is_none());
    assert!(o.get(s3_id).unwrap().value.is_none());
    assert!(o.get(s4_id).unwrap().value.is_none());
}

#[test]
fn observed_value_round_trip() {
    let mut o: ObservedValue<MyString, ObserverString> = ObservedValue::new();
    assert!(o.value_ref().is_none());

    let v = MyString::new("first");
    o.set_value(&v);
    assert_eq!(*o.value_ref().as_ref().unwrap(), v);

    let w = MyString::new("second");
    o.set_value(&w);
    assert_eq!(*o.value_ref().as_ref().unwrap(), w);

    o.reset_value();
    assert!(o.value_ref().is_none());
}

#[test]
fn observed_value_mutref_mutates_cache_only() {
    let mut o: ObservedValue<MyString, ObserverString> = ObservedValue::new();
    let id = o.register(ObserverString::new());
    *o.value_mutref() = Some(MyString::new("direct"));
    assert_eq!(*o.value_ref().as_ref().unwrap(), MyString::new("direct"));
    // The observer was not notified by the direct write.
    assert!(o.get(id).unwrap().value.is_none());
}
