//! A single-threaded observable wrapper put around a monitored value: it
//! caches the last value set and hands every change to the registered
//! observers through the callback `Observable`.

use vstd::prelude::*;

use crate::observable::notified_all;
use crate::observable::register_step;
use crate::observable::unregister_step;
use crate::observable::MyString;
use crate::observable::Observable;
use crate::observable::ObservableView;
use crate::observable::Observer;

verus! {

/// The wrapper, as the contracts see it: the cached current value next to
/// the observer table it republishes through.
#[verifier::ext_equal]
pub struct ObservedValueView<T, O> {
    pub value: Option<T>,
    pub observable: ObservableView<O>,
}

/// Object that holds the monitored value and its observers: setting a
/// value stores it first and then notifies every registered observer of
/// the change; resetting notifies them of the absence.
pub struct ObservedValue<T: Clone, O: Observer<Option<T>>> {
    /// Observers the cached value is republished through.
    observable: Observable<Option<T>, O>,
    /// Last value set; absent until the first `set_value`, absent again
    /// after `reset_value`.
    value: Option<T>,
}

impl<T: Clone, O: Observer<Option<T>>> View for ObservedValue<T, O> {
    type V = ObservedValueView<T, O>;

    closed spec fn view(&self) -> ObservedValueView<T, O> {
        ObservedValueView { value: self.value, observable: self.observable@ }
    }
}

impl<T: Clone, O: Observer<Option<T>>> ObservedValue<T, O> {
    /// Creates a wrapper with no value set and no observers.
    pub fn new() -> (r: Self)
        ensures
            r@.value == None::<T>,
            r@.observable.wf(),
            r@.observable.subs.len() == 0,
            r@.observable.next_id == 1,
    {
        ObservedValue { observable: Observable::new(), value: None }
    }

    /// Stores a copy of `v` as the current value, then notifies every
    /// registered observer of the stored value. The store happens first.
    pub fn set_value(&mut self, v: &T)
        requires
            old(self)@.observable.wf(),
        ensures
            exists|c: T| cloned(*v, c) && final(self)@.value == Some(c),
            final(self)@.observable.next_id == old(self)@.observable.next_id,
            notified_all(old(self)@.observable.subs, final(self)@.observable.subs, final(self)@.value),
            final(self)@.observable.wf(),
    {
        let c = v.clone();
        let ghost cw = c;
        self.value = Some(c);
        proof {
            assert(cloned(*v, cw) && self@.value == Some(cw));
        }
        self.observable.notify_observers_borrowed(&self.value);
    }

    /// Clears the current value, then notifies every registered observer
    /// of the absence.
    pub fn reset_value(&mut self)
        requires
            old(self)@.observable.wf(),
        ensures
            final(self)@.value == None::<T>,
            final(self)@.observable.next_id == old(self)@.observable.next_id,
            notified_all(old(self)@.observable.subs, final(self)@.observable.subs, None::<T>),
            final(self)@.observable.wf(),
    {
        self.value = None;
        self.observable.notify_observers_borrowed(&self.value);
    }

    /// Registers an observer and returns the id to unregister it with. The
    /// new observer is not told the cached value: it must query it
    /// separately if it needs the current state.
    pub fn register(&mut self, observer: O) -> (id: u32)
        requires
            old(self)@.observable.wf(),
            old(self)@.observable.next_id < u32::MAX,
        ensures
            final(self)@.value == old(self)@.value,
            register_step(old(self)@.observable, final(self)@.observable, id, observer),
            final(self)@.observable.wf(),
    {
        self.observable.register(observer)
    }

    /// Removes the observer registered under `observer_id` and hands it
    /// back; unknown ids are a silent no-op returning `None`.
    pub fn unregister(&mut self, observer_id: u32) -> (r: Option<O>)
        requires
            old(self)@.observable.wf(),
        ensures
            final(self)@.value == old(self)@.value,
            unregister_step(old(self)@.observable, final(self)@.observable, observer_id, r),
            final(self)@.observable.wf(),
    {
        self.observable.unregister(observer_id)
    }

    /// The observer registered under `observer_id`, for inspection.
    pub fn get(&self, observer_id: u32) -> (r: Option<&O>)
        ensures
            match r {
                Some(o) => self@.observable.contains_id(observer_id) && *o
                    == self@.observable.subs[crate::observable::idx_of(
                    self@.observable.subs,
                    observer_id,
                )].observer,
                None => !self@.observable.contains_id(observer_id),
            },
    {
        self.observable.get(observer_id)
    }

    /// Returns a reference to the cached current value: `Some` of the last
    /// value set, or `None` before the first `set_value` and after a
    /// `reset_value`.
    pub fn value_ref(&self) -> (r: &Option<T>)
        ensures
            *r == self@.value,
    {
        &self.value
    }

    /// Returns a mutable reference to the cached current value, for direct
    /// mutation under the caller's control. The observers are untouched: a
    /// value written this way is not republished.
    pub fn value_mutref(&mut self) -> (r: &mut Option<T>)
        ensures
            *r == old(self)@.value,
            final(self)@.value == *final(r),
            final(self)@.observable == old(self)@.observable,
    {
        &mut self.value
    }
}

/// Observer that keeps the last notified optional value.
pub struct ObserverString {
    pub value: Option<MyString>,
}

impl ObserverString {
    /// Starts out holding nothing.
    pub fn new() -> (r: Self)
        ensures
            r.value == None::<MyString>,
    {
        ObserverString { value: None }
    }
}

impl Observer<Option<MyString>> for ObserverString {
    open spec fn observed(&self) -> Option<Option<MyString>> {
        Some(self.value)
    }

    fn notify(&mut self, data: Option<MyString>) {
        self.value = data;
    }
}

} // verus!
