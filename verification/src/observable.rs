//! The single-threaded callback variant of the observer pattern: an
//! `Observable` keeps a table of owned observers and hands every published
//! value to each of them in registration order, through the `Observer`
//! trait. Identities are handed out the same way as in the channel-style
//! registry: strictly increasing, never reused.

use vstd::prelude::*;

verus! {

/// Trait to implement to get informed about changes. `observed` is the
/// implementor's model of the value it currently holds; `notify` must
/// leave the observer holding the delivered value.
pub trait Observer<T: Clone> {
    /// The value this observer currently holds, if any.
    spec fn observed(&self) -> Option<T>;

    /// Called by the observable to inform the observer about changed data.
    fn notify(&mut self, data: T)
        ensures
            final(self).observed() == Some(data),
    ;
}

/// One registered observer together with the id it was registered under.
pub struct StoredObserver<O> {
    pub id: u32,
    pub observer: O,
}

impl<O> StoredObserver<O> {
    /// Pairs an observer with its registration id.
    pub fn new(id: u32, observer: O) -> (r: Self)
        ensures
            r.id == id,
            r.observer == observer,
    {
        StoredObserver { id, observer }
    }
}

/// The observable, as the contracts see it: the observer table in
/// notification order and the next identity to hand out.
#[verifier::ext_equal]
pub struct ObservableView<O> {
    pub subs: Seq<StoredObserver<O>>,
    pub next_id: u32,
}

impl<O> ObservableView<O> {
    /// Well-formedness: identities start at 1, grow strictly in table
    /// order, and stay below `next_id`.
    pub open spec fn wf(self) -> bool {
        &&& self.next_id >= 1
        &&& forall|i: int|
            0 <= i < self.subs.len() ==> 1 <= (#[trigger] self.subs[i]).id < self.next_id
        &&& forall|i: int, j: int|
            0 <= i < j < self.subs.len() ==> (#[trigger] self.subs[i]).id
                < (#[trigger] self.subs[j]).id
    }

    /// Whether some table entry carries this identity.
    pub open spec fn contains_id(self, id: u32) -> bool {
        exists|i: int| 0 <= i < self.subs.len() && #[trigger] self.subs[i].id == id
    }
}

/// Index of the first table entry carrying `id`, or the table length if
/// there is none.
pub open spec fn idx_of<O>(subs: Seq<StoredObserver<O>>, id: u32) -> int
    decreases subs.len(),
{
    if subs.len() == 0 {
        0
    } else if subs[0].id == id {
        0
    } else {
        1 + idx_of(subs.drop_first(), id)
    }
}

/// What one `register` call does: it returns the current `next_id`,
/// increments the counter, and appends the observer. Nothing else changes.
pub open spec fn register_step<O>(
    pre: ObservableView<O>,
    post: ObservableView<O>,
    id: u32,
    observer: O,
) -> bool {
    &&& id == pre.next_id
    &&& post.next_id == pre.next_id + 1
    &&& post.subs == pre.subs.push(StoredObserver { id, observer })
}

/// What one `unregister` call does: the entry carrying `id`, if any,
/// leaves the table and its observer comes back to the caller; an unknown
/// id is a silent no-op returning nothing.
pub open spec fn unregister_step<O>(
    pre: ObservableView<O>,
    post: ObservableView<O>,
    id: u32,
    r: Option<O>,
) -> bool {
    &&& post.next_id == pre.next_id
    &&& if pre.contains_id(id) {
        let k = idx_of(pre.subs, id);
        post.subs == pre.subs.remove(k) && r == Some(pre.subs[k].observer)
    } else {
        post.subs == pre.subs && r == None::<O>
    }
}

/// The observer's observed value is a copy of `v`.
pub open spec fn holds_clone_of<T: Clone, O: Observer<T>>(o: O, v: T) -> bool {
    exists|d: T| cloned(v, d) && o.observed() == Some(d)
}

/// Every observer in the table was handed one copy of `v`: the table keeps
/// its length and its ids, and each observer afterwards holds a copy of
/// `v` as its observed value.
pub open spec fn notified_all<T: Clone, O: Observer<T>>(
    pre: Seq<StoredObserver<O>>,
    post: Seq<StoredObserver<O>>,
    v: T,
) -> bool {
    &&& post.len() == pre.len()
    &&& forall|i: int| 0 <= i < pre.len() ==> (#[trigger] post[i]).id == pre[i].id
    &&& forall|i: int| 0 <= i < pre.len() ==> holds_clone_of((#[trigger] post[i]).observer, v)
}

/// Position of the first table entry carrying `id`: it is the table length
/// when there is none, and below it otherwise, with no earlier entry
/// carrying `id`.
pub proof fn lemma_idx_of<O>(subs: Seq<StoredObserver<O>>, id: u32)
    ensures
        0 <= idx_of(subs, id) <= subs.len(),
        idx_of(subs, id) < subs.len() ==> subs[idx_of(subs, id)].id == id,
        forall|j: int| 0 <= j < idx_of(subs, id) ==> (#[trigger] subs[j]).id != id,
        (exists|i: int| 0 <= i < subs.len() && #[trigger] subs[i].id == id) ==> idx_of(subs, id)
            < subs.len(),
    decreases subs.len(),
{
    if subs.len() == 0 {
    } else if subs[0].id == id {
    } else {
        lemma_idx_of(subs.drop_first(), id);
        assert forall|j: int| 0 <= j < idx_of(subs, id) implies (#[trigger] subs[j]).id != id by {
            if j > 0 {
                assert(subs.drop_first()[j - 1] == subs[j]);
            }
        }
        if exists|i: int| 0 <= i < subs.len() && #[trigger] subs[i].id == id {
            let i = choose|i: int| 0 <= i < subs.len() && #[trigger] subs[i].id == id;
            assert(subs.drop_first()[i - 1] == subs[i]);
        }
    }
}

/// A linear scan that stops at the first entry carrying `id` has found
/// exactly `idx_of`.
proof fn lemma_scan_hit<O>(subs: Seq<StoredObserver<O>>, id: u32, i: int)
    requires
        0 <= i < subs.len(),
        subs[i].id == id,
        forall|j: int| 0 <= j < i ==> (#[trigger] subs[j]).id != id,
    ensures
        idx_of(subs, id) == i,
        exists|x: int| 0 <= x < subs.len() && #[trigger] subs[x].id == id,
{
    lemma_idx_of(subs, id);
    let k = idx_of(subs, id);
    if k < i {
        assert((#[trigger] subs[k]).id != id);
    }
    if k > i {
        assert(subs[i].id != id);
    }
}

/// Type that provides the functions to orchestrate the registered
/// observers: it owns them, keyed by strictly increasing ids, and hands
/// every published value to each of them in registration order.
pub struct Observable<T: Clone, O: Observer<T>> {
    /// Registered observers, in notification order.
    observers: Vec<StoredObserver<O>>,
    /// Next id assigned to a newly registered observer.
    next_id: u32,
    /// The published data type is fixed per observable, not per call.
    data: core::marker::PhantomData<T>,
}

impl<T: Clone, O: Observer<T>> View for Observable<T, O> {
    type V = ObservableView<O>;

    closed spec fn view(&self) -> ObservableView<O> {
        ObservableView { subs: self.observers@, next_id: self.next_id }
    }
}

impl<T: Clone, O: Observer<T>> Observable<T, O> {
    /// Creates an observable with no registered observers.
    pub fn new() -> (r: Self)
        ensures
            r@.wf(),
            r@.subs.len() == 0,
            r@.next_id == 1,
    {
        Observable { observers: Vec::new(), next_id: 1, data: core::marker::PhantomData }
    }

    /// Registers an observer and returns the id to unregister it with.
    pub fn register(&mut self, observer: O) -> (id: u32)
        requires
            old(self)@.wf(),
            old(self)@.next_id < u32::MAX,
        ensures
            register_step(old(self)@, final(self)@, id, observer),
            final(self)@.wf(),
    {
        let id = self.next_id;
        self.next_id = self.next_id + 1;
        self.observers.push(StoredObserver::new(id, observer));
        id
    }

    /// Removes the observer registered under `observer_id` and hands it
    /// back, so its final state stays inspectable; unknown or already
    /// removed ids are a silent no-op returning `None`.
    pub fn unregister(&mut self, observer_id: u32) -> (r: Option<O>)
        requires
            old(self)@.wf(),
        ensures
            unregister_step(old(self)@, final(self)@, observer_id, r),
            final(self)@.wf(),
    {
        let ghost pre = old(self)@;
        let n = self.observers.len();
        let mut i: usize = 0;
        while i < n
            invariant
                i <= n,
                *self == *old(self),
                pre == old(self)@,
                pre.wf(),
                n == pre.subs.len(),
                forall|j: int| 0 <= j < i ==> (#[trigger] pre.subs[j]).id != observer_id,
            decreases n - i,
        {
            if self.observers[i].id == observer_id {
                let e = self.observers.remove(i);
                proof {
                    lemma_scan_hit(pre.subs, observer_id, i as int);
                    assert(pre.contains_id(observer_id));
                    assert(self@.subs =~= pre.subs.remove(i as int));
                    assert forall|a: int, b: int|
                        0 <= a < b < self@.subs.len() implies (#[trigger] self@.subs[a]).id
                        < (#[trigger] self@.subs[b]).id by {
                        let a0 = if a < i as int {
                            a
                        } else {
                            a + 1
                        };
                        let b0 = if b < i as int {
                            b
                        } else {
                            b + 1
                        };
                        assert(pre.subs[a0].id < pre.subs[b0].id);
                    }
                }
                return Some(e.observer);
            }
            i += 1;
        }
        None
    }

    /// Hands one copy of `data` to every registered observer, in
    /// registration order. This variant takes ownership of the parameter.
    pub fn notify_observers(&mut self, data: T)
        requires
            old(self)@.wf(),
        ensures
            final(self)@.next_id == old(self)@.next_id,
            notified_all(old(self)@.subs, final(self)@.subs, data),
            final(self)@.wf(),
    {
        self.notify_observers_borrowed(&data)
    }

    /// Hands one copy of `data` to every registered observer, in
    /// registration order. This variant borrows the parameter.
    pub fn notify_observers_borrowed(&mut self, data: &T)
        requires
            old(self)@.wf(),
        ensures
            final(self)@.next_id == old(self)@.next_id,
            notified_all(old(self)@.subs, final(self)@.subs, *data),
            final(self)@.wf(),
    {
        let ghost pre = old(self)@;
        let n = self.observers.len();
        let mut i: usize = 0;
        while i < n
            invariant
                i <= n,
                pre == old(self)@,
                pre.wf(),
                self@.wf(),
                n == pre.subs.len(),
                n == self@.subs.len(),
                self@.next_id == pre.next_id,
                forall|j: int| i <= j < n ==> self@.subs[j] == pre.subs[j],
                forall|j: int| 0 <= j < i ==> (#[trigger] self@.subs[j]).id == pre.subs[j].id,
                forall|j: int|
                    0 <= j < i ==> holds_clone_of((#[trigger] self@.subs[j]).observer, *data),
            decreases n - i,
        {
            let ghost snap = self@;
            let mut e = self.observers.remove(i);
            let c = data.clone();
            let ghost cw = c;
            e.observer.notify(c);
            self.observers.insert(i, e);
            proof {
                assert(self@.subs =~= snap.subs.update(i as int, self@.subs[i as int]));
                assert(self@.subs[i as int].id == pre.subs[i as int].id);
                assert(cloned(*data, cw) && self@.subs[i as int].observer.observed() == Some(cw));
                assert(holds_clone_of(self@.subs[i as int].observer, *data));
            }
            i += 1;
        }
    }

    /// The observer registered under `observer_id`, for inspection, or
    /// `None` if no such registration is active.
    pub fn get(&self, observer_id: u32) -> (r: Option<&O>)
        ensures
            match r {
                Some(o) => self@.contains_id(observer_id) && *o == self@.subs[idx_of(
                    self@.subs,
                    observer_id,
                )].observer,
                None => !self@.contains_id(observer_id),
            },
    {
        let n = self.observers.len();
        let mut i: usize = 0;
        while i < n
            invariant
                i <= n,
                n == self@.subs.len(),
                forall|j: int| 0 <= j < i ==> (#[trigger] self@.subs[j]).id != observer_id,
            decreases n - i,
        {
            if self.observers[i].id == observer_id {
                proof {
                    lemma_scan_hit(self@.subs, observer_id, i as int);
                }
                return Some(&self.observers[i].observer);
            }
            i += 1;
        }
        None
    }

    /// Number of currently registered observers.
    pub fn observer_count(&self) -> (n: usize)
        ensures
            n == self@.subs.len(),
    {
        self.observers.len()
    }
}

/// A small string wrapper with exact cloning and equality, used by the
/// observer implementations in this crate and its tests.
#[derive(Debug)]
pub struct MyString(String);

impl View for MyString {
    type V = Seq<char>;

    closed spec fn view(&self) -> Seq<char> {
        self.0@
    }
}

impl MyString {
    /// Wraps a copy of `v`.
    pub fn new(v: &str) -> (r: MyString)
        ensures
            r@ == v@,
    {
        MyString(v.to_owned())
    }
}

impl Clone for MyString {
    /// Cloning keeps the contents.
    fn clone(&self) -> (r: Self)
        ensures
            r == *self,
    {
        MyString(self.0.clone())
    }
}

impl PartialEq for MyString {
    fn eq(&self, other: &Self) -> (r: bool) {
        self.0 == other.0
    }
}

impl vstd::std_specs::cmp::PartialEqSpecImpl for MyString {
    open spec fn obeys_eq_spec() -> bool {
        true
    }

    open spec fn eq_spec(&self, other: &Self) -> bool {
        self@ == other@
    }
}

/// Observer that keeps the last notified value as a `MyString`.
pub struct ObserverString {
    pub value: MyString,
}

impl ObserverString {
    /// Starts out holding a copy of `v`.
    pub fn new(v: &str) -> (r: Self)
        ensures
            r.value@ == v@,
    {
        ObserverString { value: MyString::new(v) }
    }
}

impl Observer<MyString> for ObserverString {
    open spec fn observed(&self) -> Option<MyString> {
        Some(self.value)
    }

    fn notify(&mut self, data: MyString) {
        self.value = data;
    }
}

} // verus!
