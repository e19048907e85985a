//! The channel-style broadcast registry: a table of subscriptions, each with
//! a private bounded FIFO queue, plus the `ChObservedValue` wrapper that
//! caches the last published value.
//!
//! The registry is a sequential state machine. `notify_from` performs one
//! fan-out pass and stops where it would have to suspend (a full queue) or
//! abort (a dropped consumer); an async driver outside the library resumes
//! the pass once the blocking subscriber has drained a slot.

use vstd::prelude::*;

verus! {

/// Default number of slots in a freshly registered subscriber's queue.
pub const DEFAULT_QUEUE_CAPACITY: usize = 10;

/// One registered subscription, as the contracts see it: its identity, the
/// pending values in its queue (front first), and whether its consumer side
/// is still attached.
#[verifier::ext_equal]
pub struct SubscriberView<T> {
    pub id: u32,
    pub queue: Seq<T>,
    pub live: bool,
}

/// The registry, as the contracts see it: the subscription table in fan-out
/// order, the next identity to hand out, and the queue capacity.
#[verifier::ext_equal]
pub struct RegistryView<T> {
    pub subs: Seq<SubscriberView<T>>,
    pub next_id: u32,
    pub cap: nat,
}

impl<T> RegistryView<T> {
    /// Well-formedness: at least one queue slot, identities start at 1 and
    /// grow strictly in table order, every identity is below `next_id`, and
    /// no queue exceeds the capacity.
    pub open spec fn wf(self) -> bool {
        &&& self.cap >= 1
        &&& self.next_id >= 1
        &&& forall|i: int|
            0 <= i < self.subs.len() ==> 1 <= (#[trigger] self.subs[i]).id < self.next_id
        &&& forall|i: int|
            0 <= i < self.subs.len() ==> (#[trigger] self.subs[i]).queue.len() <= self.cap
        &&& forall|i: int, j: int|
            0 <= i < j < self.subs.len() ==> (#[trigger] self.subs[i]).id
                < (#[trigger] self.subs[j]).id
    }

    /// Whether some subscription in the table carries this identity.
    pub open spec fn contains_id(self, id: u32) -> bool {
        exists|i: int| 0 <= i < self.subs.len() && #[trigger] self.subs[i].id == id
    }
}

/// Index of the first subscription carrying `id`, or the table length if
/// there is none.
pub open spec fn idx_of<T>(subs: Seq<SubscriberView<T>>, id: u32) -> int
    decreases subs.len(),
{
    if subs.len() == 0 {
        0
    } else if subs[0].id == id {
        0
    } else {
        1 + idx_of(subs.drop_first(), id)
    }
}

/// What one `register` call does: it returns the current `next_id`,
/// increments the counter, and appends a live subscription with an empty
/// queue. Nothing else changes.
pub open spec fn register_step<T>(pre: RegistryView<T>, post: RegistryView<T>, id: u32) -> bool {
    &&& id == pre.next_id
    &&& post.next_id == pre.next_id + 1
    &&& post.cap == pre.cap
    &&& post.subs == pre.subs.push(
        SubscriberView { id, queue: Seq::<T>::empty(), live: true },
    )
}

/// What one `unregister` call does: the subscription carrying `id`, if any,
/// leaves the table; the id counter, the capacity, and every other
/// subscription stay as they were. An unknown id is a silent no-op.
pub open spec fn unregister_step<T>(pre: RegistryView<T>, post: RegistryView<T>, id: u32) -> bool {
    &&& post.next_id == pre.next_id
    &&& post.cap == pre.cap
    &&& if pre.contains_id(id) {
        post.subs == pre.subs.remove(idx_of(pre.subs, id))
    } else {
        post.subs == pre.subs
    }
}

/// What one `recv` call does: if a subscription carries `id` and has a
/// pending value, the front of its queue comes out; otherwise nothing
/// changes and nothing is returned.
pub open spec fn recv_step<T>(
    pre: RegistryView<T>,
    post: RegistryView<T>,
    id: u32,
    r: Option<T>,
) -> bool {
    let k = idx_of(pre.subs, id);
    if pre.contains_id(id) && pre.subs[k].queue.len() > 0 {
        &&& r == Some(pre.subs[k].queue[0])
        &&& post.next_id == pre.next_id
        &&& post.cap == pre.cap
        &&& post.subs == pre.subs.update(
            k,
            SubscriberView {
                id: pre.subs[k].id,
                queue: pre.subs[k].queue.drop_first(),
                live: pre.subs[k].live,
            },
        )
    } else {
        &&& r == None::<T>
        &&& post == pre
    }
}

/// What one `close` call does: the subscription carrying `id`, if any, has
/// its consumer side marked as dropped; its queue and everything else stay
/// as they were. An unknown id is a silent no-op.
pub open spec fn close_step<T>(pre: RegistryView<T>, post: RegistryView<T>, id: u32) -> bool {
    let k = idx_of(pre.subs, id);
    if pre.contains_id(id) {
        &&& post.next_id == pre.next_id
        &&& post.cap == pre.cap
        &&& post.subs == pre.subs.update(
            k,
            SubscriberView { id: pre.subs[k].id, queue: pre.subs[k].queue, live: false },
        )
    } else {
        post == pre
    }
}

/// Whether a fan-out pass can deposit into this subscription right away:
/// its consumer side is attached and its queue has room.
pub open spec fn sub_ok<T>(s: SubscriberView<T>, cap: nat) -> bool {
    s.live && s.queue.len() < cap
}

/// First index at or after `start` where a fan-out pass cannot proceed
/// (a dropped consumer or a full queue), or the table length if none.
pub open spec fn first_blocked<T>(subs: Seq<SubscriberView<T>>, cap: nat, start: int) -> int
    decreases subs.len() - start,
        when 0 <= start <= subs.len()
{
    if start >= subs.len() {
        subs.len() as int
    } else if !sub_ok(subs[start], cap) {
        start
    } else {
        first_blocked(subs, cap, start + 1)
    }
}

/// The fan-out deposited exactly one copy of `v` at the back of this
/// subscription's queue and changed nothing else about it.
pub open spec fn delivered_to<T: Clone>(pre: SubscriberView<T>, post: SubscriberView<T>, v: T) -> bool {
    &&& post.id == pre.id
    &&& post.live == pre.live
    &&& post.queue.len() == pre.queue.len() + 1
    &&& post.queue.drop_last() == pre.queue
    &&& cloned(v, post.queue.last())
}

/// What one fan-out pass starting at `start` does. With `b` the first
/// blocked index at or after `start`: every subscription in `[start, b)`
/// received one copy of `v`, every other subscription is untouched, and the
/// outcome says why the pass ended: the table ran out (`Delivered`), the
/// subscription at `b` has a full queue (`Suspended`, resumable at `b`), or
/// its consumer side is gone (`Failed`, carrying the undelivered copy).
pub open spec fn notify_step<T: Clone>(
    pre: RegistryView<T>,
    post: RegistryView<T>,
    v: T,
    start: int,
    r: NotifyStep<T>,
) -> bool {
    let b = first_blocked(pre.subs, pre.cap, start);
    &&& post.next_id == pre.next_id
    &&& post.cap == pre.cap
    &&& post.subs.len() == pre.subs.len()
    &&& forall|j: int|
        0 <= j < pre.subs.len() && !(start <= j < b) ==> post.subs[j] == pre.subs[j]
    &&& forall|j: int| start <= j < b ==> delivered_to(pre.subs[j], #[trigger] post.subs[j], v)
    &&& (b == pre.subs.len() ==> r == NotifyStep::<T>::Delivered)
    &&& (b < pre.subs.len() && pre.subs[b].live ==> (r matches NotifyStep::Suspended {
        index,
    } && index as int == b))
    &&& (b < pre.subs.len() && !pre.subs[b].live ==> (r matches NotifyStep::Failed(e) && cloned(
        v,
        e.value,
    )))
}

/// Raised when a published value cannot be delivered because a subscriber's
/// consumer side is gone; carries the copy that could not be delivered.
#[derive(Debug)]
pub struct DeliveryError<T> {
    pub value: T,
}

/// Outcome of one fan-out pass over the subscription table.
#[derive(Debug)]
pub enum NotifyStep<T> {
    /// Every subscription from the starting index on received the value.
    Delivered,
    /// The subscription at `index` has a full queue. The pass stopped there
    /// without delivering to it; once that queue drains, resuming the pass
    /// at `index` continues the same fan-out.
    Suspended { index: usize },
    /// The subscription reached by the pass has dropped its consumer side;
    /// the pass aborted there, skipping the subscriptions after it.
    Failed(DeliveryError<T>),
}

/// A linear scan that stops at the first entry carrying `id` has found
/// exactly `idx_of`.
proof fn lemma_scan_hit<T>(subs: Seq<SubscriberView<T>>, id: u32, i: int)
    requires
        0 <= i < subs.len(),
        subs[i].id == id,
        forall|j: int| 0 <= j < i ==> (#[trigger] subs[j]).id != id,
    ensures
        idx_of(subs, id) == i,
        exists|x: int| 0 <= x < subs.len() && #[trigger] subs[x].id == id,
{
    lemma_idx_of(subs, id);
    let k = idx_of(subs, id);
    if k < i {
        assert((#[trigger] subs[k]).id != id);
    }
    if k > i {
        assert(subs[i].id != id);
    }
}

/// Position of the first table entry carrying `id`: it is the table length
/// when there is none, and below it otherwise, with no earlier entry
/// carrying `id`.
pub proof fn lemma_idx_of<T>(subs: Seq<SubscriberView<T>>, id: u32)
    ensures
        0 <= idx_of(subs, id) <= subs.len(),
        idx_of(subs, id) < subs.len() ==> subs[idx_of(subs, id)].id == id,
        forall|j: int| 0 <= j < idx_of(subs, id) ==> subs[j].id != id,
        (exists|i: int| 0 <= i < subs.len() && #[trigger] subs[i].id == id) ==> idx_of(subs, id)
            < subs.len(),
    decreases subs.len(),
{
    if subs.len() == 0 {
    } else if subs[0].id == id {
    } else {
        lemma_idx_of(subs.drop_first(), id);
        assert forall|j: int| 0 <= j < idx_of(subs, id) implies subs[j].id != id by {
            if j > 0 {
                assert(subs.drop_first()[j - 1] == subs[j]);
            }
        }
        if exists|i: int| 0 <= i < subs.len() && #[trigger] subs[i].id == id {
            let i = choose|i: int| 0 <= i < subs.len() && #[trigger] subs[i].id == id;
            assert(subs.drop_first()[i - 1] == subs[i]);
        }
    }
}

/// `first_blocked` is in range, everything before it is deliverable, and
/// the entry at it (if any) is not.
pub proof fn lemma_first_blocked<T>(subs: Seq<SubscriberView<T>>, cap: nat, start: int)
    requires
        0 <= start <= subs.len(),
    ensures
        start <= first_blocked(subs, cap, start) <= subs.len(),
        forall|j: int| start <= j < first_blocked(subs, cap, start) ==> sub_ok(
            #[trigger] subs[j],
            cap,
        ),
        first_blocked(subs, cap, start) < subs.len() ==> !sub_ok(
            subs[first_blocked(subs, cap, start)],
            cap,
        ),
    decreases subs.len() - start,
{
    if start < subs.len() && sub_ok(subs[start], cap) {
        lemma_first_blocked(subs, cap, start + 1);
    }
}

/// `first_blocked` is exactly the index `k` whose predecessors (from
/// `start`) are all deliverable while `k` itself is not, or the table
/// length when every entry from `start` on is deliverable.
pub proof fn lemma_first_blocked_is<T>(subs: Seq<SubscriberView<T>>, cap: nat, start: int, k: int)
    requires
        0 <= start <= k <= subs.len(),
        forall|j: int| start <= j < k ==> sub_ok(#[trigger] subs[j], cap),
        k < subs.len() ==> !sub_ok(subs[k], cap),
    ensures
        first_blocked(subs, cap, start) == k,
    decreases k - start,
{
    if start < k {
        lemma_first_blocked_is(subs, cap, start + 1, k);
    }
}

/// Any single registry operation: a registration, a removal, a fan-out
/// pass, a receive, or a consumer-side drop.
pub open spec fn registry_step<T: Clone>(pre: RegistryView<T>, post: RegistryView<T>) -> bool {
    ||| exists|id: u32| register_step(pre, post, id)
    ||| exists|id: u32| unregister_step(pre, post, id)
    ||| exists|v: T, start: int, r: NotifyStep<T>| notify_step(pre, post, v, start, r)
    ||| exists|id: u32, r: Option<T>| recv_step(pre, post, id, r)
    ||| exists|id: u32| close_step(pre, post, id)
}

/// No operation ever lowers `next_id`: an id once handed out stays below
/// `next_id` forever, so it can never be handed out again.
pub proof fn lemma_next_id_monotone<T: Clone>(pre: RegistryView<T>, post: RegistryView<T>)
    requires
        registry_step(pre, post),
    ensures
        post.next_id >= pre.next_id,
{
}

/// A stale id — below `next_id` and no longer in the table — stays out of
/// the table across any operation: an unregistered subscription never
/// reappears, and calls carrying its id stay inert no-ops.
pub proof fn lemma_stale_id_stays_out<T: Clone>(
    pre: RegistryView<T>,
    post: RegistryView<T>,
    id: u32,
)
    requires
        registry_step(pre, post),
        !pre.contains_id(id),
        id < pre.next_id,
    ensures
        !post.contains_id(id),
        id < post.next_id,
{
    assert(forall|j: int| 0 <= j < pre.subs.len() ==> (#[trigger] pre.subs[j]).id != id);
    if exists|i: u32| register_step(pre, post, i) {
        let i = choose|i: u32| register_step(pre, post, i);
        assert forall|j: int| 0 <= j < post.subs.len() implies (#[trigger] post.subs[j]).id
            != id by {
            if j < pre.subs.len() {
                assert(post.subs[j] == pre.subs[j]);
            } else {
                assert(post.subs[j].id == i);
            }
        }
    } else if exists|i: u32| unregister_step(pre, post, i) {
        let i = choose|i: u32| unregister_step(pre, post, i);
        if pre.contains_id(i) {
            lemma_idx_of(pre.subs, i);
            let k = idx_of(pre.subs, i);
            assert forall|j: int| 0 <= j < post.subs.len() implies (#[trigger] post.subs[j]).id
                != id by {
                let j0 = if j < k {
                    j
                } else {
                    j + 1
                };
                assert(post.subs[j] == pre.subs[j0]);
            }
        }
    } else if exists|v: T, start: int, r: NotifyStep<T>| notify_step(pre, post, v, start, r) {
        let (v, start, r) = choose|v: T, start: int, r: NotifyStep<T>|
            notify_step(pre, post, v, start, r);
        let b = first_blocked(pre.subs, pre.cap, start);
        assert forall|j: int| 0 <= j < post.subs.len() implies (#[trigger] post.subs[j]).id
            != id by {
            if start <= j < b {
                assert(delivered_to(pre.subs[j], post.subs[j], v));
            } else {
                assert(post.subs[j] == pre.subs[j]);
            }
        }
    } else if exists|i: u32, r: Option<T>| recv_step(pre, post, i, r) {
        let (i, r) = choose|i: u32, r: Option<T>| recv_step(pre, post, i, r);
        if pre.contains_id(i) && pre.subs[idx_of(pre.subs, i)].queue.len() > 0 {
            lemma_idx_of(pre.subs, i);
            let k = idx_of(pre.subs, i);
            assert forall|j: int| 0 <= j < post.subs.len() implies (#[trigger] post.subs[j]).id
                != id by {
                if j != k {
                    assert(post.subs[j] == pre.subs[j]);
                } else {
                    assert(post.subs[j].id == pre.subs[k].id);
                }
            }
        }
    } else {
        let i = choose|i: u32| close_step(pre, post, i);
        if pre.contains_id(i) {
            lemma_idx_of(pre.subs, i);
            let k = idx_of(pre.subs, i);
            assert forall|j: int| 0 <= j < post.subs.len() implies (#[trigger] post.subs[j]).id
                != id by {
                if j != k {
                    assert(post.subs[j] == pre.subs[j]);
                } else {
                    assert(post.subs[j].id == pre.subs[k].id);
                }
            }
        }
    }
}

/// Helper for the id laws: along a run of `register` steps, `next_id`
/// strictly grows from any earlier state to any later one.
proof fn lemma_next_id_chain<T>(states: Seq<RegistryView<T>>, ids: Seq<u32>, a: int, b: int)
    requires
        states.len() == ids.len() + 1,
        forall|k: int|
            0 <= k < ids.len() ==> register_step(states[k], states[k + 1], #[trigger] ids[k]),
        0 <= a <= b <= ids.len(),
    ensures
        states[a].next_id <= states[b].next_id,
        a < b ==> states[a].next_id < states[b].next_id,
    decreases b - a,
{
    if a < b {
        assert(register_step(states[a], states[a + 1], ids[a]));
        lemma_next_id_chain(states, ids, a + 1, b);
    }
}

/// Along any run of consecutive `register` calls, the ids handed out are
/// strictly increasing, and therefore unique: `states` are the registry
/// states the run goes through and `ids` the ids returned along it.
pub proof fn lemma_register_ids_strictly_increasing<T>(states: Seq<RegistryView<T>>, ids: Seq<u32>)
    requires
        states.len() == ids.len() + 1,
        forall|k: int|
            0 <= k < ids.len() ==> register_step(states[k], states[k + 1], #[trigger] ids[k]),
    ensures
        forall|k1: int, k2: int| 0 <= k1 < k2 < ids.len() ==> ids[k1] < ids[k2],
{
    assert forall|k1: int, k2: int| 0 <= k1 < k2 < ids.len() implies ids[k1] < ids[k2] by {
        assert(register_step(states[k1], states[k1 + 1], ids[k1]));
        assert(register_step(states[k2], states[k2 + 1], ids[k2]));
        lemma_next_id_chain(states, ids, k1, k2);
    }
}

/// A freshly registered id is larger than the id of every subscription in
/// the table at registration time — ids of removed subscriptions included,
/// since those were once in a table with a smaller `next_id` — so an id is
/// never reused within a registry's lifetime.
pub proof fn lemma_registered_id_is_fresh<T>(pre: RegistryView<T>, post: RegistryView<T>, id: u32)
    requires
        pre.wf(),
        register_step(pre, post, id),
    ensures
        forall|i: int| 0 <= i < pre.subs.len() ==> (#[trigger] pre.subs[i]).id < id,
        post.contains_id(id),
{
    assert(post.subs[pre.subs.len() as int].id == id);
}

/// Two completed fan-out passes deliver in publish order: after publishing
/// `v1` and then `v2` over the whole table, the queue of the subscription
/// at any index `i` ends with a copy of `v1` followed by a copy of `v2`.
pub proof fn lemma_publish_order<T: Clone>(
    s0: RegistryView<T>,
    s1: RegistryView<T>,
    s2: RegistryView<T>,
    v1: T,
    v2: T,
    i: int,
)
    requires
        notify_step(s0, s1, v1, 0, NotifyStep::<T>::Delivered),
        notify_step(s1, s2, v2, 0, NotifyStep::<T>::Delivered),
        0 <= i < s0.subs.len(),
    ensures
        s2.subs[i].id == s0.subs[i].id,
        exists|c1: T, c2: T|
            cloned(v1, c1) && cloned(v2, c2) && s2.subs[i].queue == s0.subs[i].queue.push(c1).push(
                c2,
            ),
{
    lemma_delivered_everywhere(s0, s1, v1);
    lemma_delivered_everywhere(s1, s2, v2);
    let c1 = s1.subs[i].queue.last();
    let c2 = s2.subs[i].queue.last();
    assert(s1.subs[i].queue =~= s0.subs[i].queue.push(c1));
    assert(s2.subs[i].queue =~= s1.subs[i].queue.push(c2));
    assert(cloned(v1, c1) && cloned(v2, c2) && s2.subs[i].queue == s0.subs[i].queue.push(c1).push(
        c2,
    ));
}

/// A fan-out pass that reports `Delivered` reached every subscription.
pub proof fn lemma_delivered_everywhere<T: Clone>(
    pre: RegistryView<T>,
    post: RegistryView<T>,
    v: T,
)
    requires
        notify_step(pre, post, v, 0, NotifyStep::<T>::Delivered),
    ensures
        forall|j: int| 0 <= j < pre.subs.len() ==> delivered_to(
            pre.subs[j],
            #[trigger] post.subs[j],
            v,
        ),
{
    let b = first_blocked(pre.subs, pre.cap, 0);
    lemma_first_blocked(pre.subs, pre.cap, 0);
    if b < pre.subs.len() {
        if pre.subs[b].live {
            assert(NotifyStep::<T>::Delivered matches NotifyStep::Suspended { index } && index
                as int == b);
        } else {
            assert(NotifyStep::<T>::Delivered matches NotifyStep::Failed(e) && cloned(v, e.value));
        }
    }
}

/// In a well-formed table, ids identify subscriptions uniquely: two entries
/// carrying the same id sit at the same index.
proof fn lemma_id_unique<T>(s: RegistryView<T>, i: int, j: int)
    requires
        s.wf(),
        0 <= i < s.subs.len(),
        0 <= j < s.subs.len(),
        s.subs[i].id == s.subs[j].id,
    ensures
        i == j,
{
    if i < j {
        assert(s.subs[i].id < s.subs[j].id);
    }
    if j < i {
        assert(s.subs[j].id < s.subs[i].id);
    }
}

/// A subscription unregistered before a publish receives nothing from that
/// publish: after the removal no table entry carries its id, and the
/// publish leaves that so, whatever its outcome.
pub proof fn lemma_unregistered_receives_nothing<T: Clone>(
    s0: RegistryView<T>,
    s1: RegistryView<T>,
    s2: RegistryView<T>,
    id: u32,
    v: T,
    r: NotifyStep<T>,
)
    requires
        s0.wf(),
        unregister_step(s0, s1, id),
        notify_step(s1, s2, v, 0, r),
    ensures
        !s1.contains_id(id),
        !s2.contains_id(id),
{
    lemma_idx_of(s0.subs, id);
    let k = idx_of(s0.subs, id);
    if s0.contains_id(id) {
        assert forall|j: int| 0 <= j < s1.subs.len() implies (#[trigger] s1.subs[j]).id != id by {
            let j0 = if j < k {
                j
            } else {
                j + 1
            };
            assert(s1.subs[j] == s0.subs[j0]);
            if s0.subs[j0].id == id {
                lemma_id_unique(s0, j0, k);
            }
        }
    } else {
        assert forall|j: int| 0 <= j < s1.subs.len() implies (#[trigger] s1.subs[j]).id != id by {
            assert(s1.subs[j] == s0.subs[j]);
        }
    }
    assert forall|j: int| 0 <= j < s2.subs.len() implies (#[trigger] s2.subs[j]).id != id by {
        let b = first_blocked(s1.subs, s1.cap, 0);
        if 0 <= j < b {
            assert(delivered_to(s1.subs[j], s2.subs[j], v));
        } else {
            assert(s2.subs[j] == s1.subs[j]);
        }
    }
}

/// A subscription registered after a publish does not see that publish:
/// its queue starts empty. A completed publish after its registration does
/// reach it: its queue then holds exactly one copy of the later value as
/// its first item.
pub proof fn lemma_late_subscriber_gets_later_values_only<T: Clone>(
    s0: RegistryView<T>,
    s1: RegistryView<T>,
    s2: RegistryView<T>,
    id: u32,
    v: T,
)
    requires
        s0.wf(),
        register_step(s0, s1, id),
        notify_step(s1, s2, v, 0, NotifyStep::<T>::Delivered),
    ensures
        s1.subs[s1.subs.len() - 1].id == id,
        s1.subs[s1.subs.len() - 1].queue == Seq::<T>::empty(),
        s2.subs[s2.subs.len() - 1].id == id,
        exists|c: T| cloned(v, c) && s2.subs[s2.subs.len() - 1].queue == seq![c],
{
    lemma_delivered_everywhere(s1, s2, v);
    let last = s1.subs.len() - 1;
    assert(delivered_to(s1.subs[last], s2.subs[last], v));
    let c = s2.subs[last].queue.last();
    assert(s2.subs[last].queue =~= seq![c]);
    assert(cloned(v, c) && s2.subs[last].queue == seq![c]);
}

/// Internal table entry: the subscription's identity, its pending values,
/// and whether the consumer side is still attached.
#[derive(Debug)]
struct StoredObserver<T> {
    id: u32,
    queue: Vec<T>,
    live: bool,
}

/// Broadcast registry: fans published values out to every registered
/// subscription's bounded queue. Subscriptions are identified by ids that
/// are handed out strictly increasingly and never reused.
#[derive(Debug)]
pub struct ChObservable<T: Clone> {
    /// Registered subscriptions, in fan-out order.
    observers: Vec<StoredObserver<T>>,
    /// Next available id for registrations.
    next_id: u32,
    /// Queue capacity every subscription is created with.
    cap: usize,
}

impl<T: Clone> View for ChObservable<T> {
    type V = RegistryView<T>;

    closed spec fn view(&self) -> RegistryView<T> {
        RegistryView {
            subs: Seq::new(
                self.observers@.len(),
                |i: int| SubscriberView {
                    id: self.observers@[i].id,
                    queue: self.observers@[i].queue@,
                    live: self.observers@[i].live,
                },
            ),
            next_id: self.next_id,
            cap: self.cap as nat,
        }
    }
}

impl<T: Clone> ChObservable<T> {
    /// Creates an empty registry with the default queue capacity.
    pub fn new() -> (r: Self)
        ensures
            r@.wf(),
            r@.subs.len() == 0,
            r@.next_id == 1,
            r@.cap == DEFAULT_QUEUE_CAPACITY as nat,
    {
        ChObservable { observers: Vec::new(), next_id: 1, cap: DEFAULT_QUEUE_CAPACITY }
    }

    /// Creates an empty registry whose subscriptions get queues of
    /// `capacity` slots each.
    pub fn with_capacity(capacity: usize) -> (r: Self)
        requires
            capacity >= 1,
        ensures
            r@.wf(),
            r@.subs.len() == 0,
            r@.next_id == 1,
            r@.cap == capacity as nat,
    {
        ChObservable { observers: Vec::new(), next_id: 1, cap: capacity }
    }

    /// Registers a new subscription and returns its id. The subscription
    /// starts with an empty queue; it receives every value published after
    /// this call, and nothing published before it.
    pub fn register(&mut self) -> (id: u32)
        requires
            old(self)@.wf(),
            old(self)@.next_id < u32::MAX,
        ensures
            register_step(old(self)@, final(self)@, id),
            final(self)@.wf(),
    {
        let id = self.next_id;
        self.next_id = self.next_id + 1;
        self.observers.push(StoredObserver { id, queue: Vec::new(), live: true });
        proof {
            assert(self@.subs =~= old(self)@.subs.push(
                SubscriberView { id, queue: Seq::<T>::empty(), live: true },
            ));
        }
        id
    }

    /// Removes the subscription carrying `observer_id`, if present; unknown
    /// or already removed ids are a silent no-op, so stale ids stay inert.
    pub fn unregister(&mut self, observer_id: u32)
        requires
            old(self)@.wf(),
        ensures
            unregister_step(old(self)@, final(self)@, observer_id),
            final(self)@.wf(),
    {
        let ghost pre = old(self)@;
        let n = self.observers.len();
        let mut i: usize = 0;
        while i < n
            invariant
                i <= n,
                *self == *old(self),
                pre == old(self)@,
                pre.wf(),
                n == pre.subs.len(),
                forall|j: int| 0 <= j < i ==> (#[trigger] pre.subs[j]).id != observer_id,
            decreases n - i,
        {
            if self.observers[i].id == observer_id {
                self.observers.remove(i);
                proof {
                    lemma_scan_hit(pre.subs, observer_id, i as int);
                    assert(pre.contains_id(observer_id));
                    assert(self@.subs =~= pre.subs.remove(i as int));
                    assert forall|a: int| 0 <= a < self@.subs.len() implies #[trigger] self@.subs[a]
                        == (if a < i as int {
                        pre.subs[a]
                    } else {
                        pre.subs[a + 1]
                    }) by {}
                    assert forall|a: int, b: int|
                        0 <= a < b < self@.subs.len() implies (#[trigger] self@.subs[a]).id
                        < (#[trigger] self@.subs[b]).id by {
                        let a0 = if a < i as int {
                            a
                        } else {
                            a + 1
                        };
                        let b0 = if b < i as int {
                            b
                        } else {
                            b + 1
                        };
                        assert(pre.subs[a0].id < pre.subs[b0].id);
                    }
                }
                return ;
            }
            i += 1;
        }
        proof {
            assert(!pre.contains_id(observer_id));
        }
    }

    /// One fan-out pass: starting at table index `start`, pushes one copy
    /// of `data` into each subscription's queue in table order, stopping at
    /// the first full queue (`Suspended`, resumable once that queue drains)
    /// or the first dropped consumer (`Failed`). A pass over an empty table
    /// delivers trivially.
    pub fn notify_from(&mut self, data: &T, start: usize) -> (r: NotifyStep<T>)
        requires
            old(self)@.wf(),
            start <= old(self)@.subs.len(),
        ensures
            notify_step(old(self)@, final(self)@, *data, start as int, r),
            final(self)@.wf(),
    {
        let ghost pre = old(self)@;
        let n = self.observers.len();
        let mut i: usize = start;
        while i < n
            invariant
                start <= i <= n,
                pre == old(self)@,
                pre.wf(),
                self@.wf(),
                n == pre.subs.len(),
                n == self@.subs.len(),
                self@.next_id == pre.next_id,
                self@.cap == pre.cap,
                forall|j: int|
                    0 <= j < n && !(start <= j < i) ==> self@.subs[j] == pre.subs[j],
                forall|j: int|
                    start <= j < i ==> delivered_to(pre.subs[j], #[trigger] self@.subs[j], *data),
                forall|j: int| start <= j < i ==> sub_ok(#[trigger] pre.subs[j], pre.cap),
            decreases n - i,
        {
            let ghost snap = self@;
            let mut e = self.observers.remove(i);
            proof {
                assert(snap.subs[i as int] == (SubscriberView {
                    id: e.id,
                    queue: e.queue@,
                    live: e.live,
                }));
            }
            if !e.live {
                let undelivered = data.clone();
                self.observers.insert(i, e);
                proof {
                    assert(self@.subs =~= snap.subs);
                    assert(!sub_ok(pre.subs[i as int], pre.cap));
                    lemma_first_blocked_is(pre.subs, pre.cap, start as int, i as int);
                }
                return NotifyStep::Failed(DeliveryError { value: undelivered });
            }
            if e.queue.len() == self.cap {
                self.observers.insert(i, e);
                proof {
                    assert(self@.subs =~= snap.subs);
                    assert(!sub_ok(pre.subs[i as int], pre.cap));
                    lemma_first_blocked_is(pre.subs, pre.cap, start as int, i as int);
                }
                return NotifyStep::Suspended { index: i };
            }
            let c = data.clone();
            e.queue.push(c);
            self.observers.insert(i, e);
            proof {
                assert(self@.subs =~= snap.subs.update(
                    i as int,
                    SubscriberView {
                        id: snap.subs[i as int].id,
                        queue: snap.subs[i as int].queue.push(c),
                        live: snap.subs[i as int].live,
                    },
                ));
                assert(snap.subs[i as int].queue.push(c).drop_last() =~= snap.subs[i as int].queue);
                assert(sub_ok(pre.subs[i as int], pre.cap));
            }
            i += 1;
        }
        proof {
            lemma_first_blocked_is(pre.subs, pre.cap, start as int, n as int);
        }
        NotifyStep::Delivered
    }

    /// Takes the next pending value for subscription `observer_id`: the
    /// oldest value delivered to its queue and not yet taken. Returns
    /// `None` when the queue is empty or the id is unknown. Values come out
    /// in the order they were published.
    pub fn recv(&mut self, observer_id: u32) -> (r: Option<T>)
        requires
            old(self)@.wf(),
        ensures
            recv_step(old(self)@, final(self)@, observer_id, r),
            final(self)@.wf(),
    {
        let ghost pre = old(self)@;
        let n = self.observers.len();
        let mut i: usize = 0;
        while i < n
            invariant
                i <= n,
                *self == *old(self),
                pre == old(self)@,
                pre.wf(),
                n == pre.subs.len(),
                forall|j: int| 0 <= j < i ==> (#[trigger] pre.subs[j]).id != observer_id,
            decreases n - i,
        {
            if self.observers[i].id == observer_id {
                let mut e = self.observers.remove(i);
                proof {
                    lemma_scan_hit(pre.subs, observer_id, i as int);
                    assert(pre.subs[i as int] == (SubscriberView {
                        id: e.id,
                        queue: e.queue@,
                        live: e.live,
                    }));
                }
                if e.queue.len() > 0 {
                    let v = e.queue.remove(0);
                    self.observers.insert(i, e);
                    proof {
                        assert(e.queue@ =~= pre.subs[i as int].queue.drop_first());
                        assert(self@.subs =~= pre.subs.update(
                            i as int,
                            SubscriberView {
                                id: pre.subs[i as int].id,
                                queue: pre.subs[i as int].queue.drop_first(),
                                live: pre.subs[i as int].live,
                            },
                        ));
                    }
                    return Some(v);
                } else {
                    self.observers.insert(i, e);
                    proof {
                        assert(self@.subs =~= pre.subs);
                        assert(self@ =~= pre);
                    }
                    return None;
                }
            }
            i += 1;
        }
        None
    }

    /// Detaches the consumer side of subscription `observer_id`, modelling
    /// a consumer that went away without unregistering: the subscription
    /// stays in the table and a later fan-out pass fails on it. An unknown
    /// id is a silent no-op.
    pub fn close(&mut self, observer_id: u32)
        requires
            old(self)@.wf(),
        ensures
            close_step(old(self)@, final(self)@, observer_id),
            final(self)@.wf(),
    {
        let ghost pre = old(self)@;
        let n = self.observers.len();
        let mut i: usize = 0;
        while i < n
            invariant
                i <= n,
                *self == *old(self),
                pre == old(self)@,
                pre.wf(),
                n == pre.subs.len(),
                forall|j: int| 0 <= j < i ==> (#[trigger] pre.subs[j]).id != observer_id,
            decreases n - i,
        {
            if self.observers[i].id == observer_id {
                let mut e = self.observers.remove(i);
                e.live = false;
                self.observers.insert(i, e);
                proof {
                    lemma_scan_hit(pre.subs, observer_id, i as int);
                    assert(self@.subs =~= pre.subs.update(
                        i as int,
                        SubscriberView {
                            id: pre.subs[i as int].id,
                            queue: pre.subs[i as int].queue,
                            live: false,
                        },
                    ));
                }
                return ;
            }
            i += 1;
        }
    }

    /// Number of currently registered subscriptions.
    pub fn subscriber_count(&self) -> (n: usize)
        ensures
            n == self@.subs.len(),
    {
        self.observers.len()
    }

    /// The id the next registration will be given; registration is
    /// possible while this is below `u32::MAX`.
    pub fn next_id(&self) -> (r: u32)
        ensures
            r == self@.next_id,
    {
        self.next_id
    }

    /// Whether a subscription carrying `observer_id` is currently
    /// registered.
    pub fn contains(&self, observer_id: u32) -> (r: bool)
        ensures
            r == self@.contains_id(observer_id),
    {
        let n = self.observers.len();
        let mut i: usize = 0;
        while i < n
            invariant
                i <= n,
                n == self@.subs.len(),
                forall|j: int| 0 <= j < i ==> (#[trigger] self@.subs[j]).id != observer_id,
            decreases n - i,
        {
            if self.observers[i].id == observer_id {
                proof {
                    assert(self@.subs[i as int].id == observer_id);
                }
                return true;
            }
            i += 1;
        }
        false
    }

    /// One full fan-out pass over the whole table: every subscription gets
    /// one copy of `data`, in table order, unless a full queue or a dropped
    /// consumer stops the pass first.
    pub fn notify(&mut self, data: &T) -> (r: NotifyStep<T>)
        requires
            old(self)@.wf(),
        ensures
            notify_step(old(self)@, final(self)@, *data, 0, r),
            final(self)@.wf(),
    {
        self.notify_from(data, 0)
    }
}

/// The observed-value wrapper, as the contracts see it: the cached current
/// value next to its internal registry. The two are independently
/// consistent views, not one atomic cell.
#[verifier::ext_equal]
pub struct ObservedView<T> {
    pub value: Option<T>,
    pub registry: RegistryView<Option<T>>,
}

/// Observable wrapper around a monitored value: `set_value` stores the new
/// value in a cache and then republishes it through an internal broadcast
/// registry. A subscriber registered late gets no replay; it queries the
/// cache for the current state and relies on the stream for changes.
pub struct ChObservedValue<T: Clone> {
    /// Last value set; absent until the first `set_value`, absent again
    /// after `reset_value`.
    value: Option<T>,
    /// Registry the cached value is republished through.
    observable: ChObservable<Option<T>>,
}

impl<T: Clone> View for ChObservedValue<T> {
    type V = ObservedView<T>;

    closed spec fn view(&self) -> ObservedView<T> {
        ObservedView { value: self.value, registry: self.observable@ }
    }
}

impl<T: Clone> ChObservedValue<T> {
    /// Creates a wrapper with no value set and no subscriptions, using the
    /// default queue capacity.
    pub fn new() -> (r: Self)
        ensures
            r@.value == None::<T>,
            r@.registry.wf(),
            r@.registry.subs.len() == 0,
            r@.registry.next_id == 1,
            r@.registry.cap == DEFAULT_QUEUE_CAPACITY as nat,
    {
        ChObservedValue { value: None, observable: ChObservable::new() }
    }

    /// Creates a wrapper whose subscriptions get queues of `capacity`
    /// slots each.
    pub fn with_capacity(capacity: usize) -> (r: Self)
        requires
            capacity >= 1,
        ensures
            r@.value == None::<T>,
            r@.registry.wf(),
            r@.registry.subs.len() == 0,
            r@.registry.next_id == 1,
            r@.registry.cap == capacity as nat,
    {
        ChObservedValue { value: None, observable: ChObservable::with_capacity(capacity) }
    }

    /// Stores a copy of `v` as the current value, then starts a fan-out
    /// pass publishing the stored value. The store happens first: a reader
    /// of the cache sees the new value no later than any subscriber.
    pub fn set_value(&mut self, v: &T) -> (r: NotifyStep<Option<T>>)
        requires
            old(self)@.registry.wf(),
        ensures
            exists|c: T| cloned(*v, c) && final(self)@.value == Some(c),
            notify_step(old(self)@.registry, final(self)@.registry, final(self)@.value, 0, r),
            final(self)@.registry.wf(),
    {
        let c = v.clone();
        let ghost cw = c;
        self.value = Some(c);
        proof {
            assert(cloned(*v, cw) && self@.value == Some(cw));
        }
        self.observable.notify_from(&self.value, 0)
    }

    /// Clears the current value, then starts a fan-out pass publishing the
    /// absence, so every subscriber learns the value was reset.
    pub fn reset_value(&mut self) -> (r: NotifyStep<Option<T>>)
        requires
            old(self)@.registry.wf(),
        ensures
            final(self)@.value == None::<T>,
            notify_step(old(self)@.registry, final(self)@.registry, None::<T>, 0, r),
            final(self)@.registry.wf(),
    {
        self.value = None;
        self.observable.notify_from(&self.value, 0)
    }

    /// Resumes a suspended fan-out pass of the current value at table index
    /// `start`, after the blocking subscriber drained a slot.
    pub fn resume_notify(&mut self, start: usize) -> (r: NotifyStep<Option<T>>)
        requires
            old(self)@.registry.wf(),
            start <= old(self)@.registry.subs.len(),
        ensures
            final(self)@.value == old(self)@.value,
            notify_step(
                old(self)@.registry,
                final(self)@.registry,
                old(self)@.value,
                start as int,
                r,
            ),
            final(self)@.registry.wf(),
    {
        self.observable.notify_from(&self.value, start)
    }

    /// Registers a new subscription on the internal registry and returns
    /// its id. No synthetic notification of the cached value is delivered:
    /// the new subscription's queue starts empty.
    pub fn register(&mut self) -> (id: u32)
        requires
            old(self)@.registry.wf(),
            old(self)@.registry.next_id < u32::MAX,
        ensures
            final(self)@.value == old(self)@.value,
            register_step(old(self)@.registry, final(self)@.registry, id),
            final(self)@.registry.wf(),
    {
        self.observable.register()
    }

    /// Removes the subscription carrying `observer_id` from the internal
    /// registry, if present; unknown ids are a silent no-op.
    pub fn unregister(&mut self, observer_id: u32)
        requires
            old(self)@.registry.wf(),
        ensures
            final(self)@.value == old(self)@.value,
            unregister_step(old(self)@.registry, final(self)@.registry, observer_id),
            final(self)@.registry.wf(),
    {
        self.observable.unregister(observer_id)
    }

    /// Takes the next pending published value for subscription
    /// `observer_id`, in publish order.
    pub fn recv(&mut self, observer_id: u32) -> (r: Option<Option<T>>)
        requires
            old(self)@.registry.wf(),
        ensures
            final(self)@.value == old(self)@.value,
            recv_step(old(self)@.registry, final(self)@.registry, observer_id, r),
            final(self)@.registry.wf(),
    {
        self.observable.recv(observer_id)
    }

    /// Detaches the consumer side of subscription `observer_id`, modelling
    /// a consumer that went away without unregistering.
    pub fn close(&mut self, observer_id: u32)
        requires
            old(self)@.registry.wf(),
        ensures
            final(self)@.value == old(self)@.value,
            close_step(old(self)@.registry, final(self)@.registry, observer_id),
            final(self)@.registry.wf(),
    {
        self.observable.close(observer_id)
    }

    /// Returns a reference to the cached current value: `Some` of the last
    /// value set, or `None` before the first `set_value` and after a
    /// `reset_value`.
    pub fn value_ref(&self) -> (r: &Option<T>)
        ensures
            *r == self@.value,
    {
        &self.value
    }

    /// Returns a mutable reference to the cached current value, for direct
    /// mutation under the caller's control. The registry is untouched: a
    /// value written this way is not republished.
    pub fn value_mutref(&mut self) -> (r: &mut Option<T>)
        ensures
            *r == old(self)@.value,
            final(self)@.value == *final(r),
            final(self)@.registry == old(self)@.registry,
    {
        &mut self.value
    }

    /// Number of currently registered subscriptions.
    pub fn subscriber_count(&self) -> (n: usize)
        ensures
            n == self@.registry.subs.len(),
    {
        self.observable.subscriber_count()
    }

    /// Whether a subscription carrying `observer_id` is currently
    /// registered.
    pub fn contains(&self, observer_id: u32) -> (r: bool)
        ensures
            r == self@.registry.contains_id(observer_id),
    {
        self.observable.contains(observer_id)
    }

    /// The id the next registration will be given; registration is
    /// possible while this is below `u32::MAX`.
    pub fn next_id(&self) -> (r: u32)
        ensures
            r == self@.registry.next_id,
    {
        self.observable.next_id()
    }
}

} // verus!
