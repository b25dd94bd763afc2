//! The broadcast hub: one publisher, many subscribers, each with its own
//! bounded queue of pending caption events.
//!
//! Publishing never blocks and never fails: when a subscriber's queue is
//! full, its oldest pending event is dropped and that subscriber's lag
//! count grows. The next `receive` on such a subscription reports
//! `Lagged(n)` exactly once and then resumes from the newest retained
//! point. Closing the hub is one-way: afterwards publishing is a no-op and
//! every `receive` reports `Closed`.

use vstd::prelude::*;

use crate::caption::{CaptionEvent, CaptionEventView};

verus! {

/// Mathematical content of one subscription slot: its stable handle id,
/// its pending events (oldest first), and how many events it has lost
/// since its last receive.
#[verifier::ext_equal]
pub ghost struct SlotView {
    pub id: u64,
    pub queue: Seq<CaptionEventView>,
    pub lagged: nat,
}

/// One subscription's state inside the hub.
#[derive(Debug)]
pub struct Slot {
    pub id: u64,
    pub queue: Vec<CaptionEvent>,
    pub lagged: u64,
}

impl View for Slot {
    type V = SlotView;

    open spec fn view(&self) -> SlotView {
        SlotView {
            id: self.id,
            queue: self.queue@.map_values(|e: CaptionEvent| e@),
            lagged: self.lagged as nat,
        }
    }
}

/// Handle returned by `subscribe` and accepted by `receive` and
/// `unsubscribe`.
#[derive(Debug, Clone, Copy, PartialEq, Eq, Structural)]
pub struct SubscriptionId {
    pub id: u64,
}

/// Mathematical content of the hub: the subscription slots in attach
/// order, the per-subscriber queue capacity, and whether the hub is
/// closed.
#[verifier::ext_equal]
pub ghost struct HubView {
    pub subs: Seq<SlotView>,
    pub capacity: nat,
    pub closed: bool,
}

/// What one call to `receive` reports: the next pending event, a one-time
/// lag notice, a closed (or unknown) subscription, or nothing pending yet.
/// `Pending` is the would-block outcome; a live session waits and calls
/// `receive` again.
#[derive(Debug)]
pub enum ReceiveOutcome {
    Event(CaptionEvent),
    Lagged(u64),
    Closed,
    Pending,
}

/// Index of the first slot with handle id `id`, or -1 when no slot has it.
pub open spec fn find_slot(subs: Seq<SlotView>, id: u64) -> int
    decreases subs.len(),
{
    if subs.len() == 0 {
        -1
    } else if subs[0].id == id {
        0
    } else if find_slot(subs.drop_first(), id) < 0 {
        -1
    } else {
        find_slot(subs.drop_first(), id) + 1
    }
}

/// One slot after one published event: the event is appended; if the queue
/// was full, the oldest pending event falls out and the lag count grows by
/// one.
pub open spec fn slot_after_publish(s: SlotView, e: CaptionEventView, cap: nat) -> SlotView {
    if s.queue.len() < cap {
        SlotView { id: s.id, queue: s.queue.push(e), lagged: s.lagged }
    } else {
        SlotView { id: s.id, queue: s.queue.push(e).drop_first(), lagged: s.lagged + 1 }
    }
}

/// One slot after a whole sequence of published events, in order.
pub open spec fn slot_after_publishes(s: SlotView, es: Seq<CaptionEventView>, cap: nat) -> SlotView
    decreases es.len(),
{
    if es.len() == 0 {
        s
    } else {
        slot_after_publish(slot_after_publishes(s, es.drop_last(), cap), es.last(), cap)
    }
}

pub proof fn lemma_find_slot_in_range(subs: Seq<SlotView>, id: u64)
    ensures
        find_slot(subs, id) == -1 || (0 <= find_slot(subs, id) < subs.len() && subs[find_slot(
            subs,
            id,
        )].id == id),
    decreases subs.len(),
{
    if subs.len() > 0 && subs[0].id != id {
        lemma_find_slot_in_range(subs.drop_first(), id);
    }
}

pub proof fn lemma_find_slot_found(subs: Seq<SlotView>, id: u64, j: int)
    requires
        0 <= j < subs.len(),
        subs[j].id == id,
        forall|k: int| 0 <= k < j ==> subs[k].id != id,
    ensures
        find_slot(subs, id) == j,
    decreases j,
{
    if j > 0 {
        assert(forall|k: int| 0 <= k < j - 1 ==> subs.drop_first()[k].id != id);
        lemma_find_slot_found(subs.drop_first(), id, j - 1);
    }
}

pub proof fn lemma_find_slot_missing(subs: Seq<SlotView>, id: u64)
    requires
        forall|k: int| 0 <= k < subs.len() ==> subs[k].id != id,
    ensures
        find_slot(subs, id) == -1,
    decreases subs.len(),
{
    if subs.len() > 0 {
        assert(forall|k: int| 0 <= k < subs.len() - 1 ==> subs.drop_first()[k].id != id);
        lemma_find_slot_missing(subs.drop_first(), id);
    }
}

/// The hub. Constructed once, shared by one publisher and any number of
/// sessions; subscriptions are arena slots addressed by stable handle ids.
#[derive(Debug)]
pub struct Hub {
    pub slots: Vec<Slot>,
    pub capacity: usize,
    pub closed: bool,
    pub next_id: u64,
}

impl View for Hub {
    type V = HubView;

    open spec fn view(&self) -> HubView {
        HubView {
            subs: self.slots@.map_values(|s: Slot| s@),
            capacity: self.capacity as nat,
            closed: self.closed,
        }
    }
}

impl Hub {
    /// Well-formed hub: positive capacity, handle ids distinct and all
    /// below the next fresh id, and no queue beyond capacity.
    pub open spec fn wf(&self) -> bool {
        &&& self.capacity >= 1
        &&& forall|i: int, j: int|
            0 <= i < j < self@.subs.len() ==> self@.subs[i].id != self@.subs[j].id
        &&& forall|i: int| 0 <= i < self@.subs.len() ==> #[trigger] self@.subs[i].id < self.next_id
        &&& forall|i: int|
            0 <= i < self@.subs.len() ==> #[trigger] self@.subs[i].queue.len() <= self@.capacity
    }

    /// The handle is attached to a live slot.
    pub open spec fn is_subscribed(&self, s: SubscriptionId) -> bool {
        find_slot(self@.subs, s.id) >= 0
    }

    /// A fresh, open hub with no subscribers. The per-subscriber queue
    /// capacity must be positive, as with any bounded broadcast channel.
    pub fn new(capacity: usize) -> (r: Hub)
        requires
            capacity >= 1,
        ensures
            r.wf(),
            r@.capacity == capacity,
            !r@.closed,
            r@.subs == Seq::<SlotView>::empty(),
            r.next_id == 0,
    {
        let r = Hub { slots: Vec::new(), capacity, closed: false, next_id: 0 };
        proof {
            assert(r@.subs =~= Seq::<SlotView>::empty());
        }
        r
    }

    fn find_index(&self, id: u64) -> (r: Option<usize>)
        ensures
            match r {
                Some(j) => j < self@.subs.len() && j as int == find_slot(self@.subs, id),
                None => find_slot(self@.subs, id) == -1,
            },
    {
        let mut j: usize = 0;
        while j < self.slots.len()
            invariant
                j <= self@.subs.len(),
                self@.subs.len() == self.slots@.len(),
                forall|k: int| 0 <= k < j ==> self@.subs[k].id != id,
            decreases self.slots@.len() - j,
        {
            if self.slots[j].id == id {
                proof {
                    lemma_find_slot_found(self@.subs, id, j as int);
                }
                return Some(j);
            }
            j = j + 1;
        }
        proof {
            lemma_find_slot_missing(self@.subs, id);
        }
        None
    }

    /// Registers a new, empty subscription and returns its fresh handle.
    /// No historical backlog is delivered: the queue starts empty.
    pub fn subscribe(&mut self) -> (s: SubscriptionId)
        requires
            old(self).wf(),
            old(self).next_id < u64::MAX,
        ensures
            final(self).wf(),
            final(self)@.capacity == old(self)@.capacity,
            final(self)@.closed == old(self)@.closed,
            final(self).next_id == old(self).next_id + 1,
            s.id == old(self).next_id,
            find_slot(old(self)@.subs, s.id) == -1,
            final(self)@.subs == old(self)@.subs.push(
                SlotView { id: s.id, queue: Seq::<CaptionEventView>::empty(), lagged: 0 },
            ),
    {
        let id = self.next_id;
        self.next_id = self.next_id + 1;
        let slot = Slot { id, queue: Vec::new(), lagged: 0 };
        proof {
            assert(slot@.queue =~= Seq::<CaptionEventView>::empty());
            assert(self@.subs == old(self)@.subs);
            assert forall|k: int| 0 <= k < self@.subs.len() implies self@.subs[k].id != id by {
                assert(old(self)@.subs[k].id < old(self).next_id);
            }
            lemma_find_slot_missing(self@.subs, id);
        }
        let ghost subs0 = self@.subs;
        self.slots.push(slot);
        proof {
            assert(self@.subs =~= subs0.push(
                SlotView { id: id, queue: Seq::<CaptionEventView>::empty(), lagged: 0 },
            ));
            assert forall|i: int| 0 <= i < self@.subs.len() implies #[trigger] self@.subs[i].id
                < self.next_id by {
                if i < subs0.len() {
                    assert(subs0[i].id < old(self).next_id);
                }
            }
            assert forall|i: int, j: int| 0 <= i < j < self@.subs.len() implies self@.subs[i].id
                != self@.subs[j].id by {
                if j == subs0.len() {
                    assert(subs0[i].id < old(self).next_id);
                }
            }
            assert forall|i: int| 0 <= i < self@.subs.len() implies #[trigger] self@.subs[
                i
            ].queue.len() <= self@.capacity by {
                if i < subs0.len() {
                    assert(subs0[i].queue.len() <= old(self)@.capacity);
                }
            }
        }
        SubscriptionId { id }
    }

    /// Removes the subscription, if it is still attached; removing an
    /// already-removed handle does nothing. Afterwards the handle is not
    /// subscribed, so later publishes cannot deliver to it.
    pub fn unsubscribe(&mut self, s: SubscriptionId)
        ensures
            final(self)@.capacity == old(self)@.capacity,
            final(self)@.closed == old(self)@.closed,
            final(self).next_id == old(self).next_id,
            find_slot(old(self)@.subs, s.id) < 0 ==> final(self)@.subs == old(self)@.subs,
            find_slot(old(self)@.subs, s.id) >= 0 ==> final(self)@.subs == old(self)@.subs.remove(
                find_slot(old(self)@.subs, s.id),
            ),
            old(self).wf() ==> final(self).wf() && !final(self).is_subscribed(s),
    {
        let ghost subs0 = self@.subs;
        match self.find_index(s.id) {
            Some(j) => {
                self.slots.remove(j);
                proof {
                    assert(self@.subs =~= subs0.remove(j as int));
                    if old(self).wf() {
                        lemma_find_slot_in_range(subs0, s.id);
                        assert forall|k: int| 0 <= k < self@.subs.len() implies self@.subs[k].id
                            != s.id by {
                            if k < j {
                                assert(self@.subs[k] == subs0[k]);
                            } else {
                                assert(self@.subs[k] == subs0[k + 1]);
                            }
                        }
                        lemma_find_slot_missing(self@.subs, s.id);
                    }
                }
            },
            None => {
                proof {
                    if old(self).wf() {
                        lemma_find_slot_in_range(subs0, s.id);
                    }
                }
            },
        }
    }

    /// Delivers `event` to every attached subscription: appended to each
    /// queue, dropping each full queue's oldest entry and counting the
    /// drop against that subscriber alone. Never blocks, never fails; on a
    /// closed hub it is a no-op.
    pub fn publish(&mut self, event: &CaptionEvent)
        requires
            old(self).wf(),
            forall|i: int|
                0 <= i < old(self)@.subs.len() ==> #[trigger] old(self)@.subs[i].lagged
                    < u64::MAX,
        ensures
            final(self).wf(),
            final(self)@.capacity == old(self)@.capacity,
            final(self)@.closed == old(self)@.closed,
            final(self).next_id == old(self).next_id,
            old(self)@.closed ==> final(self)@ == old(self)@,
            !old(self)@.closed ==> final(self)@.subs.len() == old(self)@.subs.len() && forall|
                i: int,
            |
                0 <= i < old(self)@.subs.len() ==> final(self)@.subs[i] == slot_after_publish(
                    #[trigger] old(self)@.subs[i],
                    event@,
                    old(self)@.capacity,
                ),
    {
        if self.closed {
            return ;
        }
        let ghost subs0 = self@.subs;
        let ghost cap0 = self@.capacity;
        let ghost ev = event@;
        let cap = self.capacity;
        let n = self.slots.len();
        let mut i: usize = 0;
        while i < n
            invariant
                n == self.slots@.len(),
                i <= n,
                self.capacity == cap,
                cap as nat == cap0,
                cap >= 1,
                !self.closed,
                self.next_id == old(self).next_id,
                ev == event@,
                subs0.len() == n,
                forall|j: int| i <= j < n ==> self@.subs[j] == subs0[j],
                forall|j: int|
                    0 <= j < i ==> self@.subs[j] == slot_after_publish(
                        #[trigger] subs0[j],
                        ev,
                        cap0,
                    ),
                forall|j: int| 0 <= j < n ==> #[trigger] subs0[j].lagged < u64::MAX,
                forall|j: int| 0 <= j < n ==> #[trigger] subs0[j].queue.len() <= cap0,
            decreases n - i,
        {
            let ghost before = self@.subs[i as int];
            proof {
                assert(before == subs0[i as int]);
                assert(before.lagged < u64::MAX);
            }
            let slot = &mut self.slots[i];
            proof {
                assert(slot@ == before);
            }
            if slot.queue.len() >= cap {
                slot.queue.remove(0);
                slot.lagged = slot.lagged + 1;
                slot.queue.push(event.clone());
                proof {
                    assert(slot@.queue =~= before.queue.push(ev).drop_first());
                    assert(slot@ == slot_after_publish(before, ev, cap0));
                }
            } else {
                slot.queue.push(event.clone());
                proof {
                    assert(slot@.queue =~= before.queue.push(ev));
                    assert(slot@ == slot_after_publish(before, ev, cap0));
                }
            }
            proof {
                assert forall|j: int| 0 <= j < i + 1 implies self@.subs[j] == slot_after_publish(
                    #[trigger] subs0[j],
                    ev,
                    cap0,
                ) by {
                }
            }
            i = i + 1;
        }
        proof {
            assert forall|a: int, b: int| 0 <= a < b < self@.subs.len() implies self@.subs[a].id
                != self@.subs[b].id by {
                assert(self@.subs[a] == slot_after_publish(subs0[a], ev, cap0));
                assert(self@.subs[b] == slot_after_publish(subs0[b], ev, cap0));
            }
            assert forall|a: int| 0 <= a < self@.subs.len() implies #[trigger] self@.subs[a].id
                < self.next_id by {
                assert(self@.subs[a] == slot_after_publish(subs0[a], ev, cap0));
            }
            assert forall|a: int| 0 <= a < self@.subs.len() implies #[trigger] self@.subs[
                a
            ].queue.len() <= self@.capacity by {
                assert(self@.subs[a] == slot_after_publish(subs0[a], ev, cap0));
                assert(subs0[a].queue.len() <= cap0);
            }
        }
    }

    /// Closes the hub for good: publishing becomes a no-op and every
    /// receive, pending or future, reports `Closed`.
    pub fn close(&mut self)
        ensures
            final(self)@.subs == old(self)@.subs,
            final(self)@.capacity == old(self)@.capacity,
            final(self)@.closed,
            final(self).next_id == old(self).next_id,
            old(self).wf() ==> final(self).wf(),
    {
        self.closed = true;
    }

    /// One poll of the subscription `s`: `Closed` on a closed hub or an
    /// unknown (removed) handle; otherwise a pending lag notice, exactly
    /// once, before anything newer is delivered; otherwise the oldest
    /// pending event; otherwise `Pending`, and the caller waits and polls
    /// again. Blocking is the session's affair, never the publisher's.
    pub fn receive(&mut self, s: SubscriptionId) -> (r: ReceiveOutcome)
        requires
            old(self).wf(),
        ensures
            final(self).wf(),
            final(self)@.capacity == old(self)@.capacity,
            final(self)@.closed == old(self)@.closed,
            final(self).next_id == old(self).next_id,
            old(self)@.closed || find_slot(old(self)@.subs, s.id) < 0 ==> r is Closed
                && final(self)@ == old(self)@,
            !old(self)@.closed && find_slot(old(self)@.subs, s.id) >= 0 ==> {
                let j = find_slot(old(self)@.subs, s.id);
                let sl = old(self)@.subs[j];
                &&& sl.lagged > 0 ==> (r matches ReceiveOutcome::Lagged(n) && n == sl.lagged)
                    && final(self)@.subs == old(self)@.subs.update(
                    j,
                    SlotView { id: sl.id, queue: sl.queue, lagged: 0 },
                )
                &&& sl.lagged == 0 && sl.queue.len() > 0 ==> (r matches ReceiveOutcome::Event(e)
                    && e@ == sl.queue[0]) && final(self)@.subs == old(self)@.subs.update(
                    j,
                    SlotView { id: sl.id, queue: sl.queue.drop_first(), lagged: sl.lagged },
                )
                &&& sl.lagged == 0 && sl.queue.len() == 0 ==> r is Pending
                    && final(self)@ == old(self)@
            },
    {
        if self.closed {
            return ReceiveOutcome::Closed;
        }
        let ghost subs0 = self@.subs;
        match self.find_index(s.id) {
            None => ReceiveOutcome::Closed,
            Some(j) => {
                proof {
                    lemma_find_slot_in_range(subs0, s.id);
                }
                let ghost sl = subs0[j as int];
                let slot = &mut self.slots[j];
                if slot.lagged > 0 {
                    let n = slot.lagged;
                    slot.lagged = 0;
                    proof {
                        assert(slot@ =~= SlotView { id: sl.id, queue: sl.queue, lagged: 0 });
                        assert(self@.subs =~= subs0.update(
                            j as int,
                            SlotView { id: sl.id, queue: sl.queue, lagged: 0 },
                        ));
                        lemma_wf_after_update(*old(self), *self, subs0, j as int);
                    }
                    ReceiveOutcome::Lagged(n)
                } else if slot.queue.len() > 0 {
                    let e = slot.queue.remove(0);
                    proof {
                        assert(slot@.queue =~= sl.queue.drop_first());
                        assert(self@.subs =~= subs0.update(
                            j as int,
                            SlotView { id: sl.id, queue: sl.queue.drop_first(), lagged: sl.lagged },
                        ));
                        lemma_wf_after_update(*old(self), *self, subs0, j as int);
                    }
                    ReceiveOutcome::Event(e)
                } else {
                    proof {
                        assert(self@.subs =~= subs0);
                        assert(self@ =~= old(self)@);
                    }
                    ReceiveOutcome::Pending
                }
            },
        }
    }
}

proof fn lemma_wf_after_update(h0: Hub, h1: Hub, subs0: Seq<SlotView>, j: int)
    requires
        h0.wf(),
        subs0 == h0@.subs,
        0 <= j < subs0.len(),
        h1.capacity == h0.capacity,
        h1.next_id == h0.next_id,
        h1@.subs.len() == subs0.len(),
        forall|k: int| 0 <= k < subs0.len() && k != j ==> h1@.subs[k] == subs0[k],
        h1@.subs[j].id == subs0[j].id,
        h1@.subs[j].queue.len() <= subs0[j].queue.len(),
    ensures
        h1.wf(),
{
    assert forall|a: int, b: int| 0 <= a < b < h1@.subs.len() implies h1@.subs[a].id
        != h1@.subs[b].id by {
        assert(h1@.subs[a].id == subs0[a].id && h1@.subs[b].id == subs0[b].id);
    }
    assert forall|a: int| 0 <= a < h1@.subs.len() implies #[trigger] h1@.subs[a].id
        < h1.next_id by {
        assert(subs0[a].id < h0.next_id);
        assert(h1@.subs[a].id == subs0[a].id);
    }
    assert forall|a: int| 0 <= a < h1@.subs.len() implies #[trigger] h1@.subs[a].queue.len()
        <= h1@.capacity by {
        assert(subs0[a].queue.len() <= h0@.capacity);
    }
}

/// Law of lossy fan-out: a fresh subscription (empty queue, no lag) that
/// sees `es.len()` events published and never receives ends up with
/// exactly the `cap` most recent events pending, in publish order, and a
/// lag count of exactly `es.len() - cap`; when everything fits, it holds
/// all the events and no lag at all.
pub proof fn lemma_burst_publish(id: u64, es: Seq<CaptionEventView>, cap: nat)
    requires
        cap >= 1,
    ensures
        ({
            let s = slot_after_publishes(
                SlotView { id: id, queue: Seq::<CaptionEventView>::empty(), lagged: 0 },
                es,
                cap,
            );
            &&& s.id == id
            &&& es.len() <= cap ==> s.queue == es && s.lagged == 0
            &&& es.len() > cap ==> s.queue == es.skip(es.len() - cap) && s.lagged == es.len()
                - cap
        }),
    decreases es.len(),
{
    let s0 = SlotView { id: id, queue: Seq::<CaptionEventView>::empty(), lagged: 0 };
    if es.len() == 0 {
        assert(slot_after_publishes(s0, es, cap).queue =~= es);
    } else {
        lemma_burst_publish(id, es.drop_last(), cap);
        let prev = slot_after_publishes(s0, es.drop_last(), cap);
        let n = es.len() as int;
        if n - 1 < cap {
            assert(prev.queue =~= es.drop_last());
            assert(prev.queue.push(es.last()) =~= es);
        } else if n - 1 == cap {
            assert(prev.queue =~= es.drop_last());
            assert(prev.queue.push(es.last()) =~= es);
            assert(es.drop_first() =~= es.skip(n - cap));
        } else {
            assert(prev.queue =~= es.drop_last().skip(n - 1 - cap));
            assert(prev.queue.push(es.last()) =~= es.skip(n - 1 - cap));
            assert(es.skip(n - 1 - cap).drop_first() =~= es.skip(n - cap));
        }
    }
}

/// Law of isolation: a handle that is not subscribed before a publish is
/// not subscribed after it either, so the removed subscription can never
/// be delivered to; publishing after an unsubscribe is, for that handle, a
/// no-op, and a later `receive` on it reports `Closed`.
pub proof fn lemma_unsubscribed_not_delivered(
    subs: Seq<SlotView>,
    subs2: Seq<SlotView>,
    id: u64,
    e: CaptionEventView,
    cap: nat,
)
    requires
        find_slot(subs, id) == -1,
        subs2.len() == subs.len(),
        forall|i: int| 0 <= i < subs.len() ==> subs2[i] == slot_after_publish(
            #[trigger] subs[i],
            e,
            cap,
        ),
    ensures
        find_slot(subs2, id) == -1,
{
    assert forall|k: int| 0 <= k < subs2.len() implies subs2[k].id != id by {
        lemma_find_slot_in_range(subs, id);
        if subs[k].id == id {
            lemma_find_slot_found_exists(subs, id, k);
        }
    }
    lemma_find_slot_missing(subs2, id);
}

proof fn lemma_find_slot_found_exists(subs: Seq<SlotView>, id: u64, j: int)
    requires
        0 <= j < subs.len(),
        subs[j].id == id,
    ensures
        find_slot(subs, id) >= 0,
    decreases subs.len(),
{
    if subs[0].id != id {
        lemma_find_slot_found_exists(subs.drop_first(), id, j - 1);
    }
}

} // verus!
