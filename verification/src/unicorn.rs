//! The collector's shared state: the bounded store and the subscribers
//! that follow it live.
//!
//! A subscriber first gets a snapshot of the store, then every item that
//! is ingested after the snapshot was taken, once and in order. Taking the
//! snapshot and registering for what follows is one step, and so is
//! storing an item and publishing it: both need the state exclusively.
//! Each subscriber has a delivery buffer of its own. One that falls behind
//! by more than its buffer loses the oldest items waiting for it, is told
//! how many it lost, and goes on with the next one.

use crate::event::Event;
use crate::registry::{
    as_map, keys_distinct, lemma_absent, lemma_entry, lemma_key, lemma_map_values, lemma_push,
    lemma_remove, lemma_replace,
};
use crate::store::{item_views, keep_last, pushed_all, LogItem, LogItemView, Store};
use crate::wire::{decode, DecodeError};
use std::collections::VecDeque;
use vstd::prelude::*;

verus! {

/// How many items wait for a subscriber of [`Unicorn::new`] at most.
pub const SUBSCRIBER_BUFFER: usize = 1000;

/// What a subscriber gets when it asks for its next delivery.
#[derive(Debug, PartialEq, Eq)]
pub enum Delivery {
    /// The next item of the live tail.
    Item(LogItem),
    /// The subscriber fell behind: so many items were lost to it. The
    /// next delivery goes on with the oldest item that still waits.
    Gap(u64),
    /// Nothing waits for the subscriber at this moment.
    Idle,
    /// The subscription does not exist, or no longer.
    Closed,
}

/// The mathematical value of a [`Delivery`].
pub enum DeliveryView {
    Item(LogItemView),
    Gap(u64),
    Idle,
    Closed,
}

impl View for Delivery {
    type V = DeliveryView;

    open spec fn view(&self) -> DeliveryView {
        match *self {
            Delivery::Item(item) => DeliveryView::Item(item@),
            Delivery::Gap(missed) => DeliveryView::Gap(missed),
            Delivery::Idle => DeliveryView::Idle,
            Delivery::Closed => DeliveryView::Closed,
        }
    }
}

/// A count of lost items, which stops at the largest number that it can
/// hold.
pub open spec fn capped(count: int) -> nat {
    if count > u64::MAX {
        u64::MAX as nat
    } else if count < 0 {
        0
    } else {
        count as nat
    }
}

/// One subscription as a mathematical value: the items that wait for the
/// subscriber, oldest first, and how many were lost to it since it was
/// last told.
pub struct SubscriptionView {
    pub pending: Seq<LogItemView>,
    pub missed: nat,
}

impl SubscriptionView {
    /// A subscription for which nothing waits and nothing was lost.
    pub open spec fn fresh() -> SubscriptionView {
        SubscriptionView { pending: Seq::empty(), missed: 0 }
    }

    /// The subscription after `item` was published to it, with a buffer of
    /// `buffer` items: what does not fit is lost from the old end.
    pub open spec fn offered(self, item: LogItemView, buffer: nat) -> SubscriptionView {
        let all = self.pending.push(item);
        let kept = keep_last(all, buffer);
        SubscriptionView { pending: kept, missed: capped(self.missed + all.len() - kept.len()) }
    }

    /// What the subscriber gets next: word of a loss before anything else,
    /// then the oldest item that waits.
    pub open spec fn delivery(self) -> DeliveryView {
        if self.missed > 0 {
            DeliveryView::Gap(self.missed as u64)
        } else if self.pending.len() > 0 {
            DeliveryView::Item(self.pending.first())
        } else {
            DeliveryView::Idle
        }
    }

    /// The subscription after the subscriber got its next delivery.
    pub open spec fn polled(self) -> SubscriptionView {
        if self.missed > 0 {
            SubscriptionView { pending: self.pending, missed: 0 }
        } else if self.pending.len() > 0 {
            SubscriptionView { pending: self.pending.drop_first(), missed: 0 }
        } else {
            self
        }
    }
}

/// The shared state as a mathematical value.
pub struct UnicornView {
    /// What the store holds, oldest first.
    pub history: Seq<LogItemView>,
    /// The capacity of the store.
    pub capacity: nat,
    /// The registered subscriptions, by their numbers.
    pub subscribers: Map<u64, SubscriptionView>,
    /// How many items wait for one subscriber at most.
    pub buffer: nat,
    /// How many subscriptions were made so far.
    pub issued: nat,
}

impl UnicornView {
    /// The store and every delivery buffer keep to their bounds, and every
    /// registered subscription was made before: the next one is new.
    pub open spec fn wf(self) -> bool {
        &&& self.history.len() <= self.capacity
        &&& self.issued <= u64::MAX
        &&& forall|id: u64| #[trigger]
            self.subscribers.contains_key(id) ==> {
                &&& id < self.issued
                &&& self.subscribers[id].pending.len() <= self.buffer
                &&& self.subscribers[id].missed <= u64::MAX
            }
    }

    /// The state after `item` was put into the store.
    pub open spec fn pushed(self, item: LogItemView) -> UnicornView {
        UnicornView { history: keep_last(self.history.push(item), self.capacity), ..self }
    }

    /// The state after `item` was published to every subscriber.
    pub open spec fn published(self, item: LogItemView) -> UnicornView {
        UnicornView {
            subscribers: self.subscribers.map_values(
                |s: SubscriptionView| s.offered(item, self.buffer),
            ),
            ..self
        }
    }

    /// The state after `item` was stored and published, in one step.
    pub open spec fn ingested(self, item: LogItemView) -> UnicornView {
        self.pushed(item).published(item)
    }

    /// The state after each of `items` was ingested in turn.
    pub open spec fn ingested_all(self, items: Seq<LogItemView>) -> UnicornView
        decreases items.len(),
    {
        if items.len() == 0 {
            self
        } else {
            self.ingested_all(items.drop_last()).ingested(items.last())
        }
    }

    /// The state after a subscription was made: it has the next number,
    /// and nothing waits for it yet.
    pub open spec fn subscribed(self) -> UnicornView {
        UnicornView {
            subscribers: self.subscribers.insert(self.issued as u64, SubscriptionView::fresh()),
            issued: self.issued + 1,
            ..self
        }
    }

    /// What the subscriber `id` gets next.
    pub open spec fn delivery(self, id: u64) -> DeliveryView {
        if self.subscribers.contains_key(id) {
            self.subscribers[id].delivery()
        } else {
            DeliveryView::Closed
        }
    }

    /// The state after the subscriber `id` got its next delivery.
    pub open spec fn polled(self, id: u64) -> UnicornView {
        if self.subscribers.contains_key(id) {
            UnicornView {
                subscribers: self.subscribers.insert(id, self.subscribers[id].polled()),
                ..self
            }
        } else {
            self
        }
    }

    /// The state after the subscription `id` was dropped.
    pub open spec fn unsubscribed(self, id: u64) -> UnicornView {
        UnicornView { subscribers: self.subscribers.remove(id), ..self }
    }
}

/// One registered subscription.
struct Subscriber {
    id: u64,
    queue: VecDeque<LogItem>,
    missed: u64,
}

impl View for Subscriber {
    type V = SubscriptionView;

    closed spec fn view(&self) -> SubscriptionView {
        SubscriptionView { pending: item_views(self.queue@), missed: self.missed as nat }
    }
}

impl Subscriber {
    /// Publishes `item` to the subscription, whose buffer holds `buffer`
    /// items.
    fn offer(&mut self, item: LogItem, buffer: usize)
        requires
            old(self).queue@.len() <= buffer,
        ensures
            final(self).id == old(self).id,
            final(self).queue@.len() <= buffer,
            final(self)@ == old(self)@.offered(item@, buffer as nat),
    {
        let ghost all = self@.pending.push(item@);
        if buffer == 0 || self.queue.len() == buffer {
            if self.missed < u64::MAX {
                self.missed = self.missed + 1;
            }
        }
        if buffer == 0 {
            assert(self@.pending =~= keep_last(all, 0));
            return ;
        }
        if self.queue.len() == buffer {
            self.queue.pop_front();
        }
        self.queue.push_back(item);
        assert(self@.pending =~= keep_last(all, buffer as nat));
    }

    /// Takes the next delivery out of the subscription.
    fn poll(&mut self) -> (delivery: Delivery)
        ensures
            final(self).id == old(self).id,
            final(self).queue@.len() <= old(self).queue@.len(),
            final(self)@ == old(self)@.polled(),
            delivery@ == old(self)@.delivery(),
    {
        if self.missed > 0 {
            let missed = self.missed;
            self.missed = 0;
            return Delivery::Gap(missed);
        }
        match self.queue.pop_front() {
            Some(item) => {
                assert(self@.pending =~= old(self)@.pending.drop_first());
                Delivery::Item(item)
            },
            None => Delivery::Idle,
        }
    }
}

/// The subscriptions as entries: the number of each with its value.
spec fn entries(subscribers: Seq<Subscriber>) -> Seq<(u64, SubscriptionView)> {
    Seq::new(subscribers.len(), |i: int| (subscribers[i].id, subscribers[i]@))
}

/// The store together with the registry of its live subscribers.
pub struct Unicorn {
    store: Store,
    subscribers: Vec<Subscriber>,
    buffer: usize,
    issued: u64,
}

impl View for Unicorn {
    type V = UnicornView;

    closed spec fn view(&self) -> UnicornView {
        UnicornView {
            history: self.store@,
            capacity: self.store.spec_capacity() as nat,
            subscribers: as_map(entries(self.subscribers@)),
            buffer: self.buffer as nat,
            issued: self.issued as nat,
        }
    }
}

impl Unicorn {
    /// The store is well formed, no number names two subscriptions, every
    /// subscription was made before, and every delivery buffer keeps to
    /// its bound.
    pub closed spec fn wf(&self) -> bool {
        &&& self.store.wf()
        &&& keys_distinct(entries(self.subscribers@))
        &&& forall|i: int|
            0 <= i < self.subscribers.len() ==> {
                &&& (#[trigger] self.subscribers[i]).id < self.issued
                &&& self.subscribers[i].queue@.len() <= self.buffer
            }
    }

    /// The value of a well-formed state is well formed.
    pub proof fn lemma_view_wf(self)
        requires
            self.wf(),
        ensures
            self@.wf(),
    {
        self.store.lemma_bounded();
        assert forall|id: u64| #[trigger] self@.subscribers.contains_key(id) implies {
            &&& id < self@.issued
            &&& self@.subscribers[id].pending.len() <= self@.buffer
            &&& self@.subscribers[id].missed <= u64::MAX
        } by {
            lemma_key(entries(self.subscribers@), id);
        }
    }

    /// An empty store of capacity `capacity`, without subscribers. Each
    /// subscriber to come gets a buffer of [`SUBSCRIBER_BUFFER`] items.
    pub fn new(capacity: usize) -> (unicorn: Unicorn)
        ensures
            unicorn.wf(),
            unicorn@ == (UnicornView {
                history: Seq::empty(),
                capacity: capacity as nat,
                subscribers: Map::empty(),
                buffer: SUBSCRIBER_BUFFER as nat,
                issued: 0,
            }),
    {
        Unicorn::with_buffer(capacity, SUBSCRIBER_BUFFER)
    }

    /// An empty store of capacity `capacity`, without subscribers. Each
    /// subscriber to come gets a buffer of `buffer` items.
    pub fn with_buffer(capacity: usize, buffer: usize) -> (unicorn: Unicorn)
        ensures
            unicorn.wf(),
            unicorn@ == (UnicornView {
                history: Seq::empty(),
                capacity: capacity as nat,
                subscribers: Map::empty(),
                buffer: buffer as nat,
                issued: 0,
            }),
    {
        let unicorn = Unicorn {
            store: Store::new(capacity),
            subscribers: Vec::new(),
            buffer,
            issued: 0,
        };
        assert(unicorn@.subscribers =~= Map::<u64, SubscriptionView>::empty());
        unicorn
    }

    /// The position of the subscription numbered `id`, if there is one.
    fn find(&self, id: u64) -> (found: Option<usize>)
        requires
            self.wf(),
        ensures
            match found {
                Some(i) => {
                    &&& i < self.subscribers.len()
                    &&& self.subscribers[i as int].id == id
                    &&& self@.subscribers.contains_key(id)
                    &&& self@.subscribers[id] == self.subscribers[i as int]@
                },
                None => !self@.subscribers.contains_key(id),
            },
    {
        let mut i: usize = 0;
        while i < self.subscribers.len()
            invariant
                self.wf(),
                i <= self.subscribers.len(),
                forall|j: int| 0 <= j < i ==> (#[trigger] entries(self.subscribers@)[j]).0 != id,
            decreases self.subscribers.len() - i,
        {
            if self.subscribers[i].id == id {
                proof {
                    lemma_entry(entries(self.subscribers@), i as int);
                }
                return Some(i);
            }
            i += 1;
        }
        proof {
            lemma_absent(entries(self.subscribers@), id);
        }
        None
    }

    /// Puts `item` into the store, evicting the oldest item where the
    /// store is full. Subscribers are not told.
    pub fn push(&mut self, item: LogItem)
        requires
            old(self).wf(),
        ensures
            final(self).wf(),
            final(self)@ == old(self)@.pushed(item@),
    {
        self.store.push(item);
    }

    /// A copy of what the store holds at this moment, oldest first.
    pub fn snapshot(&self) -> (items: Vec<LogItem>)
        ensures
            item_views(items@) == self@.history,
    {
        self.store.snapshot()
    }

    /// How many subscriptions were made so far.
    pub fn issued(&self) -> (issued: u64)
        ensures
            issued == self@.issued,
    {
        self.issued
    }

    /// Publishes `item` to every registered subscriber.
    pub fn publish(&mut self, item: &LogItem)
        requires
            old(self).wf(),
        ensures
            final(self).wf(),
            final(self)@ == old(self)@.published(item@),
    {
        let ghost before = self.subscribers@;
        let buffer = self.buffer;
        let mut i: usize = 0;
        while i < self.subscribers.len()
            invariant
                i <= self.subscribers.len(),
                self.subscribers.len() == before.len(),
                self.store == old(self).store,
                self.buffer == buffer,
                self.issued == old(self).issued,
                buffer == old(self).buffer,
                before == old(self).subscribers@,
                old(self).wf(),
                forall|j: int|
                    0 <= j < before.len() ==> (#[trigger] self.subscribers[j]).id == before[j].id,
                forall|j: int|
                    0 <= j < before.len() ==> (#[trigger] self.subscribers[j]).queue@.len()
                        <= buffer,
                forall|j: int|
                    0 <= j < i ==> (#[trigger] self.subscribers[j])@ == before[j]@.offered(
                        item@,
                        buffer as nat,
                    ),
                forall|j: int| i <= j < before.len() ==> #[trigger] self.subscribers[j] == before[j],
            decreases self.subscribers.len() - i,
        {
            self.subscribers[i].offer(item.clone(), buffer);
            i += 1;
        }
        proof {
            lemma_map_values(
                entries(before),
                entries(self.subscribers@),
                |s: SubscriptionView| s.offered(item@, buffer as nat),
            );
        }
    }

    /// Stores `item` and publishes it to every registered subscriber, in
    /// one step.
    pub fn ingest(&mut self, item: LogItem)
        requires
            old(self).wf(),
        ensures
            final(self).wf(),
            final(self)@ == old(self)@.ingested(item@),
    {
        self.publish(&item);
        self.store.push(item);
    }

    /// Takes in what a sender submitted: decodes `bytes` into an event,
    /// tags it with the sender's origin `ip`, stores it and publishes it.
    /// Bytes that carry no event are rejected, and nothing is stored or
    /// published.
    pub fn send_log(&mut self, bytes: &[u8], ip: String) -> (result: Result<(), DecodeError>)
        requires
            old(self).wf(),
        ensures
            final(self).wf(),
            match decode(bytes@) {
                Ok(event) => result is Ok && final(self)@ == old(self)@.ingested(
                    LogItemView { ip: ip@, event },
                ),
                Err(error) => result == Err::<(), DecodeError>(error) && final(self)@ == old(self)@,
            },
    {
        match Event::from_bytes(bytes) {
            Ok(event) => {
                self.ingest(LogItem::new(ip, event));
                Ok(())
            },
            Err(error) => Err(error),
        }
    }

    /// Registers a subscriber. Returns the number of its subscription and
    /// a copy of what the store holds at this moment; every item ingested
    /// from now on waits for the subscriber until it is delivered.
    pub fn subscribe(&mut self) -> (subscription: (u64, Vec<LogItem>))
        requires
            old(self).wf(),
            old(self)@.issued < u64::MAX,
        ensures
            final(self).wf(),
            final(self)@ == old(self)@.subscribed(),
            subscription.0 == old(self)@.issued,
            item_views(subscription.1@) == old(self)@.history,
    {
        let id = self.issued;
        let snapshot = self.store.snapshot();
        let ghost before = self.subscribers@;
        self.issued = id + 1;
        self.subscribers.push(Subscriber { id, queue: VecDeque::new(), missed: 0 });
        proof {
            let fresh = SubscriptionView::fresh();
            assert(self.subscribers[before.len() as int]@ == fresh) by {
                assert(self.subscribers[before.len() as int]@.pending =~= fresh.pending);
            }
            lemma_absent(entries(before), id);
            lemma_push(entries(before), id, fresh);
            assert(entries(self.subscribers@) =~= entries(before).push((id, fresh)));
        }
        (id, snapshot)
    }

    /// Hands the subscriber `id` its next delivery: word of a loss first,
    /// else the oldest item that waits for it, else nothing. A number that
    /// names no subscription gets [`Delivery::Closed`].
    pub fn next_delivery(&mut self, id: u64) -> (delivery: Delivery)
        requires
            old(self).wf(),
        ensures
            final(self).wf(),
            final(self)@ == old(self)@.polled(id),
            delivery@ == old(self)@.delivery(id),
    {
        let ghost before = self.subscribers@;
        match self.find(id) {
            None => Delivery::Closed,
            Some(i) => {
                let delivery = self.subscribers[i].poll();
                proof {
                    lemma_replace(entries(before), i as int, before[i as int]@.polled());
                    assert(entries(self.subscribers@) =~= entries(before).update(
                        i as int,
                        (id, before[i as int]@.polled()),
                    ));
                }
                delivery
            },
        }
    }

    /// Drops the subscription `id`: nothing is published to it from now
    /// on. A number that names no subscription changes nothing.
    pub fn unsubscribe(&mut self, id: u64)
        requires
            old(self).wf(),
        ensures
            final(self).wf(),
            final(self)@ == old(self)@.unsubscribed(id),
    {
        let ghost before = self.subscribers@;
        match self.find(id) {
            None => {
                assert(self@.subscribers.remove(id) =~= self@.subscribers);
            },
            Some(i) => {
                self.subscribers.remove(i);
                proof {
                    lemma_remove(entries(before), i as int);
                    assert(entries(self.subscribers@) =~= entries(before).remove(i as int));
                }
            },
        }
    }
}

/// Snapshot, then tail, without a gap and without a duplicate. A
/// subscriber that registers and then lets `items` be ingested was handed
/// the history as it stood before them, and has exactly `items` waiting
/// for it, in order, as long as they fit its buffer: each item that was
/// ingested before the registration is in the snapshot and not in the
/// tail, each one after it is in the tail once. Where they do not fit,
/// the last that do are waiting and the count of the lost ones is kept.
pub proof fn lemma_snapshot_then_tail(state: UnicornView, items: Seq<LogItemView>)
    requires
        state.wf(),
    ensures
        ({
            let id = state.issued as u64;
            let after = state.subscribed().ingested_all(items);
            let tail = after.subscribers[id];
            &&& after.subscribers.contains_key(id)
            &&& after.capacity == state.capacity
            &&& after.buffer == state.buffer
            &&& after.history == pushed_all(state.history, items, state.capacity)
            &&& tail.pending == keep_last(items, state.buffer)
            &&& tail.missed == capped(items.len() - tail.pending.len())
            &&& items.len() <= state.buffer ==> tail.pending == items && tail.missed == 0
        }),
    decreases items.len(),
{
    let id = state.issued as u64;
    if items.len() == 0 {
    } else {
        let front = items.drop_last();
        lemma_snapshot_then_tail(state, front);
        let middle = state.subscribed().ingested_all(front);
        let after = middle.ingested(items.last());
        assert(keep_last(keep_last(front, state.buffer).push(items.last()), state.buffer)
            =~= keep_last(items, state.buffer));
    }
}

/// A number that names no subscription stays closed while items are
/// ingested, and a subscription that was dropped is closed: nothing is
/// published to it in that call or any later one.
pub proof fn lemma_dropped_is_closed(state: UnicornView, id: u64, items: Seq<LogItemView>)
    ensures
        state.unsubscribed(id).ingested_all(items).delivery(id) is Closed,
        !state.subscribers.contains_key(id) ==> state.ingested_all(items).delivery(id) is Closed,
        !state.unsubscribed(id).ingested_all(items).subscribers.contains_key(id),
    decreases items.len(),
{
    if items.len() > 0 {
        lemma_dropped_is_closed(state, id, items.drop_last());
        if !state.subscribers.contains_key(id) {
        }
    } else {
        if !state.subscribers.contains_key(id) {
        }
    }
}

/// One subscriber's deliveries leave every other subscription and the
/// store as they were: a slow subscriber holds nobody up.
pub proof fn lemma_poll_is_private(state: UnicornView, id: u64, other: u64)
    requires
        other != id,
    ensures
        state.polled(id).history == state.history,
        state.polled(id).subscribers.contains_key(other) == state.subscribers.contains_key(other),
        state.polled(id).subscribers[other] == state.subscribers[other],
{
}

} // verus!
