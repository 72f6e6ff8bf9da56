//! The bounded event store: the most recent items, oldest first.

use crate::event::{Event, EventView};
use std::collections::VecDeque;
use vstd::prelude::*;

verus! {

/// An event as it was received: tagged with the network origin of its
/// sender. Immutable once built.
#[derive(Debug, PartialEq, Eq)]
pub struct LogItem {
    ip: String,
    event: Event,
}

/// The mathematical value of a [`LogItem`].
pub struct LogItemView {
    pub ip: Seq<char>,
    pub event: EventView,
}

impl View for LogItem {
    type V = LogItemView;

    closed spec fn view(&self) -> LogItemView {
        LogItemView { ip: self.ip@, event: self.event@ }
    }
}

impl Clone for LogItem {
    fn clone(&self) -> (copy: LogItem)
        ensures
            copy == *self,
    {
        LogItem { ip: self.ip.clone(), event: self.event.clone() }
    }
}

impl LogItem {
    /// The item for `event`, received from the sender at `ip`.
    pub fn new(ip: String, event: Event) -> (item: LogItem)
        ensures
            item@ == (LogItemView { ip: ip@, event: event@ }),
    {
        LogItem { ip, event }
    }

    /// The network origin of the sender.
    pub fn ip(&self) -> (ip: &String)
        ensures
            ip@ == self@.ip,
    {
        &self.ip
    }

    /// The event that was received.
    pub fn event(&self) -> (event: &Event)
        ensures
            event@ == self@.event,
    {
        &self.event
    }
}

/// The values of a list of items, in order.
pub open spec fn item_views(items: Seq<LogItem>) -> Seq<LogItemView> {
    items.map_values(|item: LogItem| item@)
}

/// The last `n` elements of `s`, or all of `s` where it has no more.
pub open spec fn keep_last<T>(s: Seq<T>, n: nat) -> Seq<T> {
    if s.len() > n {
        s.skip(s.len() - n)
    } else {
        s
    }
}

/// What a store of capacity `capacity` holds after `items` were pushed
/// into it one by one, when it held `held` before.
pub open spec fn pushed_all(held: Seq<LogItemView>, items: Seq<LogItemView>, capacity: nat) -> Seq<
    LogItemView,
>
    decreases items.len(),
{
    if items.len() == 0 {
        held
    } else {
        keep_last(pushed_all(held, items.drop_last(), capacity).push(items.last()), capacity)
    }
}

/// A history of fixed capacity: a push beyond it evicts the oldest item.
/// The order is the order of the pushes.
pub struct Store {
    data: VecDeque<LogItem>,
    capacity: usize,
}

impl View for Store {
    type V = Seq<LogItemView>;

    closed spec fn view(&self) -> Seq<LogItemView> {
        item_views(self.data@)
    }
}

impl Store {
    /// The store never holds more than its capacity.
    pub closed spec fn wf(&self) -> bool {
        self.data@.len() <= self.capacity
    }

    /// The capacity that the store was made with.
    pub closed spec fn spec_capacity(&self) -> usize {
        self.capacity
    }

    /// What a well-formed store holds fits its capacity.
    pub proof fn lemma_bounded(&self)
        requires
            self.wf(),
        ensures
            self@.len() <= self.spec_capacity(),
    {
    }

    /// An empty store that will hold up to `capacity` items.
    pub fn new(capacity: usize) -> (store: Store)
        ensures
            store.wf(),
            store@ == Seq::<LogItemView>::empty(),
            store.spec_capacity() == capacity,
    {
        Store { data: VecDeque::new(), capacity }
    }

    /// The capacity that the store was made with.
    #[verifier::when_used_as_spec(spec_capacity)]
    pub fn capacity(&self) -> (capacity: usize)
        ensures
            capacity == self.spec_capacity(),
    {
        self.capacity
    }

    /// How many items the store holds.
    pub fn len(&self) -> (len: usize)
        ensures
            len == self@.len(),
    {
        self.data.len()
    }

    /// Appends `item`, evicting the oldest item first where the store is
    /// full. A store of capacity zero stays empty.
    pub fn push(&mut self, item: LogItem)
        requires
            old(self).wf(),
        ensures
            final(self).wf(),
            final(self).spec_capacity() == old(self).spec_capacity(),
            final(self)@ == keep_last(old(self)@.push(item@), old(self).spec_capacity() as nat),
    {
        if self.capacity == 0 {
            return ;
        }
        if self.data.len() == self.capacity {
            self.data.pop_front();
        }
        self.data.push_back(item);
    }

    /// A copy of what the store holds at this moment, oldest first.
    pub fn snapshot(&self) -> (items: Vec<LogItem>)
        ensures
            item_views(items@) == self@,
    {
        let mut items: Vec<LogItem> = Vec::new();
        let mut i: usize = 0;
        while i < self.data.len()
            invariant
                i <= self.data@.len(),
                items@ == self.data@.take(i as int),
            decreases self.data@.len() - i,
        {
            items.push(self.data[i].clone());
            i += 1;
        }
        items
    }
}

/// First in, first out: after pushes the store holds the last items of
/// what it held followed by what was pushed, as many as its capacity
/// admits, in the order of the pushes.
pub proof fn lemma_fifo_eviction(held: Seq<LogItemView>, items: Seq<LogItemView>, capacity: nat)
    requires
        held.len() <= capacity,
    ensures
        pushed_all(held, items, capacity) == keep_last(held + items, capacity),
        items.len() >= capacity ==> pushed_all(held, items, capacity) == items.skip(
            items.len() - capacity,
        ),
    decreases items.len(),
{
    if items.len() == 0 {
    } else {
        let front = items.drop_last();
        lemma_fifo_eviction(held, front, capacity);
        assert(keep_last(keep_last(held + front, capacity).push(items.last()), capacity)
            =~= keep_last(held + items, capacity));
    }
    if items.len() >= capacity {
    }
}

} // verus!
