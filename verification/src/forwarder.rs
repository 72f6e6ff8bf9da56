//! The event forwarder: the one place where events from every producer
//! come together and leave for the collector, one at a time and in the
//! order in which they came.
//!
//! The forwarder decides and the caller sends. The caller hands events in
//! with [`Forwarder::log`], asks for the next submission, sends it, and
//! reports how that went. Each producer may have so many events waiting
//! and no more; one producer at its limit does not hold up another. A
//! submission that failed is not sent again and not dropped: the
//! forwarder stops, and keeps the event for the caller to see.

use crate::event::{Event, EventView};
use crate::wire::encode;
use std::collections::VecDeque;
use vstd::prelude::*;

verus! {

/// How many events of one producer wait on the collecting side at most.
pub const INTAKE_LIMIT: usize = 10_000;

/// What became of an event that was handed to the forwarder.
#[derive(Debug, PartialEq, Eq)]
pub enum Intake {
    /// The event waits for its turn.
    Queued,
    /// The producer has as many events waiting as it may: the event is
    /// handed back, to be offered again once a submission has left.
    Full(Event),
    /// The forwarder has failed: the event is handed back.
    Failed(Event),
}

/// The mathematical value of an [`Intake`].
pub enum IntakeView {
    Queued,
    Full(EventView),
    Failed(EventView),
}

impl View for Intake {
    type V = IntakeView;

    open spec fn view(&self) -> IntakeView {
        match *self {
            Intake::Queued => IntakeView::Queued,
            Intake::Full(event) => IntakeView::Full(event@),
            Intake::Failed(event) => IntakeView::Failed(event@),
        }
    }
}

/// How many of the waiting events came from `producer`.
pub open spec fn waiting_of(pending: Seq<(u64, EventView)>, producer: u64) -> nat
    decreases pending.len(),
{
    if pending.len() == 0 {
        0
    } else if pending.last().0 == producer {
        waiting_of(pending.drop_last(), producer) + 1
    } else {
        waiting_of(pending.drop_last(), producer)
    }
}

/// The events of a waiting line, without their producers.
pub open spec fn events_of(pending: Seq<(u64, EventView)>) -> Seq<EventView> {
    pending.map_values(|entry: (u64, EventView)| entry.1)
}

/// The forwarder as a mathematical value.
pub struct ForwarderView {
    /// The events that wait for their turn, oldest first, each with the
    /// number of its producer.
    pub pending: Seq<(u64, EventView)>,
    /// The event whose submission is under way or has failed.
    pub in_flight: Option<EventView>,
    /// Whether a submission has failed.
    pub failed: bool,
    /// How many events of one producer may wait.
    pub limit: nat,
    /// Every event that was ever taken in, in order.
    pub accepted: Seq<EventView>,
    /// Every event that was ever handed out for submission, in order.
    pub submitted: Seq<EventView>,
}

impl ForwarderView {
    /// No producer has more events waiting than it may; what was handed
    /// out and what waits are together what was taken in, in that order;
    /// and the event in flight is the last one handed out.
    pub open spec fn wf(self) -> bool {
        &&& forall|producer: u64| #[trigger] waiting_of(self.pending, producer) <= self.limit
        &&& self.accepted == self.submitted + events_of(self.pending)
        &&& self.failed ==> self.in_flight is Some
        &&& self.in_flight matches Some(event) ==> self.submitted.len() > 0
            && self.submitted.last() == event
    }

    /// What becomes of `event` when `producer` hands it in.
    pub open spec fn intake(self, producer: u64, event: EventView) -> IntakeView {
        if self.failed {
            IntakeView::Failed(event)
        } else if waiting_of(self.pending, producer) >= self.limit {
            IntakeView::Full(event)
        } else {
            IntakeView::Queued
        }
    }

    /// The forwarder after `producer` handed `event` in.
    pub open spec fn logged(self, producer: u64, event: EventView) -> ForwarderView {
        if self.intake(producer, event) is Queued {
            ForwarderView {
                pending: self.pending.push((producer, event)),
                accepted: self.accepted.push(event),
                ..self
            }
        } else {
            self
        }
    }

    /// Whether the forwarder has an event to hand out: none is in flight,
    /// none has failed, and one waits.
    pub open spec fn ready(self) -> bool {
        !self.failed && self.in_flight is None && self.pending.len() > 0
    }

    /// The forwarder after it was asked for the next submission.
    pub open spec fn advanced(self) -> ForwarderView {
        if self.ready() {
            ForwarderView {
                pending: self.pending.drop_first(),
                in_flight: Some(self.pending.first().1),
                submitted: self.submitted.push(self.pending.first().1),
                ..self
            }
        } else {
            self
        }
    }

    /// The forwarder after the caller reported on the submission in
    /// flight: delivered, the way is free for the next one; not delivered,
    /// the forwarder has failed.
    pub open spec fn settled(self, delivered: bool) -> ForwarderView {
        if self.in_flight is None || self.failed {
            self
        } else if delivered {
            ForwarderView { in_flight: None, ..self }
        } else {
            ForwarderView { failed: true, ..self }
        }
    }
}

/// The values of a waiting line, in order.
spec fn line_views(line: Seq<(u64, Event)>) -> Seq<(u64, EventView)> {
    line.map_values(|entry: (u64, Event)| (entry.0, entry.1@))
}

/// An event that joins the line adds one to the count of its producer and
/// nothing to any other.
proof fn lemma_waiting_after_push(
    pending: Seq<(u64, EventView)>,
    producer: u64,
    event: EventView,
    other: u64,
)
    ensures
        waiting_of(pending.push((producer, event)), other) == waiting_of(pending, other) + (
        if other == producer {
            1nat
        } else {
            0nat
        }),
{
    assert(pending.push((producer, event)).drop_last() =~= pending);
}

/// A producer has no more events waiting once the oldest event has left.
proof fn lemma_waiting_after_first(pending: Seq<(u64, EventView)>, producer: u64)
    requires
        pending.len() > 0,
    ensures
        waiting_of(pending.drop_first(), producer) <= waiting_of(pending, producer),
    decreases pending.len(),
{
    if pending.len() > 1 {
        lemma_waiting_after_first(pending.drop_last(), producer);
        assert(pending.drop_first().drop_last() =~= pending.drop_last().drop_first());
    }
}

/// The fan-in point of the collecting side.
pub struct Forwarder {
    pending: VecDeque<(u64, Event)>,
    in_flight: Option<Event>,
    failed: bool,
    limit: usize,
    accepted: Ghost<Seq<EventView>>,
    submitted: Ghost<Seq<EventView>>,
}

impl View for Forwarder {
    type V = ForwarderView;

    closed spec fn view(&self) -> ForwarderView {
        ForwarderView {
            pending: line_views(self.pending@),
            in_flight: match self.in_flight {
                Some(event) => Some(event@),
                None => None,
            },
            failed: self.failed,
            limit: self.limit as nat,
            accepted: self.accepted@,
            submitted: self.submitted@,
        }
    }
}

impl Forwarder {
    /// A forwarder that lets up to `limit` events of each producer wait,
    /// with nothing taken in yet.
    pub fn new(limit: usize) -> (forwarder: Forwarder)
        ensures
            forwarder@.wf(),
            forwarder@ == (ForwarderView {
                pending: Seq::empty(),
                in_flight: None,
                failed: false,
                limit: limit as nat,
                accepted: Seq::empty(),
                submitted: Seq::empty(),
            }),
    {
        let forwarder = Forwarder {
            pending: VecDeque::new(),
            in_flight: None,
            failed: false,
            limit,
            accepted: Ghost(Seq::empty()),
            submitted: Ghost(Seq::empty()),
        };
        assert(forwarder@.pending =~= Seq::<(u64, EventView)>::empty());
        forwarder
    }

    /// How many of the waiting events came from `producer`.
    pub fn waiting_of(&self, producer: u64) -> (count: usize)
        ensures
            count == waiting_of(self@.pending, producer),
    {
        let ghost line = line_views(self.pending@);
        let mut count: usize = 0;
        let mut i: usize = 0;
        while i < self.pending.len()
            invariant
                i <= self.pending.len(),
                line == line_views(self.pending@),
                count <= i,
                count == waiting_of(line.take(i as int), producer),
            decreases self.pending.len() - i,
        {
            assert(line.take(i + 1).drop_last() =~= line.take(i as int));
            if self.pending[i].0 == producer {
                count += 1;
            }
            i += 1;
        }
        assert(line.take(i as int) =~= line);
        count
    }

    /// Takes `event` in from `producer`, behind the events that wait,
    /// unless the producer has as many waiting as it may or the forwarder
    /// has failed: then the event is handed back, and nothing changes.
    pub fn log(&mut self, producer: u64, event: Event) -> (intake: Intake)
        requires
            old(self)@.wf(),
        ensures
            final(self)@.wf(),
            final(self)@ == old(self)@.logged(producer, event@),
            intake@ == old(self)@.intake(producer, event@),
    {
        if self.failed {
            return Intake::Failed(event);
        }
        if self.waiting_of(producer) >= self.limit {
            return Intake::Full(event);
        }
        proof {
            self.accepted@ = self.accepted@.push(event@);
        }
        self.pending.push_back((producer, event));
        proof {
            let line = self@.pending;
            assert(line =~= old(self)@.pending.push((producer, event@)));
            assert(self@.accepted =~= self@.submitted + events_of(line));
            assert forall|other: u64| #[trigger] waiting_of(line, other) <= self@.limit by {
                lemma_waiting_after_push(old(self)@.pending, producer, event@, other);
            }
        }
        Intake::Queued
    }

    /// The bytes of the next event to submit, if it is time for one: the
    /// oldest event that waits, once the submission before it was
    /// delivered. The event is in flight from now on.
    pub fn next_submission(&mut self) -> (bytes: Option<Vec<u8>>)
        requires
            old(self)@.wf(),
        ensures
            final(self)@.wf(),
            final(self)@ == old(self)@.advanced(),
            match bytes {
                Some(bytes) => old(self)@.ready() && bytes@ == encode(old(self)@.pending.first().1),
                None => !old(self)@.ready(),
            },
    {
        if self.failed || self.in_flight.is_some() {
            return None;
        }
        match self.pending.pop_front() {
            None => None,
            Some((_, event)) => {
                let bytes = event.to_bytes();
                proof {
                    self.submitted@ = self.submitted@.push(event@);
                }
                self.in_flight = Some(event);
                proof {
                    let line = self@.pending;
                    assert(line =~= old(self)@.pending.drop_first());
                    assert(self@.accepted =~= self@.submitted + events_of(line));
                    assert forall|producer: u64| #[trigger]
                        waiting_of(line, producer) <= self@.limit by {
                        lemma_waiting_after_first(old(self)@.pending, producer);
                    }
                }
                Some(bytes)
            },
        }
    }

    /// Takes the caller's report on the submission in flight. Delivered,
    /// the next event may go; not delivered, the forwarder has failed for
    /// good and keeps the event. Without a submission in flight the report
    /// changes nothing.
    pub fn settle(&mut self, delivered: bool)
        requires
            old(self)@.wf(),
        ensures
            final(self)@.wf(),
            final(self)@ == old(self)@.settled(delivered),
    {
        if self.in_flight.is_none() || self.failed {
            return ;
        }
        if delivered {
            self.in_flight = None;
        } else {
            self.failed = true;
        }
    }

    /// Whether a submission has failed.
    pub fn has_failed(&self) -> (failed: bool)
        ensures
            failed == self@.failed,
    {
        self.failed
    }

    /// The event whose submission is under way or, after a failure, the
    /// one that was not delivered.
    pub fn in_flight(&self) -> (event: Option<&Event>)
        ensures
            match event {
                Some(event) => self@.in_flight == Some(event@),
                None => self@.in_flight is None,
            },
    {
        self.in_flight.as_ref()
    }

    /// How many events wait for their turn, of all producers together.
    pub fn waiting(&self) -> (count: usize)
        ensures
            count == self@.pending.len(),
    {
        self.pending.len()
    }
}

/// Events leave in the order in which they came, none passed over: what
/// was handed out so far is the start of what was taken in.
pub proof fn lemma_in_arrival_order(forwarder: ForwarderView)
    requires
        forwarder.wf(),
    ensures
        forwarder.submitted.is_prefix_of(forwarder.accepted),
        forwarder.accepted.len() == forwarder.submitted.len() + forwarder.pending.len(),
{
}

/// One at a time: while a submission is in flight, no other is handed out.
pub proof fn lemma_one_in_flight(forwarder: ForwarderView)
    requires
        forwarder.in_flight is Some,
    ensures
        forwarder.advanced() == forwarder,
{
}

/// The limit is each producer's own: a producer that has fewer events
/// waiting than it may is taken in from, however many the others have
/// waiting, and what it hands in adds to no other producer's count.
pub proof fn lemma_limit_is_per_producer(
    forwarder: ForwarderView,
    producer: u64,
    other: u64,
    event: EventView,
)
    requires
        !forwarder.failed,
        waiting_of(forwarder.pending, producer) < forwarder.limit,
        other != producer,
    ensures
        forwarder.intake(producer, event) is Queued,
        waiting_of(forwarder.logged(producer, event).pending, producer) == waiting_of(
            forwarder.pending,
            producer,
        ) + 1,
        waiting_of(forwarder.logged(producer, event).pending, other) == waiting_of(
            forwarder.pending,
            other,
        ),
{
    lemma_waiting_after_push(forwarder.pending, producer, event, producer);
    lemma_waiting_after_push(forwarder.pending, producer, event, other);
}

/// A failure is final and loses nothing: the forwarder hands out no
/// further submission, takes nothing in, hands back what it is offered,
/// and keeps the event that was not delivered, whatever is reported later.
pub proof fn lemma_failure_is_final(
    forwarder: ForwarderView,
    producer: u64,
    event: EventView,
    delivered: bool,
)
    requires
        forwarder.wf(),
        forwarder.failed,
    ensures
        forwarder.advanced() == forwarder,
        forwarder.settled(delivered) == forwarder,
        forwarder.logged(producer, event) == forwarder,
        forwarder.intake(producer, event) == IntakeView::Failed(event),
        forwarder.in_flight == Some(forwarder.submitted.last()),
{
}

/// Every step keeps the forwarder well formed.
pub proof fn lemma_steps_keep_wf(
    forwarder: ForwarderView,
    producer: u64,
    event: EventView,
    delivered: bool,
)
    requires
        forwarder.wf(),
    ensures
        forwarder.logged(producer, event).wf(),
        forwarder.advanced().wf(),
        forwarder.settled(delivered).wf(),
{
    let logged = forwarder.logged(producer, event);
    assert(logged.accepted =~= logged.submitted + events_of(logged.pending));
    assert forall|p: u64| #[trigger] waiting_of(logged.pending, p) <= logged.limit by {
        lemma_waiting_after_push(forwarder.pending, producer, event, p);
    }
    let advanced = forwarder.advanced();
    assert(advanced.accepted =~= advanced.submitted + events_of(advanced.pending));
    if forwarder.ready() {
        assert forall|p: u64| #[trigger] waiting_of(advanced.pending, p) <= advanced.limit by {
            lemma_waiting_after_first(forwarder.pending, p);
        }
    }
}

} // verus!
