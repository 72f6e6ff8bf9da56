//! The log tailer of one container: what to do with each thing that
//! happens while its log stream is followed.
//!
//! A tailer is `Starting` until its stream is attached or yields its
//! first chunk, `Streaming` while it follows the stream, and `Terminated`
//! for good once it was cancelled, found its cancellation channel
//! abandoned, or saw the stream end or fail.
//! It follows the output from the moment it was made: what the container
//! wrote before is not asked for. The caller waits on the stream and on
//! the cancellation channel, tells the tailer what came first, and carries
//! out what the tailer answers.

use crate::event::{Event, EventView};
use crate::timestamp::{Timestamp, TimestampView};
use vstd::prelude::*;

verus! {

/// Where a tailer stands in its life.
#[derive(Clone, Copy, Debug, PartialEq, Eq, Structural)]
pub enum TailerState {
    Starting,
    Streaming,
    Terminated,
}

/// The stream of a container that a chunk was read from.
#[derive(Clone, Copy, Debug, PartialEq, Eq, Structural)]
pub enum Source {
    StdIn,
    StdOut,
    StdErr,
}

/// What happened at a tailer's suspension point.
#[derive(Debug, PartialEq, Eq)]
pub enum TailerInput {
    /// The runtime attached the log stream.
    Attached,
    /// The stream yielded a chunk of output.
    Chunk { source: Source, data: Vec<u8> },
    /// The stream yielded an error.
    StreamFailed,
    /// The stream ended.
    StreamEnded,
    /// The cancellation signal arrived.
    Cancelled,
    /// The cancellation channel has no sender left.
    Abandoned,
}

/// The mathematical value of a [`TailerInput`].
pub enum TailerInputView {
    Attached,
    Chunk { source: Source, data: Seq<u8> },
    StreamFailed,
    StreamEnded,
    Cancelled,
    Abandoned,
}

impl View for TailerInput {
    type V = TailerInputView;

    open spec fn view(&self) -> TailerInputView {
        match *self {
            TailerInput::Attached => TailerInputView::Attached,
            TailerInput::Chunk { source, data } => TailerInputView::Chunk { source, data: data@ },
            TailerInput::StreamFailed => TailerInputView::StreamFailed,
            TailerInput::StreamEnded => TailerInputView::StreamEnded,
            TailerInput::Cancelled => TailerInputView::Cancelled,
            TailerInput::Abandoned => TailerInputView::Abandoned,
        }
    }
}

/// What the caller is to do after a step.
#[derive(Debug, PartialEq, Eq)]
pub enum TailerOutput {
    /// Nothing: wait for the next thing to happen.
    Idle,
    /// Hand the event to the forwarder, then wait again.
    Deliver(Event),
    /// Stop consuming the stream and release it: the tailer has ended.
    Release,
}

/// The mathematical value of a [`TailerOutput`].
pub enum TailerOutputView {
    Idle,
    Deliver(EventView),
    Release,
}

impl View for TailerOutput {
    type V = TailerOutputView;

    open spec fn view(&self) -> TailerOutputView {
        match *self {
            TailerOutput::Idle => TailerOutputView::Idle,
            TailerOutput::Deliver(event) => TailerOutputView::Deliver(event@),
            TailerOutput::Release => TailerOutputView::Release,
        }
    }
}

/// The text that `String::from_utf8_lossy` makes of `bytes`: their
/// decoding as UTF-8, with U+FFFD in place of each ill-formed part.
pub uninterp spec fn utf8_lossy(bytes: Seq<u8>) -> Seq<char>;

/// Whether an input ends a tailer that has not ended yet.
pub open spec fn ends(input: TailerInputView) -> bool {
    input is Cancelled || input is Abandoned || input is StreamFailed || input is StreamEnded
}

/// The state of a tailer after `input`, from `state`: an input that ends
/// it leaves it ended, any other leaves it streaming.
pub open spec fn next_state(state: TailerState, input: TailerInputView) -> TailerState {
    if state is Terminated || ends(input) {
        TailerState::Terminated
    } else {
        TailerState::Streaming
    }
}

/// What a tailer of `name` that has not ended does with the text of a
/// chunk read from `source` at `now`: output of the container becomes a
/// log entry, input to it is passed over.
pub open spec fn text_output(
    name: Seq<char>,
    state: TailerState,
    source: Source,
    text: Seq<char>,
    now: TimestampView,
) -> TailerOutputView {
    if !(state is Terminated) && !(source is StdIn) {
        TailerOutputView::Deliver(
            EventView::Log { container_name: name, message: text, timestamp: now },
        )
    } else {
        TailerOutputView::Idle
    }
}

/// What a tailer of `name` in `state` answers to `input` at `now`.
pub open spec fn output(
    name: Seq<char>,
    state: TailerState,
    input: TailerInputView,
    now: TimestampView,
) -> TailerOutputView {
    if state is Terminated {
        TailerOutputView::Idle
    } else if ends(input) {
        TailerOutputView::Release
    } else {
        match input {
            TailerInputView::Chunk { source, data } => text_output(
                name,
                state,
                source,
                utf8_lossy(data),
                now,
            ),
            _ => TailerOutputView::Idle,
        }
    }
}

/// The state of a tailer after each of `inputs` in turn, from `state`.
pub open spec fn state_after(state: TailerState, inputs: Seq<TailerInputView>) -> TailerState
    decreases inputs.len(),
{
    if inputs.len() == 0 {
        state
    } else {
        next_state(state_after(state, inputs.drop_last()), inputs.last())
    }
}

/// Reads bytes as text with `String::from_utf8_lossy`, which decodes them
/// as UTF-8 and puts U+FFFD where they are ill-formed. The result is
/// known to proofs by the name [`utf8_lossy`] only.
#[verifier::external_body]
fn lossy_text(data: &[u8]) -> (text: String)
    ensures
        text@ == utf8_lossy(data@),
{
    String::from_utf8_lossy(data).into_owned()
}

/// The tailer of one container.
pub struct Tailer {
    name: String,
    since: Timestamp,
    state: TailerState,
}

/// The mathematical value of a [`Tailer`].
pub struct TailerView {
    /// The name of the container that the tailer follows.
    pub name: Seq<char>,
    /// The instant from which the tailer follows the output.
    pub since: TimestampView,
    /// Where the tailer stands.
    pub state: TailerState,
}

impl View for Tailer {
    type V = TailerView;

    closed spec fn view(&self) -> TailerView {
        TailerView { name: self.name@, since: self.since@, state: self.state }
    }
}

impl Tailer {
    /// A tailer for the container `name`, made at `now` and not yet
    /// attached to its stream. It follows what `name` writes from `now` on.
    pub fn new(name: String, now: Timestamp) -> (tailer: Tailer)
        ensures
            tailer@ == (TailerView { name: name@, since: now@, state: TailerState::Starting }),
    {
        Tailer { name, since: now, state: TailerState::Starting }
    }

    /// The name of the container that the tailer follows.
    pub fn name(&self) -> (name: &String)
        ensures
            name@ == self@.name,
    {
        &self.name
    }

    /// The instant from which the tailer follows the output: the stream
    /// to attach is the one of what was written since.
    pub fn since(&self) -> (since: Timestamp)
        ensures
            since@ == self@.since,
    {
        self.since
    }

    /// Where the tailer stands.
    pub fn state(&self) -> (state: TailerState)
        ensures
            state == self@.state,
    {
        self.state
    }

    /// What the tailer does with the text of a chunk that was read from
    /// `source` at `now`. The tailer stays as it is.
    pub fn on_text(&self, source: Source, text: String, now: Timestamp) -> (out: TailerOutput)
        ensures
            out@ == text_output(self@.name, self@.state, source, text@, now@),
    {
        let from_container = match source {
            Source::StdIn => false,
            Source::StdOut => true,
            Source::StdErr => true,
        };
        match self.state {
            TailerState::Terminated => TailerOutput::Idle,
            _ => {
                if from_container {
                    TailerOutput::Deliver(Event::log(self.name.clone(), text, now))
                } else {
                    TailerOutput::Idle
                }
            },
        }
    }

    /// Takes one step: `input` is what happened at the suspension point,
    /// `now` the wall-clock time at which it was seen. A tailer that has
    /// ended stays ended and asks for nothing more.
    pub fn step(&mut self, input: TailerInput, now: Timestamp) -> (out: TailerOutput)
        ensures
            final(self)@ == (TailerView {
                state: next_state(old(self)@.state, input@),
                ..old(self)@
            }),
            out@ == output(old(self)@.name, old(self)@.state, input@, now@),
    {
        match self.state {
            TailerState::Terminated => {
                return TailerOutput::Idle;
            },
            _ => {},
        }
        match input {
            TailerInput::Attached => {
                self.state = TailerState::Streaming;
                TailerOutput::Idle
            },
            TailerInput::Chunk { source, data } => {
                let text = lossy_text(data.as_slice());
                self.state = TailerState::Streaming;
                self.on_text(source, text, now)
            },
            _ => {
                self.state = TailerState::Terminated;
                TailerOutput::Release
            },
        }
    }
}

/// Cancellation ends a tailer in one step, whatever state it is in, and
/// that step delivers nothing. The same holds of a tailer that finds its
/// cancellation channel abandoned.
pub proof fn lemma_cancel_terminates(name: Seq<char>, state: TailerState, now: TimestampView)
    ensures
        next_state(state, TailerInputView::Cancelled) is Terminated,
        next_state(state, TailerInputView::Abandoned) is Terminated,
        !(output(name, state, TailerInputView::Cancelled, now) is Deliver),
        !(output(name, state, TailerInputView::Abandoned, now) is Deliver),
{
}

/// A tailer that has ended delivers nothing, whatever happens next.
pub proof fn lemma_terminated_is_silent(name: Seq<char>, input: TailerInputView, now: TimestampView)
    ensures
        next_state(TailerState::Terminated, input) is Terminated,
        output(name, TailerState::Terminated, input, now) is Idle,
{
}

/// Once an input has ended a tailer, it stays ended through every input
/// that follows, and it answers none of them with a delivery.
pub proof fn lemma_ended_for_good(
    name: Seq<char>,
    state: TailerState,
    last: TailerInputView,
    later: Seq<TailerInputView>,
    now: TimestampView,
)
    requires
        ends(last),
    ensures
        state_after(next_state(state, last), later) is Terminated,
        forall|k: int|
            0 <= k < later.len() ==> #[trigger] output(
                name,
                state_after(next_state(state, last), later.take(k)),
                later[k],
                now,
            ) is Idle,
    decreases later.len(),
{
    if later.len() > 0 {
        lemma_ended_for_good(name, state, last, later.drop_last(), now);
    }
    assert forall|k: int| 0 <= k < later.len() implies #[trigger] output(
        name,
        state_after(next_state(state, last), later.take(k)),
        later[k],
        now,
    ) is Idle by {
        lemma_ended_for_good(name, state, last, later.take(k), now);
    }
}

} // verus!
