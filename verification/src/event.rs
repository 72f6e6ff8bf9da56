//! The event model: a log line or a lifecycle action of one container.

use crate::timestamp::{Timestamp, TimestampView};
use vstd::prelude::*;

verus! {

/// What a collector reports about a container. Immutable once built.
#[derive(Debug, PartialEq, Eq)]
pub enum Event {
    /// One chunk of a container's log output.
    Log { container_name: String, message: String, timestamp: Timestamp },
    /// A lifecycle action that the runtime announced for a container.
    DockerAction { container_name: String, action: String, timestamp: Timestamp },
}

/// The mathematical value of an [`Event`]: its texts as character sequences.
pub enum EventView {
    Log { container_name: Seq<char>, message: Seq<char>, timestamp: TimestampView },
    DockerAction { container_name: Seq<char>, action: Seq<char>, timestamp: TimestampView },
}

impl EventView {
    /// The name of the container that the event is about.
    pub open spec fn container_name(self) -> Seq<char> {
        match self {
            EventView::Log { container_name, .. } => container_name,
            EventView::DockerAction { container_name, .. } => container_name,
        }
    }

    /// The instant at which the event was recorded.
    pub open spec fn timestamp(self) -> TimestampView {
        match self {
            EventView::Log { timestamp, .. } => timestamp,
            EventView::DockerAction { timestamp, .. } => timestamp,
        }
    }

    /// The second text of the event: the message of a log entry, the action
    /// of a lifecycle event.
    pub open spec fn detail(self) -> Seq<char> {
        match self {
            EventView::Log { message, .. } => message,
            EventView::DockerAction { action, .. } => action,
        }
    }
}

impl View for Event {
    type V = EventView;

    open spec fn view(&self) -> EventView {
        match *self {
            Event::Log { container_name, message, timestamp } => EventView::Log {
                container_name: container_name@,
                message: message@,
                timestamp: timestamp@,
            },
            Event::DockerAction { container_name, action, timestamp } => EventView::DockerAction {
                container_name: container_name@,
                action: action@,
                timestamp: timestamp@,
            },
        }
    }
}

impl Clone for Event {
    fn clone(&self) -> (copy: Event)
        ensures
            copy == *self,
    {
        match self {
            Event::Log { container_name, message, timestamp } => Event::Log {
                container_name: container_name.clone(),
                message: message.clone(),
                timestamp: *timestamp,
            },
            Event::DockerAction { container_name, action, timestamp } => Event::DockerAction {
                container_name: container_name.clone(),
                action: action.clone(),
                timestamp: *timestamp,
            },
        }
    }
}

impl Event {
    /// A log entry of `container_name` that reads `message`, recorded at `timestamp`.
    pub fn log(container_name: String, message: String, timestamp: Timestamp) -> (event: Event)
        ensures
            event == (Event::Log { container_name, message, timestamp }),
            event@ == (EventView::Log {
                container_name: container_name@,
                message: message@,
                timestamp: timestamp@,
            }),
    {
        Event::Log { container_name, message, timestamp }
    }

    /// The lifecycle action `action` of `container_name`, recorded at `timestamp`.
    pub fn docker_action(container_name: String, action: String, timestamp: Timestamp) -> (event:
        Event)
        ensures
            event == (Event::DockerAction { container_name, action, timestamp }),
            event@ == (EventView::DockerAction {
                container_name: container_name@,
                action: action@,
                timestamp: timestamp@,
            }),
    {
        Event::DockerAction { container_name, action, timestamp }
    }

    /// The name of the container that the event is about.
    pub fn container_name(&self) -> (name: &String)
        ensures
            name@ == self@.container_name(),
    {
        match self {
            Event::Log { container_name, .. } => container_name,
            Event::DockerAction { container_name, .. } => container_name,
        }
    }

    /// The instant at which the event was recorded.
    pub fn timestamp(&self) -> (timestamp: Timestamp)
        ensures
            timestamp@ == self@.timestamp(),
    {
        match self {
            Event::Log { timestamp, .. } => *timestamp,
            Event::DockerAction { timestamp, .. } => *timestamp,
        }
    }
}

} // verus!
