//! What a live viewer is sent for each item.

use crate::event::{Event, EventView};
use crate::store::LogItem;
use vstd::prelude::*;
use vstd::string::*;

verus! {

/// The projection of a [`LogItem`] for viewers: four texts.
#[derive(Debug, PartialEq, Eq)]
pub struct Item {
    /// The network origin of the sender.
    pub ip: String,
    /// The container that the event is about.
    pub container_name: String,
    /// When the event was recorded, in the notation of RFC 3339.
    pub timestamp: String,
    /// The message of a log entry; `Started` for a lifecycle action.
    pub content: String,
}

/// The mathematical value of an [`Item`].
pub struct ItemView {
    pub ip: Seq<char>,
    pub container_name: Seq<char>,
    pub timestamp: Seq<char>,
    pub content: Seq<char>,
}

impl View for Item {
    type V = ItemView;

    open spec fn view(&self) -> ItemView {
        ItemView {
            ip: self.ip@,
            container_name: self.container_name@,
            timestamp: self.timestamp@,
            content: self.content@,
        }
    }
}

/// What viewers read as the content of an event.
pub open spec fn content_of(event: EventView) -> Seq<char> {
    match event {
        EventView::Log { message, .. } => message,
        EventView::DockerAction { .. } => "Started"@,
    }
}

/// The projection of an event that came from `ip`, with `timestamp` as the
/// text of its instant.
pub open spec fn projection(ip: Seq<char>, event: EventView, timestamp: Seq<char>) -> ItemView {
    ItemView { ip, container_name: event.container_name(), timestamp, content: content_of(event) }
}

impl Item {
    /// The projection of `event`, received from `ip`, once the text
    /// `timestamp` of its instant is at hand.
    pub fn from_parts(ip: String, event: &Event, timestamp: String) -> (item: Item)
        ensures
            item@ == projection(ip@, event@, timestamp@),
    {
        let content = match event {
            Event::Log { message, .. } => message.clone(),
            Event::DockerAction { .. } => String::from_str("Started"),
        };
        Item { ip, container_name: event.container_name().clone(), timestamp, content }
    }

    /// The projection of `logitem`: its origin, the container and the
    /// content of its event, and the instant of its event in the notation
    /// of RFC 3339.
    pub fn from_log_item(logitem: &LogItem) -> (item: Item)
        ensures
            item@ == projection(logitem@.ip, logitem@.event, logitem@.event.timestamp().rfc3339()),
    {
        let event = logitem.event();
        let timestamp = event.timestamp().to_rfc3339();
        Item::from_parts(logitem.ip().clone(), event, timestamp)
    }
}

} // verus!
