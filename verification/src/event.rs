//! The events that a stream carries.
use vstd::prelude::*;
use crate::text::utf8;

verus! {

/// An "event", either an incoming message or some meta-action that needs to
/// be applied to the stream.
#[derive(Debug, Clone, PartialEq, Eq)]
pub enum Event {
    /// An incoming message.
    Message {
        /// The event type. Defaults to "message" if no event name is provided.
        event: String,
        /// The data for this event.
        data: String,
    },
    /// Set the _last event ID string_.
    LastEventId {
        /// The value to be set as the event source's last event ID.
        id: String,
    },
    /// Set the _reconnection time_.
    Retry {
        /// The new reconnection time in milliseconds.
        retry: u64,
    },
}

/// An event as the wire knows it: each text as its UTF-8 bytes.
pub enum WireEvent {
    Message { event: Seq<u8>, data: Seq<u8> },
    LastEventId { id: Seq<u8> },
    Retry { retry: u64 },
}

impl View for Event {
    type V = WireEvent;

    open spec fn view(&self) -> WireEvent {
        match self {
            Event::Message { event, data } => WireEvent::Message {
                event: utf8(event@),
                data: utf8(data@),
            },
            Event::LastEventId { id } => WireEvent::LastEventId { id: utf8(id@) },
            Event::Retry { retry } => WireEvent::Retry { retry: *retry },
        }
    }
}

impl Event {
    /// Create a server-sent event message.
    pub fn message(event: &str, data: &str) -> (made: Self)
        ensures
            made matches Event::Message { event: e, data: d } && e@ == event@ && d@ == data@,
    {
        Event::Message { event: event.to_owned(), data: data.to_owned() }
    }

    /// Create a message that sets the last event ID, without emitting an
    /// event message.
    pub fn id(id: &str) -> (made: Self)
        ensures
            made matches Event::LastEventId { id: i } && i@ == id@,
    {
        Event::LastEventId { id: id.to_owned() }
    }

    /// Create a message that configures the retry timeout.
    pub fn retry(time: u64) -> (made: Self)
        ensures
            made == (Event::Retry { retry: time }),
    {
        Event::Retry { retry: time }
    }
}

/// Whether two events are of one kind and hold the same text and number.
pub open spec fn same_event(a: Event, b: Event) -> bool {
    match (a, b) {
        (Event::Message { event: e1, data: d1 }, Event::Message { event: e2, data: d2 }) => e1@
            == e2@ && d1@ == d2@,
        (Event::LastEventId { id: i1 }, Event::LastEventId { id: i2 }) => i1@ == i2@,
        (Event::Retry { retry: r1 }, Event::Retry { retry: r2 }) => r1 == r2,
        _ => false,
    }
}

/// Events with the same bytes on the wire are the same event.
pub proof fn lemma_event_view_injective(a: Event, b: Event)
    requires
        a@ == b@,
    ensures
        same_event(a, b),
{
    match (a, b) {
        (Event::Message { event: e1, data: d1 }, Event::Message { event: e2, data: d2 }) => {
            crate::text::lemma_utf8_injective(e1@, e2@);
            crate::text::lemma_utf8_injective(d1@, d2@);
        },
        (Event::LastEventId { id: i1 }, Event::LastEventId { id: i2 }) => {
            crate::text::lemma_utf8_injective(i1@, i2@);
        },
        _ => {},
    }
}

} // verus!
