//! The events exchanged with the synchronisation server, each sent as one
//! byte.

use vstd::prelude::*;

verus! {

/// A change to a stored table.
#[derive(Debug, Clone, Copy, PartialEq, Eq, Structural)]
pub enum Event {
    Add,
    Remove,
    Update,
}

/// The byte that stands for an event.
pub open spec fn event_code(e: Event) -> u8 {
    match e {
        Event::Add => 0,
        Event::Remove => 1,
        Event::Update => 2,
    }
}

/// The event that a byte stands for, if any.
pub open spec fn event_of(b: u8) -> Option<Event> {
    if b == 0 {
        Some(Event::Add)
    } else if b == 1 {
        Some(Event::Remove)
    } else if b == 2 {
        Some(Event::Update)
    } else {
        None
    }
}

impl Event {
    /// The number of bytes an event takes.
    pub fn buffer_size() -> (r: u8)
        ensures
            r == 1,
    {
        1
    }

    /// The byte that stands for `e`.
    pub fn to_u8(e: &Event) -> (r: u8)
        ensures
            r == event_code(*e),
    {
        match e {
            Event::Add => 0,
            Event::Remove => 1,
            Event::Update => 2,
        }
    }

    /// The event that the byte `e` stands for, if any.
    pub fn to_enum(e: u8) -> (r: Option<Event>)
        ensures
            r == event_of(e),
    {
        match e {
            0 => Some(Event::Add),
            1 => Some(Event::Remove),
            2 => Some(Event::Update),
            _ => None,
        }
    }
}

/// Reading back the byte of an event gives the event; a byte that reads
/// as an event is that event's byte.
pub proof fn law_event_round_trip(e: Event, b: u8)
    ensures
        event_of(event_code(e)) == Some(e),
        event_of(b) is Some ==> event_code(event_of(b)->0) == b,
        event_of(b) is None <==> b > 2,
{
}

} // verus!
