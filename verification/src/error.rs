//! The ways in which a request to the store can be turned down.

use vstd::prelude::*;

verus! {

/// Why a request was turned down. Each is an expected, recoverable outcome.
#[derive(Clone, Copy, Debug, PartialEq, Eq, Structural)]
pub enum EventError {
    /// No event is registered under the given identifier.
    EventNotFound,
    /// The token presented is not the event's organizer token.
    InvalidOrganizerToken,
    /// A participant tried to join an event that is closed.
    EventClosed,
    /// The event was closed before; it is not assigned anew.
    AlreadyClosed,
    /// Fewer than two participants: nobody could gift anybody else.
    InsufficientParticipants,
}

impl EventError {
    /// The message shown to the person whose request was turned down.
    pub fn message(&self) -> (text: &'static str)
        ensures
            text@ == self.message_text(),
    {
        match self {
            EventError::EventNotFound => "Event not found",
            EventError::InvalidOrganizerToken => "Invalid organizer token",
            EventError::EventClosed => "This event is already closed for new participants",
            EventError::AlreadyClosed => "Event is already closed",
            EventError::InsufficientParticipants => "Need at least 2 participants",
        }
    }

    /// The text of `message`, as a sequence of characters.
    pub open spec fn message_text(&self) -> Seq<char> {
        match self {
            EventError::EventNotFound => "Event not found"@,
            EventError::InvalidOrganizerToken => "Invalid organizer token"@,
            EventError::EventClosed => "This event is already closed for new participants"@,
            EventError::AlreadyClosed => "Event is already closed"@,
            EventError::InsufficientParticipants => "Need at least 2 participants"@,
        }
    }
}

} // verus!
