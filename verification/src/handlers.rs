//! What each page of the site decides, from what the visitor sent and what
//! the store holds. Reading the request and writing the page is left to the
//! caller.

use vstd::prelude::*;
use crate::error::EventError;
use crate::models::{closes, joins, receiver_of, EventStatus, Participant, WichtelEvent};
use crate::search::{
    matches_best,
    matches_distinct,
    matches_fit,
    ranked,
    search,
    FuzzyMatch,
    MAX_MATCHES,
};
use crate::state::{close_event_outcome, registers, AppState};
use crate::text::{parse_id, trimmed, trimmed_text, written_id};

verus! {

broadcast use vstd::std_specs::hash::group_hash_axioms;

/// The form by which an organizer creates an event.
#[derive(Debug)]
pub struct CreateEventForm {
    pub name: String,
}

/// The form by which somebody joins an event.
#[derive(Debug)]
pub struct JoinEventForm {
    pub name: String,
}

/// The form by which a visitor says which participant they are.
#[derive(Debug)]
pub struct ConfirmIdentityForm {
    pub participant_id: String,
}

/// The search term of a participant search.
#[derive(Debug)]
pub struct SearchQuery {
    pub q: String,
}

/// Why a page shows an error instead of what was asked for.
#[derive(Clone, Copy, Debug, PartialEq, Eq, Structural)]
pub enum PageError {
    InvalidInviteCode,
    InvalidEventId,
    InvalidOrganizerToken,
    InvalidParticipantId,
    EventNotFound,
    ParticipantNotFound,
    EmptyEventName,
    EmptyName,
    EventClosed,
    AlreadyClosed,
    InsufficientParticipants,
    NoInviteCodeLeft,
}

impl PageError {
    /// The page's word for an error of the store.
    pub open spec fn spec_from_event_error(error: EventError) -> PageError {
        match error {
            EventError::EventNotFound => PageError::EventNotFound,
            EventError::InvalidOrganizerToken => PageError::InvalidOrganizerToken,
            EventError::EventClosed => PageError::EventClosed,
            EventError::AlreadyClosed => PageError::AlreadyClosed,
            EventError::InsufficientParticipants => PageError::InsufficientParticipants,
        }
    }

    /// The page's word for an error of the store.
    #[verifier::when_used_as_spec(spec_from_event_error)]
    pub fn from_event_error(error: EventError) -> (page_error: PageError)
        ensures
            page_error == PageError::spec_from_event_error(error),
    {
        match error {
            EventError::EventNotFound => PageError::EventNotFound,
            EventError::InvalidOrganizerToken => PageError::InvalidOrganizerToken,
            EventError::EventClosed => PageError::EventClosed,
            EventError::AlreadyClosed => PageError::AlreadyClosed,
            EventError::InsufficientParticipants => PageError::InsufficientParticipants,
        }
    }

    /// The text of `message`, as a sequence of characters.
    pub open spec fn message_text(&self) -> Seq<char> {
        match self {
            PageError::InvalidInviteCode => "Invalid invite code"@,
            PageError::InvalidEventId => "Invalid event ID"@,
            PageError::InvalidOrganizerToken => "Invalid organizer token"@,
            PageError::InvalidParticipantId => "Invalid participant ID"@,
            PageError::EventNotFound => "Event not found"@,
            PageError::ParticipantNotFound => "Participant not found in this event"@,
            PageError::EmptyEventName => "Event name cannot be empty"@,
            PageError::EmptyName => "Name cannot be empty"@,
            PageError::EventClosed => "This event is already closed for new participants"@,
            PageError::AlreadyClosed => "Event is already closed"@,
            PageError::InsufficientParticipants => "Need at least 2 participants"@,
            PageError::NoInviteCodeLeft => "No invite code is left"@,
        }
    }

    /// The message that the error page shows.
    pub fn message(&self) -> (text: &'static str)
        ensures
            text@ == self.message_text(),
    {
        match self {
            PageError::InvalidInviteCode => "Invalid invite code",
            PageError::InvalidEventId => "Invalid event ID",
            PageError::InvalidOrganizerToken => "Invalid organizer token",
            PageError::InvalidParticipantId => "Invalid participant ID",
            PageError::EventNotFound => "Event not found",
            PageError::ParticipantNotFound => "Participant not found in this event",
            PageError::EmptyEventName => "Event name cannot be empty",
            PageError::EmptyName => "Name cannot be empty",
            PageError::EventClosed => "This event is already closed for new participants",
            PageError::AlreadyClosed => "Event is already closed",
            PageError::InsufficientParticipants => "Need at least 2 participants",
            PageError::NoInviteCodeLeft => "No invite code is left",
        }
    }
}

/// The name that somebody typed in, trimmed; `None` where nothing but
/// white space was typed.
pub fn entered_name(raw: &str) -> (name: Option<String>)
    ensures
        name is Some <==> trimmed_text(raw@).len() > 0,
        name is Some ==> name->Some_0@ == trimmed_text(raw@),
{
    let name = trimmed(raw);
    if name.is_empty() {
        None
    } else {
        Some(name.to_owned())
    }
}

/// The participant of `event` that `remembered` writes out, if it writes
/// out the identifier of one.
pub fn remembered_participant(event: &WichtelEvent, remembered: &str) -> (id: Option<u128>)
    ensures
        id is Some <==> written_id(remembered@) is Some && event.participants@.contains_key(
            written_id(remembered@)->Some_0,
        ),
        id is Some ==> id == written_id(remembered@),
{
    match parse_id(remembered) {
        Some(id) => {
            if event.participants.contains_key(&id) {
                Some(id)
            } else {
                None
            }
        },
        None => None,
    }
}

/// Creates the event that the form asks for, under the name typed in,
/// trimmed. A name of white space alone creates nothing.
pub fn create_event(form: &CreateEventForm, state: &mut AppState) -> (result: Result<
    WichtelEvent,
    PageError,
>)
    requires
        old(state).wf(),
    ensures
        final(state).wf(),
        result is Err ==> final(state)@ == old(state)@,
        trimmed_text(form.name@).len() == 0 ==> result == Err::<WichtelEvent, PageError>(
            PageError::EmptyEventName,
        ),
        trimmed_text(form.name@).len() > 0 && !old(state).spec_has_free_code() ==> result
            == Err::<WichtelEvent, PageError>(PageError::NoInviteCodeLeft),
        trimmed_text(form.name@).len() > 0 && old(state).spec_has_free_code() ==> result is Ok,
        result is Ok ==> {
            let event = result->Ok_0;
            &&& event.wf()
            &&& event@.name == trimmed_text(form.name@)
            &&& event.status == EventStatus::Open
            &&& event.participants@.len() == 0
            &&& registers(old(state)@, final(state)@, event@)
        },
{
    let name = match entered_name(form.name.as_str()) {
        Some(name) => name,
        None => {
            return Err(PageError::EmptyEventName);
        },
    };
    if !state.has_free_code() {
        return Err(PageError::NoInviteCodeLeft);
    }
    Ok(state.create_event(name))
}

/// The event that the invite code `invite_code` leads to.
pub fn join_page(invite_code: &str, state: &AppState) -> (result: Result<WichtelEvent, PageError>)
    requires
        state.wf(),
    ensures
        match result {
            Ok(event) => state@.contains_key(event.id) && state@[event.id] == event@
                && event@.invite_code == invite_code@,
            Err(error) => error == PageError::InvalidInviteCode && forall|id: u128|
                state@.contains_key(id) ==> (#[trigger] state@[id]).invite_code != invite_code@,
        },
{
    match state.get_event_by_invite_code(invite_code) {
        Some(event) => Ok(event),
        None => Err(PageError::InvalidInviteCode),
    }
}

/// The event that `event_id` writes out the identifier of.
pub fn identify_page(event_id: &str, state: &AppState) -> (result: Result<
    WichtelEvent,
    PageError,
>)
    ensures
        written_id(event_id@) is None ==> result == Err::<WichtelEvent, PageError>(
            PageError::InvalidEventId,
        ),
        written_id(event_id@) is Some && !state@.contains_key(written_id(event_id@)->Some_0)
            ==> result == Err::<WichtelEvent, PageError>(PageError::EventNotFound),
        written_id(event_id@) is Some && state@.contains_key(written_id(event_id@)->Some_0)
            ==> result is Ok && result->Ok_0@ == state@[written_id(event_id@)->Some_0],
{
    let id = match parse_id(event_id) {
        Some(id) => id,
        None => {
            return Err(PageError::InvalidEventId);
        },
    };
    match state.get_event(id) {
        Some(event) => Ok(event),
        None => Err(PageError::EventNotFound),
    }
}

/// What the page of somebody who has just joined shows.
#[derive(Debug)]
pub struct Joined {
    /// The event, with the new participant in it.
    pub event: WichtelEvent,
    pub participant_id: u128,
    pub participant_name: String,
}

/// What the organizer's page shows.
#[derive(Debug)]
pub struct ManagePage {
    pub event: WichtelEvent,
    /// Whether the event has the two participants that closing takes.
    pub can_close: bool,
}

/// What the page of a participant shows.
#[derive(Debug)]
pub enum ViewPage {
    /// The visitor is this participant, who gifts `assigned_to`, if the
    /// event is closed.
    Assignment { participant: Participant, assigned_to: Option<Participant> },
    /// It is not known which participant the visitor is: they are asked.
    Identify,
}

/// Lets the visitor join the event that `invite_code` leads to, under the
/// name typed in, trimmed. Nobody joins a closed event, or without a name.
pub fn join_event(invite_code: &str, form: &JoinEventForm, state: &mut AppState) -> (result:
    Result<Joined, PageError>)
    requires
        old(state).wf(),
    ensures
        final(state).wf(),
        result is Err ==> final(state)@ == old(state)@,
        match result {
            Err(PageError::InvalidInviteCode) => forall|id: u128|
                old(state)@.contains_key(id) ==> (#[trigger] old(state)@[id]).invite_code
                    != invite_code@,
            Err(PageError::EventClosed) => exists|id: u128|
                old(state)@.contains_key(id) && (#[trigger] old(state)@[id]).invite_code
                    == invite_code@ && old(state)@[id].status == EventStatus::Closed,
            Err(PageError::EmptyName) => trimmed_text(form.name@).len() == 0 && exists|id: u128|
                old(state)@.contains_key(id) && (#[trigger] old(state)@[id]).invite_code
                    == invite_code@ && old(state)@[id].status == EventStatus::Open,
            Err(_) => false,
            Ok(joined) => {
                let id = joined.event.id;
                let person = joined.participant_id;
                &&& old(state)@.contains_key(id)
                &&& old(state)@[id].invite_code == invite_code@
                &&& old(state)@[id].status == EventStatus::Open
                &&& final(state)@ == old(state)@.insert(id, joined.event@)
                &&& joined.participant_name@ == trimmed_text(form.name@)
                &&& joined.participant_name@.len() > 0
                &&& joined.event.participants@.contains_key(person)
                &&& joined.event.participants@[person].id == person
                &&& joined.event.participants@[person].name@ == joined.participant_name@
                &&& joins(old(state)@[id], joined.event@, joined.event.participants@[person])
            },
        },
{
    let event = match state.get_event_by_invite_code(invite_code) {
        Some(event) => event,
        None => {
            return Err(PageError::InvalidInviteCode);
        },
    };
    if event.status == EventStatus::Closed {
        return Err(PageError::EventClosed);
    }
    let name = match entered_name(form.name.as_str()) {
        Some(name) => name,
        None => {
            return Err(PageError::EmptyName);
        },
    };
    let participant_id = match state.add_participant(event.id, name.clone()) {
        Some(id) => id,
        None => {
            return Err(PageError::EventClosed);
        },
    };
    match state.get_event(event.id) {
        Some(event) => Ok(Joined { event, participant_id, participant_name: name }),
        None => Err(PageError::EventNotFound),
    }
}

/// The organizer's page of the event that `event_id` writes out, for who
/// presents the event's organizer token.
pub fn manage_event(event_id: &str, organizer_token: &str, state: &AppState) -> (result: Result<
    ManagePage,
    PageError,
>)
    ensures
        match result {
            Err(PageError::InvalidEventId) => written_id(event_id@) is None,
            Err(PageError::InvalidOrganizerToken) => written_id(event_id@) is Some && (written_id(
                organizer_token@,
            ) is None || (state@.contains_key(written_id(event_id@)->Some_0)
                && state@[written_id(event_id@)->Some_0].organizer_token != written_id(
                organizer_token@,
            )->Some_0)),
            Err(PageError::EventNotFound) => written_id(event_id@) is Some && written_id(
                organizer_token@,
            ) is Some && !state@.contains_key(written_id(event_id@)->Some_0),
            Err(_) => false,
            Ok(page) => {
                &&& written_id(event_id@) is Some
                &&& state@.contains_key(written_id(event_id@)->Some_0)
                &&& page.event@ == state@[written_id(event_id@)->Some_0]
                &&& written_id(organizer_token@) == Some(page.event.organizer_token)
                &&& page.can_close == (page.event.participants@.len() >= 2)
            },
        },
{
    let id = match parse_id(event_id) {
        Some(id) => id,
        None => {
            return Err(PageError::InvalidEventId);
        },
    };
    let token = match parse_id(organizer_token) {
        Some(token) => token,
        None => {
            return Err(PageError::InvalidOrganizerToken);
        },
    };
    let event = match state.get_event(id) {
        Some(event) => event,
        None => {
            return Err(PageError::EventNotFound);
        },
    };
    if event.organizer_token != token {
        return Err(PageError::InvalidOrganizerToken);
    }
    let can_close = event.can_close();
    Ok(ManagePage { event, can_close })
}

/// Closes the event that `event_id` writes out, for who presents the
/// event's organizer token, and returns the event's identifier and the
/// token.
pub fn close_event(event_id: &str, organizer_token: &str, state: &mut AppState) -> (result:
    Result<(u128, u128), PageError>)
    requires
        old(state).wf(),
    ensures
        final(state).wf(),
        result is Err ==> final(state)@ == old(state)@,
        written_id(event_id@) is None ==> result == Err::<(u128, u128), PageError>(
            PageError::InvalidEventId,
        ),
        written_id(event_id@) is Some && written_id(organizer_token@) is None ==> result == Err::<
            (u128, u128),
            PageError,
        >(PageError::InvalidOrganizerToken),
        written_id(event_id@) is Some && written_id(organizer_token@) is Some ==> {
            let id = written_id(event_id@)->Some_0;
            let token = written_id(organizer_token@)->Some_0;
            match close_event_outcome(old(state)@, id, token) {
                Err(error) => result == Err::<(u128, u128), PageError>(
                    PageError::spec_from_event_error(error),
                ),
                Ok(_) => result == Ok::<(u128, u128), PageError>((id, token)) && final(state)@
                    == old(state)@.insert(id, final(state)@[id]) && closes(
                    old(state)@[id],
                    final(state)@[id],
                ),
            }
        },
{
    let id = match parse_id(event_id) {
        Some(id) => id,
        None => {
            return Err(PageError::InvalidEventId);
        },
    };
    let token = match parse_id(organizer_token) {
        Some(token) => token,
        None => {
            return Err(PageError::InvalidOrganizerToken);
        },
    };
    match state.close_event(id, token) {
        Ok(_) => Ok((id, token)),
        Err(error) => Err(PageError::from_event_error(error)),
    }
}

/// What the participant's page of `event` shows to a visitor of whom
/// `remembered` is kept, if anything is.
pub fn view_assignment(event: &WichtelEvent, remembered: Option<&str>) -> (page: ViewPage)
    ensures
        match page {
            ViewPage::Identify => remembered is None || written_id(remembered->Some_0@) is None
                || !event.participants@.contains_key(written_id(remembered->Some_0@)->Some_0),
            ViewPage::Assignment { participant, assigned_to } => {
                &&& remembered is Some
                &&& written_id(remembered->Some_0@) is Some
                &&& event.participants@.contains_key(written_id(remembered->Some_0@)->Some_0)
                &&& participant == event.participants@[written_id(remembered->Some_0@)->Some_0]
                &&& assigned_to == if event.status == EventStatus::Closed {
                    receiver_of(event.participants@, written_id(remembered->Some_0@)->Some_0)
                } else {
                    None
                }
            },
        },
{
    let text = match remembered {
        Some(text) => text,
        None => {
            return ViewPage::Identify;
        },
    };
    let id = match remembered_participant(event, text) {
        Some(id) => id,
        None => {
            return ViewPage::Identify;
        },
    };
    let participant = match event.participants.get(&id) {
        Some(participant) => participant.clone(),
        None => {
            return ViewPage::Identify;
        },
    };
    let assigned_to = if event.status == EventStatus::Closed {
        match event.get_assignment(id) {
            Some(receiver) => Some(receiver.clone()),
            None => None,
        }
    } else {
        None
    };
    ViewPage::Assignment { participant, assigned_to }
}

/// The participants of the event that `event_id` writes out whose names
/// fit the search term best: at most `MAX_MATCHES`, the best first.
pub fn search_participants(event_id: &str, query: &SearchQuery, state: &AppState) -> (result:
    Result<Vec<FuzzyMatch>, PageError>)
    ensures
        written_id(event_id@) is None ==> result == Err::<Vec<FuzzyMatch>, PageError>(
            PageError::InvalidEventId,
        ),
        written_id(event_id@) is Some && !state@.contains_key(written_id(event_id@)->Some_0)
            ==> result == Err::<Vec<FuzzyMatch>, PageError>(PageError::EventNotFound),
        written_id(event_id@) is Some && state@.contains_key(written_id(event_id@)->Some_0) ==> {
            let people = state@[written_id(event_id@)->Some_0].participants;
            &&& result is Ok
            &&& result->Ok_0@.len() <= MAX_MATCHES
            &&& ranked(result->Ok_0@)
            &&& matches_fit(result->Ok_0@, people, query.q@)
            &&& matches_distinct(result->Ok_0@)
            &&& matches_best(result->Ok_0@, people, query.q@)
        },
{
    let event = match identify_page(event_id, state) {
        Ok(event) => event,
        Err(error) => {
            return Err(error);
        },
    };
    Ok(search(&event, query.q.as_str()))
}

/// The event and the participant that the visitor says they are, where
/// `event_id` writes out an event and the form one of its participants.
pub fn confirm_identity(event_id: &str, form: &ConfirmIdentityForm, state: &AppState) -> (result:
    Result<(u128, u128), PageError>)
    ensures
        match result {
            Err(PageError::InvalidEventId) => written_id(event_id@) is None,
            Err(PageError::InvalidParticipantId) => written_id(event_id@) is Some && written_id(
                form.participant_id@,
            ) is None,
            Err(PageError::EventNotFound) => written_id(event_id@) is Some && written_id(
                form.participant_id@,
            ) is Some && !state@.contains_key(written_id(event_id@)->Some_0),
            Err(PageError::ParticipantNotFound) => written_id(event_id@) is Some && written_id(
                form.participant_id@,
            ) is Some && state@.contains_key(written_id(event_id@)->Some_0)
                && !state@[written_id(event_id@)->Some_0].participants.contains_key(
                written_id(form.participant_id@)->Some_0,
            ),
            Err(_) => false,
            Ok((event, participant)) => {
                &&& written_id(event_id@) == Some(event)
                &&& written_id(form.participant_id@) == Some(participant)
                &&& state@.contains_key(event)
                &&& state@[event].participants.contains_key(participant)
            },
        },
{
    let id = match parse_id(event_id) {
        Some(id) => id,
        None => {
            return Err(PageError::InvalidEventId);
        },
    };
    let participant_id = match parse_id(form.participant_id.as_str()) {
        Some(id) => id,
        None => {
            return Err(PageError::InvalidParticipantId);
        },
    };
    let event = match state.get_event(id) {
        Some(event) => event,
        None => {
            return Err(PageError::EventNotFound);
        },
    };
    if !event.participants.contains_key(&participant_id) {
        return Err(PageError::ParticipantNotFound);
    }
    Ok((id, participant_id))
}

} // verus!
