//! The store: every event of the process, found by identifier or by invite
//! code.

use std::collections::HashMap;
use vstd::prelude::*;
use crate::codes::{code_number, invite_code_number, lemma_code_number_injective, CODE_SPACE};
use crate::error::EventError;
use crate::fresh::{distinct_id, fresh_id, fresh_invite_code};
use crate::models::{close_outcome, closes, joins, EventStatus, EventView, WichtelEvent};

verus! {

broadcast use vstd::std_specs::hash::group_hash_axioms;

/// The registry of all events, with an index from invite codes to events.
pub struct AppState {
    /// Every event, under its identifier.
    pub events: HashMap<u128, WichtelEvent>,
    /// For the number of each invite code in use, the event that has it.
    pub invite_codes: HashMap<u32, u128>,
}

/// `after` is `before` with `event` as one more event, whose identifier and
/// invite code no event of `before` has.
pub open spec fn registers(
    before: Map<u128, EventView>,
    after: Map<u128, EventView>,
    event: EventView,
) -> bool {
    &&& !before.contains_key(event.id)
    &&& forall|id: u128|
        before.contains_key(id) ==> (#[trigger] before[id]).invite_code != event.invite_code
    &&& after == before.insert(event.id, event)
}

/// What a request to close event `event_id` with `organizer_token` answers.
pub open spec fn close_event_outcome(
    events: Map<u128, EventView>,
    event_id: u128,
    organizer_token: u128,
) -> Result<(), EventError> {
    if !events.contains_key(event_id) {
        Err(EventError::EventNotFound)
    } else if events[event_id].organizer_token != organizer_token {
        Err(EventError::InvalidOrganizerToken)
    } else {
        close_outcome(events[event_id])
    }
}

impl View for AppState {
    type V = Map<u128, EventView>;

    /// The registered events, each under its identifier.
    open spec fn view(&self) -> Map<u128, EventView> {
        Map::new(|id: u128| self.events@.contains_key(id), |id: u128| self.events@[id]@)
    }
}

impl AppState {
    /// Every event is filed under its identifier and keeps its own rules,
    /// and the index holds the invite code of each event and no other.
    pub open spec fn wf(&self) -> bool {
        &&& forall|id: u128|
            self.events@.contains_key(id) ==> {
                let event = (#[trigger] self.events@[id])@;
                &&& event.id == id
                &&& event.wf()
                &&& self.invite_codes@.contains_key(code_number(event.invite_code) as u32)
                &&& self.invite_codes@[code_number(event.invite_code) as u32] == id
            }
        &&& forall|number: u32|
            self.invite_codes@.contains_key(number) ==> {
                let id = #[trigger] self.invite_codes@[number];
                &&& self.events@.contains_key(id)
                &&& code_number(self.events@[id]@.invite_code) == number
            }
    }

    /// Some invite code is not in use yet, so one more event can be created.
    pub open spec fn spec_has_free_code(&self) -> bool {
        self.invite_codes@.len() < CODE_SPACE
    }

    /// An empty store.
    pub fn new() -> (state: Self)
        ensures
            state.wf(),
            state@ == Map::<u128, EventView>::empty(),
            state.spec_has_free_code(),
    {
        let state = AppState { events: HashMap::new(), invite_codes: HashMap::new() };
        assert(state@ =~= Map::<u128, EventView>::empty());
        state
    }

    /// Tells whether one more event can be created.
    #[verifier::when_used_as_spec(spec_has_free_code)]
    pub fn has_free_code(&self) -> (free: bool)
        ensures
            free == self.spec_has_free_code(),
    {
        self.invite_codes.len() < CODE_SPACE as usize
    }

    /// A copy of the event registered under `id`, if there is one.
    pub fn get_event(&self, id: u128) -> (found: Option<WichtelEvent>)
        ensures
            found is Some <==> self@.contains_key(id),
            found is Some ==> found->Some_0@ == self@[id],
    {
        match self.events.get(&id) {
            Some(event) => Some(event.clone()),
            None => None,
        }
    }

    /// A copy of the event that has the invite code `code`, if there is
    /// one, be it open or closed.
    pub fn get_event_by_invite_code(&self, code: &str) -> (found: Option<WichtelEvent>)
        requires
            self.wf(),
        ensures
            match found {
                Some(event) => self@.contains_key(event.id) && self@[event.id] == event@
                    && event@.invite_code == code@,
                None => forall|id: u128|
                    self@.contains_key(id) ==> (#[trigger] self@[id]).invite_code != code@,
            },
    {
        let number = match invite_code_number(code) {
            Some(number) => number,
            None => {
                return None;
            },
        };
        let event_id = match self.invite_codes.get(&number) {
            Some(id) => *id,
            None => {
                return None;
            },
        };
        let found = self.get_event(event_id);
        proof {
            let event = self.events@[event_id]@;
            assert(event.wf());
            lemma_code_number_injective(event.invite_code, code@);
        }
        found
    }
}

impl AppState {
    /// Creates an event named `name`, registers it under a new identifier
    /// and a new invite code, and returns a copy of it.
    pub fn create_event(&mut self, name: String) -> (event: WichtelEvent)
        requires
            old(self).wf(),
            old(self).spec_has_free_code(),
        ensures
            final(self).wf(),
            event.wf(),
            event@.name == name@,
            event.status == EventStatus::Open,
            event.participants@.len() == 0,
            registers(old(self)@, final(self)@, event@),
            final(self).invite_codes@.len() == old(self).invite_codes@.len() + 1,
    {
        let mut event = WichtelEvent::new(name);
        if self.events.contains_key(&event.id) {
            event.id = fresh_id(&self.events);
            if event.organizer_token == event.id {
                event.organizer_token = distinct_id(event.id);
            }
        }
        let mut number = match invite_code_number(event.invite_code.as_str()) {
            Some(number) => number,
            None => 0,
        };
        if self.invite_codes.contains_key(&number) {
            event.invite_code = fresh_invite_code(&self.invite_codes);
            number = match invite_code_number(event.invite_code.as_str()) {
                Some(number) => number,
                None => 0,
            };
        }
        let ghost before = *self;
        self.invite_codes.insert(number, event.id);
        self.events.insert(event.id, event.clone());
        proof {
            assert(final(self)@ =~= before@.insert(event.id, event@));
            assert forall|id: u128| before@.contains_key(id) implies (#[trigger] before@[id]).invite_code
                != event@.invite_code by {
                assert(before.events@[id]@.wf());
            }
        }
        event
    }

    /// Lets somebody named `name` join the event `event_id`, and returns
    /// the new participant's identifier. There is none where no such event
    /// is registered, nor where the event is closed.
    pub fn add_participant(&mut self, event_id: u128, name: String) -> (joined: Option<u128>)
        requires
            old(self).wf(),
        ensures
            final(self).wf(),
            joined is Some <==> old(self)@.contains_key(event_id) && old(self)@[event_id].status
                == EventStatus::Open,
            joined is None ==> final(self)@ == old(self)@,
            final(self).invite_codes@ == old(self).invite_codes@,
            joined is Some ==> {
                let id = joined->Some_0;
                let event = final(self)@[event_id];
                &&& final(self)@ == old(self)@.insert(event_id, event)
                &&& event.participants.contains_key(id)
                &&& event.participants[id].id == id
                &&& event.participants[id].name@ == name@
                &&& joins(old(self)@[event_id], event, event.participants[id])
            },
    {
        let ghost before = *self;
        let mut event = match self.events.remove(&event_id) {
            Some(event) => event,
            None => {
                assert(self.events@ =~= before.events@);
                assert(self@ =~= before@);
                return None;
            },
        };
        let joined = match event.add_participant(name) {
            Ok(id) => Some(id),
            Err(_) => None,
        };
        let ghost after = event@;
        self.events.insert(event_id, event);
        proof {
            assert(self@ =~= before@.insert(event_id, after));
            if joined is None {
                assert(self@ =~= before@);
            }
        }
        joined
    }

    /// Closes the event `event_id` on the organizer's request and tells
    /// everybody whom to gift. The request is turned down where no such
    /// event is registered, where `organizer_token` is not the event's, and
    /// where the event cannot be closed; the store then stays as it was.
    pub fn close_event(&mut self, event_id: u128, organizer_token: u128) -> (result: Result<
        (),
        EventError,
    >)
        requires
            old(self).wf(),
        ensures
            final(self).wf(),
            result == close_event_outcome(old(self)@, event_id, organizer_token),
            result is Err ==> final(self)@ == old(self)@,
            final(self).invite_codes@ == old(self).invite_codes@,
            result is Ok ==> final(self)@ == old(self)@.insert(event_id, final(self)@[event_id])
                && closes(old(self)@[event_id], final(self)@[event_id]),
    {
        let ghost before = *self;
        let mut event = match self.events.remove(&event_id) {
            Some(event) => event,
            None => {
                assert(self.events@ =~= before.events@);
                assert(self@ =~= before@);
                return Err(EventError::EventNotFound);
            },
        };
        let result = if event.organizer_token != organizer_token {
            Err(EventError::InvalidOrganizerToken)
        } else {
            event.close_and_assign()
        };
        let ghost after = event@;
        self.events.insert(event_id, event);
        proof {
            assert(self@ =~= before@.insert(event_id, after));
            if result is Err {
                assert(self@ =~= before@);
            }
        }
        result
    }
}

impl Default for AppState {
    fn default() -> (state: Self)
        ensures
            state.wf(),
            state@ == Map::<u128, EventView>::empty(),
    {
        AppState::new()
    }
}

/// Two events created one after the other differ in their identifiers and
/// in their invite codes.
pub proof fn lemma_created_events_differ(
    start: Map<u128, EventView>,
    middle: Map<u128, EventView>,
    end: Map<u128, EventView>,
    first: EventView,
    second: EventView,
)
    requires
        registers(start, middle, first),
        registers(middle, end, second),
    ensures
        first.id != second.id,
        first.invite_code != second.invite_code,
{
    assert(middle.contains_key(first.id));
    assert(middle[first.id] == first);
}

/// In a store that keeps its rules no two events share an invite code, and
/// every event is found under its own identifier.
pub proof fn lemma_invite_codes_are_unique(state: AppState)
    requires
        state.wf(),
    ensures
        forall|a: u128, b: u128|
            state@.contains_key(a) && state@.contains_key(b) && a != b ==> (#[trigger] state@[a]).invite_code
                != (#[trigger] state@[b]).invite_code,
        forall|id: u128| state@.contains_key(id) ==> (#[trigger] state@[id]).id == id,
{
    assert forall|a: u128, b: u128|
        state@.contains_key(a) && state@.contains_key(b) && a != b implies (#[trigger] state@[a]).invite_code
        != (#[trigger] state@[b]).invite_code by {
        assert(state.events@[a]@.wf());
        assert(state.events@[b]@.wf());
    }
    assert forall|id: u128| state@.contains_key(id) implies (#[trigger] state@[id]).id == id by {
        assert(state.events@[id]@.wf());
    }
}

} // verus!
