//! One gift-exchange event: its participants, its state, and, once it is
//! closed, who gifts whom.

use std::collections::HashMap;
use vstd::prelude::*;
use vstd::std_specs::iter::IteratorSpec;
use crate::clock::{now, Timestamp};
use crate::codes::{generate_invite_code, is_invite_code};
use crate::derange::{generate_assignments, givers_of, is_derangement, receivers_of};
use crate::entropy::random_id;
use crate::error::EventError;
use crate::fresh::{distinct_id, fresh_id};

verus! {

broadcast use vstd::std_specs::hash::group_hash_axioms;

/// Somebody who has joined an event.
#[derive(Debug)]
pub struct Participant {
    /// Given at join time, never changed.
    pub id: u128,
    /// The name as the participant entered it; two may share one.
    pub name: String,
    pub joined_at: Timestamp,
    /// Whom this participant gifts: nobody until the event is closed.
    pub assigned_to: Option<u128>,
}

impl Clone for Participant {
    /// A copy that is equal to the participant.
    fn clone(&self) -> (copy: Self)
        ensures
            copy == *self,
    {
        Participant {
            id: self.id,
            name: self.name.clone(),
            joined_at: self.joined_at,
            assigned_to: self.assigned_to,
        }
    }
}

/// Whether an event still takes participants.
#[derive(Clone, Copy, Debug, PartialEq, Eq, Structural)]
pub enum EventStatus {
    Open,
    Closed,
}

/// The identifiers of a map's keys, each once, in the order in which the map
/// hands them out.
pub fn key_list<V>(entries: &HashMap<u128, V>) -> (keys: Vec<u128>)
    ensures
        keys@.no_duplicates(),
        keys@.to_set() == entries@.dom(),
        keys@.len() == entries@.len(),
{
    let mut keys: Vec<u128> = Vec::new();
    for key in it: entries.keys()
        invariant
            keys@ == it.seq().take(it.index() as int).unref(),
    {
        keys.push(*key);
    }
    proof {
        let all = entries.keys().remaining();
        assert(all.take(all.len() as int) =~= all);
        assert(keys@ == all.unref());
    }
    keys
}

/// What an event holds, as mathematical values.
pub struct EventView {
    pub id: u128,
    pub name: Seq<char>,
    pub organizer_token: u128,
    pub invite_code: Seq<char>,
    pub status: EventStatus,
    pub participants: Map<u128, Participant>,
    pub created_at: Timestamp,
}

/// One gift-exchange round.
#[derive(Debug)]
pub struct WichtelEvent {
    pub id: u128,
    /// The label that the organizer chose.
    pub name: String,
    /// The secret that proves the organizer's authority.
    pub organizer_token: u128,
    /// The short code by which participants find the event.
    pub invite_code: String,
    pub status: EventStatus,
    pub participants: HashMap<u128, Participant>,
    pub created_at: Timestamp,
}

impl View for WichtelEvent {
    type V = EventView;

    open spec fn view(&self) -> EventView {
        EventView {
            id: self.id,
            name: self.name@,
            organizer_token: self.organizer_token,
            invite_code: self.invite_code@,
            status: self.status,
            participants: self.participants@,
            created_at: self.created_at,
        }
    }
}

/// `participant` with `receiver` as the one to gift.
pub open spec fn assigned(participant: Participant, receiver: u128) -> Participant {
    Participant { assigned_to: Some(receiver), ..participant }
}

/// Everybody is filed under their own identifier.
pub open spec fn filed_by_id(participants: Map<u128, Participant>) -> bool {
    forall|id: u128|
        participants.contains_key(id) ==> (#[trigger] participants[id]).id == id
}

/// Nobody has been told whom to gift.
pub open spec fn unassigned(participants: Map<u128, Participant>) -> bool {
    forall|id: u128|
        participants.contains_key(id) ==> (#[trigger] participants[id]).assigned_to is None
}

/// Everybody gifts exactly one other participant and is gifted by exactly
/// one.
pub open spec fn is_secret_assignment(participants: Map<u128, Participant>) -> bool {
    &&& forall|id: u128|
        participants.contains_key(id) ==> {
            &&& (#[trigger] participants[id]).assigned_to is Some
            &&& participants[id].assigned_to->Some_0 != id
            &&& participants.contains_key(participants[id].assigned_to->Some_0)
        }
    &&& forall|a: u128, b: u128|
        participants.contains_key(a) && participants.contains_key(b) && a != b ==> (
        #[trigger] participants[a]).assigned_to != (#[trigger] participants[b]).assigned_to
    &&& forall|receiver: u128| #[trigger]
        participants.contains_key(receiver) ==> exists|giver: u128|
            participants.contains_key(giver) && (#[trigger] participants[giver]).assigned_to
                == Some(receiver)
}

/// The participant whom `id` gifts, if `id` has joined and has been told.
pub open spec fn receiver_of(participants: Map<u128, Participant>, id: u128) -> Option<
    Participant,
> {
    if participants.contains_key(id) && participants[id].assigned_to is Some
        && participants.contains_key(participants[id].assigned_to->Some_0) {
        Some(participants[participants[id].assigned_to->Some_0])
    } else {
        None
    }
}

/// Writes into `participants` whom each giver of `pairs` gifts.
pub fn write_assignments(
    participants: &mut HashMap<u128, Participant>,
    pairs: &Vec<(u128, u128)>,
)
    requires
        givers_of(pairs@).no_duplicates(),
    ensures
        final(participants)@.dom() == old(participants)@.dom(),
        forall|i: int|
            0 <= i < pairs@.len() && old(participants)@.contains_key(pairs@[i].0)
                ==> final(participants)@[pairs@[i].0]
                == assigned(old(participants)@[pairs@[i].0], pairs@[i].1),
        forall|id: u128|
            old(participants)@.contains_key(id) && !givers_of(pairs@).contains(id)
                ==> final(participants)@[id] == old(participants)@[id],
{
    let ghost before = participants@;
    let mut i: usize = 0;
    while i < pairs.len()
        invariant
            i <= pairs@.len(),
            givers_of(pairs@).no_duplicates(),
            participants@.dom() == before.dom(),
            forall|j: int|
                0 <= j < i && before.contains_key(pairs@[j].0) ==> participants@[pairs@[j].0]
                    == assigned(before[pairs@[j].0], pairs@[j].1),
            forall|id: u128|
                before.contains_key(id) && !givers_of(pairs@).take(i as int).contains(id)
                    ==> participants@[id] == before[id],
        decreases pairs@.len() - i,
    {
        let giver = pairs[i].0;
        let receiver = pairs[i].1;
        let ghost givers = givers_of(pairs@);
        proof {
            assert(givers[i as int] == giver);
            assert(!givers.take(i as int).contains(giver)) by {
                if givers.take(i as int).contains(giver) {
                    let j = choose|j: int|
                        0 <= j < i && givers.take(i as int)[j] == giver;
                    assert(givers[j] == givers[i as int]);
                }
            }
        }
        let ghost middle = participants@;
        match participants.remove(&giver) {
            Some(found) => {
                let mut participant = found;
                participant.assigned_to = Some(receiver);
                participants.insert(giver, participant);
                assert(participants@.dom() =~= before.dom());
            },
            None => {
                assert(participants@ =~= middle);
            },
        }
        proof {
            assert forall|j: int|
                0 <= j < i + 1 && before.contains_key(pairs@[j].0) implies participants@[pairs@[j].0]
                == assigned(before[pairs@[j].0], pairs@[j].1) by {
                if j < i {
                    assert(givers[j] == pairs@[j].0);
                    assert(givers[j] != givers[i as int]);
                }
            }
            assert(givers.take(i + 1) =~= givers.take(i as int).push(giver));
            assert forall|id: u128|
                before.contains_key(id) && !givers.take(i + 1).contains(id) implies participants@[id]
                == before[id] by {
                if givers.take(i as int).contains(id) {
                    let j = choose|j: int| 0 <= j < i && givers.take(i as int)[j] == id;
                    assert(givers.take(i + 1)[j] == id);
                }
                assert(givers.take(i + 1)[i as int] == giver);
                assert(id != giver);
            }
        }
        i += 1;
    }
    proof {
        assert(givers_of(pairs@).take(pairs@.len() as int) =~= givers_of(pairs@));
    }
}

/// The same people under the same identifiers, with nothing changed but,
/// possibly, whom each gifts.
pub open spec fn same_people(
    before: Map<u128, Participant>,
    after: Map<u128, Participant>,
) -> bool {
    &&& after.dom() == before.dom()
    &&& forall|id: u128|
        before.contains_key(id) ==> (#[trigger] after[id]) == (Participant {
            assigned_to: after[id].assigned_to,
            ..before[id]
        })
}

/// What closing an event in state `before` answers.
pub open spec fn close_outcome(before: EventView) -> Result<(), EventError> {
    if before.status == EventStatus::Closed {
        Err(EventError::AlreadyClosed)
    } else if before.participants.len() < 2 {
        Err(EventError::InsufficientParticipants)
    } else {
        Ok(())
    }
}

/// `after` is `before` closed: the same event and the same people, each of
/// them now gifting another.
pub open spec fn closes(before: EventView, after: EventView) -> bool {
    &&& after == (EventView {
        status: EventStatus::Closed,
        participants: after.participants,
        ..before
    })
    &&& same_people(before.participants, after.participants)
    &&& is_secret_assignment(after.participants)
}

/// `after` is `before` with `joined` as one more participant.
pub open spec fn joins(before: EventView, after: EventView, joined: Participant) -> bool {
    &&& !before.participants.contains_key(joined.id)
    &&& joined.assigned_to is None
    &&& after == (EventView {
        participants: before.participants.insert(joined.id, joined),
        ..before
    })
}

impl EventView {
    /// The event keeps its own rules: its invite code is one, its token is
    /// not its identifier, everybody is filed under their identifier, and
    /// the assignment is there exactly when the event is closed.
    pub open spec fn wf(self) -> bool {
        &&& is_invite_code(self.invite_code)
        &&& self.organizer_token != self.id
        &&& filed_by_id(self.participants)
        &&& self.status == EventStatus::Open ==> unassigned(self.participants)
        &&& self.status == EventStatus::Closed ==> self.participants.len() >= 2
            && is_secret_assignment(self.participants)
    }
}

impl WichtelEvent {
    /// The event keeps its own rules, as `EventView::wf` states them.
    pub open spec fn wf(&self) -> bool {
        self@.wf()
    }

    /// A new event named `name`: open, without participants, with a random
    /// identifier, organizer token and invite code.
    pub fn new(name: String) -> (event: Self)
        ensures
            event.wf(),
            event@.name == name@,
            event.status == EventStatus::Open,
            event.participants@ == Map::<u128, Participant>::empty(),
    {
        let invite_code = generate_invite_code();
        let id = random_id();
        WichtelEvent {
            id,
            name,
            organizer_token: distinct_id(id),
            invite_code,
            status: EventStatus::Open,
            participants: HashMap::new(),
            created_at: now(),
        }
    }

    /// Lets somebody named `name` join, under a new identifier, which is
    /// returned. A closed event takes nobody.
    pub fn add_participant(&mut self, name: String) -> (result: Result<u128, EventError>)
        requires
            old(self).wf(),
        ensures
            final(self).wf(),
            result is Err <==> old(self).status == EventStatus::Closed,
            result is Err ==> result == Err::<u128, EventError>(EventError::EventClosed)
                && final(self)@ == old(self)@,
            result is Ok ==> {
                let id = result->Ok_0;
                &&& final(self).participants@.contains_key(id)
                &&& final(self).participants@[id].id == id
                &&& final(self).participants@[id].name@ == name@
                &&& joins(old(self)@, final(self)@, final(self).participants@[id])
            },
    {
        if self.status == EventStatus::Closed {
            return Err(EventError::EventClosed);
        }
        let id = fresh_id(&self.participants);
        let participant = Participant { id, name, joined_at: now(), assigned_to: None };
        self.participants.insert(id, participant);
        Ok(id)
    }

    /// Closes the event and tells everybody whom to gift. An event closes
    /// once, and only with two participants or more.
    pub fn close_and_assign(&mut self) -> (result: Result<(), EventError>)
        requires
            old(self).wf(),
        ensures
            final(self).wf(),
            result == close_outcome(old(self)@),
            result is Err ==> final(self)@ == old(self)@,
            result is Ok ==> closes(old(self)@, final(self)@),
    {
        if self.status == EventStatus::Closed {
            return Err(EventError::AlreadyClosed);
        }
        if self.participants.len() < 2 {
            return Err(EventError::InsufficientParticipants);
        }
        let ghost before = self.participants@;
        let participant_ids = key_list(&self.participants);
        let assignments = match generate_assignments(participant_ids.as_slice()) {
            Ok(pairs) => pairs,
            Err(error) => {
                return Err(error);
            },
        };
        write_assignments(&mut self.participants, &assignments);
        self.status = EventStatus::Closed;
        proof {
            lemma_assignment_written(before, self.participants@, assignments@);
        }
        Ok(())
    }

    /// Tells whether the event has the two participants that closing takes.
    pub fn can_close(&self) -> (enough: bool)
        ensures
            enough == (self.participants@.len() >= 2),
    {
        self.participants.len() >= 2
    }

    /// The participant whom `participant_id` gifts. There is none while the
    /// event is open, nor for somebody who has not joined.
    pub fn get_assignment(&self, participant_id: u128) -> (receiver: Option<&Participant>)
        ensures
            match receiver {
                Some(found) => receiver_of(self.participants@, participant_id) == Some(*found),
                None => receiver_of(self.participants@, participant_id) is None,
            },
    {
        let participant = match self.participants.get(&participant_id) {
            Some(found) => found,
            None => {
                return None;
            },
        };
        let assigned_to_id = match participant.assigned_to {
            Some(id) => id,
            None => {
                return None;
            },
        };
        self.participants.get(&assigned_to_id)
    }
}

impl Clone for WichtelEvent {
    /// A copy that holds what the event holds.
    fn clone(&self) -> (copy: Self)
        ensures
            copy@ == self@,
    {
        WichtelEvent {
            id: self.id,
            name: self.name.clone(),
            organizer_token: self.organizer_token,
            invite_code: self.invite_code.clone(),
            status: self.status,
            participants: self.participants.clone(),
            created_at: self.created_at,
        }
    }
}

/// Writing a derangement of everybody's identifiers into an unassigned
/// register makes it a secret assignment among the same people.
pub proof fn lemma_assignment_written(
    before: Map<u128, Participant>,
    after: Map<u128, Participant>,
    pairs: Seq<(u128, u128)>,
)
    requires
        filed_by_id(before),
        givers_of(pairs).no_duplicates(),
        givers_of(pairs).to_set() == before.dom(),
        is_derangement(givers_of(pairs), receivers_of(pairs)),
        after.dom() == before.dom(),
        forall|i: int|
            0 <= i < pairs.len() && before.contains_key(pairs[i].0) ==> after[pairs[i].0]
                == assigned(before[pairs[i].0], pairs[i].1),
    ensures
        filed_by_id(after),
        same_people(before, after),
        is_secret_assignment(after),
{
    let givers = givers_of(pairs);
    let receivers = receivers_of(pairs);
    crate::derange::lemma_derangement_is_bijection(givers, receivers);
    assert forall|id: u128| before.contains_key(id) implies exists|i: int|
        0 <= i < pairs.len() && pairs[i].0 == id by {
        assert(givers.to_set().contains(id));
        assert(givers.contains(id));
        let i = choose|i: int| 0 <= i < givers.len() && givers[i] == id;
        assert(pairs[i].0 == id);
    }
    assert forall|i: int| 0 <= i < pairs.len() implies before.contains_key(pairs[i].0)
        && before.contains_key(pairs[i].1) by {
        assert(givers[i] == pairs[i].0);
        assert(givers.contains(givers[i]));
        assert(givers.to_set().contains(givers[i]));
        assert(receivers[i] == pairs[i].1);
        assert(receivers.contains(receivers[i]));
        assert(givers.contains(receivers[i]));
        assert(givers.to_set().contains(receivers[i]));
    }
    assert forall|id: u128| before.contains_key(id) implies {
        &&& (#[trigger] after[id]).id == id
        &&& after[id] == (Participant { assigned_to: after[id].assigned_to, ..before[id] })
        &&& after[id].assigned_to is Some
        &&& after[id].assigned_to->Some_0 != id
        &&& after.contains_key(after[id].assigned_to->Some_0)
    } by {
        let i = choose|i: int| 0 <= i < pairs.len() && pairs[i].0 == id;
        assert(givers[i] == id && receivers[i] == pairs[i].1);
    }
    assert forall|a: u128, b: u128|
        after.contains_key(a) && after.contains_key(b) && a != b implies (#[trigger] after[a]).assigned_to
        != (#[trigger] after[b]).assigned_to by {
        let i = choose|i: int| 0 <= i < pairs.len() && pairs[i].0 == a;
        let j = choose|j: int| 0 <= j < pairs.len() && pairs[j].0 == b;
        assert(receivers[i] == pairs[i].1 && receivers[j] == pairs[j].1);
        assert(i != j);
    }
    assert forall|receiver: u128| #[trigger] after.contains_key(receiver) implies exists|
        giver: u128,
    |
        after.contains_key(giver) && (#[trigger] after[giver]).assigned_to == Some(receiver) by {
        assert(givers.to_set().contains(receiver));
        assert(givers.contains(receiver));
        assert(receivers.contains(receiver));
        let i = choose|i: int| 0 <= i < receivers.len() && receivers[i] == receiver;
        assert(receivers[i] == pairs[i].1);
        assert(after[pairs[i].0].assigned_to == Some(receiver));
    }
}

/// In a closed event everybody gifts a participant other than themselves,
/// no two gift the same one, and everybody is gifted.
pub proof fn lemma_closed_event_assigns_everybody(event: EventView)
    requires
        event.wf(),
        event.status == EventStatus::Closed,
    ensures
        forall|id: u128| #[trigger]
            event.participants.contains_key(id) ==> {
                let receiver = receiver_of(event.participants, id);
                &&& receiver is Some
                &&& receiver->Some_0.id != id
                &&& event.participants.contains_key(receiver->Some_0.id)
            },
        forall|a: u128, b: u128|
            #![trigger receiver_of(event.participants, a), receiver_of(event.participants, b)]
            event.participants.contains_key(a) && event.participants.contains_key(b) && a != b
                ==> receiver_of(event.participants, a)->Some_0.id != receiver_of(
                event.participants,
                b,
            )->Some_0.id,
        forall|receiver: u128| #[trigger]
            event.participants.contains_key(receiver) ==> exists|giver: u128|
                event.participants.contains_key(giver) && (#[trigger] receiver_of(
                    event.participants,
                    giver,
                )) is Some && receiver_of(event.participants, giver)->Some_0.id == receiver,
{
    let people = event.participants;
    assert forall|id: u128| #[trigger] people.contains_key(id) implies {
        let receiver = receiver_of(people, id);
        &&& receiver is Some
        &&& receiver->Some_0.id == people[id].assigned_to->Some_0
        &&& receiver->Some_0.id != id
        &&& people.contains_key(receiver->Some_0.id)
    } by {
        assert(people[id].assigned_to is Some);
        assert(people[people[id].assigned_to->Some_0].id == people[id].assigned_to->Some_0);
    }
    assert forall|a: u128, b: u128|
        #![trigger receiver_of(people, a), receiver_of(people, b)]
        people.contains_key(a) && people.contains_key(b) && a != b implies receiver_of(
        people,
        a,
    )->Some_0.id != receiver_of(people, b)->Some_0.id by {
        assert(people[a].assigned_to != people[b].assigned_to);
    }
    assert forall|receiver: u128| #[trigger] people.contains_key(receiver) implies exists|
        giver: u128,
    |
        people.contains_key(giver) && (#[trigger] receiver_of(people, giver)) is Some
            && receiver_of(people, giver)->Some_0.id == receiver by {
        let giver = choose|giver: u128|
            people.contains_key(giver) && (#[trigger] people[giver]).assigned_to == Some(
                receiver,
            );
        assert(receiver_of(people, giver) is Some);
        assert(receiver_of(people, giver)->Some_0.id == receiver);
    }
}

/// Closing an event of two participants makes each gift the other,
/// whatever was drawn.
pub proof fn lemma_two_participants_gift_each_other(
    before: EventView,
    after: EventView,
    a: u128,
    b: u128,
)
    requires
        closes(before, after),
        a != b,
        before.participants.dom() == set![a, b],
    ensures
        after.participants[a].assigned_to == Some(b),
        after.participants[b].assigned_to == Some(a),
{
    assert(after.participants.contains_key(a));
    assert(after.participants.contains_key(b));
    let of_a = after.participants[a].assigned_to->Some_0;
    let of_b = after.participants[b].assigned_to->Some_0;
    assert(set![a, b].contains(of_a));
    assert(set![a, b].contains(of_b));
}

/// Somebody who joins is one participant more, and nobody who had joined
/// before is lost or changed.
pub proof fn lemma_join_adds_one(before: EventView, after: EventView, joined: Participant)
    requires
        before.participants.dom().finite(),
        joins(before, after, joined),
    ensures
        after.participants.len() == before.participants.len() + 1,
        forall|id: u128|
            before.participants.contains_key(id) ==> after.participants.contains_key(id)
                && after.participants[id] == before.participants[id],
{
}

} // verus!
