use std::collections::HashSet;

use wichtel::codes::invite_code_number;
use wichtel::error::EventError;
use wichtel::models::{EventStatus, WichtelEvent};

fn event_with(names: &[&str]) -> (WichtelEvent, Vec<u128>) {
    let mut event = WichtelEvent::new("Office".to_string());
    let ids = names.iter().map(|name| event.add_participant(name.to_string()).unwrap()).collect();
    (event, ids)
}

fn assignment(event: &WichtelEvent) -> Vec<(u128, Option<u128>)> {
    let mut pairs: Vec<(u128, Option<u128>)> =
        event.participants.values().map(|p| (p.id, p.assigned_to)).collect();
    pairs.sort();
    pairs
}

#[test]
fn new_event_is_open_and_empty() {
    let event = WichtelEvent::new("Winter party".to_string());
    assert_eq!(event.name, "Winter party");
    assert_eq!(event.status, EventStatus::Open);
    assert!(event.participants.is_empty());
    assert!(invite_code_number(&event.invite_code).is_some());
    assert_ne!(event.organizer_token, event.id);
    assert!(event.created_at.seconds > 1_600_000_000);
}

#[test]
fn new_events_differ() {
    let a = WichtelEvent::new("a".to_string());
    let b = WichtelEvent::new("b".to_string());
    assert_ne!(a.id, b.id);
    assert_ne!(a.organizer_token, b.organizer_token);
}

#[test]
fn joining_adds_an_unassigned_participant() {
    let mut event = WichtelEvent::new("Office".to_string());
    let id = event.add_participant("Ada".to_string()).unwrap();
    assert_eq!(event.participants.len(), 1);
    let ada = &event.participants[&id];
    assert_eq!(ada.id, id);
    assert_eq!(ada.name, "Ada");
    assert_eq!(ada.assigned_to, None);
    assert!(ada.joined_at.seconds >= event.created_at.seconds);
    assert_eq!(event.status, EventStatus::Open);
}

#[test]
fn two_may_share_a_name() {
    let (event, ids) = event_with(&["Kim", "Kim"]);
    assert_ne!(ids[0], ids[1]);
    assert_eq!(event.participants.len(), 2);
}

#[test]
fn many_joins_lose_nobody() {
    let mut event = WichtelEvent::new("Crowd".to_string());
    let mut ids = HashSet::new();
    for number in 0..2000 {
        ids.insert(event.add_participant(format!("guest {}", number)).unwrap());
    }
    assert_eq!(ids.len(), 2000);
    assert_eq!(event.participants.len(), 2000);
}

#[test]
fn empty_event_cannot_close() {
    let mut event = WichtelEvent::new("Nobody".to_string());
    assert_eq!(event.close_and_assign(), Err(EventError::InsufficientParticipants));
    assert_eq!(event.status, EventStatus::Open);
}

#[test]
fn single_participant_cannot_close() {
    let (mut event, ids) = event_with(&["Ada"]);
    assert_eq!(event.close_and_assign(), Err(EventError::InsufficientParticipants));
    assert_eq!(event.status, EventStatus::Open);
    assert_eq!(event.participants[&ids[0]].assigned_to, None);
    assert!(event.add_participant("Bob".to_string()).is_ok());
}

#[test]
fn two_participants_gift_each_other() {
    for _ in 0..100 {
        let (mut event, ids) = event_with(&["Ada", "Bob"]);
        assert_eq!(event.close_and_assign(), Ok(()));
        assert_eq!(event.status, EventStatus::Closed);
        assert_eq!(event.participants[&ids[0]].assigned_to, Some(ids[1]));
        assert_eq!(event.participants[&ids[1]].assigned_to, Some(ids[0]));
    }
}

#[test]
fn closing_assigns_a_derangement() {
    let names = ["Ada", "Bob", "Cy", "Di", "Ed", "Flo", "Gus"];
    let (mut event, ids) = event_with(&names);
    assert_eq!(event.close_and_assign(), Ok(()));
    assert_eq!(event.status, EventStatus::Closed);
    assert_eq!(event.participants.len(), names.len());
    let mut receivers = HashSet::new();
    for (position, id) in ids.iter().enumerate() {
        let participant = &event.participants[id];
        assert_eq!(participant.name, names[position]);
        let receiver = event.get_assignment(*id).unwrap();
        assert_eq!(Some(receiver.id), participant.assigned_to);
        assert_ne!(receiver.id, *id);
        assert!(ids.contains(&receiver.id));
        assert!(receivers.insert(receiver.id));
    }
    assert_eq!(receivers, ids.iter().copied().collect::<HashSet<u128>>());
}

#[test]
fn closing_again_changes_nothing() {
    let (mut event, _) = event_with(&["Ada", "Bob", "Cy", "Di", "Ed"]);
    assert_eq!(event.close_and_assign(), Ok(()));
    let first = assignment(&event);
    for _ in 0..50 {
        assert_eq!(event.close_and_assign(), Err(EventError::AlreadyClosed));
        assert_eq!(event.status, EventStatus::Closed);
        assert_eq!(assignment(&event), first);
    }
}

#[test]
fn closed_event_takes_nobody() {
    let (mut event, _) = event_with(&["Ada", "Bob"]);
    event.close_and_assign().unwrap();
    let before = assignment(&event);
    assert_eq!(event.add_participant("Late".to_string()), Err(EventError::EventClosed));
    assert_eq!(event.participants.len(), 2);
    assert_eq!(assignment(&event), before);
}

#[test]
fn open_event_has_no_assignment() {
    let (event, ids) = event_with(&["Ada", "Bob", "Cy"]);
    for id in &ids {
        assert!(event.get_assignment(*id).is_none());
    }
}

#[test]
fn stranger_has_no_assignment() {
    let (mut event, ids) = event_with(&["Ada", "Bob", "Cy"]);
    event.close_and_assign().unwrap();
    let mut stranger = 12345u128;
    while ids.contains(&stranger) {
        stranger += 1;
    }
    assert!(event.get_assignment(stranger).is_none());
}

#[test]
fn copy_holds_the_same() {
    let (mut event, ids) = event_with(&["Ada", "Bob", "Cy"]);
    event.close_and_assign().unwrap();
    let copy = event.clone();
    assert_eq!(copy.id, event.id);
    assert_eq!(copy.name, event.name);
    assert_eq!(copy.organizer_token, event.organizer_token);
    assert_eq!(copy.invite_code, event.invite_code);
    assert_eq!(copy.status, event.status);
    assert_eq!(copy.created_at, event.created_at);
    assert_eq!(assignment(&copy), assignment(&event));
    for id in &ids {
        assert_eq!(copy.participants[id].name, event.participants[id].name);
        assert_eq!(copy.participants[id].joined_at, event.participants[id].joined_at);
    }
}

#[test]
fn messages_name_the_reason() {
    assert_eq!(EventError::EventNotFound.message(), "Event not found");
    assert_eq!(EventError::InvalidOrganizerToken.message(), "Invalid organizer token");
    assert_eq!(EventError::EventClosed.message(), "This event is already closed for new participants");
    assert_eq!(EventError::AlreadyClosed.message(), "Event is already closed");
    assert_eq!(EventError::InsufficientParticipants.message(), "Need at least 2 participants");
}
