use std::collections::HashSet;

use wichtel::error::EventError;
use wichtel::models::{EventStatus, WichtelEvent};
use wichtel::state::AppState;

fn assignment(event: &WichtelEvent) -> Vec<(u128, Option<u128>)> {
    let mut pairs: Vec<(u128, Option<u128>)> =
        event.participants.values().map(|p| (p.id, p.assigned_to)).collect();
    pairs.sort();
    pairs
}

#[test]
fn new_store_is_empty() {
    let state = AppState::new();
    assert!(state.events.is_empty());
    assert!(state.invite_codes.is_empty());
    assert!(state.has_free_code());
    assert!(state.get_event(0).is_none());
    assert!(state.get_event_by_invite_code("AAAAAA").is_none());
    assert!(AppState::default().events.is_empty());
}

#[test]
fn created_event_is_registered() {
    let mut state = AppState::new();
    let event = state.create_event("Office".to_string());
    assert_eq!(event.name, "Office");
    assert_eq!(event.status, EventStatus::Open);
    assert!(event.participants.is_empty());
    assert_ne!(event.organizer_token, event.id);
    let by_id = state.get_event(event.id).unwrap();
    assert_eq!(by_id.id, event.id);
    assert_eq!(by_id.name, "Office");
    assert_eq!(by_id.invite_code, event.invite_code);
    assert_eq!(by_id.organizer_token, event.organizer_token);
    let by_code = state.get_event_by_invite_code(&event.invite_code).unwrap();
    assert_eq!(by_code.id, event.id);
}

#[test]
fn ten_thousand_events_never_collide() {
    let mut state = AppState::new();
    let mut ids = HashSet::new();
    let mut codes = HashSet::new();
    for number in 0..10_000 {
        let event = state.create_event(format!("event {}", number));
        assert!(ids.insert(event.id));
        assert!(codes.insert(event.invite_code.clone()));
    }
    assert_eq!(state.events.len(), 10_000);
    assert_eq!(state.invite_codes.len(), 10_000);
    for code in &codes {
        assert_eq!(&state.get_event_by_invite_code(code).unwrap().invite_code, code);
    }
}

#[test]
fn unknown_codes_find_nothing() {
    let mut state = AppState::new();
    let event = state.create_event("Office".to_string());
    let lower = event.invite_code.to_lowercase();
    for code in ["", "AAAAA", "O00000", "not a code", lower.as_str()] {
        assert!(state.get_event_by_invite_code(code).is_none());
    }
    assert!(state.get_event(event.id.wrapping_add(1)).is_none());
}

#[test]
fn snapshots_are_independent() {
    let mut state = AppState::new();
    let event = state.create_event("Office".to_string());
    let mut copy = state.get_event(event.id).unwrap();
    copy.add_participant("Ghost".to_string()).unwrap();
    copy.name.push('!');
    let stored = state.get_event(event.id).unwrap();
    assert!(stored.participants.is_empty());
    assert_eq!(stored.name, "Office");
}

#[test]
fn joining_through_the_store() {
    let mut state = AppState::new();
    let event = state.create_event("Office".to_string());
    let other = state.create_event("Club".to_string());
    let ada = state.add_participant(event.id, "Ada".to_string()).unwrap();
    let bob = state.add_participant(event.id, "Bob".to_string()).unwrap();
    assert_ne!(ada, bob);
    let stored = state.get_event(event.id).unwrap();
    assert_eq!(stored.participants.len(), 2);
    assert_eq!(stored.participants[&ada].name, "Ada");
    assert_eq!(stored.participants[&bob].name, "Bob");
    assert_eq!(stored.participants[&ada].assigned_to, None);
    assert!(state.get_event(other.id).unwrap().participants.is_empty());
}

#[test]
fn joining_an_unknown_event_fails() {
    let mut state = AppState::new();
    let event = state.create_event("Office".to_string());
    assert_eq!(state.add_participant(event.id.wrapping_add(1), "Ada".to_string()), None);
    assert!(state.get_event(event.id).unwrap().participants.is_empty());
    assert_eq!(state.events.len(), 1);
}

#[test]
fn joining_a_closed_event_fails() {
    let mut state = AppState::new();
    let event = state.create_event("Office".to_string());
    state.add_participant(event.id, "Ada".to_string()).unwrap();
    state.add_participant(event.id, "Bob".to_string()).unwrap();
    state.close_event(event.id, event.organizer_token).unwrap();
    let before = assignment(&state.get_event(event.id).unwrap());
    assert_eq!(state.add_participant(event.id, "Late".to_string()), None);
    let after = state.get_event(event.id).unwrap();
    assert_eq!(after.status, EventStatus::Closed);
    assert_eq!(assignment(&after), before);
}

#[test]
fn many_joins_through_the_store_lose_nobody() {
    let mut state = AppState::new();
    let event = state.create_event("Crowd".to_string());
    let mut ids = HashSet::new();
    for number in 0..500 {
        ids.insert(state.add_participant(event.id, format!("guest {}", number)).unwrap());
    }
    assert_eq!(ids.len(), 500);
    let stored = state.get_event(event.id).unwrap();
    assert_eq!(stored.participants.len(), 500);
    assert_eq!(stored.status, EventStatus::Open);
}

#[test]
fn closing_an_unknown_event_fails() {
    let mut state = AppState::new();
    let event = state.create_event("Office".to_string());
    assert_eq!(
        state.close_event(event.id.wrapping_add(1), event.organizer_token),
        Err(EventError::EventNotFound)
    );
}

#[test]
fn wrong_token_changes_nothing() {
    let mut state = AppState::new();
    let event = state.create_event("Office".to_string());
    state.add_participant(event.id, "Ada".to_string()).unwrap();
    state.add_participant(event.id, "Bob".to_string()).unwrap();
    for bit in 0..128 {
        let token = event.organizer_token ^ (1u128 << bit);
        assert_eq!(state.close_event(event.id, token), Err(EventError::InvalidOrganizerToken));
    }
    assert_eq!(state.close_event(event.id, event.id), Err(EventError::InvalidOrganizerToken));
    let stored = state.get_event(event.id).unwrap();
    assert_eq!(stored.status, EventStatus::Open);
    assert!(stored.participants.values().all(|p| p.assigned_to.is_none()));
    assert_eq!(stored.participants.len(), 2);
}

#[test]
fn wrong_token_is_checked_before_the_count() {
    let mut state = AppState::new();
    let event = state.create_event("Office".to_string());
    assert_eq!(
        state.close_event(event.id, event.organizer_token.wrapping_add(1)),
        Err(EventError::InvalidOrganizerToken)
    );
    assert_eq!(
        state.close_event(event.id, event.organizer_token),
        Err(EventError::InsufficientParticipants)
    );
    assert_eq!(state.get_event(event.id).unwrap().status, EventStatus::Open);
}

#[test]
fn closing_two_makes_them_swap() {
    let mut state = AppState::new();
    let event = state.create_event("Pair".to_string());
    let ada = state.add_participant(event.id, "Ada".to_string()).unwrap();
    let bob = state.add_participant(event.id, "Bob".to_string()).unwrap();
    assert_eq!(state.close_event(event.id, event.organizer_token), Ok(()));
    let stored = state.get_event(event.id).unwrap();
    assert_eq!(stored.status, EventStatus::Closed);
    assert_eq!(stored.participants[&ada].assigned_to, Some(bob));
    assert_eq!(stored.participants[&bob].assigned_to, Some(ada));
    assert_eq!(stored.get_assignment(ada).unwrap().name, "Bob");
    assert_eq!(stored.get_assignment(bob).unwrap().name, "Ada");
}

#[test]
fn closing_twice_keeps_the_assignment() {
    let mut state = AppState::new();
    let event = state.create_event("Office".to_string());
    for name in ["Ada", "Bob", "Cy", "Di", "Ed", "Flo"] {
        state.add_participant(event.id, name.to_string()).unwrap();
    }
    assert_eq!(state.close_event(event.id, event.organizer_token), Ok(()));
    let first = assignment(&state.get_event(event.id).unwrap());
    assert!(first.iter().all(|(id, to)| to.is_some() && *to != Some(*id)));
    for _ in 0..50 {
        assert_eq!(
            state.close_event(event.id, event.organizer_token),
            Err(EventError::AlreadyClosed)
        );
        assert_eq!(assignment(&state.get_event(event.id).unwrap()), first);
    }
}

#[test]
fn closed_event_is_still_found_by_its_code() {
    let mut state = AppState::new();
    let event = state.create_event("Office".to_string());
    state.add_participant(event.id, "Ada".to_string()).unwrap();
    state.add_participant(event.id, "Bob".to_string()).unwrap();
    state.close_event(event.id, event.organizer_token).unwrap();
    let found = state.get_event_by_invite_code(&event.invite_code).unwrap();
    assert_eq!(found.id, event.id);
    assert_eq!(found.status, EventStatus::Closed);
}

#[test]
fn events_close_independently() {
    let mut state = AppState::new();
    let first = state.create_event("First".to_string());
    let second = state.create_event("Second".to_string());
    for event in [&first, &second] {
        state.add_participant(event.id, "Ada".to_string()).unwrap();
        state.add_participant(event.id, "Bob".to_string()).unwrap();
    }
    assert_eq!(
        state.close_event(first.id, second.organizer_token),
        Err(EventError::InvalidOrganizerToken)
    );
    assert_eq!(state.close_event(first.id, first.organizer_token), Ok(()));
    assert_eq!(state.get_event(second.id).unwrap().status, EventStatus::Open);
    assert!(state.add_participant(second.id, "Cy".to_string()).is_some());
}
