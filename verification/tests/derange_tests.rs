use std::collections::HashSet;

use wichtel::derange::{
    draw_receivers, generate_assignments, leaves_nobody_in_place, pair_up, rotate,
};
use wichtel::error::EventError;

fn assert_derangement(ids: &[u128], pairs: &[(u128, u128)]) {
    assert_eq!(pairs.len(), ids.len());
    let mut receivers = HashSet::new();
    for (position, (giver, receiver)) in pairs.iter().enumerate() {
        assert_eq!(*giver, ids[position]);
        assert_ne!(giver, receiver);
        assert!(ids.contains(receiver));
        assert!(receivers.insert(*receiver));
    }
    assert_eq!(receivers.len(), ids.len());
}

#[test]
fn no_participants_cannot_be_assigned() {
    assert_eq!(generate_assignments(&[]), Err(EventError::InsufficientParticipants));
}

#[test]
fn one_participant_cannot_be_assigned() {
    assert_eq!(generate_assignments(&[7]), Err(EventError::InsufficientParticipants));
}

#[test]
fn two_participants_always_swap() {
    for _ in 0..200 {
        assert_eq!(generate_assignments(&[10, 20]), Ok(vec![(10, 20), (20, 10)]));
    }
}

#[test]
fn assignments_are_derangements() {
    for size in 2..40u128 {
        let ids: Vec<u128> = (0..size).map(|i| i * 1000 + 3).collect();
        let pairs = generate_assignments(&ids).unwrap();
        assert_derangement(&ids, &pairs);
    }
}

#[test]
fn assignments_of_large_identifiers() {
    let ids = vec![u128::MAX, 0, u128::MAX - 1, 1 << 100];
    let pairs = generate_assignments(&ids).unwrap();
    assert_derangement(&ids, &pairs);
}

#[test]
fn repeated_draws_give_more_than_one_assignment() {
    let ids = vec![1u128, 2, 3];
    let mut seen = HashSet::new();
    for _ in 0..1000 {
        let pairs = generate_assignments(&ids).unwrap();
        assert_derangement(&ids, &pairs);
        seen.insert(pairs);
    }
    assert_eq!(seen.len(), 2);
}

#[test]
fn every_derangement_of_four_is_drawn() {
    let ids = vec![1u128, 2, 3, 4];
    let mut seen = HashSet::new();
    for _ in 0..5000 {
        seen.insert(draw_receivers(&ids));
    }
    assert_eq!(seen.len(), 9);
}

#[test]
fn fixed_points_are_found() {
    assert!(leaves_nobody_in_place(&[1, 2, 3], &[2, 3, 1]));
    assert!(!leaves_nobody_in_place(&[1, 2, 3], &[1, 3, 2]));
    assert!(!leaves_nobody_in_place(&[1, 2, 3], &[3, 2, 1]));
    assert!(!leaves_nobody_in_place(&[1, 2, 3], &[2, 1, 3]));
    assert!(leaves_nobody_in_place(&[], &[]));
}

#[test]
fn rotation_moves_the_first_to_the_end() {
    assert_eq!(rotate(&[1, 2, 3, 4]), vec![2, 3, 4, 1]);
    assert_eq!(rotate(&[5, 6]), vec![6, 5]);
    assert_eq!(rotate(&[9]), vec![9]);
    assert_eq!(rotate(&[]), Vec::<u128>::new());
}

#[test]
fn pairs_keep_positions() {
    assert_eq!(pair_up(&[1, 2, 3], &[3, 1, 2]), vec![(1, 3), (2, 1), (3, 2)]);
    assert_eq!(pair_up(&[], &[]), Vec::<(u128, u128)>::new());
}
