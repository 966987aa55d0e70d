use std::collections::HashMap;

use wichtel::codes::invite_code_number;
use wichtel::fresh::{distinct_id, first_free_code, first_free_id, fresh_id, fresh_invite_code};

#[test]
fn first_free_id_is_the_least() {
    let mut taken: HashMap<u128, ()> = HashMap::new();
    assert_eq!(first_free_id(&taken), 0);
    taken.insert(0, ());
    taken.insert(1, ());
    taken.insert(3, ());
    assert_eq!(first_free_id(&taken), 2);
    taken.insert(2, ());
    assert_eq!(first_free_id(&taken), 4);
}

#[test]
fn first_free_code_is_the_least() {
    let mut taken: HashMap<u32, u128> = HashMap::new();
    assert_eq!(first_free_code(&taken), 0);
    for number in 0..100 {
        taken.insert(number, 1);
    }
    assert_eq!(first_free_code(&taken), 100);
    taken.remove(&42);
    assert_eq!(first_free_code(&taken), 42);
}

#[test]
fn fresh_ids_are_not_taken() {
    let mut taken: HashMap<u128, u8> = HashMap::new();
    for _ in 0..1000 {
        let id = fresh_id(&taken);
        assert!(!taken.contains_key(&id));
        taken.insert(id, 0);
    }
    assert_eq!(taken.len(), 1000);
}

#[test]
fn fresh_codes_are_not_taken() {
    let mut taken: HashMap<u32, u128> = HashMap::new();
    for _ in 0..1000 {
        let code = fresh_invite_code(&taken);
        let number = invite_code_number(&code).unwrap();
        assert!(!taken.contains_key(&number));
        taken.insert(number, 0);
    }
    assert_eq!(taken.len(), 1000);
}

#[test]
fn distinct_ids_differ() {
    for taken in [0u128, 1, u128::MAX, 1 << 64] {
        assert_ne!(distinct_id(taken), taken);
    }
}

#[test]
fn random_ids_vary() {
    let empty: HashMap<u128, ()> = HashMap::new();
    assert_ne!(fresh_id(&empty), fresh_id(&empty));
}
