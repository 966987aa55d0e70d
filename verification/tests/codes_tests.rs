use wichtel::codes::{
    generate_invite_code, invite_code_from_number, invite_code_number, symbol, symbol_index,
    ALPHABET_SIZE, CODE_LENGTH, CODE_SPACE,
};

#[test]
fn alphabet_has_no_look_alikes() {
    let symbols: String = (0..ALPHABET_SIZE).map(symbol).collect();
    assert_eq!(symbols, "ABCDEFGHJKLMNPQRSTUVWXYZ23456789");
    for c in ['0', 'O', '1', 'I', 'a', ' ', 'é'] {
        assert_eq!(symbol_index(c), None);
    }
}

#[test]
fn symbols_and_places_agree() {
    assert_eq!(symbol(0), 'A');
    assert_eq!(symbol(8), 'J');
    assert_eq!(symbol(13), 'P');
    assert_eq!(symbol(24), '2');
    assert_eq!(symbol(31), '9');
    for place in 0..ALPHABET_SIZE {
        assert_eq!(symbol_index(symbol(place)), Some(place));
    }
}

#[test]
fn code_space_is_the_count_of_codes() {
    assert_eq!(CODE_LENGTH, 6);
    assert_eq!(ALPHABET_SIZE, 32);
    assert_eq!(CODE_SPACE as u64, 32u64.pow(6));
}

#[test]
fn codes_read_as_numbers() {
    assert_eq!(invite_code_number("AAAAAA"), Some(0));
    assert_eq!(invite_code_number("AAAAAB"), Some(1));
    assert_eq!(invite_code_number("AAAABA"), Some(32));
    assert_eq!(invite_code_number("BAAAAA"), Some(33554432));
    assert_eq!(invite_code_number("999999"), Some(CODE_SPACE - 1));
    assert_eq!(invite_code_number("ABCDEF"), Some(1 * 1048576 + 2 * 32768 + 3 * 1024 + 4 * 32 + 5));
}

#[test]
fn texts_that_are_no_codes_have_no_number() {
    for text in ["", "AAAAA", "AAAAAAA", "AAAAA0", "OAAAAA", "aaaaaa", "AAA AA", "ÄAAAAA", "AAAAAé"] {
        assert_eq!(invite_code_number(text), None);
    }
}

#[test]
fn numbers_write_as_codes() {
    assert_eq!(invite_code_from_number(0), "AAAAAA");
    assert_eq!(invite_code_from_number(1), "AAAAAB");
    assert_eq!(invite_code_from_number(31), "AAAAA9");
    assert_eq!(invite_code_from_number(32), "AAAABA");
    assert_eq!(invite_code_from_number(CODE_SPACE - 1), "999999");
}

#[test]
fn writing_and_reading_round_trip() {
    let mut number: u32 = 0;
    while number < CODE_SPACE {
        let code = invite_code_from_number(number);
        assert_eq!(invite_code_number(&code), Some(number));
        number += 7_919_173;
    }
}

#[test]
fn generated_codes_are_codes() {
    let mut distinct = std::collections::HashSet::new();
    for _ in 0..500 {
        let code = generate_invite_code();
        assert_eq!(code.chars().count(), 6);
        assert!(code.chars().all(|c| "ABCDEFGHJKLMNPQRSTUVWXYZ23456789".contains(c)));
        assert!(invite_code_number(&code).is_some());
        distinct.insert(code);
    }
    assert!(distinct.len() > 400);
}
