//! Picking identifiers and invite codes that are not yet in use.

use std::collections::HashMap;
use vstd::prelude::*;
use crate::codes::{
    code_number,
    generate_invite_code,
    invite_code_from_number,
    invite_code_number,
    is_invite_code,
    CODE_SPACE,
};
use crate::entropy::random_id;

verus! {

broadcast use vstd::std_specs::hash::group_hash_axioms;

/// The number of random identifiers that are tried before the first free
/// one is taken.
pub const ID_DRAWS: usize = 16;

/// The number of random invite codes that are tried before the first free
/// one is taken.
pub const CODE_DRAWS: usize = 64;

/// A finite set that holds `count` distinct keys has at least `count`
/// elements.
pub proof fn lemma_pigeonhole<K>(keys: Set<K>, key: spec_fn(int) -> K, count: int)
    requires
        keys.finite(),
        count >= 0,
        forall|i: int| 0 <= i < count ==> keys.contains(#[trigger] key(i)),
        forall|i: int, j: int| 0 <= i < j < count ==> #[trigger] key(i) != #[trigger] key(j),
    ensures
        keys.len() >= count,
    decreases count,
{
    if count > 0 {
        let last = key(count - 1);
        assert(keys.contains(last));
        let rest = keys.remove(last);
        assert forall|i: int| 0 <= i < count - 1 implies rest.contains(#[trigger] key(i)) by {
            assert(keys.contains(key(i)));
            assert(key(i) != key(count - 1));
        }
        lemma_pigeonhole(rest, key, count - 1);
    }
}

/// The least identifier that `taken` does not hold.
pub fn first_free_id<V>(taken: &HashMap<u128, V>) -> (id: u128)
    ensures
        !taken@.contains_key(id),
        forall|k: u128| k < id ==> taken@.contains_key(k),
        id <= taken@.len(),
{
    proof {
        assert(taken@.len() == vstd::std_specs::hash::spec_hash_map_len(taken));
    }
    let mut id: u128 = 0;
    while taken.contains_key(&id)
        invariant
            forall|k: u128| k < id ==> taken@.contains_key(k),
            id <= taken@.len(),
            taken@.len() <= usize::MAX,
        decreases taken@.len() - id,
    {
        proof {
            lemma_pigeonhole(taken@.dom(), |i: int| i as u128, id + 1);
        }
        id += 1;
    }
    id
}

/// The least code number that `taken` does not hold, where some invite
/// code is still free.
pub fn first_free_code<V>(taken: &HashMap<u32, V>) -> (number: u32)
    requires
        taken@.len() < CODE_SPACE,
    ensures
        !taken@.contains_key(number),
        forall|k: u32| k < number ==> taken@.contains_key(k),
        number <= taken@.len(),
{
    let mut number: u32 = 0;
    while taken.contains_key(&number)
        invariant
            forall|k: u32| k < number ==> taken@.contains_key(k),
            number <= taken@.len(),
            taken@.len() < CODE_SPACE,
        decreases taken@.len() - number,
    {
        proof {
            lemma_pigeonhole(taken@.dom(), |i: int| i as u32, number + 1);
        }
        number += 1;
    }
    number
}

/// An identifier that `taken` does not hold: a random one, or, should
/// `ID_DRAWS` random ones in a row be taken, the least free one.
pub fn fresh_id<V>(taken: &HashMap<u128, V>) -> (id: u128)
    ensures
        !taken@.contains_key(id),
{
    let mut draws: usize = 0;
    while draws < ID_DRAWS
        decreases ID_DRAWS - draws,
    {
        let candidate = random_id();
        if !taken.contains_key(&candidate) {
            return candidate;
        }
        draws += 1;
    }
    first_free_id(taken)
}

/// An invite code whose number `taken` does not hold: a random one, or,
/// should `CODE_DRAWS` random ones in a row be taken, the least free one.
pub fn fresh_invite_code<V>(taken: &HashMap<u32, V>) -> (code: String)
    requires
        taken@.len() < CODE_SPACE,
    ensures
        is_invite_code(code@),
        0 <= code_number(code@) < CODE_SPACE,
        !taken@.contains_key(code_number(code@) as u32),
{
    let mut draws: usize = 0;
    while draws < CODE_DRAWS
        decreases CODE_DRAWS - draws,
    {
        let candidate = generate_invite_code();
        match invite_code_number(candidate.as_str()) {
            Some(number) => {
                if !taken.contains_key(&number) {
                    return candidate;
                }
            },
            None => {},
        }
        draws += 1;
    }
    invite_code_from_number(first_free_code(taken))
}

/// An identifier other than `taken`: a random one, or, should `ID_DRAWS`
/// random ones in a row be `taken` itself, its neighbour.
pub fn distinct_id(taken: u128) -> (id: u128)
    ensures
        id != taken,
{
    let mut draws: usize = 0;
    while draws < ID_DRAWS
        decreases ID_DRAWS - draws,
    {
        let candidate = random_id();
        if candidate != taken {
            return candidate;
        }
        draws += 1;
    }
    if taken == u128::MAX {
        0
    } else {
        taken + 1
    }
}

} // verus!
