//! The derangement engine: secret assignments in which nobody is paired with
//! themselves.

use vstd::prelude::*;
use vstd::slice::slice_to_vec;
use crate::entropy::shuffle;
use crate::error::EventError;

verus! {

/// The number of random draws after which the engine stops sampling and
/// builds an assignment directly.
pub const MAX_DRAWS: usize = 4096;

/// `receivers` holds the same identifiers as `givers`, each as often.
pub open spec fn is_rearrangement(givers: Seq<u128>, receivers: Seq<u128>) -> bool {
    givers.to_multiset() == receivers.to_multiset()
}

/// At no position do `givers` and `receivers` hold the same identifier.
pub open spec fn no_fixed_point(givers: Seq<u128>, receivers: Seq<u128>) -> bool {
    &&& givers.len() == receivers.len()
    &&& forall|i: int| 0 <= i < givers.len() ==> givers[i] != receivers[i]
}

/// `receivers` is a rearrangement of `givers` that leaves nobody in place.
pub open spec fn is_derangement(givers: Seq<u128>, receivers: Seq<u128>) -> bool {
    is_rearrangement(givers, receivers) && no_fixed_point(givers, receivers)
}

/// `ids` moved one place to the left, the first identifier going to the end.
pub open spec fn rotation(ids: Seq<u128>) -> Seq<u128> {
    if ids.len() == 0 {
        ids
    } else {
        ids.subrange(1, ids.len() as int).push(ids[0])
    }
}

/// Tells whether a drawn order is acceptable: no position of `receivers`
/// holds the identifier that `givers` holds there.
pub fn leaves_nobody_in_place(givers: &[u128], receivers: &[u128]) -> (ok: bool)
    requires
        givers@.len() == receivers@.len(),
    ensures
        ok == no_fixed_point(givers@, receivers@),
{
    let mut i: usize = 0;
    while i < givers.len()
        invariant
            i <= givers@.len(),
            givers@.len() == receivers@.len(),
            forall|j: int| 0 <= j < i ==> givers@[j] != receivers@[j],
        decreases givers@.len() - i,
    {
        if givers[i] == receivers[i] {
            return false;
        }
        i += 1;
    }
    true
}

/// Builds the rotation of `ids`.
pub fn rotate(ids: &[u128]) -> (rotated: Vec<u128>)
    ensures
        rotated@ == rotation(ids@),
{
    let mut rotated: Vec<u128> = Vec::new();
    if ids.len() == 0 {
        assert(rotated@ =~= ids@);
        return rotated;
    }
    let mut i: usize = 1;
    while i < ids.len()
        invariant
            1 <= i <= ids@.len(),
            rotated@ == ids@.subrange(1, i as int),
        decreases ids@.len() - i,
    {
        rotated.push(ids[i]);
        assert(rotated@ =~= ids@.subrange(1, i + 1));
        i += 1;
    }
    rotated.push(ids[0]);
    rotated
}

/// The rotation of two or more distinct identifiers is a derangement.
pub proof fn lemma_rotation_is_derangement(ids: Seq<u128>)
    requires
        ids.len() >= 2,
        ids.no_duplicates(),
    ensures
        is_derangement(ids, rotation(ids)),
{
    let n = ids.len() as int;
    let head = ids.subrange(0, 1);
    let tail = ids.subrange(1, n);
    assert(ids =~= head + tail);
    assert(rotation(ids) =~= tail + head);
    vstd::seq_lib::lemma_seq_union_to_multiset_commutative(head, tail);
    assert forall|i: int| 0 <= i < n implies ids[i] != rotation(ids)[i] by {
        if i < n - 1 {
            assert(rotation(ids)[i] == ids[i + 1]);
        } else {
            assert(rotation(ids)[i] == ids[0]);
        }
    }
}

/// The first components of `pairs`: who gives.
pub open spec fn givers_of(pairs: Seq<(u128, u128)>) -> Seq<u128> {
    pairs.map_values(|pair: (u128, u128)| pair.0)
}

/// The second components of `pairs`: who receives.
pub open spec fn receivers_of(pairs: Seq<(u128, u128)>) -> Seq<u128> {
    pairs.map_values(|pair: (u128, u128)| pair.1)
}

/// Draws a derangement of `ids`: random orders are drawn until one leaves
/// nobody in place; after `MAX_DRAWS` rejected orders the rotation is taken.
pub fn draw_receivers(ids: &[u128]) -> (receivers: Vec<u128>)
    requires
        ids@.len() >= 2,
        ids@.no_duplicates(),
    ensures
        is_derangement(ids@, receivers@),
{
    let mut shuffled = slice_to_vec(ids);
    let mut draws: usize = 0;
    while draws < MAX_DRAWS
        invariant
            is_rearrangement(ids@, shuffled@),
        decreases MAX_DRAWS - draws,
    {
        shuffle(&mut shuffled);
        proof {
            ids@.to_multiset_ensures();
            shuffled@.to_multiset_ensures();
        }
        if leaves_nobody_in_place(ids, shuffled.as_slice()) {
            return shuffled;
        }
        draws += 1;
    }
    proof {
        lemma_rotation_is_derangement(ids@);
    }
    rotate(ids)
}

/// Pairs each giver with the receiver at the same position.
pub fn pair_up(givers: &[u128], receivers: &[u128]) -> (pairs: Vec<(u128, u128)>)
    requires
        givers@.len() == receivers@.len(),
    ensures
        givers_of(pairs@) == givers@,
        receivers_of(pairs@) == receivers@,
{
    let mut pairs: Vec<(u128, u128)> = Vec::new();
    let mut i: usize = 0;
    while i < givers.len()
        invariant
            i <= givers@.len(),
            givers@.len() == receivers@.len(),
            pairs@.len() == i,
            forall|j: int| 0 <= j < i ==> pairs@[j] == (givers@[j], receivers@[j]),
        decreases givers@.len() - i,
    {
        pairs.push((givers[i], receivers[i]));
        i += 1;
    }
    assert(givers_of(pairs@) =~= givers@);
    assert(receivers_of(pairs@) =~= receivers@);
    pairs
}

/// Assigns to each of the given participants another one to gift.
///
/// Fewer than two participants cannot be assigned. Otherwise the pairs come
/// in the order of `participant_ids`, one for each giver, and the receivers
/// are a derangement of the givers.
pub fn generate_assignments(participant_ids: &[u128]) -> (result: Result<
    Vec<(u128, u128)>,
    EventError,
>)
    requires
        participant_ids@.no_duplicates(),
    ensures
        result is Err <==> participant_ids@.len() < 2,
        result is Err ==> result == Err::<Vec<(u128, u128)>, EventError>(
            EventError::InsufficientParticipants,
        ),
        result is Ok ==> givers_of(result->Ok_0@) == participant_ids@,
        result is Ok ==> is_derangement(participant_ids@, receivers_of(result->Ok_0@)),
{
    if participant_ids.len() < 2 {
        return Err(EventError::InsufficientParticipants);
    }
    let receivers = draw_receivers(participant_ids);
    Ok(pair_up(participant_ids, receivers.as_slice()))
}

/// A derangement of distinct identifiers is a one-to-one assignment of the
/// identifiers onto themselves: every receiver is one of the givers, nobody
/// receives twice, everybody receives, and nobody gifts themselves.
pub proof fn lemma_derangement_is_bijection(givers: Seq<u128>, receivers: Seq<u128>)
    requires
        givers.no_duplicates(),
        is_derangement(givers, receivers),
    ensures
        receivers.len() == givers.len(),
        receivers.no_duplicates(),
        forall|id: u128| givers.contains(id) <==> receivers.contains(id),
        forall|i: int| 0 <= i < givers.len() ==> receivers[i] != givers[i],
{
    givers.to_multiset_ensures();
    receivers.to_multiset_ensures();
    givers.lemma_multiset_has_no_duplicates();
    receivers.lemma_multiset_has_no_duplicates_conv();
    assert forall|id: u128| givers.contains(id) <==> receivers.contains(id) by {
        assert(givers.contains(id) <==> givers.to_multiset().count(id) > 0);
        assert(receivers.contains(id) <==> receivers.to_multiset().count(id) > 0);
    }
}

/// Two participants have one derangement only: each gifts the other.
pub proof fn lemma_derangement_of_two(givers: Seq<u128>, receivers: Seq<u128>)
    requires
        givers.len() == 2,
        givers.no_duplicates(),
        is_derangement(givers, receivers),
    ensures
        receivers == seq![givers[1], givers[0]],
{
    lemma_derangement_is_bijection(givers, receivers);
    assert(receivers.contains(receivers[0]));
    assert(receivers.contains(receivers[1]));
    assert(givers.contains(receivers[0]));
    assert(givers.contains(receivers[1]));
    assert(receivers =~= seq![givers[1], givers[0]]);
}

} // verus!
