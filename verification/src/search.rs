//! Finding participants by a search term: the best fits first, and only a
//! handful of them.

use vstd::prelude::*;
use vstd::string::*;
use crate::models::{key_list, Participant, WichtelEvent};
use crate::text::{fuzzy_score, lowercase, lowercase_text, skim_score, MAX_SEARCH_TEXT};

verus! {

broadcast use vstd::std_specs::hash::group_hash_axioms;

/// A participant whose name fits a search term, with the score of the fit.
#[derive(Debug)]
pub struct FuzzyMatch {
    pub id: u128,
    pub name: String,
    pub score: i64,
}

/// The number of matches that a search returns at most.
pub const MAX_MATCHES: usize = 5;

/// How well `name` fits `term`, both in lower case; `None` where it does
/// not fit, or where one of the two is longer than `MAX_SEARCH_TEXT`.
pub open spec fn name_score(name: Seq<char>, term: Seq<char>) -> Option<i64> {
    let choice = lowercase_text(name);
    let pattern = lowercase_text(term);
    if choice.len() > MAX_SEARCH_TEXT || pattern.len() > MAX_SEARCH_TEXT {
        None
    } else {
        skim_score(choice, pattern)
    }
}

/// The matches come best first.
pub open spec fn ranked(matches: Seq<FuzzyMatch>) -> bool {
    forall|i: int, j: int| 0 <= i < j < matches.len() ==> matches[i].score >= matches[j].score
}

/// Each match is a participant of `people`, under their name, with the
/// score of that name for `term`.
pub open spec fn matches_fit(
    matches: Seq<FuzzyMatch>,
    people: Map<u128, Participant>,
    term: Seq<char>,
) -> bool {
    forall|i: int|
        0 <= i < matches.len() ==> {
            let found = #[trigger] matches[i];
            &&& people.contains_key(found.id)
            &&& found.name@ == people[found.id].name@
            &&& name_score(found.name@, term) == Some(found.score)
        }
}

/// No participant is matched twice.
pub open spec fn matches_distinct(matches: Seq<FuzzyMatch>) -> bool {
    forall|i: int, j: int|
        0 <= i < j < matches.len() ==> (#[trigger] matches[i]).id != (#[trigger] matches[j]).id
}

/// `id` is among the matches.
pub open spec fn is_matched(matches: Seq<FuzzyMatch>, id: u128) -> bool {
    exists|i: int| 0 <= i < matches.len() && (#[trigger] matches[i]).id == id
}

/// Scores how well `name` fits `term`.
pub fn score_name(name: &str, term: &str) -> (score: Option<i64>)
    ensures
        score == name_score(name@, term@),
{
    let choice = lowercase(name);
    let pattern = lowercase(term);
    if choice.as_str().unicode_len() > MAX_SEARCH_TEXT || pattern.as_str().unicode_len()
        > MAX_SEARCH_TEXT {
        return None;
    }
    fuzzy_score(choice.as_str(), pattern.as_str())
}

/// Puts `found` into a ranking, behind every match that is at least as
/// good, and tells at which place.
pub fn insert_ranked(ranking: &mut Vec<FuzzyMatch>, found: FuzzyMatch) -> (place: usize)
    requires
        ranked(old(ranking)@),
    ensures
        place <= old(ranking)@.len(),
        final(ranking)@ == old(ranking)@.insert(place as int, found),
        ranked(final(ranking)@),
        forall|i: int| 0 <= i < place ==> old(ranking)@[i].score >= found.score,
        forall|i: int| place <= i < old(ranking)@.len() ==> old(ranking)@[i].score < found.score,
{
    let mut place: usize = 0;
    while place < ranking.len() && ranking[place].score >= found.score
        invariant
            place <= ranking@.len(),
            ranking@ == old(ranking)@,
            forall|i: int| 0 <= i < place ==> ranking@[i].score >= found.score,
        decreases ranking@.len() - place,
    {
        place += 1;
    }
    ranking.insert(place, found);
    place
}

/// Ranks the candidates: the same matches, best first.
pub fn rank(candidates: Vec<FuzzyMatch>) -> (ranking: Vec<FuzzyMatch>)
    ensures
        ranked(ranking@),
        ranking@.to_multiset() == candidates@.to_multiset(),
{
    let ghost all = candidates@;
    let mut rest = candidates;
    let mut ranking: Vec<FuzzyMatch> = Vec::new();
    proof {
        lemma_nothing_to_rank(ranking@);
        assert(ranking@.to_multiset().add(rest@.to_multiset()) =~= all.to_multiset());
    }
    while rest.len() > 0
        invariant
            ranked(ranking@),
            ranking@.to_multiset().add(rest@.to_multiset()) == all.to_multiset(),
        decreases rest@.len(),
    {
        let ghost rest_before = rest@;
        let ghost ranking_before = ranking@;
        let found = match rest.pop() {
            Some(found) => found,
            None => {
                return ranking;
            },
        };
        let place = insert_ranked(&mut ranking, found);
        proof {
            assert(rest_before =~= rest@.push(found));
            vstd::seq_lib::to_multiset_build(rest@, found);
            vstd::seq_lib::to_multiset_insert(ranking_before, place as int, found);
            assert(ranking@.to_multiset().add(rest@.to_multiset()) =~= ranking_before.to_multiset().add(
                rest_before.to_multiset(),
            ));
        }
    }
    proof {
        lemma_nothing_to_rank(rest@);
        assert(ranking@.to_multiset() =~= ranking@.to_multiset().add(rest@.to_multiset()));
    }
    ranking
}

/// An empty sequence holds nothing.
proof fn lemma_nothing_to_rank(matches: Seq<FuzzyMatch>)
    requires
        matches.len() == 0,
    ensures
        matches.to_multiset() == vstd::multiset::Multiset::<FuzzyMatch>::empty(),
{
    vstd::seq_lib::to_multiset_len(matches);
    vstd::multiset::lemma_multiset_empty_len(matches.to_multiset());
}

/// Every participant of `people` whose name fits `term` is among the
/// matches.
pub open spec fn matches_complete(
    matches: Seq<FuzzyMatch>,
    people: Map<u128, Participant>,
    term: Seq<char>,
) -> bool {
    forall|id: u128|
        people.contains_key(id) && name_score((#[trigger] people[id]).name@, term) is Some
            ==> is_matched(matches, id)
}

/// Every participant of `people` whose name fits `term` is among the
/// matches, unless the matches are `MAX_MATCHES` that fit at least as well.
pub open spec fn matches_best(
    matches: Seq<FuzzyMatch>,
    people: Map<u128, Participant>,
    term: Seq<char>,
) -> bool {
    forall|id: u128|
        people.contains_key(id) && name_score((#[trigger] people[id]).name@, term) is Some
            && !is_matched(matches, id) ==> matches.len() == MAX_MATCHES && name_score(
            people[id].name@,
            term,
        )->Some_0 <= matches[MAX_MATCHES - 1].score
}

/// All participants of `event` whose name fits `term`, each once, in no
/// particular order.
pub fn find_matches(event: &WichtelEvent, term: &str) -> (found: Vec<FuzzyMatch>)
    ensures
        matches_fit(found@, event.participants@, term@),
        matches_distinct(found@),
        matches_complete(found@, event.participants@, term@),
{
    let ghost people = event.participants@;
    let ids = key_list(&event.participants);
    let mut found: Vec<FuzzyMatch> = Vec::new();
    let mut i: usize = 0;
    while i < ids.len()
        invariant
            i <= ids@.len(),
            people == event.participants@,
            ids@.no_duplicates(),
            ids@.to_set() == people.dom(),
            matches_fit(found@, people, term@),
            matches_distinct(found@),
            forall|k: int|
                0 <= k < found@.len() ==> exists|j: int|
                    0 <= j < i && ids@[j] == (#[trigger] found@[k]).id,
            forall|j: int|
                0 <= j < i && name_score(people[#[trigger] ids@[j]].name@, term@) is Some
                    ==> is_matched(found@, ids@[j]),
        decreases ids@.len() - i,
    {
        let id = ids[i];
        let ghost before = found@;
        proof {
            assert(ids@.contains(ids@[i as int]));
            assert(ids@.to_set().contains(id));
        }
        match event.participants.get(&id) {
            Some(participant) => {
                match score_name(participant.name.as_str(), term) {
                    Some(score) => {
                        found.push(FuzzyMatch { id, name: participant.name.clone(), score });
                        proof {
                            assert(found@[before.len() as int].id == id);
                            assert forall|j: int|
                                0 <= j < i + 1 && name_score(
                                    people[#[trigger] ids@[j]].name@,
                                    term@,
                                ) is Some implies is_matched(found@, ids@[j]) by {
                                if j < i {
                                    let k = choose|k: int|
                                        0 <= k < before.len() && (#[trigger] before[k]).id
                                            == ids@[j];
                                    assert(found@[k].id == ids@[j]);
                                }
                            }
                            assert forall|a: int, b: int|
                                0 <= a < b < found@.len() implies (#[trigger] found@[a]).id != (
                            #[trigger] found@[b]).id by {
                                if b == before.len() {
                                    assert(found@[a] == before[a]);
                                    let j = choose|j: int|
                                        0 <= j < i && ids@[j] == (#[trigger] before[a]).id;
                                    assert(ids@[j] != ids@[i as int]);
                                } else {
                                    assert(found@[a] == before[a] && found@[b] == before[b]);
                                }
                            }
                            assert forall|k: int| 0 <= k < found@.len() implies exists|j: int|
                                0 <= j < i + 1 && ids@[j] == (#[trigger] found@[k]).id by {
                                if k < before.len() {
                                    assert(found@[k] == before[k]);
                                    let j = choose|j: int|
                                        0 <= j < i && ids@[j] == (#[trigger] before[k]).id;
                                    assert(0 <= j < i + 1 && ids@[j] == found@[k].id);
                                } else {
                                    assert(ids@[i as int] == found@[k].id);
                                }
                            }
                            assert forall|k: int| 0 <= k < found@.len() implies {
                                let entry = #[trigger] found@[k];
                                &&& people.contains_key(entry.id)
                                &&& entry.name@ == people[entry.id].name@
                                &&& name_score(entry.name@, term@) == Some(entry.score)
                            } by {
                                if k < before.len() {
                                    assert(found@[k] == before[k]);
                                }
                            }
                        }
                    },
                    None => {},
                }
            },
            None => {},
        }
        i += 1;
    }
    proof {
        assert forall|id: u128|
            people.contains_key(id) && name_score((#[trigger] people[id]).name@, term@) is Some
            implies is_matched(found@, id) by {
            assert(ids@.to_set().contains(id));
            assert(ids@.contains(id));
            let j = choose|j: int| 0 <= j < ids@.len() && ids@[j] == id;
            assert(name_score(people[ids@[j]].name@, term@) is Some);
        }
    }
    found
}

/// The first `MAX_MATCHES` of a ranking of `found` are the best matches.
pub proof fn lemma_top_of_ranking(
    found: Seq<FuzzyMatch>,
    ranking: Seq<FuzzyMatch>,
    people: Map<u128, Participant>,
    term: Seq<char>,
)
    requires
        matches_fit(found, people, term),
        matches_distinct(found),
        matches_complete(found, people, term),
        ranked(ranking),
        ranking.to_multiset() == found.to_multiset(),
    ensures
        matches_fit(ranking, people, term),
        matches_distinct(ranking),
        matches_complete(ranking, people, term),
        ranking.len() == found.len(),
{
    found.to_multiset_ensures();
    ranking.to_multiset_ensures();
    assert forall|entry: FuzzyMatch| ranking.contains(entry) <==> found.contains(entry) by {
        assert(ranking.contains(entry) <==> ranking.to_multiset().count(entry) > 0);
        assert(found.contains(entry) <==> found.to_multiset().count(entry) > 0);
    }
    assert(found.no_duplicates());
    found.lemma_multiset_has_no_duplicates();
    ranking.lemma_multiset_has_no_duplicates_conv();
    assert forall|i: int| 0 <= i < ranking.len() implies {
        let entry = #[trigger] ranking[i];
        &&& people.contains_key(entry.id)
        &&& entry.name@ == people[entry.id].name@
        &&& name_score(entry.name@, term) == Some(entry.score)
    } by {
        assert(ranking.contains(ranking[i]));
        assert(found.contains(ranking[i]));
        let k = choose|k: int| 0 <= k < found.len() && found[k] == ranking[i];
        assert(found[k] == ranking[i]);
    }
    assert forall|i: int, j: int| 0 <= i < j < ranking.len() implies (#[trigger] ranking[i]).id
        != (#[trigger] ranking[j]).id by {
        assert(ranking.contains(ranking[i]));
        assert(ranking.contains(ranking[j]));
        let a = choose|a: int| 0 <= a < found.len() && found[a] == ranking[i];
        let b = choose|b: int| 0 <= b < found.len() && found[b] == ranking[j];
        if a == b {
            assert(ranking[i] == ranking[j]);
        } else if a < b {
            assert(found[a].id != found[b].id);
        } else {
            assert(found[b].id != found[a].id);
        }
    }
    assert forall|id: u128|
        people.contains_key(id) && name_score((#[trigger] people[id]).name@, term) is Some
        implies is_matched(ranking, id) by {
        assert(is_matched(found, id));
        let k = choose|k: int| 0 <= k < found.len() && (#[trigger] found[k]).id == id;
        assert(found.contains(found[k]));
        assert(ranking.contains(found[k]));
        let m = choose|m: int| 0 <= m < ranking.len() && ranking[m] == found[k];
        assert(ranking[m].id == id);
    }
}

/// The participants of `event` whose names fit `term` best: at most
/// `MAX_MATCHES`, the best first.
pub fn search(event: &WichtelEvent, term: &str) -> (matches: Vec<FuzzyMatch>)
    ensures
        matches@.len() <= MAX_MATCHES,
        ranked(matches@),
        matches_fit(matches@, event.participants@, term@),
        matches_distinct(matches@),
        matches_best(matches@, event.participants@, term@),
{
    let ghost people = event.participants@;
    let found = find_matches(event, term);
    let mut ranking = rank(found);
    let ghost all = ranking@;
    proof {
        lemma_top_of_ranking(found@, all, people, term@);
    }
    ranking.truncate(MAX_MATCHES);
    proof {
        let top = ranking@;
        assert forall|i: int| 0 <= i < top.len() implies top[i] == all[i] by {}
        assert forall|id: u128|
            people.contains_key(id) && name_score((#[trigger] people[id]).name@, term@) is Some
                && !is_matched(top, id) implies top.len() == MAX_MATCHES && name_score(
            people[id].name@,
            term@,
        )->Some_0 <= top[MAX_MATCHES - 1].score by {
            assert(is_matched(all, id));
            let m = choose|m: int| 0 <= m < all.len() && (#[trigger] all[m]).id == id;
            if m < top.len() {
                assert(top[m].id == id);
            }
            assert(all[m].name@ == people[id].name@);
        }
    }
    ranking
}

} // verus!
