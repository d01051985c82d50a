//! The sort-merge grouping engine: splits the flat participant sequence into
//! one group per race, in a single forward pass with one row of lookahead.

use std::collections::HashSet;
use std::collections::VecDeque;
use vstd::prelude::*;

use crate::flags::{
    categories_of_race, flags_for, is_member, membership_index, resolve_flags,
    special_categories_for_race,
};
use crate::model::{
    Id, ParticipantEntry, ParticipantEntryWithSpecialCategory, ParticipantsPerRace, Race,
    SpecialCategories, SpecialCategoryPerParticipant,
};

verus! {

broadcast use vstd::std_specs::hash::group_hash_axioms;

/// The names of the races, in order.
pub open spec fn race_names(races: Seq<Race>) -> Seq<Seq<char>> {
    races.map_values(|r: Race| r.name@)
}

/// The race name of each participant row, in order.
pub open spec fn participant_race_names(participants: Seq<ParticipantEntry>) -> Seq<Seq<char>> {
    participants.map_values(|p: ParticipantEntry| p.race_name@)
}

/// The number of consecutive entries of `names`, from position `start` on,
/// that equal `name`.
pub open spec fn run_len(names: Seq<Seq<char>>, start: int, name: Seq<char>) -> nat
    decreases names.len() - start,
{
    if 0 <= start < names.len() && names[start] == name {
        1 + run_len(names, start + 1, name)
    } else {
        0
    }
}

/// Where the group of the `i`-th race starts: the scan takes, for each race
/// in turn, the run of rows carrying its name at the cursor.
pub open spec fn group_start(races: Seq<Seq<char>>, names: Seq<Seq<char>>, i: int) -> int
    decreases i,
{
    if i <= 0 {
        0
    } else {
        let s = group_start(races, names, i - 1);
        s + run_len(names, s, races[i - 1])
    }
}

/// How many rows the `i`-th race receives.
pub open spec fn group_len(races: Seq<Seq<char>>, names: Seq<Seq<char>>, i: int) -> nat {
    run_len(names, group_start(races, names, i), races[i])
}

/// `group` is the group of the `i`-th race: its name, its categories, and
/// the rows of its run, each with its flags.
pub open spec fn is_race_group(
    group: ParticipantsPerRace,
    races: Seq<Race>,
    categories: Seq<SpecialCategories>,
    participants: Seq<ParticipantEntry>,
    memberships: Seq<SpecialCategoryPerParticipant>,
    i: int,
) -> bool {
    let start = group_start(race_names(races), participant_race_names(participants), i);
    &&& group.race_name == races[i].name
    &&& group.special_categories@ == categories_of_race(categories, races[i].id)
    &&& group.participants@.len() == group_len(
        race_names(races),
        participant_race_names(participants),
        i,
    )
    &&& forall|j: int|
        #![trigger group.participants@[j]]
        0 <= j < group.participants@.len() ==> {
            &&& group.participants@[j].participant == participants[start + j]
            &&& group.participants@[j].special_category_flags@ == flags_for(
                group.special_categories@,
                memberships,
                participants[start + j].id,
            )
        }
}

/// `groups` holds one group per race, in the order of `races`.
pub open spec fn is_grouping(
    groups: Seq<ParticipantsPerRace>,
    races: Seq<Race>,
    categories: Seq<SpecialCategories>,
    participants: Seq<ParticipantEntry>,
    memberships: Seq<SpecialCategoryPerParticipant>,
) -> bool {
    &&& groups.len() == races.len()
    &&& forall|i: int|
        #![trigger groups[i]]
        0 <= i < races.len() ==> is_race_group(
            groups[i],
            races,
            categories,
            participants,
            memberships,
            i,
        )
}

/// A run starting inside the sequence ends inside it.
pub(crate) proof fn lemma_run_within(names: Seq<Seq<char>>, start: int, name: Seq<char>)
    requires
        0 <= start <= names.len(),
    ensures
        start + run_len(names, start, name) <= names.len(),
    decreases names.len() - start,
{
    if start < names.len() && names[start] == name {
        lemma_run_within(names, start + 1, name);
    }
}

/// Groups the participant rows by race in one forward pass: for each race in
/// turn, the rows at the cursor that carry the race's name are taken, each
/// with the flags of its memberships among the race's special categories.
///
/// Rows are taken only while they match the race at hand, so when the rows
/// of each race stand together and in race order, every row lands in its
/// race's group.
pub fn group_by_race(
    races: &Vec<Race>,
    categories: &Vec<SpecialCategories>,
    participants: Vec<ParticipantEntry>,
    memberships: &Vec<SpecialCategoryPerParticipant>,
) -> (groups: Vec<ParticipantsPerRace>)
    ensures
        is_grouping(groups@, races@, categories@, participants@, memberships@),
{
    let ghost rows = participants@;
    let ghost rn = race_names(races@);
    let ghost pn = participant_race_names(rows);
    let index = membership_index(memberships);
    let no_memberships: HashSet<Id> = HashSet::new();
    let mut pending = into_queue(participants);
    let mut groups: Vec<ParticipantsPerRace> = Vec::new();
    let mut i: usize = 0;
    while i < races.len()
        invariant
            i <= races@.len(),
            rows == participants@,
            rn == race_names(races@),
            pn == participant_race_names(rows),
            no_memberships@ == Set::<Id>::empty(),
            forall|pid: Id, cid: Id|
                #![trigger is_member(memberships@, pid, cid)]
                is_member(memberships@, pid, cid) <==> (index@.contains_key(pid)
                    && index@[pid]@.contains(cid)),
            0 <= group_start(rn, pn, i as int) <= rows.len(),
            pending@ == rows.subrange(group_start(rn, pn, i as int), rows.len() as int),
            groups@.len() == i,
            forall|g: int|
                #![trigger groups@[g]]
                0 <= g < i ==> is_race_group(
                    groups@[g],
                    races@,
                    categories@,
                    rows,
                    memberships@,
                    g,
                ),
        decreases races@.len() - i,
    {
        let race = &races[i];
        let ghost start = group_start(rn, pn, i as int);
        let race_categories = special_categories_for_race(categories, race.id);
        let mut members: Vec<ParticipantEntryWithSpecialCategory> = Vec::new();
        proof {
            lemma_run_within(pn, start, rn[i as int]);
        }
        while pending.len() > 0 && pending[0].race_name == race.name
            invariant
                rows == participants@,
                pn == participant_race_names(rows),
                rn == race_names(races@),
                i < races@.len(),
                *race == races@[i as int],
                start == group_start(rn, pn, i as int),
                0 <= start <= start + members@.len() <= rows.len(),
                race_categories@ == categories_of_race(categories@, race.id),
                no_memberships@ == Set::<Id>::empty(),
                forall|pid: Id, cid: Id|
                    #![trigger is_member(memberships@, pid, cid)]
                    is_member(memberships@, pid, cid) <==> (index@.contains_key(pid)
                        && index@[pid]@.contains(cid)),
                pending@ == rows.subrange(start + members@.len(), rows.len() as int),
                run_len(pn, start, rn[i as int]) == members@.len() + run_len(
                    pn,
                    start + members@.len(),
                    rn[i as int],
                ),
                forall|j: int|
                    #![trigger members@[j]]
                    0 <= j < members@.len() ==> {
                        &&& members@[j].participant == rows[start + j]
                        &&& members@[j].special_category_flags@ == flags_for(
                            race_categories@,
                            memberships@,
                            rows[start + j].id,
                        )
                    },
            decreases pending@.len(),
        {
            let ghost at = start + members@.len();
            let participant = pending.pop_front().unwrap();
            assert(participant == rows[at]);
            assert(pn[at] == rn[i as int]);
            let held = match index.get(&participant.id) {
                Some(set) => set,
                None => &no_memberships,
            };
            let flags = resolve_flags(&race_categories, held);
            assert(flags@ == flags_for(race_categories@, memberships@, participant.id));
            members.push(
                ParticipantEntryWithSpecialCategory {
                    participant,
                    special_category_flags: flags,
                },
            );
            assert(pending@ == rows.subrange(start + members@.len(), rows.len() as int));
        }
        proof {
            let at = start + members@.len();
            if pending@.len() > 0 {
                assert(pending@[0] == rows[at]);
                assert(pn[at] != rn[i as int]);
            }
        }
        let group = ParticipantsPerRace {
            race_name: race.name.clone(),
            special_categories: race_categories,
            participants: members,
        };
        groups.push(group);
        assert(group_start(rn, pn, i + 1) == start + run_len(pn, start, rn[i as int]));
        assert(is_race_group(groups@[i as int], races@, categories@, rows, memberships@, i as int));
        i = i + 1;
    }
    groups
}

/// `race_of[j]` is a race whose name the `j`-th row carries, and the rows
/// never go back to an earlier race.
pub open spec fn is_race_assignment(
    races: Seq<Seq<char>>,
    names: Seq<Seq<char>>,
    race_of: Seq<int>,
) -> bool {
    &&& race_of.len() == names.len()
    &&& forall|j: int|
        #![trigger race_of[j]]
        0 <= j < names.len() ==> 0 <= race_of[j] < races.len() && races[race_of[j]] == names[j]
    &&& forall|j: int, k: int| 0 <= j <= k < names.len() ==> #[trigger] race_of[j] <= #[trigger] race_of[k]
}

/// The rows of each race stand together, and the runs come in the order of
/// the races: what the loader's shared sort order guarantees.
pub open spec fn rows_follow_race_order(
    races: Seq<Race>,
    participants: Seq<ParticipantEntry>,
) -> bool {
    exists|race_of: Seq<int>|
        is_race_assignment(race_names(races), participant_race_names(participants), race_of)
}

/// Tells whether the rows of each race stand together and in the order of
/// the races, that is, whether `group_by_race` will place every row.
pub fn follows_race_order(races: &Vec<Race>, participants: &Vec<ParticipantEntry>) -> (r: bool)
    ensures
        r == rows_follow_race_order(races@, participants@),
{
    let ghost rn = race_names(races@);
    let ghost pn = participant_race_names(participants@);
    let ghost mut race_of: Seq<int> = Seq::empty();
    let mut k: usize = 0;
    let mut j: usize = 0;
    while j < participants.len()
        invariant
            rn == race_names(races@),
            pn == participant_race_names(participants@),
            j <= participants@.len(),
            k <= races@.len(),
            is_race_assignment(rn, pn.take(j as int), race_of),
            j > 0 ==> race_of[j - 1] == k,
            j == 0 ==> k == 0,
            forall|other: Seq<int>|
                #![trigger is_race_assignment(rn, pn, other)]
                is_race_assignment(rn, pn, other) ==> (j > 0 ==> k <= other[j - 1]),
        decreases participants@.len() - j,
    {
        let ghost k0 = k;
        proof {
            assert forall|other: Seq<int>| #[trigger]
                is_race_assignment(rn, pn, other) implies k <= other[j as int] by {
                assert(0 <= other[j as int]);
                if j > 0 {
                    assert(other[j - 1] <= other[j as int]);
                }
            }
        }
        while k < races.len() && !(races[k].name == participants[j].race_name)
            invariant
                rn == race_names(races@),
                pn == participant_race_names(participants@),
                j < participants@.len(),
                k0 <= k <= races@.len(),
                forall|other: Seq<int>|
                    #![trigger is_race_assignment(rn, pn, other)]
                    is_race_assignment(rn, pn, other) ==> k <= other[j as int],
            decreases races@.len() - k,
        {
            k = k + 1;
        }
        if k == races.len() {
            proof {
                if rows_follow_race_order(races@, participants@) {
                    let other = choose|other: Seq<int>| is_race_assignment(rn, pn, other);
                    assert(other[j as int] < races@.len());
                }
            }
            return false;
        }
        proof {
            let prev = race_of;
            race_of = race_of.push(k as int);
            let taken = pn.take(j + 1);
            assert(taken.take(j as int) == pn.take(j as int));
            assert forall|a: int| 0 <= a < taken.len() implies 0 <= #[trigger] race_of[a] < rn.len()
                && rn[race_of[a]] == taken[a] by {
                if a < j {
                    assert(prev[a] == race_of[a]);
                    assert(pn.take(j as int)[a] == taken[a]);
                }
            }
        }
        j = j + 1;
    }
    proof {
        assert(pn.take(j as int) == pn);
    }
    true
}

/// Moves the items of a vector into a queue, keeping their order.
fn into_queue<T>(items: Vec<T>) -> (q: VecDeque<T>)
    ensures
        q@ == items@,
{
    let mut rest = items;
    let mut q: VecDeque<T> = VecDeque::new();
    while rest.len() > 0
        invariant
            rest@ + q@ == items@,
        decreases rest@.len(),
    {
        let item = rest.pop().unwrap();
        q.push_front(item);
        assert(rest@ + q@ == items@);
    }
    assert(rest@ + q@ == q@);
    q
}

} // verus!
