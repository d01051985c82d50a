//! The view model assembler: the competition and its race groups, or
//! `NotFound` when the competition does not exist.

use vstd::prelude::*;

use crate::flags::{flags_for, is_member};
use crate::grouping::{
    group_by_race, group_start, is_grouping, is_race_assignment, is_race_group,
    lemma_run_within, participant_race_names, race_names, rows_follow_race_order, run_len,
};
use crate::model::{
    Competition, Id, ParticipantEntry, ParticipantsPerRace, Race, RegistrationListData,
    ReportError, SpecialCategories, SpecialCategoryPerParticipant,
};

verus! {

/// `report` is the registration report of `competition` built from the
/// loaded rows.
pub open spec fn is_report(
    report: RegistrationListData,
    competition: Competition,
    races: Seq<Race>,
    categories: Seq<SpecialCategories>,
    participants: Seq<ParticipantEntry>,
    memberships: Seq<SpecialCategoryPerParticipant>,
) -> bool {
    &&& report.competition_info == competition
    &&& is_grouping(report.race_groups@, races, categories, participants, memberships)
}

/// Assembles the registration report of competition `competition_id` from
/// the rows loaded for it: the competition itself (`None` when no
/// competition has that id), its races in order, their special categories,
/// its participants in order, and their memberships.
pub fn render_registration_list(
    competition_id: Id,
    competition_info: Option<Competition>,
    races: Vec<Race>,
    special_categories: Vec<SpecialCategories>,
    participants: Vec<ParticipantEntry>,
    memberships: Vec<SpecialCategoryPerParticipant>,
) -> (r: Result<RegistrationListData, ReportError>)
    ensures
        competition_info is None <==> r is Err,
        r is Err ==> r == Err::<RegistrationListData, ReportError>(
            ReportError::NotFound(competition_id),
        ),
        r is Ok ==> is_report(
            r->Ok_0,
            competition_info->Some_0,
            races@,
            special_categories@,
            participants@,
            memberships@,
        ),
{
    let competition_info = match competition_info {
        Some(c) => c,
        None => {
            return Err(ReportError::NotFound(competition_id));
        },
    };
    let race_groups = group_by_race(&races, &special_categories, participants, &memberships);
    Ok(RegistrationListData { competition_info, race_groups })
}

/// The number of participants over all groups.
pub open spec fn total_participants(groups: Seq<ParticipantsPerRace>) -> int
    decreases groups.len(),
{
    if groups.len() == 0 {
        0
    } else {
        total_participants(groups.drop_last()) + groups.last().participants@.len()
    }
}

proof fn lemma_run_covers(names: Seq<Seq<char>>, start: int, end: int, name: Seq<char>)
    requires
        0 <= start <= end <= names.len(),
        forall|t: int| start <= t < end ==> #[trigger] names[t] == name,
    ensures
        run_len(names, start, name) >= end - start,
    decreases end - start,
{
    if start < end {
        lemma_run_covers(names, start + 1, end, name);
    }
}

proof fn lemma_group_start_covers(
    races: Seq<Seq<char>>,
    names: Seq<Seq<char>>,
    race_of: Seq<int>,
    i: int,
)
    requires
        is_race_assignment(races, names, race_of),
        0 <= i <= races.len(),
    ensures
        0 <= group_start(races, names, i) <= names.len(),
        forall|j: int|
            0 <= j < names.len() && #[trigger] race_of[j] < i ==> j < group_start(
                races,
                names,
                i,
            ),
    decreases i,
{
    if i > 0 {
        lemma_group_start_covers(races, names, race_of, i - 1);
        let s = group_start(races, names, i - 1);
        lemma_run_within(names, s, races[i - 1]);
        assert forall|j: int|
            0 <= j < names.len() && #[trigger] race_of[j] < i implies j < group_start(
                races,
                names,
                i,
            ) by {
            if race_of[j] == i - 1 && j >= s {
                assert forall|t: int| s <= t < j + 1 implies #[trigger] names[t] == races[i - 1] by {
                    assert(race_of[t] <= race_of[j]);
                    if race_of[t] < i - 1 {
                        assert(t < s);
                    }
                }
                lemma_run_covers(names, s, j + 1, races[i - 1]);
            }
        }
    }
}

proof fn lemma_total_is_group_start(
    groups: Seq<ParticipantsPerRace>,
    races: Seq<Race>,
    categories: Seq<SpecialCategories>,
    participants: Seq<ParticipantEntry>,
    memberships: Seq<SpecialCategoryPerParticipant>,
    i: int,
)
    requires
        is_grouping(groups, races, categories, participants, memberships),
        0 <= i <= groups.len(),
    ensures
        total_participants(groups.take(i)) == group_start(
            race_names(races),
            participant_race_names(participants),
            i,
        ),
    decreases i,
{
    if i > 0 {
        lemma_total_is_group_start(groups, races, categories, participants, memberships, i - 1);
        assert(groups.take(i).drop_last() == groups.take(i - 1));
        assert(is_race_group(groups[i - 1], races, categories, participants, memberships, i - 1));
    }
}

/// When the rows of each race stand together and in race order, every
/// participant row lands in exactly one group: the group sizes add up to
/// the number of rows.
pub proof fn lemma_every_participant_grouped(
    report: RegistrationListData,
    competition: Competition,
    races: Seq<Race>,
    categories: Seq<SpecialCategories>,
    participants: Seq<ParticipantEntry>,
    memberships: Seq<SpecialCategoryPerParticipant>,
)
    requires
        is_report(report, competition, races, categories, participants, memberships),
        rows_follow_race_order(races, participants),
    ensures
        total_participants(report.race_groups@) == participants.len(),
{
    let groups = report.race_groups@;
    let rn = race_names(races);
    let pn = participant_race_names(participants);
    let race_of = choose|race_of: Seq<int>| is_race_assignment(rn, pn, race_of);
    lemma_group_start_covers(rn, pn, race_of, races.len() as int);
    lemma_total_is_group_start(groups, races, categories, participants, memberships, races.len() as int);
    assert(groups.take(groups.len() as int) == groups);
    if group_start(rn, pn, races.len() as int) < participants.len() {
        let j = group_start(rn, pn, races.len() as int);
        assert(race_of[j] < races.len());
    }
}

/// Every flag vector is as long as the category list of its group.
pub proof fn lemma_flags_match_categories(
    report: RegistrationListData,
    competition: Competition,
    races: Seq<Race>,
    categories: Seq<SpecialCategories>,
    participants: Seq<ParticipantEntry>,
    memberships: Seq<SpecialCategoryPerParticipant>,
)
    requires
        is_report(report, competition, races, categories, participants, memberships),
    ensures
        forall|i: int, j: int|
            0 <= i < report.race_groups@.len() && 0 <= j
                < report.race_groups@[i].participants@.len() ==> (#[trigger] report.race_groups@[
                i].participants@[j]).special_category_flags@.len()
                == report.race_groups@[i].special_categories@.len(),
{
    assert forall|i: int, j: int|
        0 <= i < report.race_groups@.len() && 0 <= j
            < report.race_groups@[i].participants@.len() implies (#[trigger] report.race_groups@[
        i].participants@[j]).special_category_flags@.len()
        == report.race_groups@[i].special_categories@.len() by {
        assert(is_race_group(
            report.race_groups@[i],
            races,
            categories,
            participants,
            memberships,
            i,
        ));
    }
}

/// The groups come in the order of the loaded races, one per race.
pub proof fn lemma_race_order_kept(
    report: RegistrationListData,
    competition: Competition,
    races: Seq<Race>,
    categories: Seq<SpecialCategories>,
    participants: Seq<ParticipantEntry>,
    memberships: Seq<SpecialCategoryPerParticipant>,
)
    requires
        is_report(report, competition, races, categories, participants, memberships),
    ensures
        report.race_groups@.len() == races.len(),
        forall|i: int|
            0 <= i < races.len() ==> (#[trigger] report.race_groups@[i]).race_name
                == races[i].name,
{
    assert forall|i: int| 0 <= i < races.len() implies (#[trigger] report.race_groups@[
        i]).race_name == races[i].name by {
        assert(is_race_group(
            report.race_groups@[i],
            races,
            categories,
            participants,
            memberships,
            i,
        ));
    }
}

/// A participant without any membership gets a flag vector that is false
/// everywhere.
pub proof fn lemma_no_membership_all_false(
    categories: Seq<SpecialCategories>,
    memberships: Seq<SpecialCategoryPerParticipant>,
    participant_id: Id,
)
    requires
        forall|c: Id| !is_member(memberships, participant_id, c),
    ensures
        flags_for(categories, memberships, participant_id) == Seq::new(
            categories.len(),
            |i: int| false,
        ),
{
    assert(flags_for(categories, memberships, participant_id) =~= Seq::new(
        categories.len(),
        |i: int| false,
    ));
}

/// A participant who belongs to every category of the list gets a flag
/// vector that is true everywhere.
pub proof fn lemma_all_memberships_all_true(
    categories: Seq<SpecialCategories>,
    memberships: Seq<SpecialCategoryPerParticipant>,
    participant_id: Id,
)
    requires
        forall|i: int|
            0 <= i < categories.len() ==> is_member(
                memberships,
                participant_id,
                #[trigger] categories[i].id,
            ),
    ensures
        flags_for(categories, memberships, participant_id) == Seq::new(
            categories.len(),
            |i: int| true,
        ),
{
    assert(flags_for(categories, memberships, participant_id) =~= Seq::new(
        categories.len(),
        |i: int| true,
    ));
}

/// A competition without races gets a report without groups.
pub proof fn lemma_no_races_no_groups(
    report: RegistrationListData,
    competition: Competition,
    categories: Seq<SpecialCategories>,
    participants: Seq<ParticipantEntry>,
    memberships: Seq<SpecialCategoryPerParticipant>,
)
    requires
        is_report(report, competition, Seq::empty(), categories, participants, memberships),
    ensures
        report.race_groups@.len() == 0,
{
}

} // verus!
