use std::collections::HashSet;

use race_registration::flags::{membership_index, resolve_flags, special_categories_for_race};
use race_registration::grouping::{follows_race_order, group_by_race};
use race_registration::model::{
    Competition, ParticipantEntry, Race, RegistrationListData, ReportError, SpecialCategories,
    SpecialCategoryPerParticipant,
};
use race_registration::report::render_registration_list;

fn start_time() -> time::PrimitiveDateTime {
    let date = time::Date::from_calendar_date(2024, time::Month::May, 4).unwrap();
    let at = time::Time::from_hms(10, 30, 0).unwrap();
    time::PrimitiveDateTime::new(date, at)
}

fn competition(id: i32) -> Competition {
    Competition { id, name: String::from("Spring run") }
}

fn race(id: i32, name: &str, from_age: i32) -> Race {
    Race { id, name: String::from(name), from_age }
}

fn category(id: i32, race_id: i32, label: &str) -> SpecialCategories {
    SpecialCategories { id, race_id, label: String::from(label) }
}

fn participant(id: i32, first_name: &str, birth_year: i32, race_name: &str) -> ParticipantEntry {
    ParticipantEntry {
        id,
        first_name: String::from(first_name),
        last_name: String::from("Doe"),
        club: None,
        birth_year,
        start_time: start_time(),
        class: String::from("M"),
        race_name: String::from(race_name),
    }
}

fn member(participant_id: i32, special_category_id: i32) -> SpecialCategoryPerParticipant {
    SpecialCategoryPerParticipant { participant_id, special_category_id }
}

fn group_sizes(report: &RegistrationListData) -> Vec<usize> {
    report.race_groups.iter().map(|g| g.participants.len()).collect()
}

fn group_ids(report: &RegistrationListData, i: usize) -> Vec<i32> {
    report.race_groups[i].participants.iter().map(|p| p.participant.id).collect()
}

fn example_report() -> RegistrationListData {
    let races = vec![race(1, "5km", 10), race(2, "10km", 18)];
    let categories = vec![
        category(11, 1, "local resident"),
        category(12, 1, "veteran"),
        category(21, 2, "local resident"),
    ];
    let participants = vec![
        participant(101, "Ann", 2012, "5km"),
        participant(102, "Ben", 2011, "5km"),
        participant(103, "Cid", 2010, "5km"),
        participant(104, "Dan", 2000, "10km"),
        participant(105, "Eve", 1990, "10km"),
    ];
    let memberships = vec![member(101, 12), member(103, 11), member(103, 12), member(105, 21)];
    render_registration_list(1, Some(competition(1)), races, categories, participants, memberships)
        .unwrap()
}

#[test]
fn two_races_group_sizes_and_flag_lengths() {
    let report = example_report();
    assert_eq!(report.competition_info.id, 1);
    assert_eq!(group_sizes(&report), vec![3, 2]);
    assert_eq!(report.race_groups[0].race_name, "5km");
    assert_eq!(report.race_groups[1].race_name, "10km");
    assert_eq!(report.race_groups[0].special_categories.len(), 2);
    assert_eq!(report.race_groups[1].special_categories.len(), 1);
    for p in &report.race_groups[0].participants {
        assert_eq!(p.special_category_flags.len(), 2);
    }
    for p in &report.race_groups[1].participants {
        assert_eq!(p.special_category_flags.len(), 1);
    }
}

#[test]
fn two_races_flags_follow_memberships() {
    let report = example_report();
    let flags: Vec<Vec<bool>> = report.race_groups[0]
        .participants
        .iter()
        .map(|p| p.special_category_flags.clone())
        .collect();
    assert_eq!(flags, vec![vec![false, true], vec![false, false], vec![true, true]]);
    assert_eq!(report.race_groups[1].participants[0].special_category_flags, vec![false]);
    assert_eq!(report.race_groups[1].participants[1].special_category_flags, vec![true]);
    assert_eq!(group_ids(&report, 0), vec![101, 102, 103]);
    assert_eq!(group_ids(&report, 1), vec![104, 105]);
}

#[test]
fn shared_from_age_keeps_attribution() {
    let races = vec![race(1, "5km", 10), race(2, "5mi", 10)];
    let participants = vec![
        participant(1, "Ann", 2012, "5km"),
        participant(2, "Ben", 2013, "5mi"),
        participant(3, "Cid", 2012, "5mi"),
    ];
    let report =
        render_registration_list(1, Some(competition(1)), races, vec![], participants, vec![])
            .unwrap();
    assert_eq!(report.race_groups[0].race_name, "5km");
    assert_eq!(report.race_groups[1].race_name, "5mi");
    assert_eq!(group_ids(&report, 0), vec![1]);
    assert_eq!(group_ids(&report, 1), vec![2, 3]);
}

#[test]
fn unknown_competition_is_not_found() {
    let races = vec![race(1, "5km", 10)];
    let participants = vec![participant(1, "Ann", 2012, "5km")];
    let r = render_registration_list(42, None, races, vec![], participants, vec![]);
    assert_eq!(r.unwrap_err(), ReportError::NotFound(42));
}

#[test]
fn no_races_gives_empty_report() {
    let r = render_registration_list(3, Some(competition(3)), vec![], vec![], vec![], vec![]);
    let report = r.unwrap();
    assert_eq!(report.competition_info.id, 3);
    assert!(report.race_groups.is_empty());
}

#[test]
fn race_without_participants_gets_empty_group() {
    let races = vec![race(1, "5km", 10), race(2, "10km", 18), race(3, "half", 18)];
    let participants = vec![participant(1, "Ann", 2012, "5km"), participant(2, "Ben", 1980, "half")];
    let report =
        render_registration_list(1, Some(competition(1)), races, vec![], participants, vec![])
            .unwrap();
    assert_eq!(group_sizes(&report), vec![1, 0, 1]);
}

#[test]
fn group_sizes_add_up_to_rows() {
    let report = example_report();
    let total: usize = group_sizes(&report).iter().sum();
    assert_eq!(total, 5);
}

#[test]
fn no_categories_gives_empty_flag_vectors() {
    let races = vec![race(1, "5km", 10)];
    let participants = vec![participant(1, "Ann", 2012, "5km"), participant(2, "Ben", 2011, "5km")];
    let report = render_registration_list(
        1,
        Some(competition(1)),
        races,
        vec![],
        participants,
        vec![member(1, 99)],
    )
    .unwrap();
    assert!(report.race_groups[0].special_categories.is_empty());
    for p in &report.race_groups[0].participants {
        assert!(p.special_category_flags.is_empty());
    }
}

#[test]
fn interleaved_rows_are_dropped() {
    let races = vec![race(1, "5km", 10), race(2, "5mi", 10)];
    let participants = vec![
        participant(1, "Ann", 2012, "5km"),
        participant(2, "Ben", 2012, "5mi"),
        participant(3, "Cid", 2011, "5km"),
        participant(4, "Dan", 2011, "5mi"),
    ];
    let report =
        render_registration_list(1, Some(competition(1)), races, vec![], participants, vec![])
            .unwrap();
    assert_eq!(group_ids(&report, 0), vec![1]);
    assert_eq!(group_ids(&report, 1), vec![2]);
}

#[test]
fn no_membership_gives_all_false() {
    let categories = vec![category(1, 7, "a"), category(2, 7, "b"), category(3, 7, "c")];
    let held: HashSet<i32> = HashSet::new();
    assert_eq!(resolve_flags(&categories, &held), vec![false, false, false]);
}

#[test]
fn all_memberships_give_all_true() {
    let categories = vec![category(1, 7, "a"), category(2, 7, "b")];
    let index = membership_index(&vec![member(5, 2), member(5, 1), member(6, 1)]);
    assert_eq!(resolve_flags(&categories, &index[&5]), vec![true, true]);
    assert_eq!(resolve_flags(&categories, &index[&6]), vec![true, false]);
}

#[test]
fn membership_index_keys_by_participant() {
    let index = membership_index(&vec![member(1, 10), member(2, 20), member(1, 30)]);
    assert_eq!(index.len(), 2);
    assert!(index[&1].contains(&10) && index[&1].contains(&30) && !index[&1].contains(&20));
    assert_eq!(index[&2].len(), 1);
}

#[test]
fn categories_are_selected_by_race_in_load_order() {
    let categories = vec![category(1, 1, "a"), category(2, 2, "b"), category(3, 1, "c")];
    let selected = special_categories_for_race(&categories, 1);
    let ids: Vec<i32> = selected.iter().map(|c| c.id).collect();
    assert_eq!(ids, vec![1, 3]);
    assert_eq!(selected[1].label, "c");
    assert!(special_categories_for_race(&categories, 9).is_empty());
}

#[test]
fn order_check_accepts_contiguous_rows() {
    let races = vec![race(1, "5km", 10), race(2, "5mi", 10), race(3, "10km", 18)];
    let participants = vec![
        participant(1, "Ann", 2012, "5km"),
        participant(2, "Ben", 2012, "5mi"),
        participant(3, "Cid", 2011, "5mi"),
        participant(4, "Dan", 2000, "10km"),
    ];
    assert!(follows_race_order(&races, &participants));
    assert!(follows_race_order(&races, &vec![]));
    assert!(follows_race_order(&vec![], &vec![]));
}

#[test]
fn order_check_rejects_interleaved_or_unknown_rows() {
    let races = vec![race(1, "5km", 10), race(2, "5mi", 10)];
    let interleaved = vec![
        participant(1, "Ann", 2012, "5km"),
        participant(2, "Ben", 2012, "5mi"),
        participant(3, "Cid", 2011, "5km"),
    ];
    assert!(!follows_race_order(&races, &interleaved));
    let unknown = vec![participant(1, "Ann", 2012, "marathon")];
    assert!(!follows_race_order(&races, &unknown));
    assert!(!follows_race_order(&vec![], &unknown));
}

#[test]
fn ordered_rows_all_land_in_groups() {
    let races = vec![race(1, "5km", 10), race(2, "5mi", 10), race(3, "10km", 18)];
    let participants = vec![
        participant(1, "Ann", 2012, "5km"),
        participant(2, "Ben", 2012, "5km"),
        participant(3, "Cid", 2011, "10km"),
    ];
    assert!(follows_race_order(&races, &participants));
    let groups = group_by_race(&races, &vec![], participants, &vec![]);
    let sizes: Vec<usize> = groups.iter().map(|g| g.participants.len()).collect();
    assert_eq!(sizes, vec![2, 0, 1]);
}

#[test]
fn category_copy_keeps_fields() {
    let c = category(4, 2, "veteran");
    let d = c.copy();
    assert_eq!((d.id, d.race_id, d.label.as_str()), (4, 2, "veteran"));
}
