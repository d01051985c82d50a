//! The records that the loader hands over, and the report built from them.

use vstd::prelude::*;

verus! {

/// Declares the date-time of the `time` crate, so that a start time can be
/// carried through the report unchanged.
#[verifier::external_type_specification]
#[verifier::external_body]
pub struct ExPlainDateTime(time::PlainDateTime);

/// Identifier of a database row.
pub type Id = i32;

/// The competition a report is about.
#[derive(Debug)]
pub struct Competition {
    pub id: Id,
    pub name: String,
}

/// A race of a competition, with the minimum age of its primary category.
#[derive(Debug)]
pub struct Race {
    pub id: Id,
    pub name: String,
    pub from_age: i32,
}

/// A special category (an eligibility tag) that belongs to one race.
#[derive(Debug)]
pub struct SpecialCategories {
    pub id: Id,
    pub race_id: Id,
    pub label: String,
}

/// Records that a participant qualifies for a special category.
#[derive(Debug)]
pub struct SpecialCategoryPerParticipant {
    pub participant_id: Id,
    pub special_category_id: Id,
}

/// Data for a specific participant, joined with the race it starts in.
#[derive(Debug)]
pub struct ParticipantEntry {
    /// id of the participant
    pub id: Id,
    /// first name of the participant
    pub first_name: String,
    /// last name of the participant
    pub last_name: String,
    /// club of the participant
    pub club: Option<String>,
    /// birth year of the participant
    pub birth_year: i32,
    /// start time for this participant
    pub start_time: time::PlainDateTime,
    /// category label for this participant
    pub class: String,
    /// name of the race the participant participates in
    pub race_name: String,
}

/// A participant together with one flag per special category of its race.
#[derive(Debug)]
pub struct ParticipantEntryWithSpecialCategory {
    pub participant: ParticipantEntry,
    /// `special_category_flags[i]` tells whether the participant belongs to
    /// the `i`-th special category of its race
    pub special_category_flags: Vec<bool>,
}

/// The participants of one race.
#[derive(Debug)]
pub struct ParticipantsPerRace {
    pub race_name: String,
    /// the special categories of the race; their order is the order of the
    /// flags of each participant
    pub special_categories: Vec<SpecialCategories>,
    /// the participants of the race, in the order they were loaded
    pub participants: Vec<ParticipantEntryWithSpecialCategory>,
}

/// The registration report of a competition.
#[derive(Debug)]
pub struct RegistrationListData {
    pub competition_info: Competition,
    pub race_groups: Vec<ParticipantsPerRace>,
}

/// Why no report could be built.
#[derive(Debug, PartialEq, Eq)]
pub enum ReportError {
    /// No competition has the requested id.
    NotFound(Id),
}

impl SpecialCategories {
    /// A copy of the category.
    pub fn copy(&self) -> (r: SpecialCategories)
        ensures
            r == *self,
    {
        SpecialCategories { id: self.id, race_id: self.race_id, label: self.label.clone() }
    }
}

} // verus!
