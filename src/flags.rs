//! The membership flag resolver: which special categories of its race a
//! participant belongs to, as a vector of flags in the race's column order.

use std::collections::HashMap;
use std::collections::HashSet;
use vstd::prelude::*;

use crate::model::{Id, SpecialCategories, SpecialCategoryPerParticipant};

verus! {

broadcast use vstd::std_specs::hash::group_hash_axioms;

/// The participant `participant_id` belongs to the special category
/// `category_id` according to the membership rows `memberships`.
pub open spec fn is_member(
    memberships: Seq<SpecialCategoryPerParticipant>,
    participant_id: Id,
    category_id: Id,
) -> bool {
    exists|k: int|
        0 <= k < memberships.len() && #[trigger] memberships[k].participant_id == participant_id
            && memberships[k].special_category_id == category_id
}

/// One flag per category of `categories`, set where the participant holds a
/// membership in that category.
pub open spec fn flags_for(
    categories: Seq<SpecialCategories>,
    memberships: Seq<SpecialCategoryPerParticipant>,
    participant_id: Id,
) -> Seq<bool> {
    Seq::new(categories.len(), |i: int| is_member(memberships, participant_id, categories[i].id))
}

/// The special categories of the race `race_id`, in the order they were
/// loaded.
pub open spec fn categories_of_race(categories: Seq<SpecialCategories>, race_id: Id) -> Seq<
    SpecialCategories,
> {
    categories.filter(|c: SpecialCategories| c.race_id == race_id)
}

/// Builds, in one pass over the membership rows, the set of category ids
/// held by each participant, keyed by participant id.
pub fn membership_index(memberships: &Vec<SpecialCategoryPerParticipant>) -> (r: HashMap<
    Id,
    HashSet<Id>,
>)
    ensures
        forall|pid: Id, cid: Id|
            #![trigger is_member(memberships@, pid, cid)]
            is_member(memberships@, pid, cid) <==> (r@.contains_key(pid) && r@[pid]@.contains(
                cid,
            )),
{
    let mut index: HashMap<Id, HashSet<Id>> = HashMap::new();
    let mut k: usize = 0;
    while k < memberships.len()
        invariant
            k <= memberships@.len(),
            forall|pid: Id, cid: Id|
                #![trigger is_member(memberships@.take(k as int), pid, cid)]
                is_member(memberships@.take(k as int), pid, cid) <==> (index@.contains_key(pid)
                    && index@[pid]@.contains(cid)),
        decreases memberships@.len() - k,
    {
        let pid = memberships[k].participant_id;
        let cid = memberships[k].special_category_id;
        let mut held = match index.remove(&pid) {
            Some(s) => s,
            None => HashSet::new(),
        };
        held.insert(cid);
        index.insert(pid, held);
        proof {
            let before = memberships@.take(k as int);
            let after = memberships@.take(k + 1);
            assert forall|p: Id, c: Id|
                #![trigger is_member(after, p, c)]
                is_member(after, p, c) <==> (index@.contains_key(p) && index@[p]@.contains(c)) by {
                if is_member(before, p, c) {
                    let w = choose|w: int|
                        0 <= w < before.len() && #[trigger] before[w].participant_id == p
                            && before[w].special_category_id == c;
                    assert(after[w] == before[w]);
                }
                if p == pid && c == cid {
                    assert(after[k as int] == memberships@[k as int]);
                }
                if is_member(after, p, c) && !(p == pid && c == cid) {
                    let w = choose|w: int|
                        0 <= w < after.len() && #[trigger] after[w].participant_id == p
                            && after[w].special_category_id == c;
                    assert(before[w] == after[w]);
                }
            }
        }
        k = k + 1;
    }
    assert(memberships@.take(memberships@.len() as int) == memberships@);
    index
}

/// The special categories of the race `race_id`, in the order they were
/// loaded.
pub fn special_categories_for_race(categories: &Vec<SpecialCategories>, race_id: Id) -> (r: Vec<
    SpecialCategories,
>)
    ensures
        r@ == categories_of_race(categories@, race_id),
{
    let mut selected: Vec<SpecialCategories> = Vec::new();
    let mut i: usize = 0;
    while i < categories.len()
        invariant
            i <= categories@.len(),
            selected@ == categories_of_race(categories@.take(i as int), race_id),
        decreases categories@.len() - i,
    {
        proof {
            reveal(Seq::filter);
            assert(categories@.take(i + 1).drop_last() == categories@.take(i as int));
        }
        if categories[i].race_id == race_id {
            selected.push(categories[i].copy());
        }
        i = i + 1;
    }
    assert(categories@.take(categories@.len() as int) == categories@);
    selected
}

/// The flags of a participant who holds the categories `held`: one per
/// category of `categories`, in that order.
pub fn resolve_flags(categories: &Vec<SpecialCategories>, held: &HashSet<Id>) -> (r: Vec<bool>)
    ensures
        r@ == Seq::new(categories@.len(), |i: int| held@.contains(categories@[i].id)),
{
    let mut flags: Vec<bool> = Vec::new();
    let mut i: usize = 0;
    while i < categories.len()
        invariant
            i <= categories@.len(),
            flags@ == Seq::new(i as nat, |j: int| held@.contains(categories@[j].id)),
        decreases categories@.len() - i,
    {
        flags.push(held.contains(&categories[i].id));
        i = i + 1;
    }
    flags
}

} // verus!
