use vstd::prelude::*;

verus! {

/// A requester may transfer ownership iff they are the current top
/// moderator or belong to the site's admin set.
pub open spec fn is_authorized(requester: u64, top_moderator: u64, admins: Seq<u64>) -> bool {
    requester == top_moderator || admins.contains(requester)
}

/// Whether `person` occurs in `people`.
pub fn contains_person(people: &Vec<u64>, person: u64) -> (found: bool)
    ensures
        found == people@.contains(person),
{
    let mut i: usize = 0;
    while i < people.len()
        invariant
            i <= people@.len(),
            forall|j: int| 0 <= j < i ==> people@[j] != person,
        decreases people@.len() - i,
    {
        if people[i] == person {
            return true;
        }
        i += 1;
    }
    false
}

/// Decides whether `requester` may transfer ownership of a community whose
/// current top moderator is `top_moderator`, given the site admin set.
/// Pure decision: no side effects.
pub fn authorize(requester: u64, top_moderator: u64, admins: &Vec<u64>) -> (permit: bool)
    ensures
        permit == is_authorized(requester, top_moderator, admins@),
{
    requester == top_moderator || contains_person(admins, requester)
}

/// Authorization law: the top-ranked moderator is always permitted; any
/// admin is permitted regardless of roster position; everyone else is
/// denied.
pub proof fn lemma_authorization(requester: u64, roster: Seq<u64>, admins: Seq<u64>)
    requires
        roster.len() > 0,
    ensures
        requester == roster[0] ==> is_authorized(requester, roster[0], admins),
        admins.contains(requester) ==> is_authorized(requester, roster[0], admins),
        requester != roster[0] && !admins.contains(requester) ==> !is_authorized(
            requester,
            roster[0],
            admins,
        ),
{
}

} // verus!
