use vstd::prelude::*;
use crate::audit::{AuditLog, AuditRecord};
use crate::authorize::{authorize, is_authorized};
use crate::errors::TransferError;
use crate::roster::{lemma_reorder_correct, lemma_reordered_idempotent, lemma_reorder_unique,
    reorder, reordered, unique_seq};
use crate::store::{persons_of, MembershipRow, RosterStore};

verus! {

/// The response projection returned after a committed transfer: the
/// community summary, its refreshed roster with explicit ranks, and the
/// site-context fields this workflow leaves at their defaults.
pub struct TransferResponse {
    pub community_id: u64,
    pub moderators: Vec<MembershipRow>,
    pub site: Option<u64>,
    pub online_count: u64,
    pub discussion_languages: Vec<u64>,
    pub default_post_language: Option<u64>,
}

/// When a transfer is owed success: the community exists, its roster is
/// non-empty, the requester is authorized against the current top
/// moderator, and the target already is a moderator.
pub open spec fn transfer_allowed(
    rosters: Map<u64, Seq<u64>>,
    requester: u64,
    admins: Seq<u64>,
    community_id: u64,
    target: u64,
) -> bool {
    &&& rosters.contains_key(community_id)
    &&& rosters[community_id].len() > 0
    &&& is_authorized(requester, rosters[community_id][0], admins)
    &&& rosters[community_id].contains(target)
}

/// Which error a denied transfer reports, checked in the orchestrator's
/// order: existence, emptiness, authorization, target membership.
pub open spec fn transfer_denial(
    rosters: Map<u64, Seq<u64>>,
    requester: u64,
    admins: Seq<u64>,
    community_id: u64,
    target: u64,
) -> TransferError {
    if !rosters.contains_key(community_id) {
        TransferError::NotFound
    } else if rosters[community_id].len() == 0 {
        TransferError::RosterEmpty
    } else if !is_authorized(requester, rosters[community_id][0], admins) {
        TransferError::NotAuthorized
    } else {
        TransferError::TargetNotModerator
    }
}

/// The audit fact a successful transfer appends.
pub open spec fn transfer_audit_record(
    requester: u64,
    target: u64,
    community_id: u64,
    timestamp: u64,
) -> AuditRecord {
    AuditRecord {
        actor_person_id: requester,
        subject_person_id: target,
        community_id,
        removed: false,
        timestamp,
    }
}

/// Replaces a community's roster with `new_order` as one atomic unit:
/// delete every row, then reinsert in the new order with explicit ranks.
/// If a reinsertion fails partway, the original roster is restored before
/// returning, so a read after any outcome sees either the old roster or
/// the new one — never a partial state.
#[verifier::loop_isolation(false)]
pub fn rebuild_roster(store: &mut RosterStore, community_id: u64, new_order: &Vec<u64>) -> (r:
    Result<(), TransferError>)
    requires
        old(store).wf(),
    ensures
        final(store).wf(),
        (r is Ok) <==> (old(store)@.contains_key(community_id) && unique_seq(new_order@)),
        r is Ok ==> final(store)@ == old(store)@.insert(community_id, new_order@),
        r is Err ==> final(store)@ == old(store)@,
        !old(store)@.contains_key(community_id) ==> r == Err::<(), TransferError>(
            TransferError::NotFound,
        ),
        old(store)@.contains_key(community_id) && !unique_seq(new_order@) ==> r == Err::<
            (),
            TransferError,
        >(TransferError::DuplicateMembership),
{
    let snapshot = match store.list_for_community(community_id) {
        Ok(rows) => rows,
        Err(e) => {
            return Err(e);
        },
    };
    let ghost roster0 = old(store)@[community_id];
    match store.delete_all_for_community(community_id) {
        Ok(_) => {},
        Err(_) => {
            // unreachable: the community was just read
            assert(false);
        },
    }
    let n = new_order.len();
    let mut j: usize = 0;
    proof {
        assert(new_order@.take(0) =~= Seq::<u64>::empty());
    }
    while j < n
        invariant
            j <= n,
            store.wf(),
            store@ == old(store)@.insert(community_id, new_order@.take(j as int)),
            unique_seq(new_order@.take(j as int)),
        decreases n - j,
    {
        let row = MembershipRow { community_id, person_id: new_order[j], rank: j };
        match store.insert(row) {
            Ok(_) => {
                proof {
                    assert(new_order@.take(j as int).push(new_order@[j as int]) =~= new_order@.take(
                        j as int + 1,
                    ));
                    assert(old(store)@.insert(community_id, new_order@.take(j as int)).insert(
                        community_id,
                        new_order@.take(j as int + 1),
                    ) =~= old(store)@.insert(community_id, new_order@.take(j as int + 1)));
                    assert forall|p: int, q: int|
                        0 <= p < q < j as int + 1 implies #[trigger] new_order@.take(
                        j as int + 1,
                    )[p] != #[trigger] new_order@.take(j as int + 1)[q] by {
                        if q < j as int {
                            assert(new_order@.take(j as int)[p] != new_order@.take(j as int)[q]);
                        } else {
                            assert(!new_order@.take(j as int).contains(new_order@[j as int]));
                            assert(new_order@.take(j as int)[p] == new_order@.take(
                                j as int + 1,
                            )[p]);
                        }
                    }
                }
            },
            Err(_) => {
                proof {
                    // the person is already in the rebuilt prefix, so
                    // `new_order` holds a duplicate
                    let prefix = new_order@.take(j as int);
                    assert(prefix.contains(row.person_id));
                    let q = choose|q: int| 0 <= q < prefix.len() && prefix[q] == row.person_id;
                    assert(new_order@[q] == new_order@[j as int]);
                    assert(!unique_seq(new_order@));
                }
                // roll back: clear the partial prefix, restore the snapshot
                match store.delete_all_for_community(community_id) {
                    Ok(_) => {},
                    Err(_) => {
                        // unreachable: the community still exists
                        assert(false);
                    },
                }
                let m = snapshot.len();
                let mut k: usize = 0;
                proof {
                    assert(roster0.take(0) =~= Seq::<u64>::empty());
                }
                while k < m
                    invariant
                        k <= m,
                        store.wf(),
                        store@ == old(store)@.insert(community_id, roster0.take(k as int)),
                    decreases m - k,
                {
                    match store.insert(snapshot[k]) {
                        Ok(_) => {},
                        Err(_) => {
                            // unreachable: the snapshot has no duplicate
                            proof {
                                assert(snapshot@[k as int] == (MembershipRow {
                                    community_id,
                                    person_id: roster0[k as int],
                                    rank: k,
                                }));
                                if roster0.take(k as int).contains(roster0[k as int]) {
                                    let p = choose|p: int|
                                        0 <= p < k && roster0.take(k as int)[p] == roster0[
                                        k as int];
                                    assert(roster0[p] == roster0[k as int]);
                                    assert(false);
                                }
                            }
                        },
                    }
                    proof {
                        assert(roster0.take(k as int).push(roster0[k as int]) =~= roster0.take(
                            k as int + 1,
                        ));
                        assert(old(store)@.insert(community_id, roster0.take(k as int)).insert(
                            community_id,
                            roster0.take(k as int + 1),
                        ) =~= old(store)@.insert(community_id, roster0.take(k as int + 1)));
                    }
                    k += 1;
                }
                proof {
                    assert(roster0.take(m as int) =~= roster0);
                    assert(old(store)@.insert(community_id, roster0) =~= old(store)@);
                }
                return Err(TransferError::DuplicateMembership);
            },
        }
        j += 1;
    }
    proof {
        assert(new_order@.take(n as int) =~= new_order@);
    }
    Ok(())
}

/// One ownership transfer, end to end: authorize the requester, promote
/// the target to rank 0, replace the persisted roster atomically, append
/// the audit record, and re-read the committed state into the response.
/// The requester identity and the admin set arrive already resolved;
/// credential validation and both reads are the caller's collaborators.
/// On any denial, the store and the audit log are untouched.
#[verifier::loop_isolation(false)]
pub fn transfer_community(
    store: &mut RosterStore,
    audit: &mut AuditLog,
    requester: u64,
    admins: &Vec<u64>,
    community_id: u64,
    target_person_id: u64,
    timestamp: u64,
) -> (r: Result<TransferResponse, TransferError>)
    requires
        old(store).wf(),
    ensures
        final(store).wf(),
        (r is Ok) <==> transfer_allowed(old(store)@, requester, admins@, community_id,
            target_person_id),
        r is Ok ==> final(store)@ == old(store)@.insert(
            community_id,
            reordered(old(store)@[community_id], target_person_id),
        ),
        r is Ok ==> final(audit)@ == old(audit)@.push(
            transfer_audit_record(requester, target_person_id, community_id, timestamp),
        ),
        r matches Ok(resp) ==> {
            &&& resp.community_id == community_id
            &&& persons_of(resp.moderators@) == reordered(
                old(store)@[community_id],
                target_person_id,
            )
            &&& forall|i: int|
                0 <= i < resp.moderators@.len() ==> {
                    &&& (#[trigger] resp.moderators@[i]).rank as int == i
                    &&& resp.moderators@[i].community_id == community_id
                }
            &&& resp.site is None
            &&& resp.online_count == 0
            &&& resp.discussion_languages@ == Seq::<u64>::empty()
            &&& resp.default_post_language is None
        },
        r is Err ==> final(store)@ == old(store)@ && final(audit)@ == old(audit)@,
        r is Err ==> r == Err::<TransferResponse, TransferError>(
            transfer_denial(old(store)@, requester, admins@, community_id, target_person_id),
        ),
{
    let rows = match store.list_for_community(community_id) {
        Ok(rows) => rows,
        Err(e) => {
            return Err(e);
        },
    };
    if rows.len() == 0 {
        return Err(TransferError::RosterEmpty);
    }
    let top_moderator = rows[0].person_id;
    if !authorize(requester, top_moderator, admins) {
        return Err(TransferError::NotAuthorized);
    }
    // in-memory snapshot of the person order, rank 0 first
    let mut persons: Vec<u64> = Vec::new();
    let mut k: usize = 0;
    proof {
        assert(persons@ =~= old(store)@[community_id].take(0));
    }
    while k < rows.len()
        invariant
            k <= rows@.len(),
            persons@ == old(store)@[community_id].take(k as int),
        decreases rows@.len() - k,
    {
        persons.push(rows[k].person_id);
        proof {
            let all = old(store)@[community_id];
            assert(all.take(k as int).push(all[k as int]) =~= all.take(k as int + 1));
        }
        k += 1;
    }
    proof {
        assert(old(store)@[community_id].take(rows@.len() as int) =~= old(store)@[community_id]);
    }
    let new_order = match reorder(&persons, target_person_id) {
        Ok(v) => v,
        Err(e) => {
            return Err(e);
        },
    };
    proof {
        lemma_reorder_unique(persons@, target_person_id);
    }
    match rebuild_roster(store, community_id, &new_order) {
        Ok(_) => {},
        Err(_) => {
            // unreachable: the community exists and the reordered roster
            // has no duplicate, so the rebuild is owed success
            assert(false);
        },
    }
    audit.append(
        AuditRecord {
            actor_person_id: requester,
            subject_person_id: target_person_id,
            community_id,
            removed: false,
            timestamp,
        },
    );
    // refreshed projection of the committed state
    let moderators = match store.list_for_community(community_id) {
        Ok(rows2) => rows2,
        Err(_) => {
            // unreachable: the community survived the rebuild
            assert(false);
            return Err(TransferError::Internal);
        },
    };
    let moderator_count = moderators.len();
    proof {
        assert forall|i: int| 0 <= i < persons_of(moderators@).len() implies persons_of(
            moderators@,
        )[i] == store@[community_id][i] by {
            assert(persons_of(moderators@)[i] == moderators@[i].person_id);
        }
        assert(persons_of(moderators@) =~= store@[community_id]);
        assert forall|i: int|
            0 <= i < moderators@.len() implies (#[trigger] moderators@[i]).rank as int == i by {
            assert(moderators@[i].rank == i as usize);
            assert(i < moderator_count as int);
        }
    }
    Ok(
        TransferResponse {
            community_id,
            moderators,
            site: None,
            online_count: 0,
            discussion_languages: Vec::new(),
            default_post_language: None,
        },
    )
}

/// Repeating a committed transfer produces the same roster again:
/// promoting an already top-ranked target changes nothing, so the store
/// reflects only the final transfer's order (while each run still appends
/// its own audit record, per `transfer_community`'s contract).
pub proof fn lemma_repeated_transfer(rosters: Map<u64, Seq<u64>>, community_id: u64, target: u64)
    requires
        rosters.contains_key(community_id),
        rosters[community_id].contains(target),
    ensures
        ({
            let once = rosters.insert(community_id, reordered(rosters[community_id], target));
            let twice = once.insert(community_id, reordered(once[community_id], target));
            twice == once
        }),
{
    lemma_reordered_idempotent(rosters[community_id], target);
    let once = rosters.insert(community_id, reordered(rosters[community_id], target));
    let twice = once.insert(community_id, reordered(once[community_id], target));
    assert(twice =~= once);
}

/// Serialized transfers on one community: when two transfers commit in
/// order, rank 0 ends with the later one's target, and the roster stays a
/// permutation of the original — no interleaved state exists between or
/// after them.
pub proof fn lemma_serialized_transfers(
    rosters: Map<u64, Seq<u64>>,
    community_id: u64,
    first_target: u64,
    second_target: u64,
)
    requires
        rosters.contains_key(community_id),
        rosters[community_id].contains(first_target),
        rosters[community_id].contains(second_target),
    ensures
        ({
            let after_first = reordered(rosters[community_id], first_target);
            let after_second = reordered(after_first, second_target);
            &&& after_first.contains(second_target)
            &&& after_first[0] == first_target
            &&& after_second[0] == second_target
            &&& after_second.to_multiset() == rosters[community_id].to_multiset()
        }),
{
    let r0 = rosters[community_id];
    lemma_reorder_correct(r0, first_target);
    let after_first = reordered(r0, first_target);
    assert(after_first.contains(second_target)) by {
        r0.to_multiset_ensures();
        after_first.to_multiset_ensures();
        assert(after_first.to_multiset().count(second_target) > 0);
    }
    lemma_reorder_correct(after_first, second_target);
}

} // verus!
