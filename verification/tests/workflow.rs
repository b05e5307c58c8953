use community_transfer::audit::AuditLog;
use community_transfer::errors::TransferError;
use community_transfer::store::{MembershipRow, RosterStore};
use community_transfer::transfer::{rebuild_roster, transfer_community};

const COMMUNITY: u64 = 1;
const ALICE: u64 = 10;
const BOB: u64 = 20;
const CARA: u64 = 30;

fn store_with_roster(persons: &[u64]) -> RosterStore {
    let mut store = RosterStore::new();
    assert!(store.create_community(COMMUNITY));
    let mut rank: usize = 0;
    for &person_id in persons {
        let inserted = store.insert(MembershipRow { community_id: COMMUNITY, person_id, rank });
        assert!(inserted.is_ok());
        rank += 1;
    }
    store
}

fn roster_persons(store: &RosterStore) -> Vec<u64> {
    let rows = store.list_for_community(COMMUNITY).unwrap();
    rows.iter().map(|r| r.person_id).collect()
}

#[test]
fn transfer_by_owner_promotes_target() {
    let mut store = store_with_roster(&[ALICE, BOB, CARA]);
    let mut audit = AuditLog::new();
    let admins: Vec<u64> = vec![];
    let response =
        transfer_community(&mut store, &mut audit, ALICE, &admins, COMMUNITY, CARA, 7).unwrap();
    assert_eq!(roster_persons(&store), vec![CARA, ALICE, BOB]);
    assert_eq!(response.community_id, COMMUNITY);
    assert_eq!(response.moderators.len(), 3);
    let persons: Vec<u64> = response.moderators.iter().map(|r| r.person_id).collect();
    assert_eq!(persons, vec![CARA, ALICE, BOB]);
    for (i, row) in response.moderators.iter().enumerate() {
        assert_eq!(row.rank, i);
        assert_eq!(row.community_id, COMMUNITY);
    }
    assert_eq!(response.site, None);
    assert_eq!(response.online_count, 0);
    assert!(response.discussion_languages.is_empty());
    assert_eq!(response.default_post_language, None);
    assert_eq!(audit.len(), 1);
    let record = audit.get(0);
    assert_eq!(record.actor_person_id, ALICE);
    assert_eq!(record.subject_person_id, CARA);
    assert_eq!(record.community_id, COMMUNITY);
    assert_eq!(record.removed, false);
    assert_eq!(record.timestamp, 7);
}

#[test]
fn transfer_by_non_owner_denied() {
    let mut store = store_with_roster(&[ALICE, BOB, CARA]);
    let mut audit = AuditLog::new();
    let admins: Vec<u64> = vec![];
    let result = transfer_community(&mut store, &mut audit, BOB, &admins, COMMUNITY, CARA, 7);
    assert_eq!(result.err().unwrap(), TransferError::NotAuthorized);
    assert_eq!(roster_persons(&store), vec![ALICE, BOB, CARA]);
    assert_eq!(audit.len(), 0);
}

#[test]
fn transfer_target_not_moderator() {
    let mut store = store_with_roster(&[ALICE, BOB, CARA]);
    let mut audit = AuditLog::new();
    let admins: Vec<u64> = vec![];
    let outsider: u64 = 40;
    let result = transfer_community(&mut store, &mut audit, ALICE, &admins, COMMUNITY, outsider, 7);
    assert_eq!(result.err().unwrap(), TransferError::TargetNotModerator);
    assert_eq!(roster_persons(&store), vec![ALICE, BOB, CARA]);
    assert_eq!(audit.len(), 0);
}

#[test]
fn transfer_empty_roster() {
    let mut store = store_with_roster(&[]);
    let mut audit = AuditLog::new();
    let admins: Vec<u64> = vec![];
    let result = transfer_community(&mut store, &mut audit, ALICE, &admins, COMMUNITY, CARA, 7);
    assert_eq!(result.err().unwrap(), TransferError::RosterEmpty);
    assert_eq!(audit.len(), 0);
}

#[test]
fn transfer_missing_community() {
    let mut store = RosterStore::new();
    let mut audit = AuditLog::new();
    let admins: Vec<u64> = vec![];
    let result = transfer_community(&mut store, &mut audit, ALICE, &admins, COMMUNITY, CARA, 7);
    assert_eq!(result.err().unwrap(), TransferError::NotFound);
}

#[test]
fn transfer_by_admin_promotes_target() {
    let mut store = store_with_roster(&[ALICE, BOB, CARA]);
    let mut audit = AuditLog::new();
    let admin: u64 = 99;
    let admins: Vec<u64> = vec![admin];
    let response =
        transfer_community(&mut store, &mut audit, admin, &admins, COMMUNITY, BOB, 8).unwrap();
    assert_eq!(roster_persons(&store), vec![BOB, ALICE, CARA]);
    assert_eq!(response.moderators.len(), 3);
    assert_eq!(audit.len(), 1);
    assert_eq!(audit.get(0).actor_person_id, admin);
    assert_eq!(audit.get(0).subject_person_id, BOB);
}

#[test]
fn repeated_transfer_appends_two_records() {
    let mut store = store_with_roster(&[ALICE, BOB, CARA]);
    let mut audit = AuditLog::new();
    let admin: u64 = 99;
    let admins: Vec<u64> = vec![admin];
    let first = transfer_community(&mut store, &mut audit, admin, &admins, COMMUNITY, CARA, 1);
    assert!(first.is_ok());
    let after_first = roster_persons(&store);
    assert_eq!(after_first, vec![CARA, ALICE, BOB]);
    // the second run takes the already-transferred roster as its input
    let second = transfer_community(&mut store, &mut audit, admin, &admins, COMMUNITY, CARA, 2);
    assert!(second.is_ok());
    assert_eq!(roster_persons(&store), after_first);
    assert_eq!(audit.len(), 2);
    assert_eq!(audit.get(0).subject_person_id, CARA);
    assert_eq!(audit.get(1).subject_person_id, CARA);
    assert_eq!(audit.get(0).timestamp, 1);
    assert_eq!(audit.get(1).timestamp, 2);
}

#[test]
fn serialized_transfers_last_target_wins() {
    let mut store = store_with_roster(&[ALICE, BOB, CARA]);
    let mut audit = AuditLog::new();
    let admin: u64 = 99;
    let admins: Vec<u64> = vec![admin];
    assert!(transfer_community(&mut store, &mut audit, admin, &admins, COMMUNITY, BOB, 1).is_ok());
    assert!(transfer_community(&mut store, &mut audit, admin, &admins, COMMUNITY, CARA, 2).is_ok());
    let persons = roster_persons(&store);
    assert_eq!(persons[0], CARA);
    let mut sorted = persons.clone();
    sorted.sort();
    assert_eq!(sorted, vec![ALICE, BOB, CARA]);
}

#[test]
fn rebuild_failure_rolls_back_completely() {
    let mut store = store_with_roster(&[ALICE, BOB, CARA]);
    // the third of five reinsertions fails on the duplicate id
    let new_order: Vec<u64> = vec![40, 50, 40, ALICE, BOB];
    let result = rebuild_roster(&mut store, COMMUNITY, &new_order);
    assert_eq!(result.err().unwrap(), TransferError::DuplicateMembership);
    // a subsequent read sees the pre-transfer roster exactly
    let rows = store.list_for_community(COMMUNITY).unwrap();
    assert_eq!(rows.len(), 3);
    for (i, row) in rows.iter().enumerate() {
        assert_eq!(row.rank, i);
        assert_eq!(row.community_id, COMMUNITY);
    }
    assert_eq!(roster_persons(&store), vec![ALICE, BOB, CARA]);
}

#[test]
fn rebuild_missing_community_fails() {
    let mut store = RosterStore::new();
    let new_order: Vec<u64> = vec![ALICE];
    let result = rebuild_roster(&mut store, COMMUNITY, &new_order);
    assert_eq!(result.err().unwrap(), TransferError::NotFound);
}

#[test]
fn rebuild_applies_new_order_with_ranks() {
    let mut store = store_with_roster(&[ALICE, BOB, CARA]);
    let new_order: Vec<u64> = vec![BOB, CARA, ALICE];
    assert!(rebuild_roster(&mut store, COMMUNITY, &new_order).is_ok());
    let rows = store.list_for_community(COMMUNITY).unwrap();
    let persons: Vec<u64> = rows.iter().map(|r| r.person_id).collect();
    assert_eq!(persons, vec![BOB, CARA, ALICE]);
    for (i, row) in rows.iter().enumerate() {
        assert_eq!(row.rank, i);
    }
}
