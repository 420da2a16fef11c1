//! The record lifecycle from outside: creation, authorization and
//! overwrite behaviour of the store, on concrete values.

use tutor_project::errors::{HostError, OpError, TutorError};
use tutor_project::store::RecordStore;

const PROGRAM_ID: [u8; 32] = [7u8; 32];

fn id(fill: u8) -> [u8; 32] {
    [fill; 32]
}

#[test]
fn create_initializes_record() {
    let mut store = RecordStore::new(PROGRAM_ID);
    let owner = id(1);
    let r = store.create_tutor(&owner, b"Algebra".to_vec(), 100);
    assert_eq!(r, Ok(()));
    let rec = store.get_record(&owner).expect("record was created");
    assert_eq!(rec.owner, owner);
    assert_eq!(rec.subject, b"Algebra".to_vec());
    assert_eq!(rec.level, 1);
    assert_eq!(rec.milestone_hash, [0u8; 32]);
    assert_eq!(rec.last_updated, 100);
}

#[test]
fn create_accepts_subject_at_bound() {
    let mut store = RecordStore::new(PROGRAM_ID);
    let owner = id(2);
    let subject = vec![b'x'; 50];
    assert_eq!(store.create_tutor(&owner, subject.clone(), 5), Ok(()));
    assert_eq!(store.get_record(&owner).unwrap().subject, subject);
}

#[test]
fn create_rejects_long_subject() {
    let mut store = RecordStore::new(PROGRAM_ID);
    let owner = id(3);
    let subject = vec![b'x'; 51];
    let r = store.create_tutor(&owner, subject, 5);
    assert_eq!(r, Err(OpError::Tutor(TutorError::SubjectTooLong)));
    assert!(store.get_record(&owner).is_none());
}

#[test]
fn create_twice_fails_and_keeps_first_record() {
    let mut store = RecordStore::new(PROGRAM_ID);
    let owner = id(4);
    assert_eq!(store.create_tutor(&owner, b"Algebra".to_vec(), 10), Ok(()));
    let r = store.create_tutor(&owner, b"Geometry".to_vec(), 20);
    assert_eq!(r, Err(OpError::Host(HostError::AlreadyInUse)));
    let rec = store.get_record(&owner).unwrap();
    assert_eq!(rec.subject, b"Algebra".to_vec());
    assert_eq!(rec.level, 1);
    assert_eq!(rec.last_updated, 10);
}

#[test]
fn update_by_non_owner_is_unauthorized() {
    let mut store = RecordStore::new(PROGRAM_ID);
    let owner = id(5);
    let intruder = id(6);
    assert_eq!(store.create_tutor(&owner, b"Algebra".to_vec(), 10), Ok(()));
    let r = store.update_progress(&intruder, &owner, 9, [1u8; 32], 20);
    assert_eq!(r, Err(OpError::Tutor(TutorError::Unauthorized)));
    let rec = store.get_record(&owner).unwrap();
    assert_eq!(rec.level, 1);
    assert_eq!(rec.milestone_hash, [0u8; 32]);
    assert_eq!(rec.last_updated, 10);
}

#[test]
fn update_without_record_is_missing() {
    let mut store = RecordStore::new(PROGRAM_ID);
    let owner = id(7);
    let r = store.update_progress(&owner, &owner, 9, [1u8; 32], 20);
    assert_eq!(r, Err(OpError::Host(HostError::Missing)));
}

#[test]
fn update_overwrites_and_allows_decrease() {
    let mut store = RecordStore::new(PROGRAM_ID);
    let owner = id(8);
    assert_eq!(store.create_tutor(&owner, b"Algebra".to_vec(), 10), Ok(()));
    assert_eq!(store.update_progress(&owner, &owner, 200, [0xBBu8; 32], 20), Ok(()));
    let rec = store.get_record(&owner).unwrap();
    assert_eq!(rec.level, 200);
    assert_eq!(rec.milestone_hash, [0xBBu8; 32]);
    assert_eq!(rec.last_updated, 20);
    assert_eq!(store.update_progress(&owner, &owner, 5, [0xCCu8; 32], 30), Ok(()));
    let rec = store.get_record(&owner).unwrap();
    assert_eq!(rec.level, 5);
    assert_eq!(rec.milestone_hash, [0xCCu8; 32]);
    assert_eq!(rec.last_updated, 30);
    assert_eq!(rec.subject, b"Algebra".to_vec());
    assert_eq!(rec.owner, owner);
}

#[test]
fn update_twice_with_same_arguments_is_idempotent() {
    let mut store = RecordStore::new(PROGRAM_ID);
    let owner = id(9);
    assert_eq!(store.create_tutor(&owner, b"Algebra".to_vec(), 10), Ok(()));
    assert_eq!(store.update_progress(&owner, &owner, 42, [0xDDu8; 32], 77), Ok(()));
    let first: (u8, [u8; 32], i64) = {
        let rec = store.get_record(&owner).unwrap();
        (rec.level, rec.milestone_hash, rec.last_updated)
    };
    assert_eq!(store.update_progress(&owner, &owner, 42, [0xDDu8; 32], 77), Ok(()));
    let rec = store.get_record(&owner).unwrap();
    assert_eq!((rec.level, rec.milestone_hash, rec.last_updated), first);
}

#[test]
fn scenario_algebra_then_level_two() {
    let mut store = RecordStore::new(PROGRAM_ID);
    let user = id(10);
    let t0: i64 = 1000;
    let t1: i64 = 1001;
    assert_eq!(store.create_tutor(&user, b"Algebra".to_vec(), t0), Ok(()));
    let rec = store.get_record(&user).unwrap();
    assert_eq!(rec.owner, user);
    assert_eq!(rec.subject, b"Algebra".to_vec());
    assert_eq!(rec.level, 1);
    assert_eq!(rec.milestone_hash, [0u8; 32]);
    assert_eq!(rec.last_updated, t0);
    assert_eq!(store.update_progress(&user, &user, 2, [0xAAu8; 32], t1), Ok(()));
    let rec = store.get_record(&user).unwrap();
    assert_eq!(rec.owner, user);
    assert_eq!(rec.subject, b"Algebra".to_vec());
    assert_eq!(rec.level, 2);
    assert_eq!(rec.milestone_hash, [0xAAu8; 32]);
    assert_eq!(rec.last_updated, t1);
    assert!(t1 >= t0);
}

#[test]
fn clock_operations_fail_outside_a_ledger() {
    // Off the host ledger no clock sysvar answers, so the clock-stamped
    // entry points report exactly that and leave the store untouched.
    let mut store = RecordStore::new(PROGRAM_ID);
    let owner = id(11);
    let r = store.create_tutor_now(&owner, b"Algebra".to_vec());
    assert_eq!(r, Err(OpError::Host(HostError::ClockUnavailable)));
    assert!(store.get_record(&owner).is_none());
    let r = store.update_progress_now(&owner, &owner, 2, [0u8; 32]);
    assert_eq!(r, Err(OpError::Host(HostError::ClockUnavailable)));
}
