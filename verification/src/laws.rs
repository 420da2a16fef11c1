//! The lifecycle laws of the record store, stated and proved over the
//! spec-level transitions that the operations' contracts are written in.

use crate::errors::{HostError, OpError, TutorError};
use crate::record::{zero_milestone, TutorView, MAX_SUBJECT_LEN};
use crate::store::{spec_create, spec_update, store_ok};
use vstd::prelude::*;

verus! {

/// A creation whose subject fits the bound and whose caller has no record
/// yet succeeds, and files — under the caller's identity — a record with
/// that identity as owner, the given subject, level one, an all-zero
/// checkpoint and the given time; no other record moves.
pub proof fn lemma_create_initializes(
    m: Map<Seq<u8>, TutorView>,
    caller: Seq<u8>,
    subject: Seq<u8>,
    now: i64,
    address: Seq<u8>,
    bump: u8,
)
    requires
        subject.len() <= MAX_SUBJECT_LEN,
        !m.contains_key(caller),
    ensures
        ({
            let (m1, r) = spec_create(m, caller, subject, now, Some((address, bump)));
            r == Ok::<(), OpError>(()) && m1 == m.insert(
                caller,
                TutorView {
                    owner: caller,
                    subject: subject,
                    level: 1,
                    milestone_hash: zero_milestone(),
                    last_updated: now,
                },
            )
        }),
{
}

/// A creation whose subject exceeds the bound fails with `SubjectTooLong`,
/// whatever the store holds, and no record is created or changed.
pub proof fn lemma_create_rejects_long_subject(
    m: Map<Seq<u8>, TutorView>,
    caller: Seq<u8>,
    subject: Seq<u8>,
    now: i64,
    derived: Option<(Seq<u8>, u8)>,
)
    requires
        subject.len() > MAX_SUBJECT_LEN,
    ensures
        spec_create(m, caller, subject, now, derived) == (
            m,
            Err::<(), OpError>(OpError::Tutor(TutorError::SubjectTooLong)),
        ),
{
}

/// A record is created at most once: after a successful creation, a
/// second creation for the same caller fails and leaves the first
/// record — and every other — exactly as it was.
pub proof fn lemma_create_is_create_once(
    m: Map<Seq<u8>, TutorView>,
    caller: Seq<u8>,
    subject1: Seq<u8>,
    subject2: Seq<u8>,
    now1: i64,
    now2: i64,
    derived1: Option<(Seq<u8>, u8)>,
    derived2: Option<(Seq<u8>, u8)>,
)
    requires
        spec_create(m, caller, subject1, now1, derived1).1 == Ok::<(), OpError>(()),
    ensures
        ({
            let m1 = spec_create(m, caller, subject1, now1, derived1).0;
            let (m2, r2) = spec_create(m1, caller, subject2, now2, derived2);
            m2 == m1 && r2 is Err && (subject2.len() <= MAX_SUBJECT_LEN ==> r2 == Err::<
                (),
                OpError,
            >(OpError::Host(HostError::AlreadyInUse)))
        }),
{
}

/// Only the stored owner may update: an update authorized by any other
/// identity fails with `Unauthorized` and leaves every record as it was.
pub proof fn lemma_update_requires_owner(
    m: Map<Seq<u8>, TutorView>,
    caller: Seq<u8>,
    claimed_owner: Seq<u8>,
    new_level: u8,
    new_milestone: Seq<u8>,
    now: i64,
)
    requires
        store_ok(m),
        m.contains_key(claimed_owner),
        caller != claimed_owner,
    ensures
        spec_update(m, caller, claimed_owner, new_level, new_milestone, now) == (
            m,
            Err::<(), OpError>(OpError::Tutor(TutorError::Unauthorized)),
        ),
{
}

/// An owner's update always succeeds and overwrites level and checkpoint
/// wholesale — larger or smaller than before, no monotonicity is
/// enforced — refreshes the time, and never touches owner or subject.
pub proof fn lemma_update_overwrites(
    m: Map<Seq<u8>, TutorView>,
    owner: Seq<u8>,
    level1: u8,
    milestone1: Seq<u8>,
    now1: i64,
    level2: u8,
    milestone2: Seq<u8>,
    now2: i64,
)
    requires
        store_ok(m),
        m.contains_key(owner),
    ensures
        ({
            let (m1, r1) = spec_update(m, owner, owner, level1, milestone1, now1);
            let (m2, r2) = spec_update(m1, owner, owner, level2, milestone2, now2);
            r1 == Ok::<(), OpError>(()) && r2 == Ok::<(), OpError>(()) && m1[owner] == (TutorView {
                owner: m[owner].owner,
                subject: m[owner].subject,
                level: level1,
                milestone_hash: milestone1,
                last_updated: now1,
            }) && m2[owner] == (TutorView {
                owner: m[owner].owner,
                subject: m[owner].subject,
                level: level2,
                milestone_hash: milestone2,
                last_updated: now2,
            })
        }),
{
}

/// Updating twice with identical arguments leaves what one update
/// leaves: aside from the time stamped, the operation is idempotent.
pub proof fn lemma_update_idempotent(
    m: Map<Seq<u8>, TutorView>,
    owner: Seq<u8>,
    new_level: u8,
    new_milestone: Seq<u8>,
    now1: i64,
    now2: i64,
)
    requires
        store_ok(m),
        m.contains_key(owner),
    ensures
        ({
            let m1 = spec_update(m, owner, owner, new_level, new_milestone, now1).0;
            let m2 = spec_update(m1, owner, owner, new_level, new_milestone, now2).0;
            m2 == spec_update(m, owner, owner, new_level, new_milestone, now2).0 && (now1 == now2
                ==> m2 == m1)
        }),
{
    let m1 = spec_update(m, owner, owner, new_level, new_milestone, now1).0;
    let m2 = spec_update(m1, owner, owner, new_level, new_milestone, now2).0;
    assert(m2 =~= spec_update(m, owner, owner, new_level, new_milestone, now2).0);
    if now1 == now2 {
        assert(m2 =~= m1);
    }
}

/// Both transitions keep the store's validity: every record stays filed
/// under its own owner's identity with its subject within bound.
pub proof fn lemma_transitions_preserve_validity(
    m: Map<Seq<u8>, TutorView>,
    caller: Seq<u8>,
    claimed_owner: Seq<u8>,
    subject: Seq<u8>,
    new_level: u8,
    new_milestone: Seq<u8>,
    now: i64,
    derived: Option<(Seq<u8>, u8)>,
)
    requires
        store_ok(m),
    ensures
        store_ok(spec_create(m, caller, subject, now, derived).0),
        store_ok(spec_update(m, caller, claimed_owner, new_level, new_milestone, now).0),
{
}

} // verus!
