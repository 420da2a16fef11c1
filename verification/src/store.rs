//! The record store and its two operations.
//!
//! `RecordStore` models the keyed ledger: at most one record per owner
//! identity, each filed together with the address and bump the host
//! derives for it. Its contents are specified as a map from owner
//! identity to record, and each operation's contract equates the new
//! contents and the reported result with one spec-level transition,
//! `spec_create` or `spec_update`.

use crate::addressing::{derive_address, namespace_bytes, namespace_tag, pda_of};
use crate::clock::ledger_time;
use crate::errors::{HostError, OpError, TutorError};
use crate::record::{zero_milestone, Tutor, TutorView, MAX_SUBJECT_LEN};
use vstd::prelude::*;

verus! {

/// One allocated slot of the ledger: a record together with the derived
/// address and bump that certify where the host filed it.
struct Slot {
    address: [u8; 32],
    bump: u8,
    tutor: Tutor,
}

/// The keyed store of progress records: one per owner identity, created
/// once, then mutated in place only by its owner.
pub struct RecordStore {
    program_id: [u8; 32],
    slots: Vec<Slot>,
}

/// What creation does to the store's contents, as one atomic transition:
/// the new contents paired with the reported result. `derived` is the
/// outcome of the host's address derivation for the caller.
pub open spec fn spec_create(
    m: Map<Seq<u8>, TutorView>,
    caller: Seq<u8>,
    subject: Seq<u8>,
    now: i64,
    derived: Option<(Seq<u8>, u8)>,
) -> (Map<Seq<u8>, TutorView>, Result<(), OpError>) {
    if subject.len() > MAX_SUBJECT_LEN {
        (m, Err(OpError::Tutor(TutorError::SubjectTooLong)))
    } else if m.contains_key(caller) {
        (m, Err(OpError::Host(HostError::AlreadyInUse)))
    } else if derived is None {
        (m, Err(OpError::Host(HostError::AddressUnavailable)))
    } else {
        (
            m.insert(
                caller,
                TutorView {
                    owner: caller,
                    subject: subject,
                    level: 1,
                    milestone_hash: zero_milestone(),
                    last_updated: now,
                },
            ),
            Ok(()),
        )
    }
}

/// What an update does to the store's contents, as one atomic transition:
/// the new contents paired with the reported result. The record is
/// resolved under `claimed_owner`; `caller` is the authorizing identity.
pub open spec fn spec_update(
    m: Map<Seq<u8>, TutorView>,
    caller: Seq<u8>,
    claimed_owner: Seq<u8>,
    new_level: u8,
    new_milestone: Seq<u8>,
    now: i64,
) -> (Map<Seq<u8>, TutorView>, Result<(), OpError>) {
    if !m.contains_key(claimed_owner) {
        (m, Err(OpError::Host(HostError::Missing)))
    } else if m[claimed_owner].owner != caller {
        (m, Err(OpError::Tutor(TutorError::Unauthorized)))
    } else {
        (
            m.insert(
                claimed_owner,
                TutorView {
                    owner: m[claimed_owner].owner,
                    subject: m[claimed_owner].subject,
                    level: new_level,
                    milestone_hash: new_milestone,
                    last_updated: now,
                },
            ),
            Ok(()),
        )
    }
}

/// Validity of store contents: every record is filed under its own
/// owner's identity, and its subject respects the creation-time bound.
pub open spec fn store_ok(m: Map<Seq<u8>, TutorView>) -> bool {
    forall|k: Seq<u8>| #[trigger]
        m.contains_key(k) ==> m[k].owner == k && m[k].subject.len() <= MAX_SUBJECT_LEN
}

/// The slots as a map from owner identity to record, later slots taking
/// precedence (well-formed stores never file an owner twice).
spec fn map_of(slots: Seq<Slot>) -> Map<Seq<u8>, TutorView>
    decreases slots.len(),
{
    if slots.len() == 0 {
        Map::empty()
    } else {
        map_of(slots.drop_last()).insert(slots.last().tutor@.owner, slots.last().tutor@)
    }
}

/// Some slot files a record for owner `k`.
spec fn has_owner(slots: Seq<Slot>, k: Seq<u8>) -> bool {
    exists|i: int| #![auto] 0 <= i < slots.len() && slots[i].tutor@.owner == k
}

/// No two slots file a record for the same owner.
spec fn owners_distinct(slots: Seq<Slot>) -> bool {
    forall|i: int, j: int| #![auto]
        0 <= i < j < slots.len() ==> slots[i].tutor@.owner != slots[j].tutor@.owner
}

/// A slot is internally consistent: subject within bound, and address and
/// bump exactly as the host derives them for the slot's owner.
spec fn slot_wf(s: Slot, program_id: Seq<u8>) -> bool {
    &&& s.tutor.subject@.len() <= MAX_SUBJECT_LEN
    &&& pda_of(namespace_tag(), s.tutor@.owner, program_id) == Some((s.address@, s.bump))
}

proof fn lemma_map_of_contains(slots: Seq<Slot>, k: Seq<u8>)
    ensures
        map_of(slots).contains_key(k) <==> has_owner(slots, k),
    decreases slots.len(),
{
    if slots.len() > 0 {
        lemma_map_of_contains(slots.drop_last(), k);
        let last = slots.len() - 1;
        if map_of(slots).contains_key(k) {
            if k == slots.last().tutor@.owner {
                assert(slots[last].tutor@.owner == k);
            } else {
                let i = choose|i: int| #![auto]
                    0 <= i < slots.drop_last().len() && slots.drop_last()[i].tutor@.owner == k;
                assert(slots[i].tutor@.owner == k);
            }
        }
        if has_owner(slots, k) {
            let i = choose|i: int| #![auto] 0 <= i < slots.len() && slots[i].tutor@.owner == k;
            if i < last {
                assert(slots.drop_last()[i].tutor@.owner == k);
                assert(has_owner(slots.drop_last(), k));
            }
        }
    }
}

proof fn lemma_map_of_get(slots: Seq<Slot>, i: int)
    requires
        owners_distinct(slots),
        0 <= i < slots.len(),
    ensures
        map_of(slots).contains_key(slots[i].tutor@.owner),
        map_of(slots)[slots[i].tutor@.owner] == slots[i].tutor@,
    decreases slots.len(),
{
    let last = slots.len() - 1;
    if i < last {
        assert(slots.drop_last()[i] == slots[i]);
        lemma_map_of_get(slots.drop_last(), i);
        assert(slots[i].tutor@.owner != slots[last].tutor@.owner);
    }
}

/// Whether two identities hold the same 32 bytes.
fn key_eq(a: &[u8; 32], b: &[u8; 32]) -> (r: bool)
    ensures
        r <==> a@ == b@,
{
    let mut i: usize = 0;
    while i < 32
        invariant
            i <= 32,
            forall|j: int| 0 <= j < i ==> a@[j] == b@[j],
        decreases 32 - i,
    {
        if a[i] != b[i] {
            proof {
                assert(a@[i as int] != b@[i as int]);
            }
            return false;
        }
        i += 1;
    }
    proof {
        assert(a@ =~= b@);
    }
    true
}

impl RecordStore {
    /// The identity of the program the store derives addresses for.
    pub closed spec fn program_id(self) -> Seq<u8> {
        self.program_id@
    }

    /// The store's contents: a map from owner identity to record.
    pub closed spec fn contents(self) -> Map<Seq<u8>, TutorView> {
        map_of(self.slots@)
    }

    /// Well-formedness: owners are filed at most once, and every slot's
    /// address and bump are exactly the host's derivation for its owner.
    pub closed spec fn wf(self) -> bool {
        &&& owners_distinct(self.slots@)
        &&& forall|i: int| 0 <= i < self.slots@.len() ==> slot_wf(#[trigger] self.slots@[i], self.program_id@)
    }

    /// Well-formedness carries over to the contents map: every record is
    /// filed under its own owner's identity, its subject within bound.
    pub proof fn lemma_wf_store_ok(self)
        requires
            self.wf(),
        ensures
            store_ok(self.contents()),
    {
        assert forall|k: Seq<u8>| #[trigger] self.contents().contains_key(k) implies self.contents()[k].owner
            == k && self.contents()[k].subject.len() <= MAX_SUBJECT_LEN by {
            lemma_map_of_contains(self.slots@, k);
            let i = choose|i: int| #![auto]
                0 <= i < self.slots@.len() && self.slots@[i].tutor@.owner == k;
            lemma_map_of_get(self.slots@, i);
        }
    }

    /// An empty store for the program with the given identity.
    pub fn new(program_id: [u8; 32]) -> (r: RecordStore)
        ensures
            r.wf(),
            r.program_id() == program_id@,
            r.contents() == Map::<Seq<u8>, TutorView>::empty(),
    {
        RecordStore { program_id, slots: Vec::new() }
    }

    /// The index of the slot filed for `owner`, if any.
    fn find_slot(&self, owner: &[u8; 32]) -> (r: Option<usize>)
        ensures
            match r {
                Some(i) => i < self.slots@.len() && self.slots@[i as int].tutor@.owner == owner@,
                None => !has_owner(self.slots@, owner@),
            },
    {
        let mut i: usize = 0;
        while i < self.slots.len()
            invariant
                i <= self.slots@.len(),
                forall|j: int| #![auto] 0 <= j < i ==> self.slots@[j].tutor@.owner != owner@,
            decreases self.slots@.len() - i,
        {
            if key_eq(&self.slots[i].tutor.owner, owner) {
                return Some(i);
            }
            i += 1;
        }
        None
    }

    /// Where the host ledger files the record of `owner`: the derived
    /// address and bump, or `None` when the host's search comes up empty.
    pub fn derive_record_address(&self, owner: &[u8; 32]) -> (r: Option<([u8; 32], u8)>)
        ensures
            r is Some <==> pda_of(namespace_tag(), owner@, self.program_id()) is Some,
            (r matches Some(p) ==> Some((p.0@, p.1)) == pda_of(
                namespace_tag(),
                owner@,
                self.program_id(),
            )),
    {
        let ns = namespace_bytes();
        derive_address(ns.as_slice(), owner, &self.program_id)
    }

    /// The record filed for `owner`, if any.
    pub fn get_record(&self, owner: &[u8; 32]) -> (r: Option<&Tutor>)
        requires
            self.wf(),
        ensures
            match r {
                Some(t) => self.contents().contains_key(owner@) && t@ == self.contents()[owner@],
                None => !self.contents().contains_key(owner@),
            },
    {
        proof {
            lemma_map_of_contains(self.slots@, owner@);
        }
        match self.find_slot(owner) {
            Some(i) => {
                proof {
                    lemma_map_of_get(self.slots@, i as int);
                }
                Some(&self.slots[i].tutor)
            },
            None => None,
        }
    }

    /// The address and bump the store filed an existing record under.
    pub fn address_of(&self, owner: &[u8; 32]) -> (r: Option<([u8; 32], u8)>)
        requires
            self.wf(),
        ensures
            r is Some <==> self.contents().contains_key(owner@),
            (r matches Some(p) ==> Some((p.0@, p.1)) == pda_of(
                namespace_tag(),
                owner@,
                self.program_id(),
            )),
    {
        proof {
            lemma_map_of_contains(self.slots@, owner@);
        }
        match self.find_slot(owner) {
            Some(i) => Some((self.slots[i].address, self.slots[i].bump)),
            None => None,
        }
    }

    /// Creation with the host's derivation already resolved: callers hand
    /// in the address and bump the host derived for `caller`.
    pub fn create_tutor_at(
        &mut self,
        caller: &[u8; 32],
        subject: Vec<u8>,
        now: i64,
        address: [u8; 32],
        bump: u8,
    ) -> (r: Result<(), OpError>)
        requires
            old(self).wf(),
            pda_of(namespace_tag(), caller@, old(self).program_id()) == Some((address@, bump)),
        ensures
            final(self).wf(),
            final(self).program_id() == old(self).program_id(),
            (final(self).contents(), r) == spec_create(
                old(self).contents(),
                caller@,
                subject@,
                now,
                Some((address@, bump)),
            ),
    {
        proof {
            lemma_map_of_contains(self.slots@, caller@);
        }
        if subject.len() > MAX_SUBJECT_LEN {
            return Err(OpError::Tutor(TutorError::SubjectTooLong));
        }
        match self.find_slot(caller) {
            Some(_) => Err(OpError::Host(HostError::AlreadyInUse)),
            None => {
                let ghost old_slots = self.slots@;
                let slot = Slot {
                    address,
                    bump,
                    tutor: Tutor {
                        owner: *caller,
                        subject,
                        level: 1,
                        milestone_hash: [0u8; 32],
                        last_updated: now,
                    },
                };
                let ghost v = slot.tutor@;
                self.slots.push(slot);
                proof {
                    assert(self.slots@.drop_last() =~= old_slots);
                    assert(v.milestone_hash =~= zero_milestone());
                    assert forall|i: int, j: int| #![auto]
                        0 <= i < j < self.slots@.len() implies self.slots@[i].tutor@.owner
                        != self.slots@[j].tutor@.owner by {
                        if j == self.slots@.len() - 1 {
                            assert(old_slots[i].tutor@.owner != caller@);
                        }
                    }
                    assert forall|j: int| 0 <= j < self.slots@.len() implies slot_wf(
                        #[trigger] self.slots@[j],
                        self.program_id@,
                    ) by {
                        if j < self.slots@.len() - 1 {
                            assert(self.slots@[j] == old_slots[j]);
                            assert(slot_wf(old_slots[j], self.program_id@));
                        }
                    }
                }
                Ok(())
            },
        }
    }

    /// Allocate and initialize the caller's record: level one, an
    /// all-zero checkpoint and the given creation time, at the address
    /// the host derives for the caller. Fails — leaving every record as
    /// it was — when the subject exceeds the bound, when the caller
    /// already has a record, or when the host finds no address.
    pub fn create_tutor(&mut self, caller: &[u8; 32], subject: Vec<u8>, now: i64) -> (r: Result<
        (),
        OpError,
    >)
        requires
            old(self).wf(),
        ensures
            final(self).wf(),
            final(self).program_id() == old(self).program_id(),
            (final(self).contents(), r) == spec_create(
                old(self).contents(),
                caller@,
                subject@,
                now,
                pda_of(namespace_tag(), caller@, old(self).program_id()),
            ),
    {
        proof {
            lemma_map_of_contains(self.slots@, caller@);
        }
        if subject.len() > MAX_SUBJECT_LEN {
            return Err(OpError::Tutor(TutorError::SubjectTooLong));
        }
        if self.find_slot(caller).is_some() {
            return Err(OpError::Host(HostError::AlreadyInUse));
        }
        let ns = namespace_bytes();
        match derive_address(ns.as_slice(), caller, &self.program_id) {
            None => Err(OpError::Host(HostError::AddressUnavailable)),
            Some((address, bump)) => self.create_tutor_at(caller, subject, now, address, bump),
        }
    }

    /// Overwrite the level and checkpoint of the record filed under
    /// `claimed_owner` and stamp it with the given time — but only when
    /// the authorizing identity equals the stored owner. Fails — leaving
    /// every record as it was — when no such record exists or when the
    /// caller is not the owner.
    pub fn update_progress(
        &mut self,
        caller: &[u8; 32],
        claimed_owner: &[u8; 32],
        new_level: u8,
        new_milestone: [u8; 32],
        now: i64,
    ) -> (r: Result<(), OpError>)
        requires
            old(self).wf(),
        ensures
            final(self).wf(),
            final(self).program_id() == old(self).program_id(),
            (final(self).contents(), r) == spec_update(
                old(self).contents(),
                caller@,
                claimed_owner@,
                new_level,
                new_milestone@,
                now,
            ),
    {
        proof {
            lemma_map_of_contains(self.slots@, claimed_owner@);
        }
        match self.find_slot(claimed_owner) {
            None => Err(OpError::Host(HostError::Missing)),
            Some(i) => {
                proof {
                    lemma_map_of_get(self.slots@, i as int);
                }
                if !key_eq(&self.slots[i].tutor.owner, caller) {
                    Err(OpError::Tutor(TutorError::Unauthorized))
                } else {
                    let ghost old_slots = self.slots@;
                    let mut slot = self.slots.remove(i);
                    slot.tutor.level = new_level;
                    slot.tutor.milestone_hash = new_milestone;
                    slot.tutor.last_updated = now;
                    let ghost v = slot.tutor@;
                    self.slots.push(slot);
                    proof {
                        old_slots.remove_ensures(i as int);
                        self.lemma_update_reindexed(old_slots, i as int, v, claimed_owner@);
                    }
                    Ok(())
                }
            },
        }
    }

    /// After removing slot `i` and appending the same slot with new
    /// level, checkpoint and time, the store is still well formed and its
    /// contents are the old contents with the owner's record overwritten.
    proof fn lemma_update_reindexed(self, old_slots: Seq<Slot>, i: int, v: TutorView, k: Seq<u8>)
        requires
            0 <= i < old_slots.len(),
            old_slots[i].tutor@.owner == k,
            v.owner == k,
            v.subject == old_slots[i].tutor@.subject,
            owners_distinct(old_slots),
            forall|j: int| 0 <= j < old_slots.len() ==> slot_wf(#[trigger] old_slots[j], self.program_id@),
            self.slots@.len() == old_slots.len(),
            self.slots@ == old_slots.remove(i).push(self.slots@.last()),
            self.slots@.last().tutor@ == v,
            self.slots@.last().address == old_slots[i].address,
            self.slots@.last().bump == old_slots[i].bump,
        ensures
            owners_distinct(self.slots@),
            forall|j: int| 0 <= j < self.slots@.len() ==> slot_wf(#[trigger] self.slots@[j], self.program_id@),
            map_of(self.slots@) == map_of(old_slots).insert(k, v),
    {
        let s1 = old_slots;
        let s2 = self.slots@;
        let last = s2.len() - 1;
        s1.remove_ensures(i);
        // Each slot of the new sequence is a slot of the old one, the
        // overwritten record standing last.
        assert forall|j: int| 0 <= j < last implies (s2[j] == if j < i {
            s1[j]
        } else {
            s1[j + 1]
        }) by {}
        assert forall|p: int, q: int| #![auto] 0 <= p < q < s2.len() implies s2[p].tutor@.owner
            != s2[q].tutor@.owner by {}
        assert forall|j: int| 0 <= j < s2.len() implies slot_wf(#[trigger] s2[j], self.program_id@) by {
            if j == last {
                assert(slot_wf(s1[i], self.program_id@));
            }
        }
        let m1 = map_of(s1);
        let m2 = map_of(s2);
        let expected = m1.insert(k, v);
        assert forall|key: Seq<u8>| #![auto] m2.contains_key(key) == expected.contains_key(key) by {
            lemma_map_of_contains(s1, key);
            lemma_map_of_contains(s2, key);
            if key == k {
                assert(s2[last].tutor@.owner == key);
            } else {
                if has_owner(s1, key) {
                    let j = choose|j: int| #![auto] 0 <= j < s1.len() && s1[j].tutor@.owner == key;
                    if j < i {
                        assert(s2[j].tutor@.owner == key);
                    } else {
                        assert(s2[j - 1].tutor@.owner == key);
                    }
                }
                if has_owner(s2, key) {
                    let j = choose|j: int| #![auto] 0 <= j < s2.len() && s2[j].tutor@.owner == key;
                    if j < i {
                        assert(s1[j].tutor@.owner == key);
                    } else {
                        assert(s1[j + 1].tutor@.owner == key);
                    }
                }
            }
        }
        assert forall|key: Seq<u8>| #![auto] m2.contains_key(key) implies m2[key] == expected[key] by {
            lemma_map_of_contains(s2, key);
            if key == k {
                lemma_map_of_get(s2, last);
            } else {
                let j = choose|j: int| #![auto] 0 <= j < s2.len() && s2[j].tutor@.owner == key;
                lemma_map_of_get(s2, j);
                if j < i {
                    lemma_map_of_get(s1, j);
                } else {
                    lemma_map_of_get(s1, j + 1);
                }
            }
        }
        assert(m2 =~= expected);
    }

    /// `create_tutor` at the host clock's current time.
    pub fn create_tutor_now(&mut self, caller: &[u8; 32], subject: Vec<u8>) -> (r: Result<
        (),
        OpError,
    >)
        requires
            old(self).wf(),
        ensures
            final(self).wf(),
            final(self).program_id() == old(self).program_id(),
            r == Err::<(), OpError>(OpError::Host(HostError::ClockUnavailable)) ==> final(self).contents()
                == old(self).contents(),
            r != Err::<(), OpError>(OpError::Host(HostError::ClockUnavailable)) ==> exists|t: i64|
                (final(self).contents(), r) == spec_create(
                    old(self).contents(),
                    caller@,
                    subject@,
                    t,
                    pda_of(namespace_tag(), caller@, old(self).program_id()),
                ),
    {
        match ledger_time() {
            None => Err(OpError::Host(HostError::ClockUnavailable)),
            Some(t) => {
                let r = self.create_tutor(caller, subject, t);
                proof {
                    assert((self.contents(), r) == spec_create(
                        old(self).contents(),
                        caller@,
                        subject@,
                        t,
                        pda_of(namespace_tag(), caller@, old(self).program_id()),
                    ));
                }
                r
            },
        }
    }

    /// `update_progress` at the host clock's current time.
    pub fn update_progress_now(
        &mut self,
        caller: &[u8; 32],
        claimed_owner: &[u8; 32],
        new_level: u8,
        new_milestone: [u8; 32],
    ) -> (r: Result<(), OpError>)
        requires
            old(self).wf(),
        ensures
            final(self).wf(),
            final(self).program_id() == old(self).program_id(),
            r == Err::<(), OpError>(OpError::Host(HostError::ClockUnavailable)) ==> final(self).contents()
                == old(self).contents(),
            r != Err::<(), OpError>(OpError::Host(HostError::ClockUnavailable)) ==> exists|t: i64|
                (final(self).contents(), r) == spec_update(
                    old(self).contents(),
                    caller@,
                    claimed_owner@,
                    new_level,
                    new_milestone@,
                    t,
                ),
    {
        match ledger_time() {
            None => Err(OpError::Host(HostError::ClockUnavailable)),
            Some(t) => {
                let r = self.update_progress(caller, claimed_owner, new_level, new_milestone, t);
                proof {
                    assert((self.contents(), r) == spec_update(
                        old(self).contents(),
                        caller@,
                        claimed_owner@,
                        new_level,
                        new_milestone@,
                        t,
                    ));
                }
                r
            },
        }
    }
}

} // verus!
