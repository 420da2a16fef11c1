use vstd::prelude::*;

verus! {

/// Greatest number of subject bytes a record accepts.
pub const MAX_SUBJECT_LEN: usize = 50;

/// A tutor progress record; the store keeps exactly one per owner identity.
pub struct Tutor {
    /// The identity that created the record; never changed afterwards.
    pub owner: [u8; 32],
    /// The subject taught, as UTF-8 bytes; chosen once at creation and at
    /// most `MAX_SUBJECT_LEN` bytes long.
    pub subject: Vec<u8>,
    /// The progress counter; each update overwrites it with the value the
    /// owner supplies, larger or smaller than before.
    pub level: u8,
    /// An opaque 32-byte checkpoint marker, overwritten wholesale on every
    /// update; the record does not interpret its contents.
    pub milestone_hash: [u8; 32],
    /// Ledger time of the creation or latest update, in seconds since the
    /// epoch.
    pub last_updated: i64,
}

/// The mathematical shadow of a `Tutor`: every field as a plain value.
pub ghost struct TutorView {
    pub owner: Seq<u8>,
    pub subject: Seq<u8>,
    pub level: u8,
    pub milestone_hash: Seq<u8>,
    pub last_updated: i64,
}

impl View for Tutor {
    type V = TutorView;

    open spec fn view(&self) -> TutorView {
        TutorView {
            owner: self.owner@,
            subject: self.subject@,
            level: self.level,
            milestone_hash: self.milestone_hash@,
            last_updated: self.last_updated,
        }
    }
}

/// The checkpoint every record starts with: 32 zero bytes.
pub open spec fn zero_milestone() -> Seq<u8> {
    Seq::new(32, |i: int| 0u8)
}

} // verus!
