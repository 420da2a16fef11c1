//! A per-owner "tutor progress" ledger: one record per owning identity,
//! created once and then mutated in place under the owner's authority.
//!
//! The store keys each record by its owner's identity and remembers the
//! address that the host ledger derives for it from a fixed namespace tag.
//! Two operations drive the lifecycle: `create_tutor`, which allocates and
//! initializes a record if none exists yet, and `update_progress`, which
//! overwrites the progress counter and checkpoint of an existing record
//! when — and only when — the authorizing identity equals the stored owner.

pub mod addressing;
pub mod clock;
pub mod errors;
pub mod laws;
pub mod record;
pub mod store;
