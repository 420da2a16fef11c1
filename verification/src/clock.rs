//! The host ledger's clock, consumed and never reimplemented: every
//! operation stamps the record with the time this source reports.

use anchor_lang::prelude::SolanaSysvar;
use vstd::prelude::*;

verus! {

/// Relies on `Clock::get` of the host's sysvar crate: reads the current
/// ledger time where a host execution environment surrounds the caller,
/// and reports `None` where none does. Nothing is promised of the value
/// read; callers take it as an argument and are verified for every value.
#[verifier::external_body]
pub(crate) fn ledger_time() -> (r: Option<i64>) {
    match anchor_lang::prelude::Clock::get() {
        Ok(clock) => Some(clock.unix_timestamp),
        Err(_) => None,
    }
}

} // verus!
