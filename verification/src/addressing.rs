//! Deterministic addressing: the mapping from an owner identity to the
//! storage address of that owner's record.
//!
//! The host ledger derives the address from a fixed namespace tag, the
//! owner's identity and the program's identity, together with a "bump"
//! byte that certifies the derivation. The derivation itself is the host's
//! (a hash-based search over bump values); here it carries a name,
//! `pda_of`, and one trusted wrapper makes the call.

use vstd::prelude::*;

verus! {

/// The derived address and bump that the host ledger assigns to the given
/// seed, owner identity and program identity — `None` when the host's
/// search for a usable bump comes up empty. The derivation is a pure
/// function of these three values, identical in every process, so it
/// carries a name here rather than a definition.
pub uninterp spec fn pda_of(seed: Seq<u8>, owner: Seq<u8>, program_id: Seq<u8>) -> Option<(Seq<u8>, u8)>;

/// The namespace tag under which every progress record is filed: the five
/// bytes of "tutor".
pub open spec fn namespace_tag() -> Seq<u8> {
    seq![116u8, 117u8, 116u8, 111u8, 114u8]
}

/// The namespace tag as an executable value.
pub fn namespace_bytes() -> (r: Vec<u8>)
    ensures
        r@ == namespace_tag(),
{
    let mut v: Vec<u8> = Vec::new();
    v.push(116);
    v.push(117);
    v.push(116);
    v.push(111);
    v.push(114);
    proof {
        assert(v@ =~= namespace_tag());
    }
    v
}

/// Relies on `Pubkey::try_find_program_address` of the host's pubkey
/// crate: the search for a derived address and bump is a deterministic
/// computation over the seeds and the program identity, returning `None`
/// only when no bump byte yields a usable address.
#[verifier::external_body]
pub(crate) fn derive_address(seed: &[u8], owner: &[u8; 32], program_id: &[u8; 32]) -> (r: Option<
    ([u8; 32], u8),
>)
    ensures
        r is Some <==> pda_of(seed@, owner@, program_id@) is Some,
        (r matches Some(p) ==> Some((p.0@, p.1)) == pda_of(seed@, owner@, program_id@)),
{
    let pid = anchor_lang::prelude::Pubkey::new_from_array(*program_id);
    let found = anchor_lang::prelude::Pubkey::try_find_program_address(
        &[seed, owner.as_slice()],
        &pid,
    );
    found.map(|(address, bump)| (address.to_bytes(), bump))
}

} // verus!
