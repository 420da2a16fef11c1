//! Deterministic addressing from outside: the store's derivation must be
//! the host's own, and created records must sit at the derived address.

use tutor_project::store::RecordStore;

const PROGRAM_ID: [u8; 32] = [7u8; 32];

fn host_derivation(owner: &[u8; 32]) -> ([u8; 32], u8) {
    let pid = solana_pubkey::Pubkey::new_from_array(PROGRAM_ID);
    let (address, bump) =
        solana_pubkey::Pubkey::try_find_program_address(&[b"tutor", owner.as_slice()], &pid)
            .expect("a bump exists for these seeds");
    (address.to_bytes(), bump)
}

#[test]
fn derive_matches_host_derivation() {
    let store = RecordStore::new(PROGRAM_ID);
    let owner = [42u8; 32];
    let (address, bump) = store.derive_record_address(&owner).expect("derivation succeeds");
    assert_eq!((address, bump), host_derivation(&owner));
    // The derived address is a hash, not the owner identity echoed back.
    assert_ne!(address, owner);
}

#[test]
fn derivation_is_deterministic_and_owner_dependent() {
    let store = RecordStore::new(PROGRAM_ID);
    let a = store.derive_record_address(&[1u8; 32]).unwrap();
    let b = store.derive_record_address(&[1u8; 32]).unwrap();
    let c = store.derive_record_address(&[2u8; 32]).unwrap();
    assert_eq!(a, b);
    assert_ne!(a.0, c.0);
}

#[test]
fn created_record_sits_at_derived_address() {
    let mut store = RecordStore::new(PROGRAM_ID);
    let owner = [3u8; 32];
    assert!(store.address_of(&owner).is_none());
    assert_eq!(store.create_tutor(&owner, b"Algebra".to_vec(), 10), Ok(()));
    let filed = store.address_of(&owner).expect("record exists");
    assert_eq!(filed, host_derivation(&owner));
}

#[test]
fn create_at_resolved_address_files_the_record() {
    let mut store = RecordStore::new(PROGRAM_ID);
    let owner = [4u8; 32];
    let (address, bump) = store.derive_record_address(&owner).unwrap();
    assert_eq!(store.create_tutor_at(&owner, b"Algebra".to_vec(), 10, address, bump), Ok(()));
    let rec = store.get_record(&owner).unwrap();
    assert_eq!(rec.level, 1);
    assert_eq!(store.address_of(&owner).unwrap(), (address, bump));
}
