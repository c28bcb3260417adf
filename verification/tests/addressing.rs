use study_todo::error::{OpError, TodoError};
use study_todo::keys::{derive_item_address, derive_profile_address};
use study_todo::registry::{InitializeUser, Registry};
use study_todo::states::OwnerKey;

fn key(tag: u8) -> OwnerKey {
    OwnerKey::new(vec![tag; 32])
}

#[test]
fn derivation_is_deterministic() {
    let owner = key(1);
    let twin = owner.duplicate();
    let a1 = derive_profile_address(&owner).unwrap();
    let a2 = derive_profile_address(&twin).unwrap();
    assert_eq!(a1, a2);
    let i1 = derive_item_address(&key(1), 9).unwrap();
    let i2 = derive_item_address(&key(1), 9).unwrap();
    assert_eq!(i1, i2);
}

#[test]
fn derivation_actually_transforms_its_input() {
    let owner = key(2);
    let addr = derive_profile_address(&owner).unwrap();
    assert_eq!(addr.len(), 32);
    // the derived address is not the key material handed in
    assert_ne!(&addr, owner.as_bytes());
}

#[test]
fn derivation_separates_owners_indices_and_namespaces() {
    let p1 = derive_profile_address(&key(1)).unwrap();
    let p2 = derive_profile_address(&key(2)).unwrap();
    assert_ne!(p1, p2);
    let i0 = derive_item_address(&key(1), 0).unwrap();
    let i1 = derive_item_address(&key(1), 1).unwrap();
    assert_ne!(i0, i1);
    // the profile and item namespaces never collide for the same owner
    assert_ne!(p1, i0);
}

#[test]
fn registry_stores_records_at_their_derived_addresses() {
    let mut reg = Registry::new();
    reg.initialize_user(InitializeUser { authority: key(3) }).unwrap();
    let stored = reg.profile_address(&key(3)).unwrap().clone();
    let derived = derive_profile_address(&key(3)).unwrap();
    assert_eq!(stored, derived);
    reg.add_todo(
        study_todo::registry::AddTodo { authority: key(3), profile_owner: key(3) },
        String::from("addressed"),
    )
    .unwrap();
    let stored_item = reg.item_address(&key(3), 0).unwrap().clone();
    let derived_item = derive_item_address(&key(3), 0).unwrap();
    assert_eq!(stored_item, derived_item);
}

#[test]
fn overlong_key_material_cannot_derive_an_address() {
    // a seed longer than the host's maximum seed length has no address
    let oversized = OwnerKey::new(vec![9; 33]);
    assert!(derive_profile_address(&oversized).is_none());
    assert!(derive_item_address(&oversized, 0).is_none());
    let mut reg = Registry::new();
    let r = reg.initialize_user(InitializeUser { authority: OwnerKey::new(vec![9; 33]) });
    assert_eq!(r, Err(OpError::Program(TodoError::NotAllowed)));
    assert!(!reg.profile_exists(&OwnerKey::new(vec![9; 33])));
}
