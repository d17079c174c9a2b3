use passthrough::errors::Error;
use passthrough::interning::{Address, AddressToIdMapper, NULL_ID};
use passthrough::token::is_valid_token;
use passthrough::contract::PassthroughContract;
use passthrough::multisig_interactions::MultisigInteractions;
use passthrough::views::MultisigInteractionsViews;
use passthrough::Passthrough;

fn addr(value: u64) -> Address {
    Address { value }
}

fn setup() -> PassthroughContract {
    let mut p = PassthroughContract::new();
    p.init(addr(1), true).unwrap();
    p
}

#[test]
fn interning_is_idempotent_and_injective() {
    let mut m = AddressToIdMapper::new();
    let a = addr(10);
    let b = addr(20);
    assert_eq!(m.get_id(&a), NULL_ID);
    assert!(matches!(m.get_id_non_zero(&a), Err(Error::NotRegistered)));
    let id_a = m.get_id_or_insert(&a);
    let id_b = m.get_id_or_insert(&b);
    assert_eq!(m.get_id_or_insert(&a), id_a);
    assert_eq!(m.get_id_or_insert(&b), id_b);
    assert_ne!(id_a, id_b);
    assert_ne!(id_a, NULL_ID);
    assert_ne!(id_b, NULL_ID);
    // Ids are assigned sequentially in insertion order.
    assert_eq!(id_a, 1);
    assert_eq!(id_b, 2);
    assert_eq!(m.get_id(&a), 1);
    assert_eq!(m.get_id_non_zero(&b), Ok(2));
}

#[test]
fn token_identifier_validation() {
    // The native-coin sentinel is always valid.
    assert!(is_valid_token(&b"EGLD".to_vec()));
    // A well-formed identifier: uppercase ticker, dash, 6 lowercase
    // alphanumeric bytes.
    assert!(is_valid_token(&b"ALICE-123456".to_vec()));
    assert!(is_valid_token(&b"TOKENX-abc123".to_vec()));
    assert!(is_valid_token(&b"ABC-def456".to_vec()));
    // Malformed identifiers.
    assert!(!is_valid_token(&b"bad".to_vec()));
    assert!(!is_valid_token(&b"alice-123456".to_vec())); // lowercase ticker
    assert!(!is_valid_token(&b"ALICE-ABCDEF".to_vec())); // uppercase suffix
    assert!(!is_valid_token(&b"ALICE123456".to_vec())); // no dash
    assert!(!is_valid_token(&b"AB-def456".to_vec())); // ticker too short
    assert!(!is_valid_token(&b"TOOLONGTICKER-abc123".to_vec())); // ticker too long
    assert!(!is_valid_token(&b"ALICE-12345".to_vec())); // suffix too short
    assert!(!is_valid_token(&b"".to_vec()));
}

#[test]
fn add_interaction_validates_asset() {
    let mut p = setup();
    let ms = addr(1);
    let r = p.add_interaction(
        &ms,
        addr(2),
        b"add".to_vec(),
        Some(b"bad".to_vec()),
        vec![],
        true,
    );
    assert_eq!(r, Err(Error::InvalidAsset));
    let r = p.add_interaction(
        &ms,
        addr(2),
        b"add".to_vec(),
        Some(b"ALICE-123456".to_vec()),
        vec![],
        true,
    );
    assert_eq!(r, Ok(()));
}

#[test]
fn set_allowed_token_validates_asset() {
    let mut p = setup();
    let ms = addr(1);
    let c = addr(2);
    p
        .add_interaction(&ms, c, b"add".to_vec(), None, vec![], true)
        .unwrap();
    let r = p.set_allowed_token_for_interaction(
        &ms,
        c,
        b"add".to_vec(),
        Some(b"ALICE-ABCDEF".to_vec()),
    );
    assert_eq!(r, Err(Error::InvalidAsset));
    let token = p
        
        .get_allowed_token_for_interaction(c, b"add".to_vec());
    assert_eq!(token, None);
}

#[test]
fn getters_default_for_unknown_target() {
    let p = setup();
    let d = addr(9);
    let users = p
        
        .get_allowed_users_for_interaction(d, b"add".to_vec());
    assert!(users.is_empty());
    let token = p
        
        .get_allowed_token_for_interaction(d, b"add".to_vec());
    assert_eq!(token, None);
    assert!(!p
        
        .get_interaction_status(d, b"add".to_vec()));
}

#[test]
fn getters_reflect_registration() {
    let mut p = setup();
    let ms = addr(1);
    let c = addr(2);
    let alice = addr(3);
    p
        .add_interaction(
            &ms,
            c,
            b"add".to_vec(),
            Some(b"EGLD".to_vec()),
            vec![alice],
            true,
        )
        .unwrap();
    let users = p
        
        .get_allowed_users_for_interaction(c, b"add".to_vec());
    assert_eq!(users, vec![alice]);
    let token = p
        
        .get_allowed_token_for_interaction(c, b"add".to_vec());
    assert_eq!(token, Some(b"EGLD".to_vec()));
    assert!(p
        
        .get_interaction_status(c, b"add".to_vec()));
    // An unregistered endpoint of the same target stays at the defaults.
    let users = p
        
        .get_allowed_users_for_interaction(c, b"sub".to_vec());
    assert!(users.is_empty());
    assert!(!p
        
        .get_interaction_status(c, b"sub".to_vec()));
}
