use passthrough::errors::Error;
use passthrough::only_multisig::OnlyMultisig;
use passthrough::interning::Address;
use passthrough::contract::PassthroughContract;
use passthrough::multisig_interactions::MultisigInteractions;
use passthrough::views::MultisigInteractionsViews;
use passthrough::Passthrough;

fn addr(value: u64) -> Address {
    Address { value }
}

fn setup() -> PassthroughContract {
    let mut p = PassthroughContract::new();
    p.init(addr(1), true).unwrap();
    p
}

#[test]
fn init_rejects_zero_address() {
    let mut p = PassthroughContract::new();
    let r = p.init(addr(0), true);
    assert!(matches!(r, Err(Error::InvalidTargetAddress)));
}

#[test]
fn init_rejects_non_contract_address() {
    let mut p = PassthroughContract::new();
    let r = p.init(addr(1), false);
    assert!(matches!(r, Err(Error::InvalidTargetAddress)));
}

#[test]
fn init_stores_authority() {
    let p = setup();
    assert_eq!(p.multisig_address(), addr(1));
}

#[test]
fn add_interaction_test() {
    let mut p = setup();
    let nice_guy = addr(7);
    let r = p.add_interaction(
        &addr(1),
        addr(2),
        b"add".to_vec(),
        None,
        vec![nice_guy],
        true,
    );
    assert_eq!(r, Ok(()));
}

#[test]
fn duplicate_registration_fails() {
    let mut p = setup();
    let ms = addr(1);
    let c = addr(2);
    let r1 = p.add_interaction(
        &ms,
        c,
        b"add".to_vec(),
        None,
        vec![addr(3)],
        true,
    );
    assert_eq!(r1, Ok(()));
    let r2 = p.add_interaction(
        &ms,
        c,
        b"add".to_vec(),
        None,
        vec![addr(4)],
        true,
    );
    assert_eq!(r2, Err(Error::AlreadyRegistered));
    // A different endpoint on the same target is a different key.
    let r3 = p.add_interaction(
        &ms,
        c,
        b"sub".to_vec(),
        None,
        vec![],
        true,
    );
    assert_eq!(r3, Ok(()));
}

#[test]
fn add_interaction_rejects_invalid_target() {
    let mut p = setup();
    let r = p.add_interaction(
        &addr(1),
        addr(0),
        b"add".to_vec(),
        None,
        vec![],
        true,
    );
    assert_eq!(r, Err(Error::InvalidTargetAddress));
    let r2 = p.add_interaction(
        &addr(1),
        addr(2),
        b"add".to_vec(),
        None,
        vec![],
        false,
    );
    assert_eq!(r2, Err(Error::InvalidTargetAddress));
}

#[test]
fn unauthorized_mutations_fail_and_change_nothing() {
    let mut p = setup();
    let ms = addr(1);
    let evil = addr(9);
    let c = addr(2);
    let alice = addr(3);
    p
        .add_interaction(&ms, c, b"add".to_vec(), None, vec![alice], true)
        .unwrap();

    let r = p.add_interaction(
        &evil,
        addr(5),
        b"add".to_vec(),
        None,
        vec![],
        true,
    );
    assert_eq!(r, Err(Error::Unauthorized));
    let r = p.disable_interaction(
        &evil,
        c,
        b"add".to_vec(),
    );
    assert_eq!(r, Err(Error::Unauthorized));
    let r = p.enable_interaction(
        &evil,
        c,
        b"add".to_vec(),
    );
    assert_eq!(r, Err(Error::Unauthorized));
    let r = p.add_allowed_addresses(
        &evil,
        c,
        b"add".to_vec(),
        vec![evil],
    );
    assert_eq!(r, Err(Error::Unauthorized));
    let r = p.set_allowed_token_for_interaction(
        &evil,
        c,
        b"add".to_vec(),
        Some(b"EGLD".to_vec()),
    );
    assert_eq!(r, Err(Error::Unauthorized));

    // Registry and permission store are unchanged.
    let users = p
        
        .get_allowed_users_for_interaction(c, b"add".to_vec());
    assert_eq!(users, vec![alice]);
    let token = p
        
        .get_allowed_token_for_interaction(c, b"add".to_vec());
    assert_eq!(token, None);
    assert!(p
        
        .get_interaction_status(c, b"add".to_vec()));
    let users5 = p
        
        .get_allowed_users_for_interaction(addr(5), b"add".to_vec());
    assert!(users5.is_empty());
    assert!(p
        
        .can_execute(alice, c, b"add".to_vec(), 0, vec![]));
}

#[test]
fn mutations_on_unknown_target_fail_not_registered() {
    let mut p = setup();
    let ms = addr(1);
    let d = addr(8);
    let r = p
        
        .disable_interaction(&ms, d, b"add".to_vec());
    assert_eq!(r, Err(Error::NotRegistered));
    let r = p
        
        .enable_interaction(&ms, d, b"add".to_vec());
    assert_eq!(r, Err(Error::NotRegistered));
    let r = p.add_allowed_addresses(
        &ms,
        d,
        b"add".to_vec(),
        vec![addr(3)],
    );
    assert_eq!(r, Err(Error::NotRegistered));
    let r = p.set_allowed_token_for_interaction(
        &ms,
        d,
        b"add".to_vec(),
        None,
    );
    assert_eq!(r, Err(Error::NotRegistered));
}

#[test]
fn add_allowed_addresses_only_grows() {
    let mut p = setup();
    let ms = addr(1);
    let c = addr(2);
    let alice = addr(3);
    let bob = addr(4);
    p
        .add_interaction(&ms, c, b"add".to_vec(), None, vec![alice], true)
        .unwrap();
    p
        .add_allowed_addresses(&ms, c, b"add".to_vec(), vec![bob])
        .unwrap();
    let users = p
        
        .get_allowed_users_for_interaction(c, b"add".to_vec());
    assert!(users.contains(&alice));
    assert!(users.contains(&bob));
    assert_eq!(users.len(), 2);
    // Re-adding an existing member neither shrinks nor duplicates.
    p
        .add_allowed_addresses(&ms, c, b"add".to_vec(), vec![alice])
        .unwrap();
    let users = p
        
        .get_allowed_users_for_interaction(c, b"add".to_vec());
    assert!(users.contains(&alice));
    assert!(users.contains(&bob));
    assert_eq!(users.len(), 2);
}

#[test]
fn set_allowed_token_replaces_wholesale() {
    let mut p = setup();
    let ms = addr(1);
    let c = addr(2);
    p
        .add_interaction(&ms, c, b"add".to_vec(), None, vec![], true)
        .unwrap();
    p
        .set_allowed_token_for_interaction(
            &ms,
            c,
            b"add".to_vec(),
            Some(b"TOKEN-abc123".to_vec()),
        )
        .unwrap();
    let token = p
        
        .get_allowed_token_for_interaction(c, b"add".to_vec());
    assert_eq!(token, Some(b"TOKEN-abc123".to_vec()));
    p
        .set_allowed_token_for_interaction(&ms, c, b"add".to_vec(), None)
        .unwrap();
    let token = p
        
        .get_allowed_token_for_interaction(c, b"add".to_vec());
    assert_eq!(token, None);
}

#[test]
fn upgrade_keeps_state() {
    let mut p = setup();
    let ms = addr(1);
    let c = addr(2);
    let alice = addr(3);
    p
        .add_interaction(&ms, c, b"add".to_vec(), None, vec![alice], true)
        .unwrap();
    p.upgrade();
    assert!(p
        
        .can_execute(alice, c, b"add".to_vec(), 0, vec![]));
}
