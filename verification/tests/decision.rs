use passthrough::interning::Address;
use passthrough::views::EsdtTokenPayment;
use passthrough::contract::PassthroughContract;
use passthrough::multisig_interactions::MultisigInteractions;
use passthrough::views::MultisigInteractionsViews;
use passthrough::Passthrough;

fn addr(value: u64) -> Address {
    Address { value }
}

fn setup() -> PassthroughContract {
    let mut p = PassthroughContract::new();
    p.init(addr(1), true).unwrap();
    p
}

fn pay(token: &[u8], amount: u64) -> EsdtTokenPayment {
    EsdtTokenPayment { token_identifier: token.to_vec(), amount }
}

#[test]
fn whitelisted_caller_allowed_others_denied() {
    let mut p = setup();
    let ms = addr(1);
    let c = addr(2);
    let alice = addr(3);
    let bob = addr(4);
    p
        .add_interaction(&ms, c, b"add".to_vec(), None, vec![alice], true)
        .unwrap();
    assert!(p
        
        .can_execute(alice, c, b"add".to_vec(), 0, vec![]));
    assert!(!p
        
        .can_execute(bob, c, b"add".to_vec(), 0, vec![]));
}

#[test]
fn egld_sentinel_allows_native_but_not_tokens() {
    let mut p = setup();
    let ms = addr(1);
    let c = addr(2);
    let alice = addr(3);
    p
        .add_interaction(
            &ms,
            c,
            b"add".to_vec(),
            Some(b"EGLD".to_vec()),
            vec![alice],
            true,
        )
        .unwrap();
    assert!(p
        
        .can_execute(alice, c, b"add".to_vec(), 5, vec![]));
    assert!(!p.can_execute(
        alice,
        c,
        b"add".to_vec(),
        0,
        vec![pay(b"TOKENX-abc123", 1)],
    ));
}

#[test]
fn disable_then_enable_restores_verdict() {
    let mut p = setup();
    let ms = addr(1);
    let c = addr(2);
    let alice = addr(3);
    p
        .add_interaction(&ms, c, b"add".to_vec(), None, vec![alice], true)
        .unwrap();
    assert!(p
        
        .can_execute(alice, c, b"add".to_vec(), 0, vec![]));
    p
        .disable_interaction(&ms, c, b"add".to_vec())
        .unwrap();
    assert!(!p
        
        .can_execute(alice, c, b"add".to_vec(), 0, vec![]));
    assert!(!p
        
        .get_interaction_status(c, b"add".to_vec()));
    p
        .enable_interaction(&ms, c, b"add".to_vec())
        .unwrap();
    assert!(p
        
        .can_execute(alice, c, b"add".to_vec(), 0, vec![]));
}

#[test]
fn empty_caller_list_is_public() {
    let mut p = setup();
    let ms = addr(1);
    let c = addr(2);
    p
        .add_interaction(&ms, c, b"add".to_vec(), None, vec![], true)
        .unwrap();
    for v in [3u64, 4, 5, 1000] {
        assert!(p
            
            .can_execute(addr(v), c, b"add".to_vec(), 0, vec![]));
    }
}

#[test]
fn unregistered_target_always_denied() {
    let mut p = setup();
    let ms = addr(1);
    let c = addr(2);
    let d = addr(6);
    p
        .add_interaction(&ms, c, b"add".to_vec(), None, vec![], true)
        .unwrap();
    assert!(!p
        
        .can_execute(addr(3), d, b"add".to_vec(), 0, vec![]));
    assert!(!p
        
        .can_execute(addr(3), d, b"add".to_vec(), 5, vec![]));
    assert!(!p.can_execute(
        addr(3),
        d,
        b"add".to_vec(),
        0,
        vec![pay(b"TOKENX-abc123", 1)],
    ));
}

#[test]
fn unregistered_endpoint_on_known_target_denied() {
    let mut p = setup();
    let ms = addr(1);
    let c = addr(2);
    p
        .add_interaction(&ms, c, b"add".to_vec(), None, vec![], true)
        .unwrap();
    assert!(!p
        
        .can_execute(addr(3), c, b"sub".to_vec(), 0, vec![]));
}

#[test]
fn absent_asset_policy_refuses_any_payment() {
    let mut p = setup();
    let ms = addr(1);
    let c = addr(2);
    let alice = addr(3);
    p
        .add_interaction(&ms, c, b"add".to_vec(), None, vec![alice], true)
        .unwrap();
    assert!(!p
        
        .can_execute(alice, c, b"add".to_vec(), 1, vec![]));
    assert!(!p.can_execute(
        alice,
        c,
        b"add".to_vec(),
        0,
        vec![pay(b"TOKENX-abc123", 1)],
    ));
}

#[test]
fn present_asset_policy_checks_every_transfer() {
    let mut p = setup();
    let ms = addr(1);
    let c = addr(2);
    let alice = addr(3);
    p
        .add_interaction(
            &ms,
            c,
            b"add".to_vec(),
            Some(b"TOKENX-abc123".to_vec()),
            vec![alice],
            true,
        )
        .unwrap();
    // Transfers of the allowed asset pass.
    assert!(p.can_execute(
        alice,
        c,
        b"add".to_vec(),
        0,
        vec![pay(b"TOKENX-abc123", 1), pay(b"TOKENX-abc123", 2)],
    ));
    // One transfer of a different asset denies the whole call.
    assert!(!p.can_execute(
        alice,
        c,
        b"add".to_vec(),
        0,
        vec![pay(b"TOKENX-abc123", 1), pay(b"OTHER-abc123", 1)],
    ));
    // A native-coin amount is denied unless the policy is the sentinel.
    assert!(!p
        
        .can_execute(alice, c, b"add".to_vec(), 5, vec![]));
}
