use vstd::prelude::*;

use crate::errors::Error;
use crate::interning::{Address, AddressId, NULL_ID};
use crate::multisig_interactions::MultisigInteractions;
use crate::only_multisig::OnlyMultisig;
use crate::storage::{
    lemma_push_contains, opt_bytes, Interaction, InteractionStatus, InteractionStore,
    MultisigInteractionsStorage, DISABLED, ENABLED,
};
use crate::token::{is_egld, is_valid_token, TokenId};
use crate::views::{
    spec_can_execute, EsdtTokenPayment, MultisigInteractionsViews,
    PaymentsVec,
};
use crate::Passthrough;

verus! {

/// The passthrough contract state: the configured authority and the
/// interaction-permission stores. It implements the guard, the storage
/// model, the mutation API, the views and the contract lifecycle.
pub struct PassthroughContract {
    multisig_address: Address,
    store: InteractionStore,
}

impl PassthroughContract {
    /// A freshly deployed contract: no authority configured yet (the zero
    /// address), nothing interned, nothing registered, no permission state.
    pub fn new() -> (r: Self)
        ensures
            r.wf(),
            r.authority().is_zero(),
            r.interned().len() == 0,
            forall|a: Address| r.id_of(a) == 0,
            r.interactions_count() == 0,
            forall|a: Address, n: Seq<u8>| !(#[trigger] r.registered(a, n)),
            forall|id: int, n: Seq<u8>| !(#[trigger] r.has_entry(id, n)),
    {
        PassthroughContract {
            multisig_address: Address::zero(),
            store: InteractionStore::new(),
        }
    }

    /// Law: interning is injective — two distinct addresses never share a
    /// non-zero id, so an id resolved from the table denotes one address.
    pub proof fn lemma_ids_injective(self, a: Address, b: Address)
        requires
            self.wf(),
            self.id_of(a) == self.id_of(b),
            self.id_of(a) != 0,
        ensures
            a == b,
    {
        self.store.lemma_ids_injective(a, b);
    }

    /// A key that no mutation ever touched carries the default permission
    /// state: no allowed callers, no allowed asset, disabled.
    pub proof fn lemma_no_entry_defaults(self, id: int, name: Seq<u8>)
        requires
            !self.has_entry(id, name),
        ensures
            self.users(id, name) == Seq::<Address>::empty(),
            self.token_of(id, name) is None,
            self.status_of(id, name) == DISABLED,
    {
        self.store.lemma_no_entry_defaults(id, name);
    }

    /// Fails `AlreadyRegistered` exactly when the key is in the registry.
    fn require_interaction_not_added(
        &self,
        sc_address: &Address,
        endpoint_name: &Vec<u8>,
    ) -> (r: Result<(), Error>)
        requires
            self.wf(),
        ensures
            r is Ok <==> !self.registered(*sc_address, endpoint_name@),
            r is Err ==> r == Err::<(), Error>(Error::AlreadyRegistered),
    {
        if self.store.contains_interaction(sc_address, endpoint_name) {
            Err(Error::AlreadyRegistered)
        } else {
            Ok(())
        }
    }

    /// Unions a list of addresses into a key's allowed callers; existing
    /// members stay, nothing else changes.
    #[verifier::loop_isolation(false)]
    fn add_allowed_users_for_interaction(
        &mut self,
        sc_id: AddressId,
        endpoint_name: &Vec<u8>,
        allowed_addresses: &Vec<Address>,
    )
        requires
            old(self).wf(),
        ensures
            final(self).wf(),
            forall|b: Address| #[trigger] final(self).users(sc_id as int,
                endpoint_name@,
            ).contains(b) <==> old(self).users(sc_id as int, endpoint_name@).contains(b)
                || allowed_addresses@.contains(b),
            final(self).token_of(sc_id as int, endpoint_name@) == old(self).token_of(
                sc_id as int,
                endpoint_name@,
            ),
            final(self).status_of(sc_id as int, endpoint_name@) == old(self).status_of(
                sc_id as int,
                endpoint_name@,
            ),
            crate::views::same_except(*old(self), *final(self), sc_id as int, endpoint_name@),
    {
        let n = allowed_addresses.len();
        let mut k: usize = 0;
        while k < n
            invariant
                0 <= k <= n,
                self.wf(),
                self.multisig_address == old(self).multisig_address,
                forall|b: Address| #[trigger] self.users(sc_id as int,
                    endpoint_name@,
                ).contains(b) <==> old(self).users(sc_id as int, endpoint_name@).contains(b)
                    || allowed_addresses@.take(k as int).contains(b),
                self.token_of(sc_id as int, endpoint_name@) == old(self).token_of(
                    sc_id as int,
                    endpoint_name@,
                ),
                self.status_of(sc_id as int, endpoint_name@) == old(self).status_of(
                    sc_id as int,
                    endpoint_name@,
                ),
                crate::views::same_except(*old(self), *self, sc_id as int, endpoint_name@),
            decreases n - k,
        {
            let ghost mid = *self;
            self.store.insert_user(sc_id, endpoint_name, allowed_addresses[k]);
            proof {
                assert(allowed_addresses@.take(k as int + 1) =~= allowed_addresses@.take(
                    k as int,
                ).push(allowed_addresses@[k as int]));
                lemma_push_contains(
                    allowed_addresses@.take(k as int),
                    allowed_addresses@[k as int],
                );
                assert forall|b: Address| #[trigger] self.users(sc_id as int,
                    endpoint_name@,
                ).contains(b) <==> old(self).users(sc_id as int, endpoint_name@).contains(b)
                    || allowed_addresses@.take(k as int + 1).contains(b) by {
                    assert(self.users(sc_id as int, endpoint_name@).contains(b)
                        <==> mid.users(sc_id as int, endpoint_name@).contains(b) || b
                        == allowed_addresses@[k as int]);
                    assert(mid.users(sc_id as int, endpoint_name@).contains(b) <==> old(self).users(sc_id as int, endpoint_name@).contains(b)
                        || allowed_addresses@.take(k as int).contains(b));
                }
                assert(crate::views::same_except(mid, *self, sc_id as int, endpoint_name@));
                assert forall|id2: int, n2: Seq<u8>|
                    !(id2 == sc_id as int && n2 == endpoint_name@) implies #[trigger] self.users(
                    id2,
                    n2,
                ) == old(self).users(id2, n2) by {
                    assert(self.users(id2, n2) == mid.users(id2, n2));
                }
                assert forall|id2: int, n2: Seq<u8>|
                    !(id2 == sc_id as int && n2 == endpoint_name@) implies #[trigger] self.has_entry(
                    id2,
                    n2,
                ) == old(self).has_entry(id2, n2) && self.token_of(id2, n2) == old(self).token_of(id2, n2) && self.status_of(id2, n2) == old(self).status_of(
                    id2,
                    n2,
                ) by {
                    assert(self.has_entry(id2, n2) == mid.has_entry(id2, n2));
                    assert(self.token_of(id2, n2) == mid.token_of(id2, n2));
                    assert(self.status_of(id2, n2) == mid.status_of(id2, n2));
                }
                assert forall|a2: Address, n2: Seq<u8>| #[trigger] self.registered(a2, n2)
                    == old(self).registered(a2, n2) by {
                    assert(self.registered(a2, n2) == mid.registered(a2, n2));
                }
            }
            k += 1;
        }
        proof {
            assert(allowed_addresses@.take(n as int) =~= allowed_addresses@);
        }
    }
}

impl OnlyMultisig for PassthroughContract {
    closed spec fn authority(&self) -> Address {
        self.multisig_address
    }

    fn require_sc_address(&self, address: &Address, address_is_contract: bool) -> (r: Result<
        (),
        Error,
    >) {
        if address.value != 0 && address_is_contract {
            Ok(())
        } else {
            Err(Error::InvalidTargetAddress)
        }
    }

    fn require_multisig_caller(&self, caller: &Address) -> (r: Result<(), Error>) {
        if caller == &self.multisig_address {
            Ok(())
        } else {
            Err(Error::Unauthorized)
        }
    }

    fn multisig_address(&self) -> (r: Address) {
        self.multisig_address
    }
}

impl MultisigInteractionsStorage for PassthroughContract {
    closed spec fn interned(&self) -> Seq<Address> {
        self.store.interned()
    }

    closed spec fn id_of(&self, address: Address) -> int {
        self.store.id_of(address)
    }

    closed spec fn registered(&self, target: Address, name: Seq<u8>) -> bool {
        self.store.registered(target, name)
    }

    closed spec fn interactions_count(&self) -> nat {
        self.store.interactions_count()
    }

    closed spec fn has_entry(&self, id: int, name: Seq<u8>) -> bool {
        self.store.has_entry(id, name)
    }

    closed spec fn users(&self, id: int, name: Seq<u8>) -> Seq<Address> {
        self.store.users(id, name)
    }

    closed spec fn token_of(&self, id: int, name: Seq<u8>) -> Option<Seq<u8>> {
        self.store.token_of(id, name)
    }

    closed spec fn status_of(&self, id: int, name: Seq<u8>) -> InteractionStatus {
        self.store.status_of(id, name)
    }

    closed spec fn wf(&self) -> bool {
        self.store.wf()
    }
}

impl MultisigInteractions for PassthroughContract {
    fn add_interaction(
        &mut self,
        caller: &Address,
        sc_address: Address,
        endpoint_name: Vec<u8>,
        opt_allowed_token_id: Option<TokenId>,
        allowed_addresses: Vec<Address>,
        sc_address_is_contract: bool,
    ) -> (r: Result<(), Error>) {
        match self.require_multisig_caller(caller) {
            Err(e) => {
                return Err(e);
            },
            Ok(()) => {},
        }
        match self.require_sc_address(&sc_address, sc_address_is_contract) {
            Err(e) => {
                return Err(e);
            },
            Ok(()) => {},
        }
        match &opt_allowed_token_id {
            Some(token_id) => {
                if !is_valid_token(token_id) {
                    return Err(Error::InvalidAsset);
                }
            },
            None => {},
        }
        match self.require_interaction_not_added(&sc_address, &endpoint_name) {
            Err(e) => {
                return Err(e);
            },
            Ok(()) => {},
        }
        let ghost s0 = *self;
        let sc_id = self.store.get_id_or_insert(&sc_address);
        let ghost s1 = *self;
        self.store.clear_users(sc_id, &endpoint_name);
        let ghost s2 = *self;
        self.add_allowed_users_for_interaction(sc_id, &endpoint_name, &allowed_addresses);
        let ghost s3 = *self;
        self.store.set_token(sc_id, &endpoint_name, opt_allowed_token_id);
        let ghost s4 = *self;
        self.store.set_status(sc_id, &endpoint_name, ENABLED);
        let ghost s5 = *self;
        proof {
            assert(s1.registered(sc_address, endpoint_name@) == s0.registered(
                sc_address,
                endpoint_name@,
            ));
            assert(s2.registered(sc_address, endpoint_name@) == s1.registered(
                sc_address,
                endpoint_name@,
            ));
            assert(s3.registered(sc_address, endpoint_name@) == s2.registered(
                sc_address,
                endpoint_name@,
            ));
            assert(s4.registered(sc_address, endpoint_name@) == s3.registered(
                sc_address,
                endpoint_name@,
            ));
            assert(s5.registered(sc_address, endpoint_name@) == s4.registered(
                sc_address,
                endpoint_name@,
            ));
            assert(!s5.registered(sc_address, endpoint_name@));
        }
        self.store.insert_interaction(Interaction { sc_address, endpoint_name });
        proof {
            let id = s1.id_of(sc_address);
            assert(id == sc_id as int);
            assert(s2.id_of(sc_address) == id);
            assert(s3.id_of(sc_address) == id);
            assert(s4.id_of(sc_address) == id);
            assert(s5.id_of(sc_address) == id);
            assert(self.id_of(sc_address) == id);
            assert(s2.interned() == s1.interned());
            assert(s3.interned() == s2.interned());
            assert(s4.interned() == s3.interned());
            assert(s5.interned() == s4.interned());
            assert(self.interned() == s5.interned());
            assert forall|b: Address| b != sc_address implies self.id_of(b) == s0.id_of(
                b,
            ) by {
                assert(s1.id_of(b) == s0.id_of(b));
                assert(s2.id_of(b) == s1.id_of(b));
                assert(s3.id_of(b) == s2.id_of(b));
                assert(s4.id_of(b) == s3.id_of(b));
                assert(s5.id_of(b) == s4.id_of(b));
                assert(self.id_of(b) == s5.id_of(b));
            }
            assert forall|a2: Address, n2: Seq<u8>| #[trigger] self.registered(a2, n2) == (
            s0.registered(a2, n2) || (a2 == sc_address && n2 == endpoint_name@)) by {
                assert(s1.registered(a2, n2) == s0.registered(a2, n2));
                assert(s2.registered(a2, n2) == s1.registered(a2, n2));
                assert(s3.registered(a2, n2) == s2.registered(a2, n2));
                assert(s4.registered(a2, n2) == s3.registered(a2, n2));
                assert(s5.registered(a2, n2) == s4.registered(a2, n2));
                assert(self.registered(a2, n2) == (s5.registered(a2, n2) || (a2
                    == sc_address && n2 == endpoint_name@)));
            }
            assert(s1.interactions_count() == s0.interactions_count());
            assert(s2.interactions_count() == s1.interactions_count());
            assert(s3.interactions_count() == s2.interactions_count());
            assert(s4.interactions_count() == s3.interactions_count());
            assert(s5.interactions_count() == s4.interactions_count());
            assert(self.interactions_count() == s5.interactions_count() + 1);
            assert forall|b: Address| #[trigger] self.users(id, endpoint_name@).contains(b)
                <==> allowed_addresses@.contains(b) by {
                assert(s2.users(id, endpoint_name@) =~= Seq::<Address>::empty());
                assert(!s2.users(id, endpoint_name@).contains(b));
                assert(s3.users(id, endpoint_name@).contains(b) <==> s2.users(
                    id,
                    endpoint_name@,
                ).contains(b) || allowed_addresses@.contains(b));
                assert(s4.users(id, endpoint_name@) == s3.users(id, endpoint_name@));
                assert(s5.users(id, endpoint_name@) == s4.users(id, endpoint_name@));
                assert(self.users(id, endpoint_name@) == s5.users(id, endpoint_name@));
            }
            assert(s4.token_of(id, endpoint_name@) == opt_bytes(opt_allowed_token_id));
            assert(s5.token_of(id, endpoint_name@) == s4.token_of(id, endpoint_name@));
            assert(self.token_of(id, endpoint_name@) == s5.token_of(id, endpoint_name@));
            assert(s5.status_of(id, endpoint_name@) == ENABLED);
            assert(self.status_of(id, endpoint_name@) == s5.status_of(id, endpoint_name@));
            assert forall|id2: int, n2: Seq<u8>|
                #![trigger self.has_entry(id2, n2)]
                #![trigger self.users(id2, n2)]
                #![trigger self.token_of(id2, n2)]
                #![trigger self.status_of(id2, n2)]
                !(id2 == id && n2 == endpoint_name@) implies self.has_entry(id2, n2)
                == s0.has_entry(id2, n2) && self.users(id2, n2) == s0.users(id2, n2)
                && self.token_of(id2, n2) == s0.token_of(id2, n2) && self.status_of(id2, n2)
                == s0.status_of(id2, n2) by {
                assert(s1.has_entry(id2, n2) == s0.has_entry(id2, n2));
                assert(s2.has_entry(id2, n2) == s1.has_entry(id2, n2));
                assert(s3.has_entry(id2, n2) == s2.has_entry(id2, n2));
                assert(s4.has_entry(id2, n2) == s3.has_entry(id2, n2));
                assert(s5.has_entry(id2, n2) == s4.has_entry(id2, n2));
                assert(self.has_entry(id2, n2) == s5.has_entry(id2, n2));
                assert(s1.users(id2, n2) == s0.users(id2, n2));
                assert(s2.users(id2, n2) == s1.users(id2, n2));
                assert(s3.users(id2, n2) == s2.users(id2, n2));
                assert(s4.users(id2, n2) == s3.users(id2, n2));
                assert(s5.users(id2, n2) == s4.users(id2, n2));
                assert(self.users(id2, n2) == s5.users(id2, n2));
                assert(s1.token_of(id2, n2) == s0.token_of(id2, n2));
                assert(s2.token_of(id2, n2) == s1.token_of(id2, n2));
                assert(s3.token_of(id2, n2) == s2.token_of(id2, n2));
                assert(s4.token_of(id2, n2) == s3.token_of(id2, n2));
                assert(s5.token_of(id2, n2) == s4.token_of(id2, n2));
                assert(self.token_of(id2, n2) == s5.token_of(id2, n2));
                assert(s1.status_of(id2, n2) == s0.status_of(id2, n2));
                assert(s2.status_of(id2, n2) == s1.status_of(id2, n2));
                assert(s3.status_of(id2, n2) == s2.status_of(id2, n2));
                assert(s4.status_of(id2, n2) == s3.status_of(id2, n2));
                assert(s5.status_of(id2, n2) == s4.status_of(id2, n2));
                assert(self.status_of(id2, n2) == s5.status_of(id2, n2));
            }
        }
        Ok(())
    }

    fn disable_interaction(
        &mut self,
        caller: &Address,
        sc_address: Address,
        endpoint_name: Vec<u8>,
    ) -> (r: Result<(), Error>) {
        match self.require_multisig_caller(caller) {
            Err(e) => {
                return Err(e);
            },
            Ok(()) => {},
        }
        let sc_id = match self.store.get_id_non_zero(&sc_address) {
            Ok(id) => id,
            Err(e) => {
                return Err(e);
            },
        };
        self.store.set_status(sc_id, &endpoint_name, DISABLED);
        Ok(())
    }

    fn enable_interaction(
        &mut self,
        caller: &Address,
        sc_address: Address,
        endpoint_name: Vec<u8>,
    ) -> (r: Result<(), Error>) {
        match self.require_multisig_caller(caller) {
            Err(e) => {
                return Err(e);
            },
            Ok(()) => {},
        }
        let sc_id = match self.store.get_id_non_zero(&sc_address) {
            Ok(id) => id,
            Err(e) => {
                return Err(e);
            },
        };
        self.store.set_status(sc_id, &endpoint_name, ENABLED);
        Ok(())
    }

    fn add_allowed_addresses(
        &mut self,
        caller: &Address,
        sc_address: Address,
        endpoint_name: Vec<u8>,
        allowed_addresses: Vec<Address>,
    ) -> (r: Result<(), Error>) {
        match self.require_multisig_caller(caller) {
            Err(e) => {
                return Err(e);
            },
            Ok(()) => {},
        }
        let sc_id = match self.store.get_id_non_zero(&sc_address) {
            Ok(id) => id,
            Err(e) => {
                return Err(e);
            },
        };
        self.add_allowed_users_for_interaction(sc_id, &endpoint_name, &allowed_addresses);
        Ok(())
    }

    fn set_allowed_token_for_interaction(
        &mut self,
        caller: &Address,
        sc_address: Address,
        endpoint_name: Vec<u8>,
        opt_allowed_token_id: Option<TokenId>,
    ) -> (r: Result<(), Error>) {
        match self.require_multisig_caller(caller) {
            Err(e) => {
                return Err(e);
            },
            Ok(()) => {},
        }
        let sc_id = match self.store.get_id_non_zero(&sc_address) {
            Ok(id) => id,
            Err(e) => {
                return Err(e);
            },
        };
        match &opt_allowed_token_id {
            Some(token_id) => {
                if !is_valid_token(token_id) {
                    return Err(Error::InvalidAsset);
                }
            },
            None => {},
        }
        self.store.set_token(sc_id, &endpoint_name, opt_allowed_token_id);
        Ok(())
    }
}

impl MultisigInteractionsViews for PassthroughContract {
    fn can_execute(
        &self,
        proposer: Address,
        sc_address: Address,
        endpoint_name: Vec<u8>,
        egld_value: u64,
        esdt_payments: PaymentsVec,
    ) -> (r: bool) {
        let sc_id = self.store.get_id(&sc_address);
        if sc_id == NULL_ID {
            return false;
        }
        let interaction_status = self.store.get_status(sc_id, &endpoint_name);
        if interaction_status == DISABLED {
            return false;
        }
        if !self.store.users_is_empty(sc_id, &endpoint_name) && !self.store.users_contains(
            sc_id,
            &endpoint_name,
            &proposer,
        ) {
            return false;
        }
        self.is_token_allowed(sc_id, &endpoint_name, egld_value, &esdt_payments)
    }

    fn get_allowed_users_for_interaction(
        &self,
        sc_address: Address,
        endpoint_name: Vec<u8>,
    ) -> (r: Vec<Address>) {
        let sc_id = self.store.get_id(&sc_address);
        if sc_id == NULL_ID {
            return Vec::new();
        }
        self.store.get_users(sc_id, &endpoint_name)
    }

    fn get_allowed_token_for_interaction(
        &self,
        sc_address: Address,
        endpoint_name: Vec<u8>,
    ) -> (r: Option<TokenId>) {
        let sc_id = self.store.get_id(&sc_address);
        if sc_id == NULL_ID {
            return None;
        }
        self.store.get_token(sc_id, &endpoint_name)
    }

    fn get_interaction_status(&self, sc_address: Address, endpoint_name: Vec<u8>) -> (r:
        InteractionStatus) {
        let sc_id = self.store.get_id(&sc_address);
        if sc_id == NULL_ID {
            return DISABLED;
        }
        self.store.get_status(sc_id, &endpoint_name)
    }

    #[verifier::loop_isolation(false)]
    fn is_token_allowed(
        &self,
        sc_id: AddressId,
        endpoint_name: &Vec<u8>,
        egld_value: u64,
        esdt_payments: &PaymentsVec,
    ) -> (r: bool) {
        let opt_allowed_token = self.store.get_token(sc_id, endpoint_name);
        match opt_allowed_token {
            Some(allowed_token) => {
                if egld_value > 0 && !is_egld(&allowed_token) {
                    return false;
                }
                let n = esdt_payments.len();
                let mut k: usize = 0;
                while k < n
                    invariant
                        0 <= k <= n,
                        forall|j: int|
                            0 <= j < k ==> (#[trigger] esdt_payments@[j]).token_identifier@
                                == allowed_token@,
                    decreases n - k,
                {
                    if !crate::bytes::bytes_eq(
                        &esdt_payments[k].token_identifier,
                        &allowed_token,
                    ) {
                        return false;
                    }
                    k += 1;
                }
                true
            },
            None => egld_value == 0 && esdt_payments.len() == 0,
        }
    }
}

impl Passthrough for PassthroughContract {
    fn init(&mut self, multisig_address: Address, multisig_address_is_contract: bool) -> (r:
        Result<(), Error>) {
        match self.require_sc_address(&multisig_address, multisig_address_is_contract) {
            Err(e) => {
                return Err(e);
            },
            Ok(()) => {},
        }
        self.multisig_address = multisig_address;
        Ok(())
    }

    fn upgrade(&mut self) {
    }
}

/// Law: the decision for a key that no mutation ever touched is always
/// deny: such a key defaults to disabled.
pub proof fn lemma_untouched_key_denied(
    s: PassthroughContract,
    proposer: Address,
    sc_address: Address,
    endpoint_name: Seq<u8>,
    egld_value: u64,
    payments: Seq<EsdtTokenPayment>,
)
    requires
        !s.has_entry(s.id_of(sc_address), endpoint_name),
    ensures
        !spec_can_execute(s, proposer, sc_address, endpoint_name, egld_value, payments),
{
    s.lemma_no_entry_defaults(s.id_of(sc_address), endpoint_name);
}

} // verus!
