use vstd::prelude::*;

use crate::errors::Error;
use crate::interning::Address;
use crate::only_multisig::OnlyMultisig;
use crate::storage::{opt_bytes, MultisigInteractionsStorage, DISABLED, ENABLED};
use crate::token::{spec_token_valid, TokenId};
use crate::views::same_except;

verus! {

/// Whether an optional asset policy value is acceptable: an absent policy is
/// always acceptable, a present one must be a valid identifier.
pub open spec fn spec_opt_token_valid(o: Option<Vec<u8>>) -> bool {
    match o {
        Some(t) => spec_token_valid(t@),
        None => true,
    }
}

/// The mutation API of the interaction-permission engine. Every operation
/// first checks the guard: only the configured authority may mutate, any
/// other caller fails `Unauthorized`. Every failure leaves the state
/// untouched — each operation is one atomic step.
pub trait MultisigInteractions: OnlyMultisig + MultisigInteractionsStorage + Sized {
    /// Registers a new interaction: validates the guard, the target address
    /// and the asset policy, refuses duplicates, interns the target, writes
    /// the initial callers, the asset policy and an Enabled switch, and
    /// inserts the registry record — all as one atomic step.
    fn add_interaction(
        &mut self,
        caller: &Address,
        sc_address: Address,
        endpoint_name: Vec<u8>,
        opt_allowed_token_id: Option<TokenId>,
        allowed_addresses: Vec<Address>,
        sc_address_is_contract: bool,
    ) -> (r: Result<(), Error>)
        requires
            old(self).wf(),
        ensures
            final(self).wf(),
            final(self).authority() == old(self).authority(),
            *caller != old(self).authority() ==> r == Err::<(), Error>(Error::Unauthorized)
                && *final(self) == *old(self),
            *caller == old(self).authority() && !(!sc_address.is_zero()
                && sc_address_is_contract) ==> r == Err::<(), Error>(
                Error::InvalidTargetAddress,
            ) && *final(self) == *old(self),
            *caller == old(self).authority() && (!sc_address.is_zero()
                && sc_address_is_contract) && !spec_opt_token_valid(opt_allowed_token_id)
                ==> r == Err::<(), Error>(Error::InvalidAsset) && *final(self) == *old(self),
            *caller == old(self).authority() && (!sc_address.is_zero()
                && sc_address_is_contract) && spec_opt_token_valid(opt_allowed_token_id)
                && old(self).registered(sc_address, endpoint_name@) ==> r == Err::<(), Error>(
                Error::AlreadyRegistered,
            ) && *final(self) == *old(self),
            *caller == old(self).authority() && (!sc_address.is_zero()
                && sc_address_is_contract) && spec_opt_token_valid(opt_allowed_token_id)
                && !old(self).registered(sc_address, endpoint_name@) ==> r is Ok && {
                let id = final(self).id_of(sc_address);
                &&& id != 0
                &&& old(self).id_of(sc_address) != 0 ==> id == old(self).id_of(sc_address)
                    && final(self).interned() == old(self).interned()
                &&& old(self).id_of(sc_address) == 0 ==> id == old(self).interned().len()
                    + 1 && final(self).interned() == old(self).interned().push(sc_address)
                &&& forall|b: Address|
                    b != sc_address ==> final(self).id_of(b) == old(self).id_of(b)
                &&& forall|a2: Address, n2: Seq<u8>| #[trigger] final(self).registered(
                    a2,
                    n2,
                ) == (old(self).registered(a2, n2) || (a2 == sc_address && n2
                    == endpoint_name@))
                &&& final(self).interactions_count() == old(self).interactions_count() + 1
                &&& forall|b: Address| #[trigger] final(self).users(id,
                    endpoint_name@,
                ).contains(b) <==> allowed_addresses@.contains(b)
                &&& final(self).token_of(id, endpoint_name@) == opt_bytes(
                    opt_allowed_token_id,
                )
                &&& final(self).status_of(id, endpoint_name@) == ENABLED
                &&& forall|id2: int, n2: Seq<u8>|
                    !(id2 == id && n2 == endpoint_name@) ==> #[trigger] final(self).has_entry(id2, n2) == old(self).has_entry(id2, n2)
                &&& forall|id2: int, n2: Seq<u8>|
                    !(id2 == id && n2 == endpoint_name@) ==> #[trigger] final(self).users(
                        id2,
                        n2,
                    ) == old(self).users(id2, n2)
                &&& forall|id2: int, n2: Seq<u8>|
                    !(id2 == id && n2 == endpoint_name@) ==> #[trigger] final(self).token_of(id2, n2) == old(self).token_of(id2, n2)
                &&& forall|id2: int, n2: Seq<u8>|
                    !(id2 == id && n2 == endpoint_name@) ==> #[trigger] final(self).status_of(id2, n2) == old(self).status_of(id2, n2)
            },
    ;

    /// Disables an interaction key; requires the target to be interned.
    fn disable_interaction(
        &mut self,
        caller: &Address,
        sc_address: Address,
        endpoint_name: Vec<u8>,
    ) -> (r: Result<(), Error>)
        requires
            old(self).wf(),
        ensures
            final(self).wf(),
            *caller != old(self).authority() ==> r == Err::<(), Error>(Error::Unauthorized)
                && *final(self) == *old(self),
            *caller == old(self).authority() && old(self).id_of(sc_address) == 0 ==> r
                == Err::<(), Error>(Error::NotRegistered) && *final(self) == *old(self),
            *caller == old(self).authority() && old(self).id_of(sc_address) != 0 ==> r is Ok
                && final(self).status_of(old(self).id_of(sc_address), endpoint_name@)
                == DISABLED && final(self).users(old(self).id_of(sc_address), endpoint_name@)
                == old(self).users(old(self).id_of(sc_address), endpoint_name@) && final(self).token_of(old(self).id_of(sc_address), endpoint_name@) == old(self).token_of(
                old(self).id_of(sc_address),
                endpoint_name@,
            ) && same_except(
                *old(self),
                *final(self),
                old(self).id_of(sc_address),
                endpoint_name@,
            ),
    ;

    /// Enables an interaction key; requires the target to be interned.
    fn enable_interaction(
        &mut self,
        caller: &Address,
        sc_address: Address,
        endpoint_name: Vec<u8>,
    ) -> (r: Result<(), Error>)
        requires
            old(self).wf(),
        ensures
            final(self).wf(),
            *caller != old(self).authority() ==> r == Err::<(), Error>(Error::Unauthorized)
                && *final(self) == *old(self),
            *caller == old(self).authority() && old(self).id_of(sc_address) == 0 ==> r
                == Err::<(), Error>(Error::NotRegistered) && *final(self) == *old(self),
            *caller == old(self).authority() && old(self).id_of(sc_address) != 0 ==> r is Ok
                && final(self).status_of(old(self).id_of(sc_address), endpoint_name@)
                == ENABLED && final(self).users(old(self).id_of(sc_address), endpoint_name@)
                == old(self).users(old(self).id_of(sc_address), endpoint_name@) && final(self).token_of(old(self).id_of(sc_address), endpoint_name@) == old(self).token_of(
                old(self).id_of(sc_address),
                endpoint_name@,
            ) && same_except(
                *old(self),
                *final(self),
                old(self).id_of(sc_address),
                endpoint_name@,
            ),
    ;

    /// Unions addresses into a key's allowed callers; the effective set
    /// never shrinks. Requires the target to be interned.
    fn add_allowed_addresses(
        &mut self,
        caller: &Address,
        sc_address: Address,
        endpoint_name: Vec<u8>,
        allowed_addresses: Vec<Address>,
    ) -> (r: Result<(), Error>)
        requires
            old(self).wf(),
        ensures
            final(self).wf(),
            *caller != old(self).authority() ==> r == Err::<(), Error>(Error::Unauthorized)
                && *final(self) == *old(self),
            *caller == old(self).authority() && old(self).id_of(sc_address) == 0 ==> r
                == Err::<(), Error>(Error::NotRegistered) && *final(self) == *old(self),
            *caller == old(self).authority() && old(self).id_of(sc_address) != 0 ==> r is Ok
                && (forall|b: Address| #[trigger] final(self).users(
                old(self).id_of(sc_address),
                endpoint_name@,
            ).contains(b) <==> old(self).users(
                old(self).id_of(sc_address),
                endpoint_name@,
            ).contains(b) || allowed_addresses@.contains(b)) && final(self).token_of(
                old(self).id_of(sc_address),
                endpoint_name@,
            ) == old(self).token_of(old(self).id_of(sc_address), endpoint_name@) && final(self).status_of(old(self).id_of(sc_address), endpoint_name@) == old(self).status_of(
                old(self).id_of(sc_address),
                endpoint_name@,
            ) && same_except(
                *old(self),
                *final(self),
                old(self).id_of(sc_address),
                endpoint_name@,
            ),
    ;

    /// Replaces a key's allowed-asset policy wholesale; requires the target
    /// to be interned and the new policy to be valid.
    fn set_allowed_token_for_interaction(
        &mut self,
        caller: &Address,
        sc_address: Address,
        endpoint_name: Vec<u8>,
        opt_allowed_token_id: Option<TokenId>,
    ) -> (r: Result<(), Error>)
        requires
            old(self).wf(),
        ensures
            final(self).wf(),
            *caller != old(self).authority() ==> r == Err::<(), Error>(Error::Unauthorized)
                && *final(self) == *old(self),
            *caller == old(self).authority() && old(self).id_of(sc_address) == 0 ==> r
                == Err::<(), Error>(Error::NotRegistered) && *final(self) == *old(self),
            *caller == old(self).authority() && old(self).id_of(sc_address) != 0
                && !spec_opt_token_valid(opt_allowed_token_id) ==> r == Err::<(), Error>(
                Error::InvalidAsset,
            ) && *final(self) == *old(self),
            *caller == old(self).authority() && old(self).id_of(sc_address) != 0
                && spec_opt_token_valid(opt_allowed_token_id) ==> r is Ok && final(self).token_of(old(self).id_of(sc_address), endpoint_name@) == opt_bytes(
                opt_allowed_token_id,
            ) && final(self).users(old(self).id_of(sc_address), endpoint_name@) == old(self).users(old(self).id_of(sc_address), endpoint_name@) && final(self).status_of(
                old(self).id_of(sc_address),
                endpoint_name@,
            ) == old(self).status_of(old(self).id_of(sc_address), endpoint_name@)
                && same_except(
                *old(self),
                *final(self),
                old(self).id_of(sc_address),
                endpoint_name@,
            ),
    ;
}

} // verus!
