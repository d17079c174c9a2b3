//! A permission engine for a passthrough contract under multisig control:
//! it decides whether a proposed call to a named endpoint on an external
//! contract may go through, by checking who proposes the call, which
//! payment asset accompanies it, and whether the interaction is currently
//! enabled.
//!
//! Mutations are reachable only by the configured authority and either
//! succeed as a whole or leave the state untouched. The decision procedure
//! and the read-only getters never fail: an unknown key simply yields a
//! denial or an empty answer.

use vstd::prelude::*;

pub mod bytes;
pub mod contract;
pub mod errors;
pub mod interning;
pub mod multisig_interactions;
pub mod only_multisig;
pub mod storage;
pub mod token;
pub mod views;

use crate::errors::Error;
use crate::interning::Address;
use crate::multisig_interactions::MultisigInteractions;
use crate::only_multisig::OnlyMultisig;
use crate::storage::MultisigInteractionsStorage;
use crate::views::MultisigInteractionsViews;

verus! {

/// The passthrough contract: the guard configured with the multi-party
/// authority, the mutation API and the views, over one persisted state.
/// The hosting environment supplies caller identity and account-type
/// introspection as plain arguments.
pub trait Passthrough: OnlyMultisig + MultisigInteractionsStorage + MultisigInteractions + MultisigInteractionsViews + Sized {
    /// Initialisation: validates that the authority address is non-zero and
    /// recognised by the environment as a contract account
    /// (`multisig_address_is_contract` is the environment's answer), then
    /// configures the guard. Nothing else changes.
    fn init(&mut self, multisig_address: Address, multisig_address_is_contract: bool) -> (r:
        Result<(), Error>)
        requires
            old(self).wf(),
        ensures
            final(self).wf(),
            r is Ok <==> !multisig_address.is_zero() && multisig_address_is_contract,
            r is Err ==> r == Err::<(), Error>(Error::InvalidTargetAddress) && *final(self)
                == *old(self),
            r is Ok ==> final(self).authority() == multisig_address,
            final(self).interned() == old(self).interned(),
            forall|a: Address| final(self).id_of(a) == old(self).id_of(a),
            forall|a: Address, n: Seq<u8>| #[trigger] final(self).registered(a, n) == old(self).registered(a, n),
            final(self).interactions_count() == old(self).interactions_count(),
            forall|id: int, n: Seq<u8>| #[trigger] final(self).has_entry(id, n) == old(self).has_entry(id, n),
            forall|id: int, n: Seq<u8>| #[trigger] final(self).users(id, n) == old(self).users(id, n),
            forall|id: int, n: Seq<u8>| #[trigger] final(self).token_of(id, n) == old(self).token_of(id, n),
            forall|id: int, n: Seq<u8>| #[trigger] final(self).status_of(id, n) == old(self).status_of(id, n),
    ;

    /// A code upgrade carries the persisted state over unchanged.
    fn upgrade(&mut self)
        requires
            old(self).wf(),
        ensures
            *final(self) == *old(self),
    ;
}

} // verus!
