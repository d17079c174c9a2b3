use vstd::prelude::*;

use crate::errors::Error;
use crate::interning::Address;

verus! {

/// The guard: a single configured authority address, compared against the
/// current invocation's caller identity before every mutation. Caller
/// identity and account-type introspection come from the hosting
/// environment, so both are taken as plain arguments.
pub trait OnlyMultisig: Sized {
    /// The configured authority address.
    spec fn authority(&self) -> Address;

    /// Fails `InvalidTargetAddress` unless `address` is non-zero and the
    /// environment recognises it as a contract account
    /// (`address_is_contract` is the environment's answer).
    fn require_sc_address(&self, address: &Address, address_is_contract: bool) -> (r: Result<
        (),
        Error,
    >)
        ensures
            r is Ok <==> !address.is_zero() && address_is_contract,
            r is Err ==> r == Err::<(), Error>(Error::InvalidTargetAddress),
    ;

    /// Fails `Unauthorized` unless `caller` is the configured authority.
    fn require_multisig_caller(&self, caller: &Address) -> (r: Result<(), Error>)
        ensures
            r is Ok <==> *caller == self.authority(),
            r is Err ==> r == Err::<(), Error>(Error::Unauthorized),
    ;

    /// Read-only view of the configured authority address.
    fn multisig_address(&self) -> (r: Address)
        ensures
            r == self.authority(),
    ;
}

} // verus!
