use vstd::prelude::*;

verus! {

/// The failure taxonomy of the mutation API.
///
/// Every mutating operation fails loudly with one of these and leaves the
/// state untouched; the decision engine and the read-only getters never fail.
#[derive(Clone, Copy, PartialEq, Eq, Structural, Debug)]
pub enum Error {
    /// A caller other than the configured authority attempted a mutation.
    Unauthorized,
    /// A zero or non-contract address was supplied where a contract address
    /// is required.
    InvalidTargetAddress,
    /// A malformed asset identifier was supplied.
    InvalidAsset,
    /// The interaction key is already present in the registry.
    AlreadyRegistered,
    /// A mutation was attempted on a target that was never interned.
    NotRegistered,
}

} // verus!
