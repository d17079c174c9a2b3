use vstd::prelude::*;

use crate::interning::{Address, AddressId};
use crate::only_multisig::OnlyMultisig;
use crate::storage::{opt_bytes, InteractionStatus, MultisigInteractionsStorage, DISABLED,
    ENABLED};
use crate::token::{egld_bytes, TokenId};

verus! {

/// One asset transfer accompanying a proposed call: an asset identifier and
/// a positive amount.
pub struct EsdtTokenPayment {
    pub token_identifier: TokenId,
    pub amount: u64,
}

/// The ordered list of asset transfers accompanying a proposed call.
pub type PaymentsVec = Vec<EsdtTokenPayment>;

/// The asset check of the decision procedure: a present policy `Some(t)`
/// allows a native-coin amount only if `t` is the native-coin sentinel and
/// allows only transfers of asset `t`; an absent policy allows no payment of
/// any kind.
pub open spec fn spec_token_allowed(
    opt: Option<Seq<u8>>,
    egld_value: u64,
    payments: Seq<EsdtTokenPayment>,
) -> bool {
    match opt {
        Some(t) => (egld_value > 0 ==> t == egld_bytes()) && (forall|i: int|
            0 <= i < payments.len() ==> (#[trigger] payments[i]).token_identifier@ == t),
        None => egld_value == 0 && payments.len() == 0,
    }
}

/// The access decision: allow exactly when the target is interned, the key
/// is enabled, the proposer passes the caller whitelist (an empty whitelist
/// is public), and the payments pass the asset policy. Unknown targets and
/// untouched keys are denied.
pub open spec fn spec_can_execute<T: MultisigInteractionsStorage>(
    s: T,
    proposer: Address,
    sc_address: Address,
    endpoint_name: Seq<u8>,
    egld_value: u64,
    payments: Seq<EsdtTokenPayment>,
) -> bool {
    let id = s.id_of(sc_address);
    &&& id != 0
    &&& s.status_of(id, endpoint_name) == ENABLED
    &&& (s.users(id, endpoint_name).len() == 0 || s.users(id, endpoint_name).contains(
        proposer,
    ))
    &&& spec_token_allowed(s.token_of(id, endpoint_name), egld_value, payments)
}

/// The permission state of every key except (id, name), the interning
/// table, the registry and the configured authority agree between `pre`
/// and `post`.
pub open spec fn same_except<T: MultisigInteractionsStorage + OnlyMultisig>(
    pre: T,
    post: T,
    id: int,
    name: Seq<u8>,
) -> bool {
    &&& post.authority() == pre.authority()
    &&& forall|b: Address| post.id_of(b) == pre.id_of(b)
    &&& post.interned() == pre.interned()
    &&& forall|a2: Address, n2: Seq<u8>| #[trigger] post.registered(a2, n2)
        == pre.registered(a2, n2)
    &&& post.interactions_count() == pre.interactions_count()
    &&& forall|id2: int, n2: Seq<u8>|
        !(id2 == id && n2 == name) ==> #[trigger] post.has_entry(id2, n2) == pre.has_entry(
            id2,
            n2,
        )
    &&& forall|id2: int, n2: Seq<u8>|
        !(id2 == id && n2 == name) ==> #[trigger] post.users(id2, n2) == pre.users(id2, n2)
    &&& forall|id2: int, n2: Seq<u8>|
        !(id2 == id && n2 == name) ==> #[trigger] post.token_of(id2, n2) == pre.token_of(
            id2,
            n2,
        )
    &&& forall|id2: int, n2: Seq<u8>|
        !(id2 == id && n2 == name) ==> #[trigger] post.status_of(id2, n2) == pre.status_of(
            id2,
            n2,
        )
}

/// The read-only views over the interaction stores: the access decision and
/// the per-key getters. All of them are open to any caller, never fail, and
/// fall back to deny / empty / absent for unknown keys.
pub trait MultisigInteractionsViews: MultisigInteractionsStorage + Sized {
    /// The access decision: pure, total, never fails. Returns exactly
    /// `spec_can_execute`.
    fn can_execute(
        &self,
        proposer: Address,
        sc_address: Address,
        endpoint_name: Vec<u8>,
        egld_value: u64,
        esdt_payments: PaymentsVec,
    ) -> (r: bool)
        requires
            self.wf(),
        ensures
            r == spec_can_execute(
                *self,
                proposer,
                sc_address,
                endpoint_name@,
                egld_value,
                esdt_payments@,
            ),
    ;

    /// The allowed callers of a key; empty both for a public interaction
    /// and for an unknown target (fail-closed, graceful default).
    fn get_allowed_users_for_interaction(
        &self,
        sc_address: Address,
        endpoint_name: Vec<u8>,
    ) -> (r: Vec<Address>)
        requires
            self.wf(),
        ensures
            self.id_of(sc_address) == 0 ==> r@ == Seq::<Address>::empty(),
            self.id_of(sc_address) != 0 ==> r@ == self.users(
                self.id_of(sc_address),
                endpoint_name@,
            ),
    ;

    /// The allowed-asset policy of a key; absent for an unknown target.
    fn get_allowed_token_for_interaction(
        &self,
        sc_address: Address,
        endpoint_name: Vec<u8>,
    ) -> (r: Option<TokenId>)
        requires
            self.wf(),
        ensures
            self.id_of(sc_address) == 0 ==> r is None,
            self.id_of(sc_address) != 0 ==> opt_bytes(r) == self.token_of(
                self.id_of(sc_address),
                endpoint_name@,
            ),
    ;

    /// The enabled/disabled switch of a key; `DISABLED` for an unknown
    /// target.
    fn get_interaction_status(&self, sc_address: Address, endpoint_name: Vec<u8>) -> (r:
        InteractionStatus)
        requires
            self.wf(),
        ensures
            r == (self.id_of(sc_address) != 0 && self.status_of(
                self.id_of(sc_address),
                endpoint_name@,
            ) == ENABLED),
    ;

    /// The asset check of the decision procedure, for an interned target.
    fn is_token_allowed(
        &self,
        sc_id: AddressId,
        endpoint_name: &Vec<u8>,
        egld_value: u64,
        esdt_payments: &PaymentsVec,
    ) -> (r: bool)
        requires
            self.wf(),
        ensures
            r == spec_token_allowed(
                self.token_of(sc_id as int, endpoint_name@),
                egld_value,
                esdt_payments@,
            ),
    ;
}

/// Law: the decision for a target that was never interned is always deny,
/// whatever the proposer, amount and transfers.
pub proof fn lemma_unregistered_target_denied<T: MultisigInteractionsStorage>(
    s: T,
    proposer: Address,
    sc_address: Address,
    endpoint_name: Seq<u8>,
    egld_value: u64,
    payments: Seq<EsdtTokenPayment>,
)
    requires
        s.id_of(sc_address) == 0,
    ensures
        !spec_can_execute(s, proposer, sc_address, endpoint_name, egld_value, payments),
{
}

/// Law: a disabled key is denied regardless of the caller and asset checks.
pub proof fn lemma_disabled_denied<T: MultisigInteractionsStorage>(
    s: T,
    proposer: Address,
    sc_address: Address,
    endpoint_name: Seq<u8>,
    egld_value: u64,
    payments: Seq<EsdtTokenPayment>,
)
    requires
        s.status_of(s.id_of(sc_address), endpoint_name) == DISABLED,
    ensures
        !spec_can_execute(s, proposer, sc_address, endpoint_name, egld_value, payments),
{
}

/// Law: with an empty allowed-callers list the verdict does not depend on
/// the proposer — any caller is permitted, subject to the asset policy.
pub proof fn lemma_empty_allowlist_is_public<T: MultisigInteractionsStorage>(
    s: T,
    proposer1: Address,
    proposer2: Address,
    sc_address: Address,
    endpoint_name: Seq<u8>,
    egld_value: u64,
    payments: Seq<EsdtTokenPayment>,
)
    requires
        s.users(s.id_of(sc_address), endpoint_name).len() == 0,
    ensures
        spec_can_execute(s, proposer1, sc_address, endpoint_name, egld_value, payments)
            == spec_can_execute(
            s,
            proposer2,
            sc_address,
            endpoint_name,
            egld_value,
            payments,
        ),
{
}

/// Law: a union step never shrinks the effective caller set. Whenever a
/// state change satisfies the union contract of `add_allowed_addresses` —
/// afterwards a caller is allowed exactly if it was allowed before or was
/// among the additions — every previously allowed caller and every added
/// address is in the resulting set. Chained over any sequence of union
/// calls, the set is a superset of every individually added address.
pub proof fn lemma_union_never_shrinks<T: MultisigInteractionsStorage>(
    pre: T,
    post: T,
    id: int,
    name: Seq<u8>,
    additions: Seq<Address>,
)
    requires
        forall|b: Address| #[trigger] post.users(id, name).contains(b) <==> pre.users(
            id,
            name,
        ).contains(b) || additions.contains(b),
    ensures
        forall|b: Address| pre.users(id, name).contains(b) ==> #[trigger] post.users(
            id,
            name,
        ).contains(b),
        forall|b: Address| additions.contains(b) ==> #[trigger] post.users(id, name).contains(
            b,
        ),
{
}

/// Law: the verdict depends only on the key's own permission state, so a
/// disable/enable round trip that restores the switch restores the verdict.
pub proof fn lemma_verdict_local<T: MultisigInteractionsStorage>(
    s1: T,
    s2: T,
    proposer: Address,
    sc_address: Address,
    endpoint_name: Seq<u8>,
    egld_value: u64,
    payments: Seq<EsdtTokenPayment>,
)
    requires
        s1.id_of(sc_address) == s2.id_of(sc_address),
        s1.status_of(s1.id_of(sc_address), endpoint_name) == s2.status_of(
            s2.id_of(sc_address),
            endpoint_name,
        ),
        s1.users(s1.id_of(sc_address), endpoint_name) == s2.users(
            s2.id_of(sc_address),
            endpoint_name,
        ),
        s1.token_of(s1.id_of(sc_address), endpoint_name) == s2.token_of(
            s2.id_of(sc_address),
            endpoint_name,
        ),
    ensures
        spec_can_execute(s1, proposer, sc_address, endpoint_name, egld_value, payments)
            == spec_can_execute(
            s2,
            proposer,
            sc_address,
            endpoint_name,
            egld_value,
            payments,
        ),
{
}

} // verus!
