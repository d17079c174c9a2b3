use vstd::prelude::*;

use crate::bytes::{bytes_eq, clone_bytes};
use crate::errors::Error;
use crate::interning::{Address, AddressId, AddressToIdMapper, NULL_ID};

verus! {

/// An interaction's enabled/disabled switch. A key whose switch was never
/// written is treated as disabled, so unregistered keys fail closed.
pub type InteractionStatus = bool;

pub const ENABLED: InteractionStatus = true;

pub const DISABLED: InteractionStatus = false;

/// A registered interaction: a target contract together with the name of
/// one of its endpoints.
pub struct Interaction {
    pub sc_address: Address,
    pub endpoint_name: Vec<u8>,
}

/// The per-key permission state: allowed callers, allowed payment asset,
/// and the enabled/disabled switch.
struct PermissionEntry {
    sc_id: AddressId,
    endpoint_name: Vec<u8>,
    allowed_users: Vec<Address>,
    allowed_token: Option<Vec<u8>>,
    status: InteractionStatus,
}

/// A sequence of addresses with no repeated member.
pub open spec fn no_dup_addresses(s: Seq<Address>) -> bool {
    forall|i: int, j: int| 0 <= i < j < s.len() ==> s[i] != s[j]
}

/// The mathematical content of an optional asset policy.
pub open spec fn opt_bytes(o: Option<Vec<u8>>) -> Option<Seq<u8>> {
    match o {
        Some(v) => Some(v@),
        None => None,
    }
}

spec fn entry_matches(e: PermissionEntry, id: int, name: Seq<u8>) -> bool {
    e.sc_id as int == id && e.endpoint_name@ == name
}

/// Appending to an address list adds exactly that one member.
pub proof fn lemma_push_contains(s: Seq<Address>, x: Address)
    ensures
        forall|b: Address| #[trigger] s.push(x).contains(b) <==> s.contains(b) || b == x,
{
    assert forall|b: Address| #[trigger] s.push(x).contains(b) <==> s.contains(b) || b
        == x by {
        if s.push(x).contains(b) {
            let i = choose|i: int| 0 <= i < s.push(x).len() && s.push(x)[i] == b;
            if i < s.len() {
                assert(s[i] == b);
            }
        }
        if s.contains(b) {
            let i = choose|i: int| 0 <= i < s.len() && s[i] == b;
            assert(s.push(x)[i] == b);
        }
        if b == x {
            assert(s.push(x)[s.len() as int] == b);
        }
    }
}

/// An exact copy of an address list.
fn clone_addresses(v: &Vec<Address>) -> (r: Vec<Address>)
    ensures
        r@ == v@,
{
    let n = v.len();
    let mut r: Vec<Address> = Vec::new();
    let mut k: usize = 0;
    while k < n
        invariant
            n == v@.len(),
            0 <= k <= n,
            r@ == v@.take(k as int),
        decreases n - k,
    {
        r.push(v[k]);
        proof {
            assert(r@ =~= v@.take(k as int + 1));
        }
        k += 1;
    }
    proof {
        assert(v@.take(n as int) =~= v@);
    }
    r
}

/// An exact copy of an optional asset identifier.
fn clone_opt_bytes(v: &Option<Vec<u8>>) -> (r: Option<Vec<u8>>)
    ensures
        opt_bytes(r) == opt_bytes(*v),
{
    match v {
        Some(b) => Some(clone_bytes(b)),
        None => None,
    }
}

/// Whether an address list holds a given member.
fn addr_vec_contains(v: &Vec<Address>, a: &Address) -> (r: bool)
    ensures
        r == v@.contains(*a),
{
    let n = v.len();
    let mut k: usize = 0;
    while k < n
        invariant
            n == v@.len(),
            0 <= k <= n,
            forall|j: int| 0 <= j < k ==> v@[j] != *a,
        decreases n - k,
    {
        if v[k] == *a {
            return true;
        }
        k += 1;
    }
    false
}

/// The storage model of the interactions module, as seen by contracts: the
/// interning table, the registry of every interaction ever added, and the
/// per-key permission state. Every key starts at the fail-closed defaults:
/// no allowed callers, no allowed asset, disabled.
pub trait MultisigInteractionsStorage {
    /// The addresses interned so far, in insertion order.
    spec fn interned(&self) -> Seq<Address>;

    /// The id bound to `address`, or 0 if never interned.
    spec fn id_of(&self, address: Address) -> int;

    /// Whether the pair (target, endpoint) was ever registered.
    spec fn registered(&self, target: Address, name: Seq<u8>) -> bool;

    /// How many distinct interactions were ever registered.
    spec fn interactions_count(&self) -> nat;

    /// Whether some mutation has created permission state for this key.
    spec fn has_entry(&self, id: int, name: Seq<u8>) -> bool;

    /// The allowed callers of a key; an empty list means "public".
    spec fn users(&self, id: int, name: Seq<u8>) -> Seq<Address>;

    /// The allowed-asset policy of a key; `None` means no payment at all.
    spec fn token_of(&self, id: int, name: Seq<u8>) -> Option<Seq<u8>>;

    /// The enabled/disabled switch of a key.
    spec fn status_of(&self, id: int, name: Seq<u8>) -> InteractionStatus;

    /// Well-formedness of the stores.
    spec fn wf(&self) -> bool;
}

/// The persistent state of the interactions module: the address interning
/// table, the registry of every interaction ever added, and the permission
/// state of each key that a mutation has touched.
pub struct InteractionStore {
    sc_address_to_id: AddressToIdMapper,
    all_interactions: Vec<Interaction>,
    entries: Vec<PermissionEntry>,
}

impl InteractionStore {
    /// The addresses interned so far, in insertion order.
    pub closed spec fn interned(self) -> Seq<Address> {
        self.sc_address_to_id.interned()
    }

    pub open spec fn interned_count(self) -> nat {
        self.interned().len()
    }

    /// The id bound to `address`, or 0 if never interned.
    pub closed spec fn id_of(self, address: Address) -> int {
        self.sc_address_to_id.spec_id(address)
    }

    /// Whether the pair (target, endpoint) was ever registered.
    pub closed spec fn registered(self, target: Address, name: Seq<u8>) -> bool {
        exists|k: int|
            0 <= k < self.all_interactions@.len()
                && (#[trigger] self.all_interactions@[k]).sc_address == target
                && self.all_interactions@[k].endpoint_name@ == name
    }

    /// How many distinct interactions were ever registered.
    pub closed spec fn interactions_count(self) -> nat {
        self.all_interactions@.len()
    }

    /// Whether some mutation has created permission state for this key.
    pub closed spec fn has_entry(self, id: int, name: Seq<u8>) -> bool {
        exists|k: int|
            0 <= k < self.entries@.len() && entry_matches(
                #[trigger] self.entries@[k],
                id,
                name,
            )
    }

    spec fn entry_index(self, id: int, name: Seq<u8>) -> int {
        choose|k: int|
            0 <= k < self.entries@.len() && entry_matches(
                #[trigger] self.entries@[k],
                id,
                name,
            )
    }

    /// The allowed callers of a key; empty when nothing was ever written,
    /// and an empty set means "any caller is permitted".
    pub closed spec fn users(self, id: int, name: Seq<u8>) -> Seq<Address> {
        if self.has_entry(id, name) {
            self.entries@[self.entry_index(id, name)].allowed_users@
        } else {
            Seq::empty()
        }
    }

    /// The allowed-asset policy of a key; `None` (also the default) means no
    /// payment of any kind may accompany the call.
    pub closed spec fn token_of(self, id: int, name: Seq<u8>) -> Option<Seq<u8>> {
        if self.has_entry(id, name) {
            opt_bytes(self.entries@[self.entry_index(id, name)].allowed_token)
        } else {
            None
        }
    }

    /// The enabled/disabled switch of a key; `DISABLED` when never written.
    pub closed spec fn status_of(self, id: int, name: Seq<u8>) -> InteractionStatus {
        if self.has_entry(id, name) {
            self.entries@[self.entry_index(id, name)].status
        } else {
            DISABLED
        }
    }

    spec fn registry_unique(self) -> bool {
        forall|i: int, j: int|
            0 <= i < j < self.all_interactions@.len() ==> !((
            #[trigger] self.all_interactions@[i]).sc_address == (
            #[trigger] self.all_interactions@[j]).sc_address
                && self.all_interactions@[i].endpoint_name@
                == self.all_interactions@[j].endpoint_name@)
    }

    spec fn entries_wf(self) -> bool {
        &&& forall|i: int, j: int|
            0 <= i < j < self.entries@.len() ==> !entry_matches(
                #[trigger] self.entries@[j],
                (#[trigger] self.entries@[i]).sc_id as int,
                self.entries@[i].endpoint_name@,
            )
        &&& forall|k: int|
            0 <= k < self.entries@.len() ==> no_dup_addresses(
                (#[trigger] self.entries@[k]).allowed_users@,
            )
    }

    /// Well-formedness: the interning table is sound, registered keys are
    /// pairwise distinct, permission state is keyed uniquely, and every
    /// allowed-callers list is duplicate-free.
    pub closed spec fn wf(self) -> bool {
        &&& self.sc_address_to_id.wf()
        &&& self.registry_unique()
        &&& self.entries_wf()
    }

    /// Every allowed-callers list is duplicate-free.
    pub proof fn lemma_users_no_dup(self, id: int, name: Seq<u8>)
        requires
            self.wf(),
        ensures
            no_dup_addresses(self.users(id, name)),
    {
        if self.has_entry(id, name) {
            let k = self.entry_index(id, name);
            assert(no_dup_addresses(self.entries@[k].allowed_users@));
        }
    }

    /// Two distinct addresses never share a non-zero id.
    pub proof fn lemma_ids_injective(self, a: Address, b: Address)
        requires
            self.wf(),
            self.id_of(a) == self.id_of(b),
            self.id_of(a) != 0,
        ensures
            a == b,
    {
        self.sc_address_to_id.lemma_ids_injective(a, b);
    }

    /// A key that no mutation ever touched carries the default permission
    /// state: no allowed callers, no allowed asset, disabled.
    pub proof fn lemma_no_entry_defaults(self, id: int, name: Seq<u8>)
        requires
            !self.has_entry(id, name),
        ensures
            self.users(id, name) == Seq::<Address>::empty(),
            self.token_of(id, name) is None,
            self.status_of(id, name) == DISABLED,
    {
    }

    /// The entry stored at index `k` is the unique one for its key.
    proof fn lemma_entry_at(self, k: int)
        requires
            self.entries_wf(),
            0 <= k < self.entries@.len(),
        ensures
            self.has_entry(self.entries@[k].sc_id as int, self.entries@[k].endpoint_name@),
            self.entry_index(self.entries@[k].sc_id as int, self.entries@[k].endpoint_name@)
                == k,
    {
        let id = self.entries@[k].sc_id as int;
        let name = self.entries@[k].endpoint_name@;
        assert(entry_matches(self.entries@[k], id, name));
        let k2 = self.entry_index(id, name);
        if k2 < k {
            assert(!entry_matches(self.entries@[k], self.entries@[k2].sc_id as int,
                self.entries@[k2].endpoint_name@));
        } else if k < k2 {
            assert(!entry_matches(self.entries@[k2], self.entries@[k].sc_id as int,
                self.entries@[k].endpoint_name@));
        }
    }

    /// Two states with the same permission entries agree on the whole
    /// permission model.
    proof fn lemma_entries_frame(pre: Self, post: Self)
        requires
            pre.entries_wf(),
            post.entries@ == pre.entries@,
        ensures
            post.entries_wf(),
            forall|id2: int, n2: Seq<u8>| #[trigger]
                post.has_entry(id2, n2) == pre.has_entry(id2, n2),
            forall|id2: int, n2: Seq<u8>| #[trigger] post.users(id2, n2) == pre.users(
                id2,
                n2,
            ),
            forall|id2: int, n2: Seq<u8>| #[trigger] post.token_of(id2, n2)
                == pre.token_of(id2, n2),
            forall|id2: int, n2: Seq<u8>| #[trigger] post.status_of(id2, n2)
                == pre.status_of(id2, n2),
    {
        assert forall|id2: int, n2: Seq<u8>|
            #![trigger post.has_entry(id2, n2)]
            #![trigger post.users(id2, n2)]
            #![trigger post.token_of(id2, n2)]
            #![trigger post.status_of(id2, n2)]
            post.has_entry(id2, n2) == pre.has_entry(id2, n2) && post.users(id2, n2)
            == pre.users(id2, n2) && post.token_of(id2, n2) == pre.token_of(id2, n2)
            && post.status_of(id2, n2) == pre.status_of(id2, n2) by {
            if pre.has_entry(id2, n2) {
                let m = pre.entry_index(id2, n2);
                pre.lemma_entry_at(m);
                assert(entry_matches(post.entries@[m], id2, n2));
                post.lemma_entry_at(m);
            } else {
                if post.has_entry(id2, n2) {
                    let m = post.entry_index(id2, n2);
                    assert(entry_matches(pre.entries@[m], id2, n2));
                }
            }
        }
    }

    /// Two states with the same registry agree on registration.
    proof fn lemma_registry_frame(pre: Self, post: Self)
        requires
            post.all_interactions@ == pre.all_interactions@,
        ensures
            forall|a: Address, n: Seq<u8>| #[trigger] post.registered(a, n)
                == pre.registered(a, n),
            post.interactions_count() == pre.interactions_count(),
            pre.registry_unique() ==> post.registry_unique(),
    {
        assert forall|a: Address, n: Seq<u8>| #[trigger] post.registered(a, n)
            == pre.registered(a, n) by {
            if pre.registered(a, n) {
                let k = choose|k: int|
                    0 <= k < pre.all_interactions@.len()
                        && (#[trigger] pre.all_interactions@[k]).sc_address == a
                        && pre.all_interactions@[k].endpoint_name@ == n;
                assert(post.all_interactions@[k].sc_address == a);
            }
            if post.registered(a, n) {
                let k = choose|k: int|
                    0 <= k < post.all_interactions@.len()
                        && (#[trigger] post.all_interactions@[k]).sc_address == a
                        && post.all_interactions@[k].endpoint_name@ == n;
                assert(pre.all_interactions@[k].sc_address == a);
            }
        }
    }

    /// Replacing the entry at index `k` by one with the same key changes the
    /// permission state of that key alone.
    proof fn lemma_entry_update(pre: Self, post: Self, k: int)
        requires
            pre.wf(),
            0 <= k < pre.entries@.len(),
            post.entries@ == pre.entries@.update(k, post.entries@[k]),
            post.entries@[k].sc_id == pre.entries@[k].sc_id,
            post.entries@[k].endpoint_name@ == pre.entries@[k].endpoint_name@,
            no_dup_addresses(post.entries@[k].allowed_users@),
            post.sc_address_to_id == pre.sc_address_to_id,
            post.all_interactions == pre.all_interactions,
        ensures
            post.wf(),
            post.has_entry(pre.entries@[k].sc_id as int, pre.entries@[k].endpoint_name@),
            post.users(pre.entries@[k].sc_id as int, pre.entries@[k].endpoint_name@)
                == post.entries@[k].allowed_users@,
            post.token_of(pre.entries@[k].sc_id as int, pre.entries@[k].endpoint_name@)
                == opt_bytes(post.entries@[k].allowed_token),
            post.status_of(pre.entries@[k].sc_id as int, pre.entries@[k].endpoint_name@)
                == post.entries@[k].status,
            forall|id2: int, n2: Seq<u8>|
                !(id2 == pre.entries@[k].sc_id as int && n2
                    == pre.entries@[k].endpoint_name@) ==> #[trigger] post.has_entry(id2, n2)
                    == pre.has_entry(id2, n2),
            forall|id2: int, n2: Seq<u8>|
                !(id2 == pre.entries@[k].sc_id as int && n2
                    == pre.entries@[k].endpoint_name@) ==> #[trigger] post.users(id2, n2)
                    == pre.users(id2, n2),
            forall|id2: int, n2: Seq<u8>|
                !(id2 == pre.entries@[k].sc_id as int && n2
                    == pre.entries@[k].endpoint_name@) ==> #[trigger] post.token_of(id2, n2)
                    == pre.token_of(id2, n2),
            forall|id2: int, n2: Seq<u8>|
                !(id2 == pre.entries@[k].sc_id as int && n2
                    == pre.entries@[k].endpoint_name@) ==> #[trigger] post.status_of(id2, n2)
                    == pre.status_of(id2, n2),
    {
        let id = pre.entries@[k].sc_id as int;
        let name = pre.entries@[k].endpoint_name@;
        assert(forall|m: int|
            0 <= m < post.entries@.len() && m != k ==> post.entries@[m] == pre.entries@[m]);
        assert forall|i: int, j: int|
            0 <= i < j < post.entries@.len() implies !entry_matches(
            #[trigger] post.entries@[j],
            (#[trigger] post.entries@[i]).sc_id as int,
            post.entries@[i].endpoint_name@,
        ) by {
            assert(post.entries@[i].sc_id == pre.entries@[i].sc_id);
            assert(post.entries@[i].endpoint_name@ == pre.entries@[i].endpoint_name@);
            assert(post.entries@[j].sc_id == pre.entries@[j].sc_id);
            assert(post.entries@[j].endpoint_name@ == pre.entries@[j].endpoint_name@);
            assert(!entry_matches(pre.entries@[j], pre.entries@[i].sc_id as int,
                pre.entries@[i].endpoint_name@));
        }
        assert(post.wf());
        pre.lemma_entry_at(k);
        post.lemma_entry_at(k);
        assert forall|id2: int, n2: Seq<u8>|
            #![trigger post.has_entry(id2, n2)]
            #![trigger post.users(id2, n2)]
            #![trigger post.token_of(id2, n2)]
            #![trigger post.status_of(id2, n2)]
            !(id2 == id && n2 == name) implies post.has_entry(id2, n2) == pre.has_entry(
            id2,
            n2,
        ) && post.users(id2, n2) == pre.users(id2, n2) && post.token_of(id2, n2)
            == pre.token_of(id2, n2) && post.status_of(id2, n2) == pre.status_of(
            id2,
            n2,
        ) by {
            if pre.has_entry(id2, n2) {
                let m = pre.entry_index(id2, n2);
                pre.lemma_entry_at(m);
                assert(m != k);
                assert(entry_matches(post.entries@[m], id2, n2));
                post.lemma_entry_at(m);
            } else {
                if post.has_entry(id2, n2) {
                    let m = post.entry_index(id2, n2);
                    assert(m != k);
                    assert(entry_matches(pre.entries@[m], id2, n2));
                }
            }
        }
    }

    /// Appending an entry for a fresh key adds that key's permission state
    /// and changes nothing else.
    proof fn lemma_entry_push(pre: Self, post: Self)
        requires
            pre.wf(),
            post.entries@.len() == pre.entries@.len() + 1,
            post.entries@ == pre.entries@.push(post.entries@[pre.entries@.len() as int]),
            !pre.has_entry(
                post.entries@[pre.entries@.len() as int].sc_id as int,
                post.entries@[pre.entries@.len() as int].endpoint_name@,
            ),
            no_dup_addresses(post.entries@[pre.entries@.len() as int].allowed_users@),
            post.sc_address_to_id == pre.sc_address_to_id,
            post.all_interactions == pre.all_interactions,
        ensures
            post.wf(),
            post.has_entry(
                post.entries@[pre.entries@.len() as int].sc_id as int,
                post.entries@[pre.entries@.len() as int].endpoint_name@,
            ),
            post.entry_index(
                post.entries@[pre.entries@.len() as int].sc_id as int,
                post.entries@[pre.entries@.len() as int].endpoint_name@,
            ) == pre.entries@.len() as int,
            post.users(
                post.entries@[pre.entries@.len() as int].sc_id as int,
                post.entries@[pre.entries@.len() as int].endpoint_name@,
            ) == post.entries@[pre.entries@.len() as int].allowed_users@,
            post.token_of(
                post.entries@[pre.entries@.len() as int].sc_id as int,
                post.entries@[pre.entries@.len() as int].endpoint_name@,
            ) == opt_bytes(post.entries@[pre.entries@.len() as int].allowed_token),
            post.status_of(
                post.entries@[pre.entries@.len() as int].sc_id as int,
                post.entries@[pre.entries@.len() as int].endpoint_name@,
            ) == post.entries@[pre.entries@.len() as int].status,
            forall|id2: int, n2: Seq<u8>|
                !(id2 == post.entries@[pre.entries@.len() as int].sc_id as int && n2
                    == post.entries@[pre.entries@.len() as int].endpoint_name@)
                    ==> #[trigger] post.has_entry(id2, n2) == pre.has_entry(id2, n2),
            forall|id2: int, n2: Seq<u8>|
                !(id2 == post.entries@[pre.entries@.len() as int].sc_id as int && n2
                    == post.entries@[pre.entries@.len() as int].endpoint_name@)
                    ==> #[trigger] post.users(id2, n2) == pre.users(id2, n2),
            forall|id2: int, n2: Seq<u8>|
                !(id2 == post.entries@[pre.entries@.len() as int].sc_id as int && n2
                    == post.entries@[pre.entries@.len() as int].endpoint_name@)
                    ==> #[trigger] post.token_of(id2, n2) == pre.token_of(id2, n2),
            forall|id2: int, n2: Seq<u8>|
                !(id2 == post.entries@[pre.entries@.len() as int].sc_id as int && n2
                    == post.entries@[pre.entries@.len() as int].endpoint_name@)
                    ==> #[trigger] post.status_of(id2, n2) == pre.status_of(id2, n2),
    {
        let n = pre.entries@.len() as int;
        let e = post.entries@[n];
        let id = e.sc_id as int;
        let name = e.endpoint_name@;
        assert(forall|m: int| 0 <= m < n ==> post.entries@[m] == pre.entries@[m]);
        assert forall|i: int, j: int|
            0 <= i < j < post.entries@.len() implies !entry_matches(
            #[trigger] post.entries@[j],
            (#[trigger] post.entries@[i]).sc_id as int,
            post.entries@[i].endpoint_name@,
        ) by {
            if j < n {
                assert(!entry_matches(pre.entries@[j], pre.entries@[i].sc_id as int,
                    pre.entries@[i].endpoint_name@));
            } else {
                assert(post.entries@[j] == e);
                if entry_matches(e, post.entries@[i].sc_id as int,
                    post.entries@[i].endpoint_name@) {
                    assert(entry_matches(pre.entries@[i], id, name));
                    assert(pre.has_entry(id, name));
                }
            }
        }
        assert(post.wf());
        assert(entry_matches(post.entries@[n], id, name));
        post.lemma_entry_at(n);
        assert forall|id2: int, n2: Seq<u8>|
            #![trigger post.has_entry(id2, n2)]
            #![trigger post.users(id2, n2)]
            #![trigger post.token_of(id2, n2)]
            #![trigger post.status_of(id2, n2)]
            !(id2 == id && n2 == name) implies post.has_entry(id2, n2) == pre.has_entry(
            id2,
            n2,
        ) && post.users(id2, n2) == pre.users(id2, n2) && post.token_of(id2, n2)
            == pre.token_of(id2, n2) && post.status_of(id2, n2) == pre.status_of(
            id2,
            n2,
        ) by {
            if pre.has_entry(id2, n2) {
                let m = pre.entry_index(id2, n2);
                pre.lemma_entry_at(m);
                assert(entry_matches(post.entries@[m], id2, n2));
                post.lemma_entry_at(m);
            } else {
                if post.has_entry(id2, n2) {
                    let m = post.entry_index(id2, n2);
                    assert(m != n);
                    assert(entry_matches(pre.entries@[m], id2, n2));
                }
            }
        }
    }

    /// An empty state: nothing interned, nothing registered, no permission
    /// state.
    pub fn new() -> (r: Self)
        ensures
            r.wf(),
            r.interned_count() == 0,
            forall|a: Address| r.id_of(a) == 0,
            r.interactions_count() == 0,
            forall|a: Address, n: Seq<u8>| !(#[trigger] r.registered(a, n)),
            forall|id: int, n: Seq<u8>| !(#[trigger] r.has_entry(id, n)),
    {
        let r = InteractionStore {
            sc_address_to_id: AddressToIdMapper::new(),
            all_interactions: Vec::new(),
            entries: Vec::new(),
        };
        r
    }

    /// Read-only target lookup; `NULL_ID` means never interned.
    pub fn get_id(&self, address: &Address) -> (id: AddressId)
        requires
            self.wf(),
        ensures
            id as int == self.id_of(*address),
    {
        self.sc_address_to_id.get_id(address)
    }

    /// Same lookup, but signals `NotRegistered` instead of returning zero.
    pub fn get_id_non_zero(&self, address: &Address) -> (r: Result<AddressId, Error>)
        requires
            self.wf(),
        ensures
            match r {
                Ok(id) => id != NULL_ID && id as int == self.id_of(*address),
                Err(e) => e == Error::NotRegistered && self.id_of(*address) == 0,
            },
    {
        self.sc_address_to_id.get_id_non_zero(address)
    }

    /// Interns the target if needed and returns its positive id. The id of
    /// every other address is unaffected, and an already-interned target
    /// keeps its id forever.
    pub fn get_id_or_insert(&mut self, address: &Address) -> (id: AddressId)
        requires
            old(self).wf(),
        ensures
            final(self).wf(),
            id != NULL_ID,
            id as int == final(self).id_of(*address),
            old(self).id_of(*address) != 0 ==> id as int == old(self).id_of(*address)
                && final(self).interned() == old(self).interned(),
            old(self).id_of(*address) == 0 ==> id as int == old(self).interned_count() + 1
                && final(self).interned() == old(self).interned().push(*address),
            forall|b: Address| b != *address ==> final(self).id_of(b) == old(self).id_of(b),
            forall|a2: Address, n2: Seq<u8>| #[trigger] final(self).registered(a2, n2)
                == old(self).registered(a2, n2),
            final(self).interactions_count() == old(self).interactions_count(),
            forall|id2: int, n2: Seq<u8>| #[trigger] final(self).has_entry(id2, n2) == old(self).has_entry(id2, n2),
            forall|id2: int, n2: Seq<u8>| #[trigger] final(self).users(id2, n2) == old(self).users(id2, n2),
            forall|id2: int, n2: Seq<u8>| #[trigger] final(self).token_of(id2, n2) == old(self).token_of(id2, n2),
            forall|id2: int, n2: Seq<u8>| #[trigger] final(self).status_of(id2, n2) == old(self).status_of(id2, n2),
    {
        let ghost pre = *self;
        let id = self.sc_address_to_id.get_id_or_insert(address);
        proof {
            Self::lemma_entries_frame(pre, *self);
            Self::lemma_registry_frame(pre, *self);
        }
        id
    }

    /// Whether the pair (target, endpoint) is already in the registry.
    pub fn contains_interaction(&self, sc_address: &Address, endpoint_name: &Vec<u8>) -> (r:
        bool)
        requires
            self.wf(),
        ensures
            r == self.registered(*sc_address, endpoint_name@),
    {
        let n = self.all_interactions.len();
        let mut k: usize = 0;
        while k < n
            invariant
                n == self.all_interactions@.len(),
                0 <= k <= n,
                forall|j: int|
                    0 <= j < k ==> !((#[trigger] self.all_interactions@[j]).sc_address
                        == *sc_address && self.all_interactions@[j].endpoint_name@
                        == endpoint_name@),
            decreases n - k,
        {
            if self.all_interactions[k].sc_address == *sc_address && bytes_eq(
                &self.all_interactions[k].endpoint_name,
                endpoint_name,
            ) {
                return true;
            }
            k += 1;
        }
        false
    }

    /// Unconditional registry insert; the mutation API confirms absence
    /// first, as one atomic step.
    pub fn insert_interaction(&mut self, interaction: Interaction)
        requires
            old(self).wf(),
            !old(self).registered(interaction.sc_address, interaction.endpoint_name@),
        ensures
            final(self).wf(),
            forall|a2: Address, n2: Seq<u8>| #[trigger] final(self).registered(a2, n2) == (
            old(self).registered(a2, n2) || (a2 == interaction.sc_address && n2
                == interaction.endpoint_name@)),
            final(self).interactions_count() == old(self).interactions_count() + 1,
            forall|b: Address| final(self).id_of(b) == old(self).id_of(b),
            final(self).interned() == old(self).interned(),
            forall|id2: int, n2: Seq<u8>| #[trigger] final(self).has_entry(id2, n2) == old(self).has_entry(id2, n2),
            forall|id2: int, n2: Seq<u8>| #[trigger] final(self).users(id2, n2) == old(self).users(id2, n2),
            forall|id2: int, n2: Seq<u8>| #[trigger] final(self).token_of(id2, n2) == old(self).token_of(id2, n2),
            forall|id2: int, n2: Seq<u8>| #[trigger] final(self).status_of(id2, n2) == old(self).status_of(id2, n2),
    {
        let ghost pre = *self;
        let ghost a = interaction.sc_address;
        let ghost nm = interaction.endpoint_name@;
        self.all_interactions.push(interaction);
        proof {
            Self::lemma_entries_frame(pre, *self);
            let n = pre.all_interactions@.len() as int;
            assert forall|i: int, j: int|
                0 <= i < j < self.all_interactions@.len() implies !((
            #[trigger] self.all_interactions@[i]).sc_address == (
            #[trigger] self.all_interactions@[j]).sc_address
                && self.all_interactions@[i].endpoint_name@
                == self.all_interactions@[j].endpoint_name@) by {
                if j < n {
                    assert(pre.all_interactions@[i] == self.all_interactions@[i]);
                    assert(pre.all_interactions@[j] == self.all_interactions@[j]);
                } else {
                    assert(self.all_interactions@[j].sc_address == a);
                    if self.all_interactions@[i].sc_address == a
                        && self.all_interactions@[i].endpoint_name@ == nm {
                        assert(pre.all_interactions@[i].sc_address == a);
                        assert(pre.registered(a, nm));
                    }
                }
            }
            assert forall|a2: Address, n2: Seq<u8>| #[trigger] self.registered(a2, n2) == (
            pre.registered(a2, n2) || (a2 == a && n2 == nm)) by {
                if pre.registered(a2, n2) {
                    let k = choose|k: int|
                        0 <= k < pre.all_interactions@.len()
                            && (#[trigger] pre.all_interactions@[k]).sc_address == a2
                            && pre.all_interactions@[k].endpoint_name@ == n2;
                    assert(self.all_interactions@[k].sc_address == a2);
                }
                if a2 == a && n2 == nm {
                    assert(self.all_interactions@[n].sc_address == a2);
                }
                if self.registered(a2, n2) {
                    let k = choose|k: int|
                        0 <= k < self.all_interactions@.len()
                            && (#[trigger] self.all_interactions@[k]).sc_address == a2
                            && self.all_interactions@[k].endpoint_name@ == n2;
                    if k < n {
                        assert(pre.all_interactions@[k].sc_address == a2);
                    }
                }
            }
        }
    }

    fn find_entry(&self, sc_id: AddressId, endpoint_name: &Vec<u8>) -> (r: Option<usize>)
        requires
            self.wf(),
        ensures
            match r {
                Some(k) => k < self.entries@.len() && entry_matches(
                    self.entries@[k as int],
                    sc_id as int,
                    endpoint_name@,
                ) && self.entry_index(sc_id as int, endpoint_name@) == k as int
                    && self.has_entry(sc_id as int, endpoint_name@),
                None => !self.has_entry(sc_id as int, endpoint_name@),
            },
    {
        let n = self.entries.len();
        let mut k: usize = 0;
        while k < n
            invariant
                n == self.entries@.len(),
                0 <= k <= n,
                self.wf(),
                forall|j: int|
                    0 <= j < k ==> !entry_matches(
                        #[trigger] self.entries@[j],
                        sc_id as int,
                        endpoint_name@,
                    ),
            decreases n - k,
        {
            if self.entries[k].sc_id == sc_id && bytes_eq(
                &self.entries[k].endpoint_name,
                endpoint_name,
            ) {
                proof {
                    self.lemma_entry_at(k as int);
                }
                return Some(k);
            }
            k += 1;
        }
        None
    }

    /// Finds the permission entry of a key, creating a default one (no
    /// callers, no asset, disabled) on first touch; the observable
    /// permission state of every key is unchanged.
    fn ensure_entry(&mut self, sc_id: AddressId, endpoint_name: &Vec<u8>) -> (k: usize)
        requires
            old(self).wf(),
        ensures
            final(self).wf(),
            k < final(self).entries@.len(),
            final(self).entries@[k as int].sc_id == sc_id,
            final(self).entries@[k as int].endpoint_name@ == endpoint_name@,
            final(self).entry_index(sc_id as int, endpoint_name@) == k as int,
            final(self).has_entry(sc_id as int, endpoint_name@),
            final(self).sc_address_to_id == old(self).sc_address_to_id,
            final(self).all_interactions == old(self).all_interactions,
            forall|id2: int, n2: Seq<u8>| #[trigger] final(self).users(id2, n2) == old(self).users(id2, n2),
            forall|id2: int, n2: Seq<u8>| #[trigger] final(self).token_of(id2, n2) == old(self).token_of(id2, n2),
            forall|id2: int, n2: Seq<u8>| #[trigger] final(self).status_of(id2, n2) == old(self).status_of(id2, n2),
            forall|id2: int, n2: Seq<u8>|
                !(id2 == sc_id as int && n2 == endpoint_name@) ==> #[trigger] final(self).has_entry(id2, n2) == old(self).has_entry(id2, n2),
    {
        match self.find_entry(sc_id, endpoint_name) {
            Some(k) => k,
            None => {
                proof {
                    old(self).lemma_no_entry_defaults(sc_id as int, endpoint_name@);
                }
                let e = PermissionEntry {
                    sc_id,
                    endpoint_name: clone_bytes(endpoint_name),
                    allowed_users: Vec::new(),
                    allowed_token: None,
                    status: DISABLED,
                };
                let ghost pre = *self;
                let k = self.entries.len();
                self.entries.push(e);
                proof {
                    Self::lemma_entry_push(pre, *self);
                }
                k
            },
        }
    }

    /// Reads a key's enabled/disabled switch.
    pub fn get_status(&self, sc_id: AddressId, endpoint_name: &Vec<u8>) -> (r:
        InteractionStatus)
        requires
            self.wf(),
        ensures
            r == self.status_of(sc_id as int, endpoint_name@),
    {
        match self.find_entry(sc_id, endpoint_name) {
            Some(k) => self.entries[k].status,
            None => DISABLED,
        }
    }

    /// Writes a key's enabled/disabled switch; nothing else changes.
    pub fn set_status(&mut self, sc_id: AddressId, endpoint_name: &Vec<u8>, status:
        InteractionStatus)
        requires
            old(self).wf(),
        ensures
            final(self).wf(),
            final(self).has_entry(sc_id as int, endpoint_name@),
            final(self).status_of(sc_id as int, endpoint_name@) == status,
            final(self).users(sc_id as int, endpoint_name@) == old(self).users(
                sc_id as int,
                endpoint_name@,
            ),
            final(self).token_of(sc_id as int, endpoint_name@) == old(self).token_of(
                sc_id as int,
                endpoint_name@,
            ),
            forall|b: Address| final(self).id_of(b) == old(self).id_of(b),
            final(self).interned() == old(self).interned(),
            forall|a2: Address, n2: Seq<u8>| #[trigger] final(self).registered(a2, n2)
                == old(self).registered(a2, n2),
            final(self).interactions_count() == old(self).interactions_count(),
            forall|id2: int, n2: Seq<u8>|
                !(id2 == sc_id as int && n2 == endpoint_name@) ==> #[trigger] final(self).has_entry(id2, n2) == old(self).has_entry(id2, n2),
            forall|id2: int, n2: Seq<u8>|
                !(id2 == sc_id as int && n2 == endpoint_name@) ==> #[trigger] final(self).users(id2, n2) == old(self).users(id2, n2),
            forall|id2: int, n2: Seq<u8>|
                !(id2 == sc_id as int && n2 == endpoint_name@) ==> #[trigger] final(self).token_of(id2, n2) == old(self).token_of(id2, n2),
            forall|id2: int, n2: Seq<u8>|
                !(id2 == sc_id as int && n2 == endpoint_name@) ==> #[trigger] final(self).status_of(id2, n2) == old(self).status_of(id2, n2),
    {
        let k = self.ensure_entry(sc_id, endpoint_name);
        let ghost mid = *self;
        self.entries[k].status = status;
        proof {
            assert(mid.users(sc_id as int, endpoint_name@) == old(self).users(
                sc_id as int,
                endpoint_name@,
            ));
            assert(mid.token_of(sc_id as int, endpoint_name@) == old(self).token_of(
                sc_id as int,
                endpoint_name@,
            ));
            Self::lemma_entry_update(mid, *self, k as int);
            Self::lemma_registry_frame(mid, *self);
        }
    }

    /// Reads a key's allowed-asset policy.
    pub fn get_token(&self, sc_id: AddressId, endpoint_name: &Vec<u8>) -> (r: Option<
        Vec<u8>,
    >)
        requires
            self.wf(),
        ensures
            opt_bytes(r) == self.token_of(sc_id as int, endpoint_name@),
    {
        match self.find_entry(sc_id, endpoint_name) {
            Some(k) => clone_opt_bytes(&self.entries[k].allowed_token),
            None => None,
        }
    }

    /// Replaces a key's allowed-asset policy wholesale; nothing else changes.
    pub fn set_token(&mut self, sc_id: AddressId, endpoint_name: &Vec<u8>, token: Option<
        Vec<u8>,
    >)
        requires
            old(self).wf(),
        ensures
            final(self).wf(),
            final(self).has_entry(sc_id as int, endpoint_name@),
            final(self).token_of(sc_id as int, endpoint_name@) == opt_bytes(token),
            final(self).users(sc_id as int, endpoint_name@) == old(self).users(
                sc_id as int,
                endpoint_name@,
            ),
            final(self).status_of(sc_id as int, endpoint_name@) == old(self).status_of(
                sc_id as int,
                endpoint_name@,
            ),
            forall|b: Address| final(self).id_of(b) == old(self).id_of(b),
            final(self).interned() == old(self).interned(),
            forall|a2: Address, n2: Seq<u8>| #[trigger] final(self).registered(a2, n2)
                == old(self).registered(a2, n2),
            final(self).interactions_count() == old(self).interactions_count(),
            forall|id2: int, n2: Seq<u8>|
                !(id2 == sc_id as int && n2 == endpoint_name@) ==> #[trigger] final(self).has_entry(id2, n2) == old(self).has_entry(id2, n2),
            forall|id2: int, n2: Seq<u8>|
                !(id2 == sc_id as int && n2 == endpoint_name@) ==> #[trigger] final(self).users(id2, n2) == old(self).users(id2, n2),
            forall|id2: int, n2: Seq<u8>|
                !(id2 == sc_id as int && n2 == endpoint_name@) ==> #[trigger] final(self).token_of(id2, n2) == old(self).token_of(id2, n2),
            forall|id2: int, n2: Seq<u8>|
                !(id2 == sc_id as int && n2 == endpoint_name@) ==> #[trigger] final(self).status_of(id2, n2) == old(self).status_of(id2, n2),
    {
        let k = self.ensure_entry(sc_id, endpoint_name);
        let ghost mid = *self;
        self.entries[k].allowed_token = token;
        proof {
            assert(mid.users(sc_id as int, endpoint_name@) == old(self).users(
                sc_id as int,
                endpoint_name@,
            ));
            assert(mid.status_of(sc_id as int, endpoint_name@) == old(self).status_of(
                sc_id as int,
                endpoint_name@,
            ));
            Self::lemma_entry_update(mid, *self, k as int);
            Self::lemma_registry_frame(mid, *self);
        }
    }

    /// Adds one allowed caller to a key if not already present; the list
    /// never shrinks and gains no duplicate.
    pub fn insert_user(&mut self, sc_id: AddressId, endpoint_name: &Vec<u8>, user: Address)
        requires
            old(self).wf(),
        ensures
            final(self).wf(),
            final(self).has_entry(sc_id as int, endpoint_name@),
            final(self).users(sc_id as int, endpoint_name@) == (if old(self).users(
                sc_id as int,
                endpoint_name@,
            ).contains(user) {
                old(self).users(sc_id as int, endpoint_name@)
            } else {
                old(self).users(sc_id as int, endpoint_name@).push(user)
            }),
            forall|b: Address| #[trigger] final(self).users(sc_id as int,
                endpoint_name@,
            ).contains(b) <==> old(self).users(sc_id as int, endpoint_name@).contains(b) || b
                == user,
            final(self).token_of(sc_id as int, endpoint_name@) == old(self).token_of(
                sc_id as int,
                endpoint_name@,
            ),
            final(self).status_of(sc_id as int, endpoint_name@) == old(self).status_of(
                sc_id as int,
                endpoint_name@,
            ),
            forall|b: Address| final(self).id_of(b) == old(self).id_of(b),
            final(self).interned() == old(self).interned(),
            forall|a2: Address, n2: Seq<u8>| #[trigger] final(self).registered(a2, n2)
                == old(self).registered(a2, n2),
            final(self).interactions_count() == old(self).interactions_count(),
            forall|id2: int, n2: Seq<u8>|
                !(id2 == sc_id as int && n2 == endpoint_name@) ==> #[trigger] final(self).has_entry(id2, n2) == old(self).has_entry(id2, n2),
            forall|id2: int, n2: Seq<u8>|
                !(id2 == sc_id as int && n2 == endpoint_name@) ==> #[trigger] final(self).users(id2, n2) == old(self).users(id2, n2),
            forall|id2: int, n2: Seq<u8>|
                !(id2 == sc_id as int && n2 == endpoint_name@) ==> #[trigger] final(self).token_of(id2, n2) == old(self).token_of(id2, n2),
            forall|id2: int, n2: Seq<u8>|
                !(id2 == sc_id as int && n2 == endpoint_name@) ==> #[trigger] final(self).status_of(id2, n2) == old(self).status_of(id2, n2),
    {
        let k = self.ensure_entry(sc_id, endpoint_name);
        proof {
            assert(self.users(sc_id as int, endpoint_name@) == old(self).users(
                sc_id as int,
                endpoint_name@,
            ));
            assert(self.token_of(sc_id as int, endpoint_name@) == old(self).token_of(
                sc_id as int,
                endpoint_name@,
            ));
            assert(self.status_of(sc_id as int, endpoint_name@) == old(self).status_of(
                sc_id as int,
                endpoint_name@,
            ));
        }
        let present = addr_vec_contains(&self.entries[k].allowed_users, &user);
        if !present {
            let ghost mid = *self;
            let ghost prior = mid.entries@[k as int].allowed_users@;
            self.entries[k].allowed_users.push(user);
            proof {
                assert(prior == old(self).users(sc_id as int, endpoint_name@));
                assert forall|i: int, j: int|
                    0 <= i < j < self.entries@[k as int].allowed_users@.len() implies
                    self.entries@[k as int].allowed_users@[i] != self.entries@[
                    k as int].allowed_users@[j] by {
                    if j < prior.len() {
                        assert(prior[i] != prior[j]);
                    } else {
                        assert(self.entries@[k as int].allowed_users@[j] == user);
                        assert(prior[i] == self.entries@[k as int].allowed_users@[i]);
                        if prior[i] == user {
                            assert(prior.contains(user));
                        }
                    }
                }
                Self::lemma_entry_update(mid, *self, k as int);
                Self::lemma_registry_frame(mid, *self);
                lemma_push_contains(prior, user);
            }
        } else {
            proof {
                lemma_push_contains(old(self).users(sc_id as int, endpoint_name@), user);
            }
        }
    }

    /// Empties a key's allowed-callers list; nothing else changes.
    pub fn clear_users(&mut self, sc_id: AddressId, endpoint_name: &Vec<u8>)
        requires
            old(self).wf(),
        ensures
            final(self).wf(),
            final(self).has_entry(sc_id as int, endpoint_name@),
            final(self).users(sc_id as int, endpoint_name@) == Seq::<Address>::empty(),
            final(self).token_of(sc_id as int, endpoint_name@) == old(self).token_of(
                sc_id as int,
                endpoint_name@,
            ),
            final(self).status_of(sc_id as int, endpoint_name@) == old(self).status_of(
                sc_id as int,
                endpoint_name@,
            ),
            forall|b: Address| final(self).id_of(b) == old(self).id_of(b),
            final(self).interned() == old(self).interned(),
            forall|a2: Address, n2: Seq<u8>| #[trigger] final(self).registered(a2, n2)
                == old(self).registered(a2, n2),
            final(self).interactions_count() == old(self).interactions_count(),
            forall|id2: int, n2: Seq<u8>|
                !(id2 == sc_id as int && n2 == endpoint_name@) ==> #[trigger] final(self).has_entry(id2, n2) == old(self).has_entry(id2, n2),
            forall|id2: int, n2: Seq<u8>|
                !(id2 == sc_id as int && n2 == endpoint_name@) ==> #[trigger] final(self).users(id2, n2) == old(self).users(id2, n2),
            forall|id2: int, n2: Seq<u8>|
                !(id2 == sc_id as int && n2 == endpoint_name@) ==> #[trigger] final(self).token_of(id2, n2) == old(self).token_of(id2, n2),
            forall|id2: int, n2: Seq<u8>|
                !(id2 == sc_id as int && n2 == endpoint_name@) ==> #[trigger] final(self).status_of(id2, n2) == old(self).status_of(id2, n2),
    {
        let k = self.ensure_entry(sc_id, endpoint_name);
        let ghost mid = *self;
        self.entries[k].allowed_users = Vec::new();
        proof {
            assert(mid.token_of(sc_id as int, endpoint_name@) == old(self).token_of(
                sc_id as int,
                endpoint_name@,
            ));
            assert(mid.status_of(sc_id as int, endpoint_name@) == old(self).status_of(
                sc_id as int,
                endpoint_name@,
            ));
            Self::lemma_entry_update(mid, *self, k as int);
            Self::lemma_registry_frame(mid, *self);
            assert(final(self).users(sc_id as int, endpoint_name@) =~= Seq::<
                Address,
            >::empty());
        }
    }

    /// Whether a key's allowed-callers list is empty (public interaction).
    pub fn users_is_empty(&self, sc_id: AddressId, endpoint_name: &Vec<u8>) -> (r: bool)
        requires
            self.wf(),
        ensures
            r == (self.users(sc_id as int, endpoint_name@).len() == 0),
    {
        match self.find_entry(sc_id, endpoint_name) {
            Some(k) => self.entries[k].allowed_users.len() == 0,
            None => true,
        }
    }

    /// Whether a key's allowed-callers list holds a given address.
    pub fn users_contains(&self, sc_id: AddressId, endpoint_name: &Vec<u8>, a: &Address) -> (
        r: bool)
        requires
            self.wf(),
        ensures
            r == self.users(sc_id as int, endpoint_name@).contains(*a),
    {
        match self.find_entry(sc_id, endpoint_name) {
            Some(k) => addr_vec_contains(&self.entries[k].allowed_users, a),
            None => false,
        }
    }

    /// A copy of a key's allowed-callers list.
    pub fn get_users(&self, sc_id: AddressId, endpoint_name: &Vec<u8>) -> (r: Vec<Address>)
        requires
            self.wf(),
        ensures
            r@ == self.users(sc_id as int, endpoint_name@),
    {
        match self.find_entry(sc_id, endpoint_name) {
            Some(k) => clone_addresses(&self.entries[k].allowed_users),
            None => Vec::new(),
        }
    }
}

} // verus!
