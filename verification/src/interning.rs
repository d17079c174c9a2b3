use vstd::prelude::*;

use crate::errors::Error;

verus! {

/// A fixed-size account identifier (user or contract account).
#[derive(Clone, Copy, PartialEq, Eq, Structural, Debug)]
pub struct Address {
    pub value: u64,
}

impl Address {
    pub open spec fn is_zero(self) -> bool {
        self.value == 0
    }

    /// The reserved all-zero address.
    pub fn zero() -> (r: Address)
        ensures
            r.is_zero(),
    {
        Address { value: 0 }
    }
}

/// Compact positive integer handle for an interned address.
pub type AddressId = u64;

/// The reserved id meaning "not interned".
pub const NULL_ID: AddressId = 0;

/// The address interning table: assigns each address a compact positive id,
/// sequentially in insertion order. Ids are never reused or reassigned, and
/// `NULL_ID` (zero) is never bound to a real address.
pub struct AddressToIdMapper {
    addresses: Vec<Address>,
}

impl AddressToIdMapper {
    /// The addresses interned so far, in insertion order; the id of
    /// `interned()[i]` is `i + 1`.
    pub closed spec fn interned(self) -> Seq<Address> {
        self.addresses@
    }

    pub open spec fn interned_count(self) -> nat {
        self.interned().len()
    }

    /// The id bound to `address`, or 0 if `address` was never interned.
    pub closed spec fn spec_id(self, address: Address) -> int {
        if self.interned().contains(address) {
            (choose|i: int|
                0 <= i < self.interned().len() && self.interned()[i] == address) + 1
        } else {
            0
        }
    }

    /// No address is interned twice.
    pub closed spec fn wf(self) -> bool {
        forall|i: int, j: int|
            0 <= i < j < self.addresses@.len() ==> self.addresses@[i] != self.addresses@[j]
    }

    /// The id of the address stored at index `i` is exactly `i + 1`.
    proof fn lemma_index_gives_id(self, i: int)
        requires
            self.wf(),
            0 <= i < self.interned().len(),
        ensures
            self.spec_id(self.interned()[i]) == i + 1,
    {
        let a = self.interned()[i];
        assert(self.interned().contains(a));
        let j = choose|j: int| 0 <= j < self.interned().len() && self.interned()[j] == a;
        if j < i {
            assert(self.addresses@[j] != self.addresses@[i]);
        } else if i < j {
            assert(self.addresses@[i] != self.addresses@[j]);
        }
    }

    /// Ids are within `0 ..= interned_count()`, zero exactly for unknown
    /// addresses, and a non-zero id points back at its address.
    pub proof fn lemma_id_bounds(self, address: Address)
        requires
            self.wf(),
        ensures
            0 <= self.spec_id(address) <= self.interned_count(),
            self.spec_id(address) != 0 <==> self.interned().contains(address),
            self.spec_id(address) != 0 ==> self.interned()[self.spec_id(address) - 1]
                == address,
    {
        if self.interned().contains(address) {
            let i = choose|i: int|
                0 <= i < self.interned().len() && self.interned()[i] == address;
            assert(self.spec_id(address) == i + 1);
        }
    }

    /// Two distinct addresses never share a non-zero id.
    pub proof fn lemma_ids_injective(self, a: Address, b: Address)
        requires
            self.wf(),
            self.spec_id(a) == self.spec_id(b),
            self.spec_id(a) != 0,
        ensures
            a == b,
    {
        self.lemma_id_bounds(a);
        self.lemma_id_bounds(b);
        assert(a == self.interned()[self.spec_id(a) - 1]);
        assert(b == self.interned()[self.spec_id(b) - 1]);
    }

    pub fn new() -> (r: Self)
        ensures
            r.wf(),
            r.interned_count() == 0,
            forall|a: Address| r.spec_id(a) == 0,
    {
        let r = AddressToIdMapper { addresses: Vec::new() };
        proof {
            assert forall|a: Address| r.spec_id(a) == 0 by {
                assert(!r.interned().contains(a));
            }
        }
        r
    }

    /// Read-only lookup; returns `NULL_ID` if `address` was never interned.
    pub fn get_id(&self, address: &Address) -> (id: AddressId)
        requires
            self.wf(),
        ensures
            id as int == self.spec_id(*address),
    {
        let n = self.addresses.len();
        let mut k: usize = 0;
        while k < n
            invariant
                n == self.addresses@.len(),
                0 <= k <= n,
                self.wf(),
                forall|j: int| 0 <= j < k ==> self.addresses@[j] != *address,
            decreases n - k,
        {
            if self.addresses[k] == *address {
                proof {
                    self.lemma_index_gives_id(k as int);
                }
                return (k as u64) + 1;
            }
            k += 1;
        }
        proof {
            assert(!self.interned().contains(*address));
        }
        NULL_ID
    }

    /// Same lookup, but signals `NotRegistered` instead of returning zero.
    pub fn get_id_non_zero(&self, address: &Address) -> (r: Result<AddressId, Error>)
        requires
            self.wf(),
        ensures
            match r {
                Ok(id) => id != NULL_ID && id as int == self.spec_id(*address),
                Err(e) => e == Error::NotRegistered && self.spec_id(*address) == 0,
            },
    {
        let id = self.get_id(address);
        if id == NULL_ID {
            Err(Error::NotRegistered)
        } else {
            Ok(id)
        }
    }

    /// Interning an address never disturbs the id of any other address.
    proof fn lemma_push_preserves_ids(pre: Self, post: Self, a: Address)
        requires
            pre.wf(),
            !pre.interned().contains(a),
            post.interned() == pre.interned().push(a),
        ensures
            post.wf(),
            forall|b: Address| b != a ==> post.spec_id(b) == pre.spec_id(b),
            post.spec_id(a) == pre.interned_count() + 1,
    {
        let n = pre.interned().len() as int;
        assert forall|i: int, j: int|
            0 <= i < j < post.addresses@.len() implies post.addresses@[i]
            != post.addresses@[j] by {
            if j < n {
                assert(pre.addresses@[i] != pre.addresses@[j]);
            } else {
                assert(post.addresses@[j] == a);
                assert(pre.interned().contains(pre.interned()[i]));
            }
        }
        assert(post.interned()[n] == a);
        assert(post.interned().contains(a));
        post.lemma_index_gives_id(n);
        assert forall|b: Address| b != a implies post.spec_id(b) == pre.spec_id(b) by {
            if pre.interned().contains(b) {
                let i = choose|i: int| 0 <= i < n && pre.interned()[i] == b;
                assert(post.interned()[i] == b);
                pre.lemma_index_gives_id(i);
                post.lemma_index_gives_id(i);
            } else {
                if post.interned().contains(b) {
                    let i = choose|i: int|
                        0 <= i < post.interned().len() && post.interned()[i] == b;
                    assert(i < n ==> pre.interned().contains(b));
                    assert(i == n ==> b == a);
                }
            }
        }
    }

    /// Returns the existing id if present; otherwise allocates the next
    /// unused positive id and persists the binding. Idempotent.
    pub fn get_id_or_insert(&mut self, address: &Address) -> (id: AddressId)
        requires
            old(self).wf(),
        ensures
            final(self).wf(),
            id != NULL_ID,
            id as int == final(self).spec_id(*address),
            old(self).spec_id(*address) != 0 ==> *final(self) == *old(self) && id as int
                == old(self).spec_id(*address),
            old(self).spec_id(*address) == 0 ==> final(self).interned() == old(
                self,
            ).interned().push(*address) && id as int == old(self).interned_count() + 1,
            forall|b: Address| b != *address ==> final(self).spec_id(b) == old(
                self,
            ).spec_id(b),
    {
        let existing = self.get_id(address);
        if existing != NULL_ID {
            return existing;
        }
        proof {
            self.lemma_id_bounds(*address);
        }
        let ghost pre = *self;
        self.addresses.push(*address);
        proof {
            Self::lemma_push_preserves_ids(pre, *self, *address);
        }
        self.addresses.len() as u64
    }
}

} // verus!
