//! The device registry: per tenant, a mapping from caller-chosen alias
//! to an opaque public key, used for client-side key distribution.
//!
//! The registry is keyed by principal. A tenant entry appears on the
//! first registration; registering an alias twice overwrites its key
//! (an upsert, never an error); deleting an absent alias is a silent
//! no-op. Aliases are unique within one tenant, and no tenant is the
//! anonymous identity.

use vstd::prelude::*;
use vstd::pervasive::VecAdditionalExecFns;
use crate::principal::{Principal, is_anonymous_view};

verus! {

/// One registered device: a caller-chosen alias bound to an opaque
/// public key, stored verbatim and never interpreted.
pub struct DeviceEntry {
    pub alias: String,
    pub key: String,
}

/// The devices one tenant has registered, in registration order.
pub struct TenantDevices {
    owner: Principal,
    entries: Vec<DeviceEntry>,
}

impl TenantDevices {
    /// The aliases in registration order.
    pub closed spec fn aliases(self) -> Seq<Seq<char>> {
        self.entries@.map_values(|e: DeviceEntry| e.alias@)
    }

    pub closed spec fn has_alias(self, a: Seq<char>) -> bool {
        exists|i: int| 0 <= i < self.entries@.len() && self.entries@[i].alias@ == a
    }

    pub closed spec fn alias_index(self, a: Seq<char>) -> int {
        choose|i: int| 0 <= i < self.entries@.len() && self.entries@[i].alias@ == a
    }

    /// The key registered under an alias, if any.
    pub closed spec fn key_lookup(self, a: Seq<char>) -> Option<Seq<char>> {
        if self.has_alias(a) {
            Some(self.entries@[self.alias_index(a)].key@)
        } else {
            None
        }
    }

    /// The tenant is not anonymous and its aliases are pairwise distinct.
    pub closed spec fn wf(self) -> bool {
        &&& !is_anonymous_view(self.owner@)
        &&& forall|i: int, j: int|
            #![trigger self.entries@[i], self.entries@[j]]
            0 <= i < self.entries@.len() && 0 <= j < self.entries@.len() && i != j
                ==> self.entries@[i].alias@ != self.entries@[j].alias@
    }

    pub closed spec fn owner_view(self) -> Seq<u8> {
        self.owner@
    }

    proof fn lemma_alias_found(self, a: Seq<char>, i: int)
        requires
            self.wf(),
            0 <= i < self.entries@.len(),
            self.entries@[i].alias@ == a,
        ensures
            self.has_alias(a),
            self.alias_index(a) == i,
    {
        assert(self.has_alias(a));
        let j: int = self.alias_index(a);
        assert(0 <= j < self.entries@.len() && self.entries@[j].alias@ == a);
        if j != i {
            assert(self.entries@[i].alias@ != self.entries@[j].alias@);
            assert(false);
        }
    }

    fn find_alias(&self, alias: &String) -> (r: Option<usize>)
        requires
            self.wf(),
        ensures
            match r {
                Some(j) => j < self.entries@.len() && self.entries@[j as int].alias@ == alias@
                    && self.has_alias(alias@) && self.alias_index(alias@) == j,
                None => !self.has_alias(alias@),
            },
    {
        let n = self.entries.len();
        let mut j: usize = 0;
        while j < n
            invariant
                self.wf(),
                n == self.entries@.len(),
                j <= n,
                forall|k: int| 0 <= k < j ==> self.entries@[k].alias@ != alias@,
            decreases n - j,
        {
            if self.entries[j].alias == *alias {
                proof {
                    self.lemma_alias_found(alias@, j as int);
                }
                return Some(j);
            }
            j += 1;
        }
        proof {
            if self.has_alias(alias@) {
                let k: int = choose|k: int|
                    0 <= k < self.entries@.len() && self.entries@[k].alias@ == alias@;
                assert(self.entries@[k].alias@ != alias@);
            }
        }
        None
    }

    /// Insert or overwrite the (alias, key) pair.
    fn upsert(&mut self, alias: String, key: String)
        requires
            old(self).wf(),
        ensures
            final(self).wf(),
            final(self).owner_view() == old(self).owner_view(),
            final(self).key_lookup(alias@) == Some(key@),
            forall|a: Seq<char>| a != alias@
                ==> final(self).key_lookup(a) == old(self).key_lookup(a),
            final(self).aliases() == (if old(self).has_alias(alias@) {
                old(self).aliases()
            } else {
                old(self).aliases().push(alias@)
            }),
    {
        let found = self.find_alias(&alias);
        match found {
            Some(j) => {
                proof {
                    assert(old(self).entries@[j as int].alias@ == alias@);
                }
                self.entries.set(j, DeviceEntry { alias, key });
                proof {
                    let pre = *old(self);
                    let post = *self;
                    let ji: int = j as int;
                    assert(post.entries@ == pre.entries@.update(ji, post.entries@[ji]));
                    // aliases are pointwise unchanged
                    assert forall|i: int| 0 <= i < post.entries@.len()
                        implies #[trigger] post.entries@[i].alias@ == pre.entries@[i].alias@ by {
                        if i != ji {
                            assert(post.entries@[i] == pre.entries@[i]);
                        }
                    }
                    assert(post.wf());
                    assert(post.aliases() =~= pre.aliases());
                    post.lemma_alias_found(alias@, ji);
                    assert(post.key_lookup(alias@) == Some(key@));
                    assert forall|a: Seq<char>| a != alias@
                        implies post.key_lookup(a) == pre.key_lookup(a) by {
                        if pre.has_alias(a) {
                            let i0: int = pre.alias_index(a);
                            assert(0 <= i0 < pre.entries@.len()
                                && pre.entries@[i0].alias@ == a);
                            assert(i0 != ji);
                            post.lemma_alias_found(a, i0);
                            assert(post.entries@[i0] == pre.entries@[i0]);
                        } else {
                            if post.has_alias(a) {
                                let i1: int = choose|i1: int|
                                    0 <= i1 < post.entries@.len()
                                        && post.entries@[i1].alias@ == a;
                                assert(pre.entries@[i1].alias@ == a);
                                assert(pre.has_alias(a));
                            }
                        }
                    }
                }
            },
            None => {
                proof {
                    assert forall|i: int| 0 <= i < self.entries@.len()
                        implies #[trigger] self.entries@[i].alias@ != alias@ by {
                        if self.entries@[i].alias@ == alias@ {
                            assert(self.has_alias(alias@));
                        }
                    }
                }
                self.entries.push(DeviceEntry { alias, key });
                proof {
                    let pre = *old(self);
                    let post = *self;
                    let n: int = pre.entries@.len() as int;
                    assert(post.entries@ == pre.entries@.push(post.entries@[n]));
                    assert forall|i: int, j: int|
                        #![trigger post.entries@[i], post.entries@[j]]
                        0 <= i < post.entries@.len() && 0 <= j < post.entries@.len() && i != j
                        implies post.entries@[i].alias@ != post.entries@[j].alias@ by {
                        if i < n && j < n {
                            assert(post.entries@[i] == pre.entries@[i]);
                            assert(post.entries@[j] == pre.entries@[j]);
                        } else if i == n && j < n {
                            assert(post.entries@[j] == pre.entries@[j]);
                            assert(pre.entries@[j].alias@ != alias@);
                        } else if j == n && i < n {
                            assert(post.entries@[i] == pre.entries@[i]);
                            assert(pre.entries@[i].alias@ != alias@);
                        }
                    }
                    assert(post.wf());
                    assert(post.aliases() =~= pre.aliases().push(alias@));
                    post.lemma_alias_found(alias@, n);
                    assert(post.key_lookup(alias@) == Some(key@));
                    assert forall|a: Seq<char>| a != alias@
                        implies post.key_lookup(a) == pre.key_lookup(a) by {
                        if pre.has_alias(a) {
                            let i0: int = pre.alias_index(a);
                            assert(0 <= i0 < pre.entries@.len()
                                && pre.entries@[i0].alias@ == a);
                            assert(post.entries@[i0] == pre.entries@[i0]);
                            post.lemma_alias_found(a, i0);
                        } else {
                            if post.has_alias(a) {
                                let i1: int = choose|i1: int|
                                    0 <= i1 < post.entries@.len()
                                        && post.entries@[i1].alias@ == a;
                                assert(i1 != n);
                                assert(pre.entries@[i1].alias@ == a);
                                assert(pre.has_alias(a));
                            }
                        }
                    }
                }
            },
        }
    }

    /// Remove the entry under an alias; absent aliases are a no-op.
    fn remove_alias(&mut self, alias: &String)
        requires
            old(self).wf(),
        ensures
            final(self).wf(),
            final(self).owner_view() == old(self).owner_view(),
            final(self).key_lookup(alias@) == None::<Seq<char>>,
            forall|a: Seq<char>| a != alias@
                ==> final(self).key_lookup(a) == old(self).key_lookup(a),
            old(self).has_alias(alias@) ==> final(self).aliases()
                == old(self).aliases().remove(old(self).alias_index(alias@)),
            !old(self).has_alias(alias@) ==> final(self).aliases() == old(self).aliases(),
    {
        let found = self.find_alias(alias);
        match found {
            Some(j) => {
                self.entries.remove(j);
                proof {
                    let pre = *old(self);
                    let post = *self;
                    let ji: int = j as int;
                    assert(post.entries@ == pre.entries@.remove(ji));
                    pre.entries@.remove_ensures(ji);
                    assert forall|i: int, k: int|
                        #![trigger post.entries@[i], post.entries@[k]]
                        0 <= i < post.entries@.len() && 0 <= k < post.entries@.len() && i != k
                        implies post.entries@[i].alias@ != post.entries@[k].alias@ by {
                        let i0: int = if i < ji { i } else { i + 1 };
                        let k0: int = if k < ji { k } else { k + 1 };
                        assert(post.entries@[i] == pre.entries@[i0]);
                        assert(post.entries@[k] == pre.entries@[k0]);
                    }
                    assert(post.wf());
                    assert(post.aliases() =~= pre.aliases().remove(ji));
                    // the one entry under this alias is gone
                    assert forall|i: int| 0 <= i < post.entries@.len()
                        implies (#[trigger] post.entries@[i]).alias@ != alias@ by {
                        let i0: int = if i < ji { i } else { i + 1 };
                        assert(post.entries@[i] == pre.entries@[i0]);
                        if i0 != ji && pre.entries@[i0].alias@ == alias@ {
                            assert(pre.entries@[i0].alias@ != pre.entries@[ji].alias@);
                        }
                    }
                    if post.has_alias(alias@) {
                        let i1: int = choose|i1: int|
                            0 <= i1 < post.entries@.len() && post.entries@[i1].alias@ == alias@;
                        assert(false);
                    }
                    assert(post.key_lookup(alias@) == None::<Seq<char>>);
                    assert forall|a: Seq<char>| a != alias@
                        implies post.key_lookup(a) == pre.key_lookup(a) by {
                        if pre.has_alias(a) {
                            let i0: int = pre.alias_index(a);
                            assert(0 <= i0 < pre.entries@.len()
                                && pre.entries@[i0].alias@ == a);
                            assert(i0 != ji);
                            let i2: int = if i0 < ji { i0 } else { i0 - 1 };
                            assert(post.entries@[i2] == pre.entries@[i0]);
                            post.lemma_alias_found(a, i2);
                        } else {
                            if post.has_alias(a) {
                                let i1: int = choose|i1: int|
                                    0 <= i1 < post.entries@.len()
                                        && post.entries@[i1].alias@ == a;
                                let i0: int = if i1 < ji { i1 } else { i1 + 1 };
                                assert(post.entries@[i1] == pre.entries@[i0]);
                                assert(pre.has_alias(a));
                            }
                        }
                    }
                }
            },
            None => {
            },
        }
    }

    /// The aliases, cloned, in registration order.
    fn alias_list(&self) -> (r: Vec<String>)
        ensures
            r@.len() == self.aliases().len(),
            forall|i: int| 0 <= i < r@.len() ==> r@[i]@ == self.aliases()[i],
    {
        let n = self.entries.len();
        let mut r: Vec<String> = Vec::new();
        let mut i: usize = 0;
        while i < n
            invariant
                n == self.entries@.len(),
                i <= n,
                r@.len() == i,
                forall|k: int| 0 <= k < i ==> r@[k]@ == self.aliases()[k],
            decreases n - i,
        {
            r.push(self.entries[i].alias.clone());
            i += 1;
        }
        r
    }
}

/// The device registry for all tenants, keyed by principal.
pub struct Devices {
    tenants: Vec<TenantDevices>,
}

impl Devices {
    /// Every tenant is well formed and no principal owns two tenant slots.
    pub closed spec fn wf(self) -> bool {
        &&& forall|i: int| 0 <= i < self.tenants@.len() ==> (#[trigger] self.tenants@[i]).wf()
        &&& forall|i: int, j: int|
            #![trigger self.tenants@[i], self.tenants@[j]]
            0 <= i < self.tenants@.len() && 0 <= j < self.tenants@.len() && i != j
                ==> self.tenants@[i].owner_view() != self.tenants@[j].owner_view()
    }

    /// Whether a principal has any device entry.
    pub closed spec fn registered(self, p: Seq<u8>) -> bool {
        exists|i: int| 0 <= i < self.tenants@.len() && (#[trigger] self.tenants@[i]).owner_view() == p
    }

    pub closed spec fn tenant_index(self, p: Seq<u8>) -> int {
        choose|i: int| 0 <= i < self.tenants@.len() && (#[trigger] self.tenants@[i]).owner_view() == p
    }

    /// A tenant's aliases in registration order; empty for an unknown owner.
    pub closed spec fn aliases_of(self, p: Seq<u8>) -> Seq<Seq<char>> {
        if self.registered(p) {
            self.tenants@[self.tenant_index(p)].aliases()
        } else {
            Seq::empty()
        }
    }

    /// The key a tenant registered under an alias, if any.
    pub closed spec fn device_key(self, p: Seq<u8>, a: Seq<char>) -> Option<Seq<char>> {
        if self.registered(p) {
            self.tenants@[self.tenant_index(p)].key_lookup(a)
        } else {
            None
        }
    }

    /// An empty registry.
    pub fn new() -> (d: Devices)
        ensures
            d.wf(),
            forall|p: Seq<u8>| !(#[trigger] d.registered(p)),
            forall|p: Seq<u8>| #[trigger] d.aliases_of(p) == Seq::<Seq<char>>::empty(),
            forall|p: Seq<u8>, a: Seq<char>| #[trigger] d.device_key(p, a) == None::<Seq<char>>,
    {
        let d = Devices { tenants: Vec::new() };
        proof {
            assert forall|p: Seq<u8>| !(#[trigger] d.registered(p)) by {
                if d.registered(p) {
                    let i: int = choose|i: int|
                        0 <= i < d.tenants@.len() && d.tenants@[i].owner_view() == p;
                    assert(false);
                }
            }
        }
        d
    }

    proof fn lemma_owner_found(self, p: Seq<u8>, i: int)
        requires
            self.wf(),
            0 <= i < self.tenants@.len(),
            self.tenants@[i].owner_view() == p,
        ensures
            self.registered(p),
            self.tenant_index(p) == i,
    {
        assert(self.registered(p));
        let j: int = self.tenant_index(p);
        assert(0 <= j < self.tenants@.len() && self.tenants@[j].owner_view() == p);
        if j != i {
            assert(self.tenants@[i].owner_view() != self.tenants@[j].owner_view());
            assert(false);
        }
    }

    fn find_owner(&self, p: &Principal) -> (r: Option<usize>)
        requires
            self.wf(),
        ensures
            match r {
                Some(i) => i < self.tenants@.len()
                    && self.tenants@[i as int].owner_view() == p@
                    && self.registered(p@) && self.tenant_index(p@) == i,
                None => !self.registered(p@),
            },
    {
        let n = self.tenants.len();
        let mut i: usize = 0;
        while i < n
            invariant
                self.wf(),
                n == self.tenants@.len(),
                i <= n,
                forall|k: int| 0 <= k < i ==> (#[trigger] self.tenants@[k]).owner_view() != p@,
            decreases n - i,
        {
            if self.tenants[i].owner.same_as(p) {
                proof {
                    self.lemma_owner_found(p@, i as int);
                }
                return Some(i);
            }
            i += 1;
        }
        proof {
            if self.registered(p@) {
                let k: int = choose|k: int|
                    0 <= k < self.tenants@.len() && (#[trigger] self.tenants@[k]).owner_view() == p@;
                assert(self.tenants@[k].owner_view() != p@);
            }
        }
        None
    }

    /// Whether a principal has any device entry.
    pub fn is_registered(&self, p: &Principal) -> (r: bool)
        requires
            self.wf(),
        ensures
            r == self.registered(p@),
    {
        match self.find_owner(p) {
            Some(_) => true,
            None => false,
        }
    }

    /// One tenant slot changed in place, same owner: everything another
    /// principal can observe is unchanged.
    proof fn lemma_update_one(pre: Devices, post: Devices, i: int)
        requires
            pre.wf(),
            0 <= i < pre.tenants@.len(),
            post.tenants@.len() == pre.tenants@.len(),
            forall|k: int| 0 <= k < pre.tenants@.len() && k != i
                ==> post.tenants@[k] == pre.tenants@[k],
            post.tenants@[i].owner_view() == pre.tenants@[i].owner_view(),
            post.tenants@[i].wf(),
        ensures
            post.wf(),
            pre.registered(pre.tenants@[i].owner_view()),
            post.registered(pre.tenants@[i].owner_view()),
            pre.tenant_index(pre.tenants@[i].owner_view()) == i,
            post.tenant_index(pre.tenants@[i].owner_view()) == i,
            forall|q: Seq<u8>| q != pre.tenants@[i].owner_view()
                ==> post.registered(q) == pre.registered(q),
            forall|q: Seq<u8>| q != pre.tenants@[i].owner_view()
                ==> post.aliases_of(q) == pre.aliases_of(q),
            forall|q: Seq<u8>, a: Seq<char>| q != pre.tenants@[i].owner_view()
                ==> post.device_key(q, a) == pre.device_key(q, a),
    {
        let p0 = pre.tenants@[i].owner_view();
        assert forall|k: int| 0 <= k < post.tenants@.len()
            implies (#[trigger] post.tenants@[k]).owner_view() == pre.tenants@[k].owner_view()
                && post.tenants@[k].wf() by {
            if k != i {
                assert(post.tenants@[k] == pre.tenants@[k]);
            }
        }
        assert(post.wf());
        pre.lemma_owner_found(p0, i);
        post.lemma_owner_found(p0, i);
        assert forall|q: Seq<u8>| q != p0
            implies post.registered(q) == pre.registered(q) by {
            if pre.registered(q) {
                let k: int = choose|k: int|
                    0 <= k < pre.tenants@.len() && (#[trigger] pre.tenants@[k]).owner_view() == q;
                assert(post.tenants@[k].owner_view() == q);
                assert(post.registered(q));
            }
            if post.registered(q) {
                let k: int = choose|k: int|
                    0 <= k < post.tenants@.len() && (#[trigger] post.tenants@[k]).owner_view() == q;
                assert(pre.tenants@[k].owner_view() == q);
                assert(pre.registered(q));
            }
        }
        assert forall|q: Seq<u8>| q != p0
            implies post.aliases_of(q) == pre.aliases_of(q) by {
            if pre.registered(q) {
                let k: int = pre.tenant_index(q);
                assert(0 <= k < pre.tenants@.len() && pre.tenants@[k].owner_view() == q);
                assert(k != i);
                assert(post.tenants@[k] == pre.tenants@[k]);
                post.lemma_owner_found(q, k);
            }
        }
        assert forall|q: Seq<u8>, a: Seq<char>| q != p0
            implies post.device_key(q, a) == pre.device_key(q, a) by {
            if pre.registered(q) {
                let k: int = pre.tenant_index(q);
                assert(0 <= k < pre.tenants@.len() && pre.tenants@[k].owner_view() == q);
                assert(k != i);
                assert(post.tenants@[k] == pre.tenants@[k]);
                post.lemma_owner_found(q, k);
            }
        }
    }

    /// A tenant slot appended for a fresh owner: everything another
    /// principal can observe is unchanged.
    proof fn lemma_push_one(pre: Devices, post: Devices)
        requires
            pre.wf(),
            post.tenants@.len() == pre.tenants@.len() + 1,
            forall|k: int| 0 <= k < pre.tenants@.len()
                ==> post.tenants@[k] == pre.tenants@[k],
            post.tenants@[pre.tenants@.len() as int].wf(),
            !pre.registered(post.tenants@[pre.tenants@.len() as int].owner_view()),
        ensures
            post.wf(),
            post.registered(post.tenants@[pre.tenants@.len() as int].owner_view()),
            post.tenant_index(post.tenants@[pre.tenants@.len() as int].owner_view())
                == pre.tenants@.len(),
            forall|q: Seq<u8>| q != post.tenants@[pre.tenants@.len() as int].owner_view()
                ==> post.registered(q) == pre.registered(q),
            forall|q: Seq<u8>| q != post.tenants@[pre.tenants@.len() as int].owner_view()
                ==> post.aliases_of(q) == pre.aliases_of(q),
            forall|q: Seq<u8>, a: Seq<char>|
                q != post.tenants@[pre.tenants@.len() as int].owner_view()
                    ==> post.device_key(q, a) == pre.device_key(q, a),
    {
        let n: int = pre.tenants@.len() as int;
        let p0 = post.tenants@[n].owner_view();
        assert forall|k: int| 0 <= k < n
            implies (#[trigger] pre.tenants@[k]).owner_view() != p0 by {
            if pre.tenants@[k].owner_view() == p0 {
                assert(pre.registered(p0));
            }
        }
        assert forall|i: int, j: int|
            #![trigger post.tenants@[i], post.tenants@[j]]
            0 <= i < post.tenants@.len() && 0 <= j < post.tenants@.len() && i != j
            implies post.tenants@[i].owner_view() != post.tenants@[j].owner_view() by {
            if i < n && j < n {
                assert(post.tenants@[i] == pre.tenants@[i]);
                assert(post.tenants@[j] == pre.tenants@[j]);
            } else if i == n && j < n {
                assert(post.tenants@[j] == pre.tenants@[j]);
            } else if j == n && i < n {
                assert(post.tenants@[i] == pre.tenants@[i]);
            }
        }
        assert forall|k: int| 0 <= k < post.tenants@.len()
            implies (#[trigger] post.tenants@[k]).wf() by {
            if k < n {
                assert(post.tenants@[k] == pre.tenants@[k]);
            }
        }
        assert(post.wf());
        post.lemma_owner_found(p0, n);
        assert forall|q: Seq<u8>| q != p0
            implies post.registered(q) == pre.registered(q) by {
            if pre.registered(q) {
                let k: int = choose|k: int|
                    0 <= k < pre.tenants@.len() && (#[trigger] pre.tenants@[k]).owner_view() == q;
                assert(post.tenants@[k].owner_view() == q);
                assert(post.registered(q));
            }
            if post.registered(q) {
                let k: int = choose|k: int|
                    0 <= k < post.tenants@.len() && (#[trigger] post.tenants@[k]).owner_view() == q;
                assert(k != n);
                assert(pre.tenants@[k].owner_view() == q);
                assert(pre.registered(q));
            }
        }
        assert forall|q: Seq<u8>| q != p0
            implies post.aliases_of(q) == pre.aliases_of(q) by {
            if pre.registered(q) {
                let k: int = pre.tenant_index(q);
                assert(0 <= k < pre.tenants@.len() && pre.tenants@[k].owner_view() == q);
                assert(post.tenants@[k] == pre.tenants@[k]);
                post.lemma_owner_found(q, k);
            }
        }
        assert forall|q: Seq<u8>, a: Seq<char>| q != p0
            implies post.device_key(q, a) == pre.device_key(q, a) by {
            if pre.registered(q) {
                let k: int = pre.tenant_index(q);
                assert(0 <= k < pre.tenants@.len() && pre.tenants@[k].owner_view() == q);
                assert(post.tenants@[k] == pre.tenants@[k]);
                post.lemma_owner_found(q, k);
            }
        }
    }

    /// In a well-formed registry, the aliases one owner holds are
    /// pairwise distinct.
    pub proof fn lemma_aliases_unique(self, p: Seq<u8>)
        requires
            self.wf(),
        ensures
            forall|i: int, j: int|
                #![trigger self.aliases_of(p)[i], self.aliases_of(p)[j]]
                0 <= i < self.aliases_of(p).len() && 0 <= j < self.aliases_of(p).len() && i != j
                    ==> self.aliases_of(p)[i] != self.aliases_of(p)[j],
    {
        if self.registered(p) {
            let k: int = self.tenant_index(p);
            assert(0 <= k < self.tenants@.len() && self.tenants@[k].owner_view() == p);
            let t = self.tenants@[k];
            assert(t.wf());
            assert forall|i: int, j: int|
                #![trigger self.aliases_of(p)[i], self.aliases_of(p)[j]]
                0 <= i < self.aliases_of(p).len() && 0 <= j < self.aliases_of(p).len() && i != j
                implies self.aliases_of(p)[i] != self.aliases_of(p)[j] by {
                assert(self.aliases_of(p)[i] == t.entries@[i].alias@);
                assert(self.aliases_of(p)[j] == t.entries@[j].alias@);
                assert(t.entries@[i].alias@ != t.entries@[j].alias@);
            }
        }
    }

    /// Insert or overwrite the (alias, key) pair for an owner; the
    /// owner's tenant entry appears on its first registration.
    pub fn register_device(&mut self, owner: &Principal, alias: String, key: String)
        requires
            old(self).wf(),
            !is_anonymous_view(owner@),
        ensures
            final(self).wf(),
            final(self).registered(owner@),
            final(self).device_key(owner@, alias@) == Some(key@),
            forall|a: Seq<char>| a != alias@
                ==> final(self).device_key(owner@, a) == old(self).device_key(owner@, a),
            final(self).aliases_of(owner@)
                == (if old(self).device_key(owner@, alias@) is Some {
                    old(self).aliases_of(owner@)
                } else {
                    old(self).aliases_of(owner@).push(alias@)
                }),
            forall|q: Seq<u8>| q != owner@
                ==> final(self).registered(q) == old(self).registered(q),
            forall|q: Seq<u8>| q != owner@
                ==> final(self).aliases_of(q) == old(self).aliases_of(q),
            forall|q: Seq<u8>, a: Seq<char>| q != owner@
                ==> final(self).device_key(q, a) == old(self).device_key(q, a),
    {
        let found = self.find_owner(owner);
        match found {
            Some(i) => {
                let ghost alias_view = alias@;
                let mut t = self.tenants.remove(i);
                let ghost t_pre = t;
                t.upsert(alias, key);
                let ghost t_post = t;
                self.tenants.insert(i, t);
                proof {
                    let pre = *old(self);
                    let post = *self;
                    let ii: int = i as int;
                    assert(post.tenants@ =~= pre.tenants@.update(ii, t_post));
                    assert(t_pre == pre.tenants@[ii]);
                    Self::lemma_update_one(pre, post, ii);
                    assert(post.device_key(owner@, alias_view)
                        == t_post.key_lookup(alias_view));
                    assert(pre.aliases_of(owner@) == t_pre.aliases());
                    assert(pre.device_key(owner@, alias_view)
                        == t_pre.key_lookup(alias_view));
                    assert(post.aliases_of(owner@) == t_post.aliases());
                    assert(t_pre.has_alias(alias_view)
                        <==> t_pre.key_lookup(alias_view) is Some);
                    assert forall|a: Seq<char>| a != alias_view
                        implies post.device_key(owner@, a) == pre.device_key(owner@, a) by {
                        assert(post.device_key(owner@, a) == t_post.key_lookup(a));
                        assert(pre.device_key(owner@, a) == t_pre.key_lookup(a));
                    }
                }
            },
            None => {
                let ghost alias_view = alias@;
                let mut entries: Vec<DeviceEntry> = Vec::new();
                entries.push(DeviceEntry { alias, key });
                let t = TenantDevices { owner: owner.clone(), entries };
                let ghost t_new = t;
                self.tenants.push(t);
                proof {
                    let pre = *old(self);
                    let post = *self;
                    let n: int = pre.tenants@.len() as int;
                    assert(post.tenants@ =~= pre.tenants@.push(t_new));
                    assert(t_new.owner_view() == owner@);
                    assert(t_new.wf());
                    Self::lemma_push_one(pre, post);
                    t_new.lemma_alias_found(alias_view, 0);
                    assert(post.device_key(owner@, alias_view) == t_new.key_lookup(alias_view));
                    assert(t_new.key_lookup(alias_view) == Some(t_new.entries@[0].key@));
                    assert(post.aliases_of(owner@) == t_new.aliases());
                    assert(t_new.aliases() =~= Seq::<Seq<char>>::empty().push(alias_view));
                    assert(pre.aliases_of(owner@) == Seq::<Seq<char>>::empty());
                    assert(pre.device_key(owner@, alias_view) is None);
                    assert forall|a: Seq<char>| a != alias_view
                        implies post.device_key(owner@, a) == pre.device_key(owner@, a) by {
                        assert(post.device_key(owner@, a) == t_new.key_lookup(a));
                        if t_new.has_alias(a) {
                            let i1: int = choose|i1: int|
                                0 <= i1 < t_new.entries@.len() && t_new.entries@[i1].alias@ == a;
                            assert(i1 == 0);
                            assert(false);
                        }
                        assert(t_new.key_lookup(a) is None);
                        assert(pre.device_key(owner@, a) is None);
                    }
                }
            },
        }
    }

    /// A tenant's aliases in registration order; empty for an unknown owner.
    pub fn get_device_aliases(&self, owner: &Principal) -> (r: Vec<String>)
        requires
            self.wf(),
        ensures
            r@.len() == self.aliases_of(owner@).len(),
            forall|i: int| 0 <= i < r@.len() ==> r@[i]@ == self.aliases_of(owner@)[i],
    {
        match self.find_owner(owner) {
            Some(i) => {
                let r = self.tenants[i].alias_list();
                proof {
                    assert(self.aliases_of(owner@) == self.tenants@[i as int].aliases());
                }
                r
            },
            None => {
                Vec::new()
            },
        }
    }

    /// Remove the entry under an alias for an owner; deleting an absent
    /// alias, or for an unknown owner, is a silent no-op.
    pub fn delete_device(&mut self, owner: &Principal, alias: &String)
        requires
            old(self).wf(),
        ensures
            final(self).wf(),
            final(self).registered(owner@) == old(self).registered(owner@),
            final(self).device_key(owner@, alias@) == None::<Seq<char>>,
            forall|a: Seq<char>| a != alias@
                ==> final(self).device_key(owner@, a) == old(self).device_key(owner@, a),
            old(self).device_key(owner@, alias@) is Some ==> exists|i: int|
                0 <= i < old(self).aliases_of(owner@).len()
                    && old(self).aliases_of(owner@)[i] == alias@
                    && final(self).aliases_of(owner@)
                        == old(self).aliases_of(owner@).remove(i),
            old(self).device_key(owner@, alias@) is None
                ==> final(self).aliases_of(owner@) == old(self).aliases_of(owner@),
            forall|q: Seq<u8>| q != owner@
                ==> final(self).registered(q) == old(self).registered(q),
            forall|q: Seq<u8>| q != owner@
                ==> final(self).aliases_of(q) == old(self).aliases_of(q),
            forall|q: Seq<u8>, a: Seq<char>| q != owner@
                ==> final(self).device_key(q, a) == old(self).device_key(q, a),
    {
        let found = self.find_owner(owner);
        match found {
            Some(i) => {
                let mut t = self.tenants.remove(i);
                let ghost t_pre = t;
                t.remove_alias(alias);
                let ghost t_post = t;
                self.tenants.insert(i, t);
                proof {
                    let pre = *old(self);
                    let post = *self;
                    let ii: int = i as int;
                    assert(post.tenants@ =~= pre.tenants@.update(ii, t_post));
                    assert(t_pre == pre.tenants@[ii]);
                    Self::lemma_update_one(pre, post, ii);
                    assert(pre.aliases_of(owner@) == t_pre.aliases());
                    assert(post.aliases_of(owner@) == t_post.aliases());
                    assert(pre.device_key(owner@, alias@) == t_pre.key_lookup(alias@));
                    assert(post.device_key(owner@, alias@) == t_post.key_lookup(alias@));
                    if t_pre.has_alias(alias@) {
                        let i0: int = t_pre.alias_index(alias@);
                        assert(0 <= i0 < t_pre.entries@.len()
                            && t_pre.entries@[i0].alias@ == alias@);
                        assert(t_pre.aliases()[i0] == alias@);
                        assert(t_post.aliases() == t_pre.aliases().remove(i0));
                        assert(0 <= i0 < pre.aliases_of(owner@).len()
                            && pre.aliases_of(owner@)[i0] == alias@
                            && post.aliases_of(owner@)
                                == pre.aliases_of(owner@).remove(i0));
                    }
                    assert forall|a: Seq<char>| a != alias@
                        implies post.device_key(owner@, a) == pre.device_key(owner@, a) by {
                        assert(post.device_key(owner@, a) == t_post.key_lookup(a));
                        assert(pre.device_key(owner@, a) == t_pre.key_lookup(a));
                    }
                }
            },
            None => {
            },
        }
    }
}

} // verus!
