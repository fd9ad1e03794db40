//! The note store: per tenant, an ordered collection of opaque
//! encrypted notes, each with an identifier unique within that tenant.
//!
//! Identifiers come from a monotonically increasing per-tenant counter,
//! so an id is never reused, not even after a delete. A tenant entry
//! appears on the first add; deleting an absent id is a silent no-op;
//! updating an absent id is a silent no-op as well (the documented
//! choice for this store: the update path raises no not-found signal).

use vstd::prelude::*;
use vstd::pervasive::VecAdditionalExecFns;
use crate::principal::{Principal, is_anonymous_view};

verus! {

/// An encrypted note: an identifier and an opaque ciphertext, never
/// parsed by this crate.
#[derive(Debug)]
pub struct EncryptedNote {
    pub id: u128,
    pub data: String,
}

/// The mathematical value of an [`EncryptedNote`].
pub struct NoteView {
    pub id: u128,
    pub data: Seq<char>,
}

impl View for EncryptedNote {
    type V = NoteView;

    open spec fn view(&self) -> NoteView {
        NoteView { id: self.id, data: self.data@ }
    }
}

/// Whether some note in a sequence carries an id.
pub open spec fn seq_has_id(s: Seq<NoteView>, id: u128) -> bool {
    exists|i: int| 0 <= i < s.len() && (#[trigger] s[i]).id == id
}

/// The notes one tenant owns, in insertion order, with the counter the
/// next fresh id comes from.
pub struct TenantNotes {
    owner: Principal,
    next_id: u128,
    notes: Vec<EncryptedNote>,
}

impl TenantNotes {
    /// The notes' mathematical values, in insertion order.
    pub closed spec fn views(self) -> Seq<NoteView> {
        self.notes@.map_values(|n: EncryptedNote| n@)
    }

    pub closed spec fn has_id(self, id: u128) -> bool {
        exists|i: int| 0 <= i < self.notes@.len() && (#[trigger] self.notes@[i]).id == id
    }

    pub closed spec fn id_index(self, id: u128) -> int {
        choose|i: int| 0 <= i < self.notes@.len() && (#[trigger] self.notes@[i]).id == id
    }

    /// The tenant is not anonymous, every stored id is below the
    /// counter, and ids are pairwise distinct.
    pub closed spec fn wf(self) -> bool {
        &&& !is_anonymous_view(self.owner@)
        &&& forall|i: int| 0 <= i < self.notes@.len()
            ==> (#[trigger] self.notes@[i]).id < self.next_id
        &&& forall|i: int, j: int|
            #![trigger self.notes@[i], self.notes@[j]]
            0 <= i < self.notes@.len() && 0 <= j < self.notes@.len() && i != j
                ==> self.notes@[i].id != self.notes@[j].id
    }

    pub closed spec fn owner_view(self) -> Seq<u8> {
        self.owner@
    }

    pub closed spec fn counter(self) -> u128 {
        self.next_id
    }

    proof fn lemma_id_found(self, id: u128, i: int)
        requires
            self.wf(),
            0 <= i < self.notes@.len(),
            self.notes@[i].id == id,
        ensures
            self.has_id(id),
            self.id_index(id) == i,
    {
        assert(self.has_id(id));
        let j: int = self.id_index(id);
        assert(0 <= j < self.notes@.len() && self.notes@[j].id == id);
        if j != i {
            assert(self.notes@[i].id != self.notes@[j].id);
            assert(false);
        }
    }

    fn find_note(&self, id: u128) -> (r: Option<usize>)
        requires
            self.wf(),
        ensures
            match r {
                Some(j) => j < self.notes@.len() && self.notes@[j as int].id == id
                    && self.has_id(id) && self.id_index(id) == j,
                None => !self.has_id(id),
            },
    {
        let n = self.notes.len();
        let mut j: usize = 0;
        while j < n
            invariant
                self.wf(),
                n == self.notes@.len(),
                j <= n,
                forall|k: int| 0 <= k < j ==> (#[trigger] self.notes@[k]).id != id,
            decreases n - j,
        {
            if self.notes[j].id == id {
                proof {
                    self.lemma_id_found(id, j as int);
                }
                return Some(j);
            }
            j += 1;
        }
        proof {
            if self.has_id(id) {
                let k: int = choose|k: int|
                    0 <= k < self.notes@.len() && (#[trigger] self.notes@[k]).id == id;
                assert(self.notes@[k].id != id);
            }
        }
        None
    }

    /// Append a note under a fresh id; once the counter is exhausted,
    /// a machine limit, nothing more can be added.
    fn append(&mut self, text: String)
        requires
            old(self).wf(),
        ensures
            final(self).wf(),
            final(self).owner_view() == old(self).owner_view(),
            old(self).counter() < u128::MAX ==> {
                &&& final(self).views() == old(self).views().push(
                    NoteView { id: old(self).counter(), data: text@ })
                &&& final(self).counter() == old(self).counter() + 1
            },
            old(self).counter() == u128::MAX ==> {
                &&& final(self).views() == old(self).views()
                &&& final(self).counter() == old(self).counter()
            },
    {
        if self.next_id < u128::MAX {
            let id = self.next_id;
            self.notes.push(EncryptedNote { id, data: text });
            self.next_id = id + 1;
            proof {
                let pre = *old(self);
                let post = *self;
                let n: int = pre.notes@.len() as int;
                assert(post.notes@ == pre.notes@.push(post.notes@[n]));
                assert forall|i: int, j: int|
                    #![trigger post.notes@[i], post.notes@[j]]
                    0 <= i < post.notes@.len() && 0 <= j < post.notes@.len() && i != j
                    implies post.notes@[i].id != post.notes@[j].id by {
                    if i < n && j < n {
                        assert(post.notes@[i] == pre.notes@[i]);
                        assert(post.notes@[j] == pre.notes@[j]);
                    } else if i == n && j < n {
                        assert(post.notes@[j] == pre.notes@[j]);
                        assert(pre.notes@[j].id < pre.next_id);
                    } else if j == n && i < n {
                        assert(post.notes@[i] == pre.notes@[i]);
                        assert(pre.notes@[i].id < pre.next_id);
                    }
                }
                assert forall|i: int| 0 <= i < post.notes@.len()
                    implies (#[trigger] post.notes@[i]).id < post.next_id by {
                    if i < n {
                        assert(post.notes@[i] == pre.notes@[i]);
                        assert(pre.notes@[i].id < pre.next_id);
                    }
                }
                assert(post.wf());
                assert(post.views() =~= pre.views().push(
                    NoteView { id: pre.next_id, data: text@ }));
            }
        }
    }

    /// Replace the data of the note under an id, keeping the id; an
    /// absent id is a silent no-op.
    fn set_data(&mut self, id: u128, data: String)
        requires
            old(self).wf(),
        ensures
            final(self).wf(),
            final(self).owner_view() == old(self).owner_view(),
            final(self).counter() == old(self).counter(),
            final(self).views().len() == old(self).views().len(),
            forall|i: int| 0 <= i < old(self).views().len() ==> {
                &&& (#[trigger] final(self).views()[i]).id == old(self).views()[i].id
                &&& (old(self).views()[i].id == id ==> final(self).views()[i].data == data@)
                &&& (old(self).views()[i].id != id
                    ==> final(self).views()[i] == old(self).views()[i])
            },
    {
        let found = self.find_note(id);
        match found {
            Some(j) => {
                self.notes.set(j, EncryptedNote { id, data });
                proof {
                    let pre = *old(self);
                    let post = *self;
                    let ji: int = j as int;
                    assert(post.notes@ == pre.notes@.update(ji, post.notes@[ji]));
                    assert forall|i: int| 0 <= i < post.notes@.len()
                        implies (#[trigger] post.notes@[i]).id == pre.notes@[i].id by {
                        if i != ji {
                            assert(post.notes@[i] == pre.notes@[i]);
                        }
                    }
                    assert(post.wf());
                    assert forall|i: int| 0 <= i < pre.views().len() && pre.views()[i].id != id
                        implies #[trigger] post.views()[i] == pre.views()[i] by {
                        assert(pre.notes@[i].id != id);
                        assert(i != ji);
                        assert(post.notes@[i] == pre.notes@[i]);
                    }
                    assert forall|i: int| 0 <= i < pre.views().len() && pre.views()[i].id == id
                        implies (#[trigger] post.views()[i]).data == data@ by {
                        assert(pre.notes@[i].id == id);
                        pre.lemma_id_found(id, i);
                        assert(i == ji);
                    }
                }
            },
            None => {
                proof {
                    assert forall|i: int| 0 <= i < self.views().len()
                        implies (#[trigger] self.views()[i]).id != id by {
                        if self.notes@[i].id == id {
                            assert(self.has_id(id));
                        }
                    }
                }
            },
        }
    }

    /// Remove the note under an id; an absent id is a silent no-op.
    fn remove_id(&mut self, id: u128)
        requires
            old(self).wf(),
        ensures
            final(self).wf(),
            final(self).owner_view() == old(self).owner_view(),
            final(self).counter() == old(self).counter(),
            !seq_has_id(final(self).views(), id),
            seq_has_id(old(self).views(), id) ==> exists|i: int|
                0 <= i < old(self).views().len() && old(self).views()[i].id == id
                    && final(self).views() == old(self).views().remove(i),
            !seq_has_id(old(self).views(), id)
                ==> final(self).views() == old(self).views(),
    {
        proof {
            // has_id over the notes agrees with seq_has_id over the views
            if seq_has_id(old(self).views(), id) {
                let i: int = choose|i: int|
                    0 <= i < old(self).views().len()
                        && (#[trigger] old(self).views()[i]).id == id;
                assert(old(self).notes@[i].id == id);
                assert(old(self).has_id(id));
            }
            if old(self).has_id(id) {
                let i: int = choose|i: int|
                    0 <= i < old(self).notes@.len()
                        && (#[trigger] old(self).notes@[i]).id == id;
                assert(old(self).views()[i].id == id);
                assert(seq_has_id(old(self).views(), id));
            }
        }
        let found = self.find_note(id);
        match found {
            Some(j) => {
                self.notes.remove(j);
                proof {
                    let pre = *old(self);
                    let post = *self;
                    let ji: int = j as int;
                    assert(post.notes@ == pre.notes@.remove(ji));
                    pre.notes@.remove_ensures(ji);
                    assert forall|i: int, k: int|
                        #![trigger post.notes@[i], post.notes@[k]]
                        0 <= i < post.notes@.len() && 0 <= k < post.notes@.len() && i != k
                        implies post.notes@[i].id != post.notes@[k].id by {
                        let i0: int = if i < ji { i } else { i + 1 };
                        let k0: int = if k < ji { k } else { k + 1 };
                        assert(post.notes@[i] == pre.notes@[i0]);
                        assert(post.notes@[k] == pre.notes@[k0]);
                    }
                    assert forall|i: int| 0 <= i < post.notes@.len()
                        implies (#[trigger] post.notes@[i]).id < post.next_id by {
                        let i0: int = if i < ji { i } else { i + 1 };
                        assert(post.notes@[i] == pre.notes@[i0]);
                        assert(pre.notes@[i0].id < pre.next_id);
                    }
                    assert(post.wf());
                    assert(post.views() =~= pre.views().remove(ji));
                    assert(pre.views()[ji].id == id);
                    assert forall|i: int| 0 <= i < post.notes@.len()
                        implies (#[trigger] post.notes@[i]).id != id by {
                        let i0: int = if i < ji { i } else { i + 1 };
                        assert(post.notes@[i] == pre.notes@[i0]);
                        if i0 != ji && pre.notes@[i0].id == id {
                            assert(pre.notes@[i0].id != pre.notes@[ji].id);
                        }
                    }
                    if seq_has_id(post.views(), id) {
                        let i1: int = choose|i1: int|
                            0 <= i1 < post.views().len()
                                && (#[trigger] post.views()[i1]).id == id;
                        assert(post.notes@[i1].id == id);
                        assert(false);
                    }
                }
            },
            None => {
                proof {
                    if seq_has_id(self.views(), id) {
                        let i: int = choose|i: int|
                            0 <= i < self.views().len()
                                && (#[trigger] self.views()[i]).id == id;
                        assert(self.notes@[i].id == id);
                        assert(self.has_id(id));
                    }
                }
            },
        }
    }

    /// The notes, cloned, in insertion order.
    fn note_list(&self) -> (r: Vec<EncryptedNote>)
        ensures
            r@.len() == self.views().len(),
            forall|i: int| 0 <= i < r@.len() ==> r@[i]@ == self.views()[i],
    {
        let n = self.notes.len();
        let mut r: Vec<EncryptedNote> = Vec::new();
        let mut i: usize = 0;
        while i < n
            invariant
                n == self.notes@.len(),
                i <= n,
                r@.len() == i,
                forall|k: int| 0 <= k < i ==> r@[k]@ == self.views()[k],
            decreases n - i,
        {
            let note = EncryptedNote { id: self.notes[i].id, data: self.notes[i].data.clone() };
            r.push(note);
            i += 1;
        }
        r
    }
}

/// The note store for all tenants, keyed by principal.
pub struct Notes {
    tenants: Vec<TenantNotes>,
}

impl Notes {
    /// Every tenant is well formed and no principal owns two tenant slots.
    pub closed spec fn wf(self) -> bool {
        &&& forall|i: int| 0 <= i < self.tenants@.len() ==> (#[trigger] self.tenants@[i]).wf()
        &&& forall|i: int, j: int|
            #![trigger self.tenants@[i], self.tenants@[j]]
            0 <= i < self.tenants@.len() && 0 <= j < self.tenants@.len() && i != j
                ==> self.tenants@[i].owner_view() != self.tenants@[j].owner_view()
    }

    pub closed spec fn has_owner(self, p: Seq<u8>) -> bool {
        exists|i: int| 0 <= i < self.tenants@.len() && (#[trigger] self.tenants@[i]).owner_view() == p
    }

    pub closed spec fn tenant_index(self, p: Seq<u8>) -> int {
        choose|i: int| 0 <= i < self.tenants@.len() && (#[trigger] self.tenants@[i]).owner_view() == p
    }

    /// A tenant's notes in insertion order; empty for an unknown owner.
    pub closed spec fn notes_of(self, p: Seq<u8>) -> Seq<NoteView> {
        if self.has_owner(p) {
            self.tenants@[self.tenant_index(p)].views()
        } else {
            Seq::empty()
        }
    }

    /// The id the tenant's next note would get; zero for an unknown owner.
    pub closed spec fn next_id_of(self, p: Seq<u8>) -> u128 {
        if self.has_owner(p) {
            self.tenants@[self.tenant_index(p)].counter()
        } else {
            0
        }
    }

    /// An empty store.
    pub fn new() -> (s: Notes)
        ensures
            s.wf(),
            forall|p: Seq<u8>| #[trigger] s.notes_of(p) == Seq::<NoteView>::empty(),
            forall|p: Seq<u8>| #[trigger] s.next_id_of(p) == 0,
    {
        let s = Notes { tenants: Vec::new() };
        proof {
            assert forall|p: Seq<u8>| !(#[trigger] s.has_owner(p)) by {
                if s.has_owner(p) {
                    let i: int = choose|i: int|
                        0 <= i < s.tenants@.len() && s.tenants@[i].owner_view() == p;
                    assert(false);
                }
            }
        }
        s
    }

    proof fn lemma_owner_found(self, p: Seq<u8>, i: int)
        requires
            self.wf(),
            0 <= i < self.tenants@.len(),
            self.tenants@[i].owner_view() == p,
        ensures
            self.has_owner(p),
            self.tenant_index(p) == i,
    {
        assert(self.has_owner(p));
        let j: int = self.tenant_index(p);
        assert(0 <= j < self.tenants@.len() && self.tenants@[j].owner_view() == p);
        if j != i {
            assert(self.tenants@[i].owner_view() != self.tenants@[j].owner_view());
            assert(false);
        }
    }

    fn find_owner(&self, p: &Principal) -> (r: Option<usize>)
        requires
            self.wf(),
        ensures
            match r {
                Some(i) => i < self.tenants@.len()
                    && self.tenants@[i as int].owner_view() == p@
                    && self.has_owner(p@) && self.tenant_index(p@) == i,
                None => !self.has_owner(p@),
            },
    {
        let n = self.tenants.len();
        let mut i: usize = 0;
        while i < n
            invariant
                self.wf(),
                n == self.tenants@.len(),
                i <= n,
                forall|k: int| 0 <= k < i ==> (#[trigger] self.tenants@[k]).owner_view() != p@,
            decreases n - i,
        {
            if self.tenants[i].owner.same_as(p) {
                proof {
                    self.lemma_owner_found(p@, i as int);
                }
                return Some(i);
            }
            i += 1;
        }
        proof {
            if self.has_owner(p@) {
                let k: int = choose|k: int|
                    0 <= k < self.tenants@.len() && (#[trigger] self.tenants@[k]).owner_view() == p@;
                assert(self.tenants@[k].owner_view() != p@);
            }
        }
        None
    }

    /// One tenant slot changed in place, same owner: everything another
    /// principal can observe is unchanged.
    proof fn lemma_update_one(pre: Notes, post: Notes, i: int)
        requires
            pre.wf(),
            0 <= i < pre.tenants@.len(),
            post.tenants@.len() == pre.tenants@.len(),
            forall|k: int| 0 <= k < pre.tenants@.len() && k != i
                ==> post.tenants@[k] == pre.tenants@[k],
            post.tenants@[i].owner_view() == pre.tenants@[i].owner_view(),
            post.tenants@[i].wf(),
        ensures
            post.wf(),
            pre.has_owner(pre.tenants@[i].owner_view()),
            post.has_owner(pre.tenants@[i].owner_view()),
            pre.tenant_index(pre.tenants@[i].owner_view()) == i,
            post.tenant_index(pre.tenants@[i].owner_view()) == i,
            forall|q: Seq<u8>| q != pre.tenants@[i].owner_view()
                ==> post.notes_of(q) == pre.notes_of(q),
            forall|q: Seq<u8>| q != pre.tenants@[i].owner_view()
                ==> post.next_id_of(q) == pre.next_id_of(q),
    {
        let p0 = pre.tenants@[i].owner_view();
        assert forall|k: int| 0 <= k < post.tenants@.len()
            implies (#[trigger] post.tenants@[k]).owner_view() == pre.tenants@[k].owner_view()
                && post.tenants@[k].wf() by {
            if k != i {
                assert(post.tenants@[k] == pre.tenants@[k]);
            }
        }
        assert(post.wf());
        pre.lemma_owner_found(p0, i);
        post.lemma_owner_found(p0, i);
        assert forall|q: Seq<u8>| q != p0
            implies post.has_owner(q) == pre.has_owner(q) by {
            if pre.has_owner(q) {
                let k: int = choose|k: int|
                    0 <= k < pre.tenants@.len() && (#[trigger] pre.tenants@[k]).owner_view() == q;
                assert(post.tenants@[k].owner_view() == q);
                assert(post.has_owner(q));
            }
            if post.has_owner(q) {
                let k: int = choose|k: int|
                    0 <= k < post.tenants@.len() && (#[trigger] post.tenants@[k]).owner_view() == q;
                assert(pre.tenants@[k].owner_view() == q);
                assert(pre.has_owner(q));
            }
        }
        assert forall|q: Seq<u8>| q != p0
            implies post.notes_of(q) == pre.notes_of(q)
                && post.next_id_of(q) == pre.next_id_of(q) by {
            if pre.has_owner(q) {
                let k: int = pre.tenant_index(q);
                assert(0 <= k < pre.tenants@.len() && pre.tenants@[k].owner_view() == q);
                assert(k != i);
                assert(post.tenants@[k] == pre.tenants@[k]);
                post.lemma_owner_found(q, k);
            }
        }
    }

    /// A tenant slot appended for a fresh owner: everything another
    /// principal can observe is unchanged.
    proof fn lemma_push_one(pre: Notes, post: Notes)
        requires
            pre.wf(),
            post.tenants@.len() == pre.tenants@.len() + 1,
            forall|k: int| 0 <= k < pre.tenants@.len()
                ==> post.tenants@[k] == pre.tenants@[k],
            post.tenants@[pre.tenants@.len() as int].wf(),
            !pre.has_owner(post.tenants@[pre.tenants@.len() as int].owner_view()),
        ensures
            post.wf(),
            post.has_owner(post.tenants@[pre.tenants@.len() as int].owner_view()),
            post.tenant_index(post.tenants@[pre.tenants@.len() as int].owner_view())
                == pre.tenants@.len(),
            forall|q: Seq<u8>| q != post.tenants@[pre.tenants@.len() as int].owner_view()
                ==> post.notes_of(q) == pre.notes_of(q),
            forall|q: Seq<u8>| q != post.tenants@[pre.tenants@.len() as int].owner_view()
                ==> post.next_id_of(q) == pre.next_id_of(q),
    {
        let n: int = pre.tenants@.len() as int;
        let p0 = post.tenants@[n].owner_view();
        assert forall|k: int| 0 <= k < n
            implies (#[trigger] pre.tenants@[k]).owner_view() != p0 by {
            if pre.tenants@[k].owner_view() == p0 {
                assert(pre.has_owner(p0));
            }
        }
        assert forall|i: int, j: int|
            #![trigger post.tenants@[i], post.tenants@[j]]
            0 <= i < post.tenants@.len() && 0 <= j < post.tenants@.len() && i != j
            implies post.tenants@[i].owner_view() != post.tenants@[j].owner_view() by {
            if i < n && j < n {
                assert(post.tenants@[i] == pre.tenants@[i]);
                assert(post.tenants@[j] == pre.tenants@[j]);
            } else if i == n && j < n {
                assert(post.tenants@[j] == pre.tenants@[j]);
            } else if j == n && i < n {
                assert(post.tenants@[i] == pre.tenants@[i]);
            }
        }
        assert forall|k: int| 0 <= k < post.tenants@.len()
            implies (#[trigger] post.tenants@[k]).wf() by {
            if k < n {
                assert(post.tenants@[k] == pre.tenants@[k]);
            }
        }
        assert(post.wf());
        post.lemma_owner_found(p0, n);
        assert forall|q: Seq<u8>| q != p0
            implies post.has_owner(q) == pre.has_owner(q) by {
            if pre.has_owner(q) {
                let k: int = choose|k: int|
                    0 <= k < pre.tenants@.len() && (#[trigger] pre.tenants@[k]).owner_view() == q;
                assert(post.tenants@[k].owner_view() == q);
                assert(post.has_owner(q));
            }
            if post.has_owner(q) {
                let k: int = choose|k: int|
                    0 <= k < post.tenants@.len() && (#[trigger] post.tenants@[k]).owner_view() == q;
                assert(k != n);
                assert(pre.tenants@[k].owner_view() == q);
                assert(pre.has_owner(q));
            }
        }
        assert forall|q: Seq<u8>| q != p0
            implies post.notes_of(q) == pre.notes_of(q)
                && post.next_id_of(q) == pre.next_id_of(q) by {
            if pre.has_owner(q) {
                let k: int = pre.tenant_index(q);
                assert(0 <= k < pre.tenants@.len() && pre.tenants@[k].owner_view() == q);
                assert(post.tenants@[k] == pre.tenants@[k]);
                post.lemma_owner_found(q, k);
            }
        }
    }

    /// In a well-formed store, the note ids one owner holds are
    /// pairwise distinct.
    pub proof fn lemma_ids_unique(self, p: Seq<u8>)
        requires
            self.wf(),
        ensures
            forall|i: int, j: int|
                #![trigger self.notes_of(p)[i], self.notes_of(p)[j]]
                0 <= i < self.notes_of(p).len() && 0 <= j < self.notes_of(p).len() && i != j
                    ==> self.notes_of(p)[i].id != self.notes_of(p)[j].id,
    {
        if self.has_owner(p) {
            let k: int = self.tenant_index(p);
            assert(0 <= k < self.tenants@.len() && self.tenants@[k].owner_view() == p);
            let t = self.tenants@[k];
            assert(t.wf());
            assert forall|i: int, j: int|
                #![trigger self.notes_of(p)[i], self.notes_of(p)[j]]
                0 <= i < self.notes_of(p).len() && 0 <= j < self.notes_of(p).len() && i != j
                implies self.notes_of(p)[i].id != self.notes_of(p)[j].id by {
                assert(self.notes_of(p)[i] == t.views()[i]);
                assert(self.notes_of(p)[j] == t.views()[j]);
                assert(t.notes@[i].id != t.notes@[j].id);
            }
        }
    }

    /// A tenant's notes, cloned, in insertion order; empty for an
    /// unknown owner.
    pub fn get_notes(&self, owner: &Principal) -> (r: Vec<EncryptedNote>)
        requires
            self.wf(),
        ensures
            r@.len() == self.notes_of(owner@).len(),
            forall|i: int| 0 <= i < r@.len() ==> r@[i]@ == self.notes_of(owner@)[i],
    {
        match self.find_owner(owner) {
            Some(i) => {
                let r = self.tenants[i].note_list();
                proof {
                    assert(self.notes_of(owner@) == self.tenants@[i as int].views());
                }
                r
            },
            None => {
                Vec::new()
            },
        }
    }

    /// Append a note for an owner under a fresh id; the owner's tenant
    /// entry appears on its first add.
    pub fn add_note(&mut self, owner: &Principal, encrypted_text: String)
        requires
            old(self).wf(),
            !is_anonymous_view(owner@),
        ensures
            final(self).wf(),
            old(self).next_id_of(owner@) < u128::MAX ==> {
                &&& final(self).notes_of(owner@) == old(self).notes_of(owner@).push(
                    NoteView { id: old(self).next_id_of(owner@), data: encrypted_text@ })
                &&& final(self).next_id_of(owner@) == old(self).next_id_of(owner@) + 1
            },
            old(self).next_id_of(owner@) == u128::MAX ==> {
                &&& final(self).notes_of(owner@) == old(self).notes_of(owner@)
                &&& final(self).next_id_of(owner@) == old(self).next_id_of(owner@)
            },
            forall|q: Seq<u8>| q != owner@
                ==> final(self).notes_of(q) == old(self).notes_of(q),
            forall|q: Seq<u8>| q != owner@
                ==> final(self).next_id_of(q) == old(self).next_id_of(q),
    {
        let found = self.find_owner(owner);
        match found {
            Some(i) => {
                let ghost text_view = encrypted_text@;
                let mut t = self.tenants.remove(i);
                let ghost t_pre = t;
                t.append(encrypted_text);
                let ghost t_post = t;
                self.tenants.insert(i, t);
                proof {
                    let pre = *old(self);
                    let post = *self;
                    let ii: int = i as int;
                    assert(post.tenants@ =~= pre.tenants@.update(ii, t_post));
                    assert(t_pre == pre.tenants@[ii]);
                    Self::lemma_update_one(pre, post, ii);
                    assert(pre.notes_of(owner@) == t_pre.views());
                    assert(pre.next_id_of(owner@) == t_pre.counter());
                    assert(post.notes_of(owner@) == t_post.views());
                    assert(post.next_id_of(owner@) == t_post.counter());
                }
            },
            None => {
                let ghost text_view = encrypted_text@;
                let mut notes_vec: Vec<EncryptedNote> = Vec::new();
                notes_vec.push(EncryptedNote { id: 0, data: encrypted_text });
                let t = TenantNotes { owner: owner.clone(), next_id: 1, notes: notes_vec };
                let ghost t_new = t;
                self.tenants.push(t);
                proof {
                    let pre = *old(self);
                    let post = *self;
                    let n: int = pre.tenants@.len() as int;
                    assert(post.tenants@ =~= pre.tenants@.push(t_new));
                    assert(t_new.owner_view() == owner@);
                    assert(t_new.wf());
                    Self::lemma_push_one(pre, post);
                    assert(post.notes_of(owner@) == t_new.views());
                    assert(post.next_id_of(owner@) == 1);
                    assert(pre.notes_of(owner@) == Seq::<NoteView>::empty());
                    assert(pre.next_id_of(owner@) == 0);
                    assert(t_new.views() =~= Seq::<NoteView>::empty().push(
                        NoteView { id: 0, data: text_view }));
                }
            },
        }
    }

    /// Replace the data of the owner's note carrying the given note's
    /// id; which ids are present never changes. An absent id, or an
    /// unknown owner, is a silent no-op.
    pub fn update_note(&mut self, owner: &Principal, new_note: EncryptedNote)
        requires
            old(self).wf(),
        ensures
            final(self).wf(),
            final(self).next_id_of(owner@) == old(self).next_id_of(owner@),
            final(self).notes_of(owner@).len() == old(self).notes_of(owner@).len(),
            forall|i: int| 0 <= i < old(self).notes_of(owner@).len() ==> {
                &&& (#[trigger] final(self).notes_of(owner@)[i]).id
                    == old(self).notes_of(owner@)[i].id
                &&& (old(self).notes_of(owner@)[i].id == new_note.id
                    ==> final(self).notes_of(owner@)[i].data == new_note.data@)
                &&& (old(self).notes_of(owner@)[i].id != new_note.id
                    ==> final(self).notes_of(owner@)[i] == old(self).notes_of(owner@)[i])
            },
            forall|q: Seq<u8>| q != owner@
                ==> final(self).notes_of(q) == old(self).notes_of(q),
            forall|q: Seq<u8>| q != owner@
                ==> final(self).next_id_of(q) == old(self).next_id_of(q),
    {
        let found = self.find_owner(owner);
        match found {
            Some(i) => {
                let EncryptedNote { id, data } = new_note;
                let mut t = self.tenants.remove(i);
                let ghost t_pre = t;
                t.set_data(id, data);
                let ghost t_post = t;
                self.tenants.insert(i, t);
                proof {
                    let pre = *old(self);
                    let post = *self;
                    let ii: int = i as int;
                    assert(post.tenants@ =~= pre.tenants@.update(ii, t_post));
                    assert(t_pre == pre.tenants@[ii]);
                    Self::lemma_update_one(pre, post, ii);
                    assert(pre.notes_of(owner@) == t_pre.views());
                    assert(post.notes_of(owner@) == t_post.views());
                    assert(pre.next_id_of(owner@) == t_pre.counter());
                    assert(post.next_id_of(owner@) == t_post.counter());
                }
            },
            None => {
            },
        }
    }

    /// Remove the owner's note under an id; an absent id, or an unknown
    /// owner, is a silent no-op.
    pub fn delete_note(&mut self, owner: &Principal, id: u128)
        requires
            old(self).wf(),
        ensures
            final(self).wf(),
            final(self).next_id_of(owner@) == old(self).next_id_of(owner@),
            !seq_has_id(final(self).notes_of(owner@), id),
            seq_has_id(old(self).notes_of(owner@), id) ==> exists|i: int|
                0 <= i < old(self).notes_of(owner@).len()
                    && old(self).notes_of(owner@)[i].id == id
                    && final(self).notes_of(owner@)
                        == old(self).notes_of(owner@).remove(i),
            !seq_has_id(old(self).notes_of(owner@), id)
                ==> final(self).notes_of(owner@) == old(self).notes_of(owner@),
            forall|q: Seq<u8>| q != owner@
                ==> final(self).notes_of(q) == old(self).notes_of(q),
            forall|q: Seq<u8>| q != owner@
                ==> final(self).next_id_of(q) == old(self).next_id_of(q),
    {
        let found = self.find_owner(owner);
        match found {
            Some(i) => {
                let mut t = self.tenants.remove(i);
                let ghost t_pre = t;
                t.remove_id(id);
                let ghost t_post = t;
                self.tenants.insert(i, t);
                proof {
                    let pre = *old(self);
                    let post = *self;
                    let ii: int = i as int;
                    assert(post.tenants@ =~= pre.tenants@.update(ii, t_post));
                    assert(t_pre == pre.tenants@[ii]);
                    Self::lemma_update_one(pre, post, ii);
                    assert(pre.notes_of(owner@) == t_pre.views());
                    assert(post.notes_of(owner@) == t_post.views());
                    assert(pre.next_id_of(owner@) == t_pre.counter());
                    assert(post.next_id_of(owner@) == t_post.counter());
                }
            },
            None => {
                proof {
                    assert(self.notes_of(owner@) == Seq::<NoteView>::empty());
                    if seq_has_id(self.notes_of(owner@), id) {
                        let i: int = choose|i: int|
                            0 <= i < self.notes_of(owner@).len()
                                && (#[trigger] self.notes_of(owner@)[i]).id == id;
                        assert(false);
                    }
                }
            },
        }
    }
}

} // verus!
