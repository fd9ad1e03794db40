//! The store's laws: what holds across calls, stated over the
//! full-call behaviour predicates of the service operations.

use vstd::prelude::*;
use crate::auth::AuthError;
use crate::principal::is_anonymous_view;
use crate::notes::seq_has_id;
use crate::service::{
    Service, add_note_post, delete_device_post, delete_note_post, equiv,
    register_device_post, update_note_post,
};

verus! {

/// One operation a caller may attempt, with its arguments as
/// mathematical values.
pub enum Action {
    RegisterDevice(Seq<char>, Seq<char>),
    ListDeviceAliases,
    DeleteDevice(Seq<char>),
    ListNotes,
    AddNote(Seq<char>),
    UpdateNote(u128, Seq<char>),
    DeleteNote(u128),
}

/// One full call, successful or refused, performed as `p`: how the
/// store may move from `pre` to `post`. The two list operations read
/// only.
pub open spec fn step(pre: Service, post: Service, p: Seq<u8>, act: Action) -> bool {
    match act {
        Action::RegisterDevice(alias, key) => exists|r: Result<(), AuthError>|
            register_device_post(pre, post, p, alias, key, r),
        Action::ListDeviceAliases => post == pre,
        Action::DeleteDevice(alias) => exists|r: Result<(), AuthError>|
            delete_device_post(pre, post, p, alias, r),
        Action::ListNotes => post == pre,
        Action::AddNote(text) => exists|r: Result<(), AuthError>|
            add_note_post(pre, post, p, text, r),
        Action::UpdateNote(id, data) => exists|r: Result<(), AuthError>|
            update_note_post(pre, post, p, id, data, r),
        Action::DeleteNote(id) => exists|r: Result<(), AuthError>|
            delete_note_post(pre, post, p, id, r),
    }
}

/// A sequence of full calls, all performed as `p`.
pub open spec fn steps(pre: Service, post: Service, p: Seq<u8>, acts: Seq<Action>) -> bool
    decreases acts.len(),
{
    if acts.len() == 0 {
        post == pre
    } else {
        exists|mid: Service|
            #[trigger] step(pre, mid, p, acts[0]) && steps(mid, post, p, acts.drop_first())
    }
}

/// Isolation, one call: an operation performed as `p` changes nothing
/// another principal `q` can observe — not its registration, aliases,
/// keys, notes, nor its id counter.
pub proof fn lemma_step_isolation(pre: Service, post: Service, p: Seq<u8>, act: Action, q: Seq<u8>)
    requires
        step(pre, post, p, act),
        q != p,
    ensures
        post.registered(q) == pre.registered(q),
        post.aliases_of(q) == pre.aliases_of(q),
        forall|a: Seq<char>| #[trigger] post.device_key(q, a) == pre.device_key(q, a),
        post.notes_of(q) == pre.notes_of(q),
        post.next_id_of(q) == pre.next_id_of(q),
{
    match act {
        Action::RegisterDevice(alias, key) => {
            let r = choose|r: Result<(), AuthError>|
                register_device_post(pre, post, p, alias, key, r);
            assert(register_device_post(pre, post, p, alias, key, r));
        },
        Action::ListDeviceAliases => {},
        Action::DeleteDevice(alias) => {
            let r = choose|r: Result<(), AuthError>| delete_device_post(pre, post, p, alias, r);
            assert(delete_device_post(pre, post, p, alias, r));
        },
        Action::ListNotes => {},
        Action::AddNote(text) => {
            let r = choose|r: Result<(), AuthError>| add_note_post(pre, post, p, text, r);
            assert(add_note_post(pre, post, p, text, r));
        },
        Action::UpdateNote(id, data) => {
            let r = choose|r: Result<(), AuthError>| update_note_post(pre, post, p, id, data, r);
            assert(update_note_post(pre, post, p, id, data, r));
        },
        Action::DeleteNote(id) => {
            let r = choose|r: Result<(), AuthError>| delete_note_post(pre, post, p, id, r);
            assert(delete_note_post(pre, post, p, id, r));
        },
    }
}

/// Isolation: no sequence of operations performed as `p` can change
/// anything another principal `q` observes through `get_notes` or
/// `get_device_aliases` — nor `q`'s registration, keys, or id counter.
pub proof fn lemma_isolation(pre: Service, post: Service, p: Seq<u8>, acts: Seq<Action>, q: Seq<u8>)
    requires
        steps(pre, post, p, acts),
        q != p,
    ensures
        post.registered(q) == pre.registered(q),
        post.aliases_of(q) == pre.aliases_of(q),
        forall|a: Seq<char>| #[trigger] post.device_key(q, a) == pre.device_key(q, a),
        post.notes_of(q) == pre.notes_of(q),
        post.next_id_of(q) == pre.next_id_of(q),
    decreases acts.len(),
{
    if acts.len() == 0 {
    } else {
        let mid = choose|mid: Service|
            #[trigger] step(pre, mid, p, acts[0]) && steps(mid, post, p, acts.drop_first());
        lemma_step_isolation(pre, mid, p, acts[0], q);
        lemma_isolation(mid, post, p, acts.drop_first(), q);
    }
}

/// Deleting the same note twice in a row, as the same caller, ends in
/// the same state and with the same outcome as deleting it once.
pub proof fn lemma_delete_note_idempotent(
    s0: Service,
    s1: Service,
    s2: Service,
    p: Seq<u8>,
    id: u128,
    r1: Result<(), AuthError>,
    r2: Result<(), AuthError>,
)
    requires
        delete_note_post(s0, s1, p, id, r1),
        delete_note_post(s1, s2, p, id, r2),
    ensures
        equiv(s1, s2),
        r2 == r1,
{
    match r1 {
        Ok(_) => {
            assert(s1.notes_authorized(p));
            match r2 {
                Ok(_) => {
                    assert(!seq_has_id(s1.notes_of(p), id));
                    assert(s2.notes_of(p) == s1.notes_of(p));
                    let u1: () = r1->Ok_0;
                    let u2: () = r2->Ok_0;
                    assert(u1 == u2);
                    assert(r2 == r1);
                },
                Err(_) => {
                    assert(false);
                },
            }
        },
        Err(e1) => {
            assert(s1 == s0);
            match r2 {
                Ok(_) => {
                    assert(false);
                },
                Err(e2) => {
                    assert(s2 == s1);
                    if is_anonymous_view(p) {
                        assert(e1 == AuthError::Anonymous && e2 == AuthError::Anonymous);
                    } else {
                        assert(e1 != AuthError::Anonymous && e2 != AuthError::Anonymous);
                        assert(e1 == AuthError::NotRegistered && e2 == AuthError::NotRegistered);
                    }
                },
            }
        },
    }
}

/// Deleting the same device alias twice in a row, as the same caller,
/// ends in the same state and with the same outcome as deleting it
/// once.
pub proof fn lemma_delete_device_idempotent(
    s0: Service,
    s1: Service,
    s2: Service,
    p: Seq<u8>,
    alias: Seq<char>,
    r1: Result<(), AuthError>,
    r2: Result<(), AuthError>,
)
    requires
        delete_device_post(s0, s1, p, alias, r1),
        delete_device_post(s1, s2, p, alias, r2),
    ensures
        equiv(s1, s2),
        r2 == r1,
{
    match r1 {
        Ok(_) => {
            assert(s1.registered(p) == s0.registered(p));
            assert(s1.devices_authorized(p));
            match r2 {
                Ok(_) => {
                    assert(s1.device_key(p, alias) is None);
                    assert(s2.aliases_of(p) == s1.aliases_of(p));
                    assert forall|a: Seq<char>| #[trigger] s2.device_key(p, a)
                        == s1.device_key(p, a) by {
                        if a != alias {
                        } else {
                            assert(s2.device_key(p, alias) is None);
                            assert(s1.device_key(p, alias) is None);
                        }
                    }
                    let u1: () = r1->Ok_0;
                    let u2: () = r2->Ok_0;
                    assert(u1 == u2);
                    assert(r2 == r1);
                },
                Err(_) => {
                    assert(false);
                },
            }
        },
        Err(e1) => {
            assert(s1 == s0);
            match r2 {
                Ok(_) => {
                    assert(false);
                },
                Err(e2) => {
                    assert(s2 == s1);
                    if is_anonymous_view(p) {
                        assert(e1 == AuthError::Anonymous && e2 == AuthError::Anonymous);
                    } else {
                        assert(e1 != AuthError::Anonymous && e2 != AuthError::Anonymous);
                        assert(e1 == AuthError::NotRegistered && e2 == AuthError::NotRegistered);
                    }
                },
            }
        },
    }
}

/// Updating a note never changes which ids an owner holds — neither
/// the caller's own nor anyone else's — only the data under the one
/// matching id.
pub proof fn lemma_update_preserves_ids(
    pre: Service,
    post: Service,
    p: Seq<u8>,
    id: u128,
    data: Seq<char>,
    r: Result<(), AuthError>,
)
    requires
        update_note_post(pre, post, p, id, data, r),
    ensures
        forall|q: Seq<u8>, x: u128| #[trigger] seq_has_id(post.notes_of(q), x)
            == seq_has_id(pre.notes_of(q), x),
{
    match r {
        Ok(_) => {
            assert forall|q: Seq<u8>, x: u128| #[trigger] seq_has_id(post.notes_of(q), x)
                == seq_has_id(pre.notes_of(q), x) by {
                if q != p {
                    assert(post.notes_of(q) == pre.notes_of(q));
                } else {
                    if seq_has_id(pre.notes_of(p), x) {
                        let i: int = choose|i: int|
                            0 <= i < pre.notes_of(p).len()
                                && (#[trigger] pre.notes_of(p)[i]).id == x;
                        assert(post.notes_of(p)[i].id == x);
                        assert(seq_has_id(post.notes_of(p), x));
                    }
                    if seq_has_id(post.notes_of(p), x) {
                        let i: int = choose|i: int|
                            0 <= i < post.notes_of(p).len()
                                && (#[trigger] post.notes_of(p)[i]).id == x;
                        assert(pre.notes_of(p)[i].id == x);
                        assert(seq_has_id(pre.notes_of(p), x));
                    }
                }
            }
        },
        Err(_) => {
            assert(post == pre);
        },
    }
}

/// An anonymous caller's `register_device` fails with
/// `AuthError::Anonymous` and changes nothing.
pub proof fn lemma_register_device_anonymous(
    pre: Service,
    post: Service,
    p: Seq<u8>,
    alias: Seq<char>,
    key: Seq<char>,
    r: Result<(), AuthError>,
)
    requires
        is_anonymous_view(p),
        register_device_post(pre, post, p, alias, key, r),
    ensures
        r == Err::<(), AuthError>(AuthError::Anonymous),
        post == pre,
{
}

/// An anonymous caller's `add_note` fails with `AuthError::Anonymous`
/// and changes nothing.
pub proof fn lemma_add_note_anonymous(
    pre: Service,
    post: Service,
    p: Seq<u8>,
    text: Seq<char>,
    r: Result<(), AuthError>,
)
    requires
        is_anonymous_view(p),
        add_note_post(pre, post, p, text, r),
    ensures
        r == Err::<(), AuthError>(AuthError::Anonymous),
        post == pre,
{
}

/// An anonymous caller's `update_note` fails with
/// `AuthError::Anonymous` and changes nothing.
pub proof fn lemma_update_note_anonymous(
    pre: Service,
    post: Service,
    p: Seq<u8>,
    id: u128,
    data: Seq<char>,
    r: Result<(), AuthError>,
)
    requires
        is_anonymous_view(p),
        update_note_post(pre, post, p, id, data, r),
    ensures
        r == Err::<(), AuthError>(AuthError::Anonymous),
        post == pre,
{
}

/// An anonymous caller's `delete_note` fails with
/// `AuthError::Anonymous` and changes nothing.
pub proof fn lemma_delete_note_anonymous(
    pre: Service,
    post: Service,
    p: Seq<u8>,
    id: u128,
    r: Result<(), AuthError>,
)
    requires
        is_anonymous_view(p),
        delete_note_post(pre, post, p, id, r),
    ensures
        r == Err::<(), AuthError>(AuthError::Anonymous),
        post == pre,
{
}

/// An anonymous caller's `delete_device` fails with
/// `AuthError::Anonymous` and changes nothing.
pub proof fn lemma_delete_device_anonymous(
    pre: Service,
    post: Service,
    p: Seq<u8>,
    alias: Seq<char>,
    r: Result<(), AuthError>,
)
    requires
        is_anonymous_view(p),
        delete_device_post(pre, post, p, alias, r),
    ensures
        r == Err::<(), AuthError>(AuthError::Anonymous),
        post == pre,
{
}

} // verus!
