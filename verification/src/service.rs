//! The service core: caller identity, then the access-control gate,
//! then the tenant-scoped stores.
//!
//! Every entry point takes an already-resolved principal, refuses the
//! anonymous identity, and — depending on the operating mode — requires
//! the caller to be a registered tenant before it touches the note
//! store. A refused call returns its error with no state change.

use vstd::prelude::*;
use crate::auth::{AuthError, resolve};
use crate::devices::Devices;
use crate::notes::{EncryptedNote, Notes, NoteView, seq_has_id};
use crate::principal::{Principal, is_anonymous_view};

verus! {

/// Whether note operations demand a registered tenant, or merely a
/// non-anonymous caller. The two are distinct operating modes, not a
/// merged behaviour: a deployment without device registration runs
/// open, one with it runs strict.
#[derive(Clone, Copy, Debug, PartialEq, Eq, Structural)]
pub enum RegistrationMode {
    /// Note operations require the caller to have registered a device.
    Strict,
    /// Any non-anonymous caller may use the note store.
    Open,
}

/// The whole store: device registry and note store, keyed by tenant,
/// behind the identity gate.
pub struct Service {
    devices: Devices,
    notes: Notes,
    mode: RegistrationMode,
}

impl Service {
    pub closed spec fn wf(self) -> bool {
        self.devices.wf() && self.notes.wf()
    }

    pub closed spec fn mode_spec(self) -> RegistrationMode {
        self.mode
    }

    /// Whether a principal has any device entry.
    pub closed spec fn registered(self, p: Seq<u8>) -> bool {
        self.devices.registered(p)
    }

    /// A tenant's device aliases in registration order.
    pub closed spec fn aliases_of(self, p: Seq<u8>) -> Seq<Seq<char>> {
        self.devices.aliases_of(p)
    }

    /// The key a tenant registered under an alias, if any.
    pub closed spec fn device_key(self, p: Seq<u8>, a: Seq<char>) -> Option<Seq<char>> {
        self.devices.device_key(p, a)
    }

    /// A tenant's notes in insertion order.
    pub closed spec fn notes_of(self, p: Seq<u8>) -> Seq<NoteView> {
        self.notes.notes_of(p)
    }

    /// The id a tenant's next note would get.
    pub closed spec fn next_id_of(self, p: Seq<u8>) -> u128 {
        self.notes.next_id_of(p)
    }

    /// A caller may use the note store when it is not anonymous and,
    /// in strict mode, registered.
    pub open spec fn notes_authorized(self, p: Seq<u8>) -> bool {
        !is_anonymous_view(p)
            && (self.mode_spec() == RegistrationMode::Strict ==> self.registered(p))
    }

    /// A caller may list and delete its devices when it is not anonymous
    /// and registered.
    pub open spec fn devices_authorized(self, p: Seq<u8>) -> bool {
        !is_anonymous_view(p) && self.registered(p)
    }
}

/// No principal's device state differs between the two store values.
pub open spec fn devices_unchanged(pre: Service, post: Service) -> bool {
    &&& forall|q: Seq<u8>| #[trigger] post.registered(q) == pre.registered(q)
    &&& forall|q: Seq<u8>| #[trigger] post.aliases_of(q) == pre.aliases_of(q)
    &&& forall|q: Seq<u8>, a: Seq<char>| #[trigger] post.device_key(q, a) == pre.device_key(q, a)
}

/// No principal's note state differs between the two store values.
pub open spec fn notes_unchanged(pre: Service, post: Service) -> bool {
    &&& forall|q: Seq<u8>| #[trigger] post.notes_of(q) == pre.notes_of(q)
    &&& forall|q: Seq<u8>| #[trigger] post.next_id_of(q) == pre.next_id_of(q)
}

/// No principal other than `p` can observe a difference in device state.
pub open spec fn devices_unchanged_except(pre: Service, post: Service, p: Seq<u8>) -> bool {
    &&& forall|q: Seq<u8>| q != p ==> #[trigger] post.registered(q) == pre.registered(q)
    &&& forall|q: Seq<u8>| q != p ==> #[trigger] post.aliases_of(q) == pre.aliases_of(q)
    &&& forall|q: Seq<u8>, a: Seq<char>| q != p
        ==> #[trigger] post.device_key(q, a) == pre.device_key(q, a)
}

/// No principal other than `p` can observe a difference in note state.
pub open spec fn notes_unchanged_except(pre: Service, post: Service, p: Seq<u8>) -> bool {
    &&& forall|q: Seq<u8>| q != p ==> #[trigger] post.notes_of(q) == pre.notes_of(q)
    &&& forall|q: Seq<u8>| q != p ==> #[trigger] post.next_id_of(q) == pre.next_id_of(q)
}

/// The full-call behaviour of `register_device`.
pub open spec fn register_device_post(
    pre: Service,
    post: Service,
    p: Seq<u8>,
    alias: Seq<char>,
    key: Seq<char>,
    r: Result<(), AuthError>,
) -> bool {
    match r {
        Ok(_) => {
            &&& !is_anonymous_view(p)
            &&& post.mode_spec() == pre.mode_spec()
            &&& notes_unchanged(pre, post)
            &&& devices_unchanged_except(pre, post, p)
            &&& post.registered(p)
            &&& post.device_key(p, alias) == Some(key)
            &&& forall|a: Seq<char>| a != alias
                ==> #[trigger] post.device_key(p, a) == pre.device_key(p, a)
            &&& post.aliases_of(p) == (if pre.device_key(p, alias) is Some {
                pre.aliases_of(p)
            } else {
                pre.aliases_of(p).push(alias)
            })
        },
        Err(e) => {
            &&& post == pre
            &&& e == AuthError::Anonymous
            &&& is_anonymous_view(p)
        },
    }
}

/// The full-call behaviour of `delete_device`.
pub open spec fn delete_device_post(
    pre: Service,
    post: Service,
    p: Seq<u8>,
    alias: Seq<char>,
    r: Result<(), AuthError>,
) -> bool {
    match r {
        Ok(_) => {
            &&& pre.devices_authorized(p)
            &&& post.mode_spec() == pre.mode_spec()
            &&& notes_unchanged(pre, post)
            &&& devices_unchanged_except(pre, post, p)
            &&& post.registered(p) == pre.registered(p)
            &&& post.device_key(p, alias) == None::<Seq<char>>
            &&& forall|a: Seq<char>| a != alias
                ==> #[trigger] post.device_key(p, a) == pre.device_key(p, a)
            &&& (pre.device_key(p, alias) is Some ==> exists|i: int|
                0 <= i < pre.aliases_of(p).len() && pre.aliases_of(p)[i] == alias
                    && post.aliases_of(p) == pre.aliases_of(p).remove(i))
            &&& (pre.device_key(p, alias) is None ==> post.aliases_of(p) == pre.aliases_of(p))
        },
        Err(e) => {
            &&& post == pre
            &&& !pre.devices_authorized(p)
            &&& (e == AuthError::Anonymous <==> is_anonymous_view(p))
            &&& (e == AuthError::NotRegistered
                <==> (!is_anonymous_view(p) && !pre.registered(p)))
        },
    }
}

/// The full-call behaviour of `add_note`.
pub open spec fn add_note_post(
    pre: Service,
    post: Service,
    p: Seq<u8>,
    text: Seq<char>,
    r: Result<(), AuthError>,
) -> bool {
    match r {
        Ok(_) => {
            &&& pre.notes_authorized(p)
            &&& post.mode_spec() == pre.mode_spec()
            &&& devices_unchanged(pre, post)
            &&& notes_unchanged_except(pre, post, p)
            &&& if pre.next_id_of(p) < u128::MAX {
                &&& post.notes_of(p) == pre.notes_of(p).push(
                    NoteView { id: pre.next_id_of(p), data: text })
                &&& post.next_id_of(p) == pre.next_id_of(p) + 1
            } else {
                &&& post.notes_of(p) == pre.notes_of(p)
                &&& post.next_id_of(p) == pre.next_id_of(p)
            }
        },
        Err(e) => {
            &&& post == pre
            &&& !pre.notes_authorized(p)
            &&& (e == AuthError::Anonymous <==> is_anonymous_view(p))
            &&& (e == AuthError::NotRegistered
                <==> (!is_anonymous_view(p) && !pre.notes_authorized(p)))
        },
    }
}

/// The full-call behaviour of `update_note`.
pub open spec fn update_note_post(
    pre: Service,
    post: Service,
    p: Seq<u8>,
    id: u128,
    data: Seq<char>,
    r: Result<(), AuthError>,
) -> bool {
    match r {
        Ok(_) => {
            &&& pre.notes_authorized(p)
            &&& post.mode_spec() == pre.mode_spec()
            &&& devices_unchanged(pre, post)
            &&& notes_unchanged_except(pre, post, p)
            &&& post.next_id_of(p) == pre.next_id_of(p)
            &&& post.notes_of(p).len() == pre.notes_of(p).len()
            &&& forall|i: int| 0 <= i < pre.notes_of(p).len() ==> {
                &&& (#[trigger] post.notes_of(p)[i]).id == pre.notes_of(p)[i].id
                &&& (pre.notes_of(p)[i].id == id ==> post.notes_of(p)[i].data == data)
                &&& (pre.notes_of(p)[i].id != id
                    ==> post.notes_of(p)[i] == pre.notes_of(p)[i])
            }
        },
        Err(e) => {
            &&& post == pre
            &&& !pre.notes_authorized(p)
            &&& (e == AuthError::Anonymous <==> is_anonymous_view(p))
            &&& (e == AuthError::NotRegistered
                <==> (!is_anonymous_view(p) && !pre.notes_authorized(p)))
        },
    }
}

/// The full-call behaviour of `delete_note`.
pub open spec fn delete_note_post(
    pre: Service,
    post: Service,
    p: Seq<u8>,
    id: u128,
    r: Result<(), AuthError>,
) -> bool {
    match r {
        Ok(_) => {
            &&& pre.notes_authorized(p)
            &&& post.mode_spec() == pre.mode_spec()
            &&& devices_unchanged(pre, post)
            &&& notes_unchanged_except(pre, post, p)
            &&& post.next_id_of(p) == pre.next_id_of(p)
            &&& !seq_has_id(post.notes_of(p), id)
            &&& (seq_has_id(pre.notes_of(p), id) ==> exists|i: int|
                0 <= i < pre.notes_of(p).len() && pre.notes_of(p)[i].id == id
                    && post.notes_of(p) == pre.notes_of(p).remove(i))
            &&& (!seq_has_id(pre.notes_of(p), id) ==> post.notes_of(p) == pre.notes_of(p))
        },
        Err(e) => {
            &&& post == pre
            &&& !pre.notes_authorized(p)
            &&& (e == AuthError::Anonymous <==> is_anonymous_view(p))
            &&& (e == AuthError::NotRegistered
                <==> (!is_anonymous_view(p) && !pre.notes_authorized(p)))
        },
    }
}

/// Two store values that no caller can tell apart: same mode, and the
/// same device and note state for every principal.
pub open spec fn equiv(a: Service, b: Service) -> bool {
    &&& b.mode_spec() == a.mode_spec()
    &&& devices_unchanged(a, b)
    &&& notes_unchanged(a, b)
}

/// Within one tenant of a well-formed store, the stored note ids are
/// pairwise distinct — after any sequence of operations, since every
/// operation preserves well-formedness.
pub proof fn lemma_note_ids_unique(s: Service, p: Seq<u8>)
    requires
        s.wf(),
    ensures
        forall|i: int, j: int|
            #![trigger s.notes_of(p)[i], s.notes_of(p)[j]]
            0 <= i < s.notes_of(p).len() && 0 <= j < s.notes_of(p).len() && i != j
                ==> s.notes_of(p)[i].id != s.notes_of(p)[j].id,
{
    s.notes.lemma_ids_unique(p);
}

/// Within one tenant of a well-formed store, the registered device
/// aliases are pairwise distinct — after any sequence of operations,
/// since every operation preserves well-formedness.
pub proof fn lemma_aliases_unique(s: Service, p: Seq<u8>)
    requires
        s.wf(),
    ensures
        forall|i: int, j: int|
            #![trigger s.aliases_of(p)[i], s.aliases_of(p)[j]]
            0 <= i < s.aliases_of(p).len() && 0 <= j < s.aliases_of(p).len() && i != j
                ==> s.aliases_of(p)[i] != s.aliases_of(p)[j],
{
    s.devices.lemma_aliases_unique(p);
}

impl Service {
    /// An empty store in the given operating mode.
    pub fn new(mode: RegistrationMode) -> (s: Service)
        ensures
            s.wf(),
            s.mode_spec() == mode,
            forall|p: Seq<u8>| !(#[trigger] s.registered(p)),
            forall|p: Seq<u8>| #[trigger] s.aliases_of(p) == Seq::<Seq<char>>::empty(),
            forall|p: Seq<u8>, a: Seq<char>| #[trigger] s.device_key(p, a) == None::<Seq<char>>,
            forall|p: Seq<u8>| #[trigger] s.notes_of(p) == Seq::<NoteView>::empty(),
            forall|p: Seq<u8>| #[trigger] s.next_id_of(p) == 0,
    {
        Service { devices: Devices::new(), notes: Notes::new(), mode }
    }

    /// Whether the caller has any device entry.
    pub fn is_caller_registered(&self, caller: &Principal) -> (r: bool)
        requires
            self.wf(),
        ensures
            r == self.registered(caller@),
    {
        self.devices.is_registered(caller)
    }

    /// Gate for the note store: anonymous callers are always refused;
    /// in strict mode, so are unregistered ones.
    fn check_notes_access(&self, caller: &Principal) -> (r: Result<(), AuthError>)
        requires
            self.wf(),
        ensures
            match r {
                Ok(_) => self.notes_authorized(caller@),
                Err(e) => {
                    &&& !self.notes_authorized(caller@)
                    &&& (e == AuthError::Anonymous <==> is_anonymous_view(caller@))
                    &&& (e == AuthError::NotRegistered
                        <==> (!is_anonymous_view(caller@)
                            && !self.notes_authorized(caller@)))
                },
            },
    {
        match resolve(caller) {
            Ok(_) => {},
            Err(e) => {
                return Err(e);
            },
        }
        match self.mode {
            RegistrationMode::Open => Ok(()),
            RegistrationMode::Strict => {
                if self.devices.is_registered(caller) {
                    Ok(())
                } else {
                    Err(AuthError::NotRegistered)
                }
            },
        }
    }

    /// Gate for device queries and deletion: the caller must be a
    /// non-anonymous, registered tenant.
    fn check_device_access(&self, caller: &Principal) -> (r: Result<(), AuthError>)
        requires
            self.wf(),
        ensures
            match r {
                Ok(_) => self.devices_authorized(caller@),
                Err(e) => {
                    &&& !self.devices_authorized(caller@)
                    &&& (e == AuthError::Anonymous <==> is_anonymous_view(caller@))
                    &&& (e == AuthError::NotRegistered
                        <==> (!is_anonymous_view(caller@) && !self.registered(caller@)))
                },
            },
    {
        match resolve(caller) {
            Ok(_) => {},
            Err(e) => {
                return Err(e);
            },
        }
        if self.devices.is_registered(caller) {
            Ok(())
        } else {
            Err(AuthError::NotRegistered)
        }
    }

    /// Register (or overwrite) a device alias with its public key for
    /// the caller. Any non-anonymous caller may register; this is how a
    /// tenant comes to exist.
    pub fn register_device(&mut self, caller: &Principal, alias: String, key: String)
        -> (result: Result<(), AuthError>)
        requires
            old(self).wf(),
        ensures
            final(self).wf(),
            register_device_post(*old(self), *final(self), caller@, alias@, key@, result),
    {
        match resolve(caller) {
            Ok(_) => {},
            Err(e) => {
                return Err(e);
            },
        }
        self.devices.register_device(caller, alias, key);
        proof {
            assert forall|q: Seq<u8>| #[trigger] self.notes_of(q) == old(self).notes_of(q)
                && #[trigger] self.next_id_of(q) == old(self).next_id_of(q) by {}
        }
        Ok(())
    }

    /// The caller's device aliases, in registration order.
    pub fn get_device_aliases(&self, caller: &Principal) -> (result: Result<Vec<String>, AuthError>)
        requires
            self.wf(),
        ensures
            match result {
                Ok(r) => {
                    &&& self.devices_authorized(caller@)
                    &&& r@.len() == self.aliases_of(caller@).len()
                    &&& forall|i: int| 0 <= i < r@.len()
                        ==> #[trigger] r@[i]@ == self.aliases_of(caller@)[i]
                },
                Err(e) => {
                    &&& !self.devices_authorized(caller@)
                    &&& (e == AuthError::Anonymous <==> is_anonymous_view(caller@))
                    &&& (e == AuthError::NotRegistered
                        <==> (!is_anonymous_view(caller@) && !self.registered(caller@)))
                },
            },
    {
        match self.check_device_access(caller) {
            Ok(_) => Ok(self.devices.get_device_aliases(caller)),
            Err(e) => Err(e),
        }
    }

    /// Delete the caller's device under an alias; an absent alias is a
    /// silent no-op.
    pub fn delete_device(&mut self, caller: &Principal, alias: &String)
        -> (result: Result<(), AuthError>)
        requires
            old(self).wf(),
        ensures
            final(self).wf(),
            delete_device_post(*old(self), *final(self), caller@, alias@, result),
    {
        match self.check_device_access(caller) {
            Ok(_) => {
                self.devices.delete_device(caller, alias);
                proof {
                    let pre = *old(self);
                    let post = *self;
                    let p = caller@;
                    let al = alias@;
                    assert forall|q: Seq<u8>| #[trigger] post.notes_of(q) == pre.notes_of(q)
                        && #[trigger] post.next_id_of(q) == pre.next_id_of(q) by {}
                    assert forall|a: Seq<char>| a != al
                        implies #[trigger] post.device_key(p, a) == pre.device_key(p, a) by {
                        assert(post.devices.device_key(p, a) == pre.devices.device_key(p, a));
                    }
                    assert forall|q: Seq<u8>| q != p
                        implies #[trigger] post.registered(q) == pre.registered(q)
                            && #[trigger] post.aliases_of(q) == pre.aliases_of(q) by {
                        assert(post.devices.registered(q) == pre.devices.registered(q));
                        assert(post.devices.aliases_of(q) == pre.devices.aliases_of(q));
                    }
                    assert forall|q: Seq<u8>, a: Seq<char>| q != p
                        implies #[trigger] post.device_key(q, a) == pre.device_key(q, a) by {
                        assert(post.devices.device_key(q, a) == pre.devices.device_key(q, a));
                    }
                    if pre.device_key(p, al) is Some {
                        let i: int = choose|i: int|
                            0 <= i < pre.devices.aliases_of(p).len()
                                && pre.devices.aliases_of(p)[i] == al
                                && post.devices.aliases_of(p)
                                    == pre.devices.aliases_of(p).remove(i);
                        assert(0 <= i < pre.aliases_of(p).len()
                            && pre.aliases_of(p)[i] == al
                            && post.aliases_of(p) == pre.aliases_of(p).remove(i));
                    }
                }
                Ok(())
            },
            Err(e) => Err(e),
        }
    }

    /// The caller's notes, in insertion order.
    pub fn get_notes(&self, caller: &Principal) -> (result: Result<Vec<EncryptedNote>, AuthError>)
        requires
            self.wf(),
        ensures
            match result {
                Ok(r) => {
                    &&& self.notes_authorized(caller@)
                    &&& r@.len() == self.notes_of(caller@).len()
                    &&& forall|i: int| 0 <= i < r@.len()
                        ==> #[trigger] r@[i]@ == self.notes_of(caller@)[i]
                },
                Err(e) => {
                    &&& !self.notes_authorized(caller@)
                    &&& (e == AuthError::Anonymous <==> is_anonymous_view(caller@))
                    &&& (e == AuthError::NotRegistered
                        <==> (!is_anonymous_view(caller@)
                            && !self.notes_authorized(caller@)))
                },
            },
    {
        match self.check_notes_access(caller) {
            Ok(_) => Ok(self.notes.get_notes(caller)),
            Err(e) => Err(e),
        }
    }

    /// Store a note for the caller under a fresh id.
    pub fn add_note(&mut self, caller: &Principal, encrypted_text: String)
        -> (result: Result<(), AuthError>)
        requires
            old(self).wf(),
        ensures
            final(self).wf(),
            add_note_post(*old(self), *final(self), caller@, encrypted_text@, result),
    {
        match self.check_notes_access(caller) {
            Ok(_) => {
                self.notes.add_note(caller, encrypted_text);
                proof {
                    assert forall|q: Seq<u8>| #[trigger] self.registered(q) == old(self).registered(q)
                        && #[trigger] self.aliases_of(q) == old(self).aliases_of(q) by {}
                    assert forall|q: Seq<u8>, a: Seq<char>|
                        #[trigger] self.device_key(q, a) == old(self).device_key(q, a) by {}
                }
                Ok(())
            },
            Err(e) => Err(e),
        }
    }

    /// Replace the data of the caller's note carrying the given note's
    /// id, keeping the id; an absent id is a silent no-op.
    pub fn update_note(&mut self, caller: &Principal, new_note: EncryptedNote)
        -> (result: Result<(), AuthError>)
        requires
            old(self).wf(),
        ensures
            final(self).wf(),
            update_note_post(
                *old(self), *final(self), caller@, new_note.id, new_note.data@, result),
    {
        match self.check_notes_access(caller) {
            Ok(_) => {
                self.notes.update_note(caller, new_note);
                proof {
                    assert forall|q: Seq<u8>| #[trigger] self.registered(q) == old(self).registered(q)
                        && #[trigger] self.aliases_of(q) == old(self).aliases_of(q) by {}
                    assert forall|q: Seq<u8>, a: Seq<char>|
                        #[trigger] self.device_key(q, a) == old(self).device_key(q, a) by {}
                }
                Ok(())
            },
            Err(e) => Err(e),
        }
    }

    /// Delete the caller's note under an id; an absent id is a silent
    /// no-op.
    pub fn delete_note(&mut self, caller: &Principal, id: u128)
        -> (result: Result<(), AuthError>)
        requires
            old(self).wf(),
        ensures
            final(self).wf(),
            delete_note_post(*old(self), *final(self), caller@, id, result),
    {
        match self.check_notes_access(caller) {
            Ok(_) => {
                self.notes.delete_note(caller, id);
                proof {
                    assert forall|q: Seq<u8>| #[trigger] self.registered(q) == old(self).registered(q)
                        && #[trigger] self.aliases_of(q) == old(self).aliases_of(q) by {}
                    assert forall|q: Seq<u8>, a: Seq<char>|
                        #[trigger] self.device_key(q, a) == old(self).device_key(q, a) by {}
                }
                Ok(())
            },
            Err(e) => Err(e),
        }
    }
}

} // verus!
