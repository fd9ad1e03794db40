//! The identity gate: every entry point passes the caller through it
//! before any state is touched.

use vstd::prelude::*;
use crate::principal::{Principal, is_anonymous_view};

verus! {

/// Why the identity gate refused a call. A refused call aborts whole,
/// with no state change.
#[derive(Clone, Copy, Debug, PartialEq, Eq, Structural)]
pub enum AuthError {
    /// The caller presented the reserved anonymous identity.
    Anonymous,
    /// The caller has no device entry in a registry that requires one.
    NotRegistered,
}

/// Admit the caller only if it is not the anonymous identity.
pub fn resolve(caller: &Principal) -> (r: Result<(), AuthError>)
    ensures
        match r {
            Ok(_) => !is_anonymous_view(caller@),
            Err(e) => is_anonymous_view(caller@) && e == AuthError::Anonymous,
        },
{
    if caller.is_anonymous() {
        Err(AuthError::Anonymous)
    } else {
        Ok(())
    }
}

} // verus!
