//! The opaque caller identity supplied by the hosting platform.

use vstd::prelude::*;

verus! {

/// The byte representation reserved for the anonymous identity.
pub open spec fn anonymous_bytes() -> Seq<u8> {
    seq![4u8]
}

/// Whether a raw identity is the reserved anonymous one.
pub open spec fn is_anonymous_view(p: Seq<u8>) -> bool {
    p == anonymous_bytes()
}

/// An opaque, already-verified caller identity, held as the raw bytes the
/// host presents. This crate never creates or interprets identities beyond
/// recognising the reserved anonymous value, which is never a valid tenant.
pub struct Principal {
    bytes: Vec<u8>,
}

impl View for Principal {
    type V = Seq<u8>;

    closed spec fn view(&self) -> Seq<u8> {
        self.bytes@
    }
}

impl Principal {
    /// Wrap the raw bytes the host presents for a caller.
    pub fn from_bytes(bytes: Vec<u8>) -> (p: Principal)
        ensures
            p@ == bytes@,
    {
        Principal { bytes }
    }

    /// The reserved anonymous identity.
    pub fn anonymous() -> (p: Principal)
        ensures
            is_anonymous_view(p@),
    {
        let mut bytes: Vec<u8> = Vec::new();
        bytes.push(4u8);
        proof {
            assert(bytes@ =~= anonymous_bytes());
        }
        Principal { bytes }
    }

    pub open spec fn is_anonymous_spec(&self) -> bool {
        is_anonymous_view(self@)
    }

    /// Whether this is the reserved anonymous identity.
    pub fn is_anonymous(&self) -> (r: bool)
        ensures
            r == self.is_anonymous_spec(),
    {
        if self.bytes.len() != 1 {
            proof {
                if is_anonymous_view(self@) {
                    assert(self@.len() == anonymous_bytes().len());
                }
            }
            false
        } else {
            let b = self.bytes[0];
            if b == 4u8 {
                proof {
                    assert(self@ =~= anonymous_bytes());
                }
                true
            } else {
                proof {
                    if is_anonymous_view(self@) {
                        assert(self@[0] == anonymous_bytes()[0]);
                    }
                }
                false
            }
        }
    }

    /// Whether two identities are the same principal.
    pub fn same_as(&self, other: &Principal) -> (r: bool)
        ensures
            r == (self@ == other@),
    {
        if self.bytes.len() != other.bytes.len() {
            proof {
                if self@ == other@ {
                    assert(self@.len() == other@.len());
                }
            }
            return false;
        }
        let n = self.bytes.len();
        let mut i: usize = 0;
        while i < n
            invariant
                n == self.bytes@.len(),
                n == other.bytes@.len(),
                i <= n,
                forall|j: int| 0 <= j < i ==> self.bytes@[j] == other.bytes@[j],
            decreases n - i,
        {
            if self.bytes[i] != other.bytes[i] {
                proof {
                    if self@ == other@ {
                        assert(self@[i as int] == other@[i as int]);
                    }
                }
                return false;
            }
            i += 1;
        }
        proof {
            assert(self@ =~= other@);
        }
        true
    }
}

impl Clone for Principal {
    /// An identical copy of the identity.
    fn clone(&self) -> (r: Self)
        ensures
            r@ == self@,
    {
        let n = self.bytes.len();
        let mut bytes: Vec<u8> = Vec::new();
        let mut i: usize = 0;
        while i < n
            invariant
                n == self.bytes@.len(),
                i <= n,
                bytes@ == self.bytes@.take(i as int),
            decreases n - i,
        {
            bytes.push(self.bytes[i]);
            i += 1;
            proof {
                assert(bytes@ =~= self.bytes@.take(i as int));
            }
        }
        proof {
            assert(self.bytes@.take(n as int) =~= self.bytes@);
        }
        Principal { bytes }
    }
}

} // verus!
