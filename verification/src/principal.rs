//! Caller identities.

use crate::table::{Duplicate, Key};
use vstd::prelude::*;

verus! {

/// The longest byte string that identifies a caller.
pub const MAX_PRINCIPAL_LENGTH: usize = 29;

/// The single byte that makes up the anonymous identity.
pub const ANONYMOUS_TAG: u8 = 4;

/// The identity of a caller: an opaque byte string of at most
/// [`MAX_PRINCIPAL_LENGTH`] bytes.
#[derive(Debug, PartialEq, Eq)]
pub struct Principal {
    bytes: Vec<u8>,
}

impl View for Principal {
    type V = Seq<u8>;

    closed spec fn view(&self) -> Seq<u8> {
        self.bytes@
    }
}

/// The bytes of the anonymous identity.
pub open spec fn anonymous_bytes() -> Seq<u8> {
    seq![ANONYMOUS_TAG]
}

impl Principal {
    /// Every principal built by this module is at most 29 bytes long.
    #[verifier::type_invariant]
    pub closed spec fn bounded(&self) -> bool {
        self.bytes@.len() <= MAX_PRINCIPAL_LENGTH
    }

    /// The principal with the given bytes, or `None` when there are more
    /// than [`MAX_PRINCIPAL_LENGTH`] of them.
    pub fn from_slice(bytes: &[u8]) -> (r: Option<Principal>)
        ensures
            r is Some <==> bytes@.len() <= MAX_PRINCIPAL_LENGTH,
            r matches Some(p) ==> p@ == bytes@,
    {
        if bytes.len() > MAX_PRINCIPAL_LENGTH {
            return None;
        }
        let mut copy: Vec<u8> = Vec::new();
        let mut i: usize = 0;
        while i < bytes.len()
            invariant
                i <= bytes.len(),
                bytes@.len() <= MAX_PRINCIPAL_LENGTH,
                copy@ == bytes@.subrange(0, i as int),
            decreases bytes.len() - i,
        {
            copy.push(bytes[i]);
            i += 1;
        }
        Some(Principal { bytes: copy })
    }

    /// The anonymous principal.
    pub fn anonymous() -> (r: Principal)
        ensures
            r@ == anonymous_bytes(),
    {
        let mut bytes: Vec<u8> = Vec::new();
        bytes.push(ANONYMOUS_TAG);
        Principal { bytes }
    }

    /// The bytes of this principal.
    pub fn as_slice(&self) -> (r: &[u8])
        ensures
            r@ == self@,
            r@.len() <= MAX_PRINCIPAL_LENGTH,
    {
        proof {
            use_type_invariant(self);
        }
        self.bytes.as_slice()
    }

    /// Whether this is the anonymous principal.
    pub fn is_anonymous(&self) -> (r: bool)
        ensures
            r == (self@ == anonymous_bytes()),
    {
        let r = self.bytes.len() == 1 && self.bytes[0] == ANONYMOUS_TAG;
        proof {
            if r {
                assert(self@ =~= anonymous_bytes());
            }
        }
        r
    }

}

impl Clone for Principal {
    fn clone(&self) -> (r: Self)
        ensures
            r@ == self@,
    {
        proof {
            use_type_invariant(self);
        }
        let bytes = copy_bytes(&self.bytes);
        Principal { bytes }
    }
}

impl DeepView for Principal {
    type V = Seq<u8>;

    open spec fn deep_view(&self) -> Seq<u8> {
        self@
    }
}

impl Duplicate for Principal {
    fn duplicate(&self) -> (r: Self) {
        proof {
            use_type_invariant(self);
        }
        let bytes = copy_bytes(&self.bytes);
        Principal { bytes }
    }
}

impl Key for Principal {
    fn same(&self, other: &Self) -> (r: bool) {
        same_bytes(&self.bytes, &other.bytes)
    }
}

/// Whether two byte vectors hold the same bytes.
pub fn same_bytes(a: &Vec<u8>, b: &Vec<u8>) -> (r: bool)
    ensures
        r == (a@ == b@),
{
    if a.len() != b.len() {
        return false;
    }
    let mut i: usize = 0;
    while i < a.len()
        invariant
            i <= a.len(),
            a.len() == b.len(),
            forall|j: int| 0 <= j < i ==> a@[j] == b@[j],
        decreases a.len() - i,
    {
        if a[i] != b[i] {
            return false;
        }
        i += 1;
    }
    assert(a@ =~= b@);
    true
}

/// A copy of a byte vector.
pub fn copy_bytes(bytes: &Vec<u8>) -> (r: Vec<u8>)
    ensures
        r@ == bytes@,
{
    let mut copy: Vec<u8> = Vec::new();
    let mut i: usize = 0;
    while i < bytes.len()
        invariant
            i <= bytes.len(),
            copy@ == bytes@.take(i as int),
        decreases bytes.len() - i,
    {
        copy.push(bytes[i]);
        assert(bytes@.take(i + 1) =~= bytes@.take(i as int).push(bytes@[i as int]));
        i += 1;
    }
    assert(bytes@.take(i as int) =~= bytes@);
    copy
}

/// Whether `list` names `who`.
pub fn names(list: &Vec<Principal>, who: &Principal) -> (r: bool)
    ensures
        r == list.deep_view().contains(who@),
{
    let mut i: usize = 0;
    while i < list.len()
        invariant
            i <= list.len(),
            forall|j: int| 0 <= j < i ==> list.deep_view()[j] != who@,
        decreases list.len() - i,
    {
        if list[i].same(who) {
            assert(list.deep_view()[i as int] == who@);
            return true;
        }
        i += 1;
    }
    false
}

} // verus!
