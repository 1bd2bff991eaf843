//! 256-bit content-derived identifiers.

use vstd::prelude::*;

verus! {

/// A 256-bit identifier, derived deterministically from object content.
///
/// The all-zero value is reserved as the sentinel "no real ancestor" parent
/// of root commits.
#[derive(Clone, Copy, Debug, Eq, Hash, PartialEq)]
pub struct Id(pub [u8; 32]);

impl View for Id {
    type V = Seq<u8>;

    open spec fn view(&self) -> Seq<u8> {
        self.0@
    }
}

/// The reserved all-zero sentinel identifier, denoting "no real ancestor".
pub open spec fn spec_sentinel_id() -> Seq<u8> {
    Seq::new(32, |i: int| 0u8)
}

impl Id {
    /// The sentinel root identifier: 32 zero bytes.
    pub fn sentinel() -> (r: Id)
        ensures
            r@ == spec_sentinel_id(),
    {
        let r = Id([0u8; 32]);
        proof {
            assert(r@ =~= spec_sentinel_id());
        }
        r
    }

    /// The identifier as 32 raw bytes: its wire shape.
    pub fn to_vec(&self) -> (r: Vec<u8>)
        ensures
            r@ == self@,
    {
        let mut r: Vec<u8> = Vec::new();
        let mut i: usize = 0;
        while i < 32
            invariant
                i <= 32,
                r@ == self@.take(i as int),
            decreases 32 - i,
        {
            r.push(self.0[i]);
            proof {
                assert(r@ =~= self@.take(i + 1 as int));
            }
            i += 1;
        }
        proof {
            assert(self@.take(32) =~= self@);
        }
        r
    }

    /// Read an identifier from its wire shape; anything but exactly 32 bytes
    /// is rejected.
    pub fn from_bytes(bytes: &[u8]) -> (r: Option<Id>)
        ensures
            match r {
                Some(id) => bytes@.len() == 32 && id@ == bytes@,
                None => bytes@.len() != 32,
            },
    {
        if bytes.len() != 32 {
            return None;
        }
        let mut a = [0u8; 32];
        let mut i: usize = 0;
        while i < 32
            invariant
                i <= 32,
                bytes@.len() == 32,
                forall|k: int| 0 <= k < i ==> a@[k] == bytes@[k],
            decreases 32 - i,
        {
            a[i] = bytes[i];
            i += 1;
        }
        let id = Id(a);
        proof {
            assert(id@ =~= bytes@);
        }
        Some(id)
    }

    /// Compare two identifiers byte for byte.
    pub fn same(&self, other: &Id) -> (r: bool)
        ensures
            r == (self@ == other@),
    {
        let mut i: usize = 0;
        while i < 32
            invariant
                i <= 32,
                forall|j: int| 0 <= j < i ==> self@[j] == other@[j],
            decreases 32 - i,
        {
            if self.0[i] != other.0[i] {
                assert(self@[i as int] != other@[i as int]);
                return false;
            }
            i += 1;
        }
        proof {
            assert(self@ =~= other@);
        }
        true
    }
}

} // verus!
