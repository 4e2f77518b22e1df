//! Unhardened child-derivation indices.
//!
//! Hierarchical key derivation uses 32-bit child indices; the upper half of
//! that space ("hardened" indices) requires extra secret material and is
//! rejected wherever this crate needs a usable scan count.

use vstd::prelude::*;

verus! {

/// First index of the hardened half of the 32-bit index space. Indices
/// strictly below this bound are unhardened.
pub const HARDENED_INDEX_BOUNDARY: u32 = 0x8000_0000;

/// A 32-bit child-derivation index restricted to the unhardened half of the
/// index space. Values are compared by their plain numeric value.
#[derive(Copy, Clone, PartialEq, Eq, PartialOrd, Ord, Debug)]
pub struct UnhardenedIndex {
    index: u32,
}

impl View for UnhardenedIndex {
    type V = u32;

    closed spec fn view(&self) -> u32 {
        self.index
    }
}

impl UnhardenedIndex {
    /// Every value of this type lies strictly below the hardened boundary.
    #[verifier::type_invariant]
    pub closed spec fn inv(self) -> bool {
        self.index < HARDENED_INDEX_BOUNDARY
    }

    /// The index with value one: the count that the bare `first` and
    /// `random` directives stand for.
    pub fn one() -> (r: Self)
        ensures
            r@ == 1,
    {
        UnhardenedIndex { index: 1 }
    }

    /// Checks a raw 32-bit value against the hardened boundary: accepted
    /// exactly when its top bit is clear.
    pub fn from_index(index: u32) -> (r: Option<Self>)
        ensures
            r is Some <==> index < HARDENED_INDEX_BOUNDARY,
            r is Some ==> r->0@ == index,
    {
        if index < HARDENED_INDEX_BOUNDARY {
            Some(UnhardenedIndex { index })
        } else {
            None
        }
    }

    /// The plain numeric value of the index, always strictly below the
    /// hardened boundary.
    pub fn index(self) -> (r: u32)
        ensures
            r == self@,
            r < HARDENED_INDEX_BOUNDARY,
    {
        proof {
            use_type_invariant(self);
        }
        self.index
    }
}

} // verus!
