//! The scalar field that circuits are arithmetised over.
//!
//! Elements are residues modulo the prime `P`. Every operation returns a
//! reduced element, so arithmetic never overflows a `u64`: sums of two
//! residues stay below `2^32` and products below `2^62`.

use vstd::prelude::*;

verus! {

/// The prime modulus of the scalar field: `2^31 - 1`.
pub const P: u64 = 2147483647;

/// One scalar field element, kept reduced modulo `P`.
#[derive(Clone, Copy, PartialEq, Eq, Structural, Debug)]
pub struct Fr {
    pub v: u64,
}

impl Fr {
    /// A field element is well-formed when its representative is reduced.
    pub open spec fn inv(self) -> bool {
        self.v < P
    }

    pub fn zero() -> (r: Fr)
        ensures
            r.v == 0,
            r.inv(),
    {
        Fr { v: 0 }
    }

    pub fn one() -> (r: Fr)
        ensures
            r.v == 1,
            r.inv(),
    {
        Fr { v: 1 }
    }

    /// Embeds an integer into the field by reduction.
    pub fn from_u64(x: u64) -> (r: Fr)
        ensures
            r.inv(),
            r.v == x % P,
    {
        Fr { v: x % P }
    }

    pub fn add(self, other: Fr) -> (r: Fr)
        requires
            self.inv(),
            other.inv(),
        ensures
            r.inv(),
            r.v == (self.v + other.v) % (P as int),
    {
        Fr { v: (self.v + other.v) % P }
    }

    pub fn sub(self, other: Fr) -> (r: Fr)
        requires
            self.inv(),
            other.inv(),
        ensures
            r.inv(),
            r.v == (self.v + P - other.v) % (P as int),
    {
        Fr { v: (self.v + P - other.v) % P }
    }

    pub fn mul(self, other: Fr) -> (r: Fr)
        requires
            self.inv(),
            other.inv(),
        ensures
            r.inv(),
            r.v == (self.v * other.v) % (P as int),
    {
        proof {
            assert(self.v * other.v <= (P - 1) * (P - 1)) by (nonlinear_arith)
                requires
                    self.v < P,
                    other.v < P,
            ;
        }
        Fr { v: (self.v * other.v) % P }
    }

    /// The additive inverse.
    pub fn neg(self) -> (r: Fr)
        requires
            self.inv(),
        ensures
            r.inv(),
            r.v == (P - self.v) % (P as int),
    {
        Fr { v: (P - self.v) % P }
    }
}

} // verus!
