//! The fixed-input-length compression function.
//!
//! Parameters are derived deterministically from caller-supplied randomness.
//! One call compresses two digests into one: `compress(l, r) = 2*l + 3*r + s`
//! modulo `P`, where `s` is the parameter element. A leaf is absorbed byte by
//! byte through the same compression. The multipliers `2` and `3` are coprime
//! to the odd prime `P`, which makes one call injective in each argument
//! separately and order-sensitive; those three facts are proved below and
//! carry the tamper-evidence of the commitment tree.

use vstd::prelude::*;

use vstd::arithmetic::div_mod::lemma_fundamental_div_mod;
use vstd::arithmetic::div_mod::lemma_sub_mod_noop;

use crate::field::{Fr, P};

verus! {

/// The byte length of one leaf of the commitment tree, which is also the
/// fixed input length of leaf absorption.
pub const LEAF_LEN: usize = 30;

/// Reusable hash parameters: the generator material, one field element.
#[derive(Clone, Copy, PartialEq, Eq, Structural, Debug)]
pub struct CrhParameters {
    pub s: Fr,
}

impl CrhParameters {
    pub open spec fn inv(self) -> bool {
        self.s.inv()
    }
}

/// Derives hash parameters from randomness; deterministic in its argument.
pub fn setup(randomness: u64) -> (p: CrhParameters)
    ensures
        p.inv(),
        p.s.v == randomness % P,
{
    CrhParameters { s: Fr::from_u64(randomness) }
}

/// What one compression call returns: `2*l + 3*r + s` reduced modulo `P`.
pub open spec fn compress_val(s: int, l: int, r: int) -> int {
    (2 * l + 3 * r + s) % (P as int)
}

/// Compresses two digests into one.
pub fn compress(params: &CrhParameters, l: Fr, r: Fr) -> (d: Fr)
    requires
        params.inv(),
        l.inv(),
        r.inv(),
    ensures
        d.inv(),
        d.v == compress_val(params.s.v as int, l.v as int, r.v as int),
{
    Fr { v: (2 * l.v + 3 * r.v + params.s.v) % P }
}

/// The digest of one leaf: the parameter element, then one compression per
/// byte, the byte standing on the right.
pub open spec fn hash_leaf_val(s: int, bytes: Seq<u8>) -> int
    decreases bytes.len(),
{
    if bytes.len() == 0 {
        s
    } else {
        compress_val(s, hash_leaf_val(s, bytes.drop_last()), bytes.last() as int)
    }
}

/// Hashes one fixed-length leaf to a digest.
pub fn hash_leaf(params: &CrhParameters, bytes: &Vec<u8>) -> (d: Fr)
    requires
        params.inv(),
        bytes@.len() == LEAF_LEN,
    ensures
        d.inv(),
        d.v == hash_leaf_val(params.s.v as int, bytes@),
{
    let mut d = params.s;
    let n = bytes.len();
    for j in 0..n
        invariant
            n == bytes@.len(),
            params.inv(),
            d.inv(),
            d.v == hash_leaf_val(params.s.v as int, bytes@.take(j as int)),
    {
        let b = Fr::from_u64(bytes[j] as u64);
        proof {
            vstd::arithmetic::div_mod::lemma_small_mod(bytes@[j as int] as nat, P as nat);
        }
        d = compress(params, d, b);
        proof {
            assert(bytes@.take(j + 1).drop_last() =~= bytes@.take(j as int));
            assert(bytes@.take(j + 1).last() == bytes@[j as int]);
        }
    }
    proof {
        assert(bytes@.take(n as int) =~= bytes@);
    }
    d
}

/// An integer multiple of `P` strictly between `-3P` and `3P` is one of the
/// five obvious ones.
proof fn lemma_small_multiple(x: int)
    requires
        x % (P as int) == 0,
        -3 * (P as int) < x < 3 * (P as int),
    ensures
        x == -2 * (P as int) || x == -(P as int) || x == 0 || x == (P as int) || x == 2 * (
        P as int),
{
    let pi = P as int;
    lemma_fundamental_div_mod(x, pi);
    let q = x / pi;
    assert(x == pi * q);
    assert(-3 < q < 3) by (nonlinear_arith)
        requires
            x == pi * q,
            -3 * pi < x < 3 * pi,
            pi > 0,
    ;
}

/// Two reduced compression results that agree force their unreduced
/// difference to be a multiple of `P`.
proof fn lemma_congruent_difference(a: int, b: int)
    requires
        a % (P as int) == b % (P as int),
    ensures
        (a - b) % (P as int) == 0,
{
    let pi = P as int;
    lemma_sub_mod_noop(a, b, pi);
}

/// Compression is injective in its left argument.
pub proof fn lemma_compress_left_injective(s: int, l1: int, l2: int, r: int)
    requires
        0 <= s < P,
        0 <= l1 < P,
        0 <= l2 < P,
        0 <= r < P,
        l1 != l2,
    ensures
        compress_val(s, l1, r) != compress_val(s, l2, r),
{
    let a = 2 * l1 + 3 * r + s;
    let b = 2 * l2 + 3 * r + s;
    if compress_val(s, l1, r) == compress_val(s, l2, r) {
        lemma_congruent_difference(a, b);
        assert(a - b == 2 * (l1 - l2));
        lemma_small_multiple(a - b);
        assert(false);
    }
}

/// Compression is injective in its right argument.
pub proof fn lemma_compress_right_injective(s: int, l: int, r1: int, r2: int)
    requires
        0 <= s < P,
        0 <= l < P,
        0 <= r1 < P,
        0 <= r2 < P,
        r1 != r2,
    ensures
        compress_val(s, l, r1) != compress_val(s, l, r2),
{
    let a = 2 * l + 3 * r1 + s;
    let b = 2 * l + 3 * r2 + s;
    if compress_val(s, l, r1) == compress_val(s, l, r2) {
        lemma_congruent_difference(a, b);
        assert(a - b == 3 * (r1 - r2));
        lemma_small_multiple(a - b);
        assert(false);
    }
}

/// Compression tells its two arguments apart: swapping distinct children
/// changes the digest.
pub proof fn lemma_compress_order_sensitive(s: int, l: int, r: int)
    requires
        0 <= s < P,
        0 <= l < P,
        0 <= r < P,
        l != r,
    ensures
        compress_val(s, l, r) != compress_val(s, r, l),
{
    let a = 2 * l + 3 * r + s;
    let b = 2 * r + 3 * l + s;
    if compress_val(s, l, r) == compress_val(s, r, l) {
        lemma_congruent_difference(a, b);
        assert(a - b == r - l);
        lemma_small_multiple(a - b);
        assert(false);
    }
}

} // verus!
