//! The commitment tree: a complete binary hash tree of fixed height.
//!
//! The tree is built wholesale from a leaf batch; slots beyond the batch hold
//! the digest of a zero-filled leaf. Each internal digest compresses its two
//! children. A membership path carries, from leaf level upward, the sibling
//! digest and whether the authenticated node is the right child; the native
//! path check climbs the path and compares against the root.

use vstd::prelude::*;

use vstd::arithmetic::div_mod::lemma_div_denominator;
use vstd::arithmetic::div_mod::lemma_multiply_divide_lt;
use vstd::arithmetic::power2::lemma_pow2_adds;
use vstd::arithmetic::power2::lemma_pow2_pos;
use vstd::arithmetic::power2::lemma_pow2_unfold;
use vstd::arithmetic::power2::lemma2_to64;
use vstd::arithmetic::power2::pow2;

use crate::crh::{compress, compress_val, hash_leaf, hash_leaf_val, CrhParameters, LEAF_LEN};
use crate::cs::{values_inv, SynthesisError};
use crate::field::Fr;

verus! {

/// The largest supported tree height: a machine limit, so that the node
/// count fits comfortably in memory and a `usize`.
pub const MAX_HEIGHT: usize = 20;

/// The zero-filled leaf standing in for every absent slot.
pub open spec fn empty_leaf() -> Seq<u8> {
    Seq::new(LEAF_LEN as nat, |i: int| 0u8)
}

/// The authenticated node's slot index at one level: the leaf index with the
/// lowest `k` bits shifted away.
pub open spec fn idx_at(index: int, k: nat) -> int {
    index / pow2(k) as int
}

/// The slot index of the sibling at one level.
pub open spec fn sib_at(index: int, k: nat) -> int {
    if idx_at(index, k) % 2 == 0 {
        idx_at(index, k) + 1
    } else {
        idx_at(index, k) - 1
    }
}

/// One step of the native path check: compress current and sibling digest in
/// the order the position bit claims (`right` meaning the authenticated node
/// is the right child).
pub open spec fn climb_step(s: int, cur: int, sib: int, right: bool) -> int {
    if right {
        compress_val(s, sib, cur)
    } else {
        compress_val(s, cur, sib)
    }
}

/// The digest the native path check reaches from `d0` along the whole path.
pub open spec fn climb(s: int, d0: int, sibs: Seq<Fr>, pos: Seq<bool>) -> int
    decreases sibs.len(),
{
    if sibs.len() == 0 {
        d0
    } else {
        climb(s, climb_step(s, d0, sibs[0].v as int, pos[0]), sibs.skip(1), pos.skip(1))
    }
}

/// For a given leaf index, the sibling digests from leaf to root, paired with
/// the position of the authenticated node at each level. A pure value,
/// independent of the tree after generation.
#[derive(Clone, Debug)]
pub struct MembershipPath {
    pub siblings: Vec<Fr>,
    pub positions: Vec<bool>,
}

impl MembershipPath {
    pub open spec fn wf(self) -> bool {
        self.siblings@.len() == self.positions@.len() && values_inv(self.siblings@)
    }

    pub open spec fn height(self) -> int {
        self.siblings@.len() as int
    }
}

pub struct MerkleTree {
    pub params: CrhParameters,
    pub height: usize,
    pub levels: Vec<Vec<Fr>>,
}

impl MerkleTree {
    /// The digest stored at level `k`, slot `j` (level `0` holds the leaf
    /// digests; level `height` holds the root alone).
    pub open spec fn node(self, k: int, j: int) -> int {
        self.levels@[k]@[j].v as int
    }

    pub open spec fn root_val(self) -> int {
        self.node(self.height as int, 0)
    }

    pub open spec fn wf(self) -> bool {
        &&& self.params.inv()
        &&& self.height <= MAX_HEIGHT
        &&& self.levels@.len() == self.height + 1
        &&& forall|k: int|
            0 <= k <= self.height ==> (#[trigger] self.levels@[k])@.len() == pow2(
                (self.height - k) as nat,
            )
        &&& forall|k: int| 0 <= k <= self.height ==> values_inv(#[trigger] self.levels@[k]@)
        &&& forall|k: int, j: int|
            1 <= k <= self.height && 0 <= j < pow2((self.height - k) as nat) ==> #[trigger] self.node(
                k,
                j,
            ) == compress_val(self.params.s.v as int, self.node(k - 1, 2 * j), self.node(k - 1, 2 * j + 1))
    }

    /// Builds the whole tree bottom-up from a leaf batch. Fails exactly when
    /// the batch exceeds the capacity `2^height`.
    #[verifier::rlimit(60)]
    pub fn build(params: &CrhParameters, height: usize, leaves: &Vec<Vec<u8>>) -> (r: Result<
        MerkleTree,
        SynthesisError,
    >)
        requires
            params.inv(),
            height <= MAX_HEIGHT,
            forall|i: int| 0 <= i < leaves@.len() ==> (#[trigger] leaves@[i])@.len() == LEAF_LEN,
        ensures
            match r {
                Ok(t) => {
                    &&& leaves@.len() <= pow2(height as nat)
                    &&& t.wf()
                    &&& t.height == height
                    &&& t.params == *params
                    &&& forall|i: int|
                        0 <= i < pow2(height as nat) ==> #[trigger] t.node(0, i) == (if i
                            < leaves@.len() {
                            hash_leaf_val(params.s.v as int, leaves@[i]@)
                        } else {
                            hash_leaf_val(params.s.v as int, empty_leaf())
                        })
                },
                Err(e) => e == SynthesisError::TreeTooLarge && leaves@.len() > pow2(height as nat),
            },
    {
        let capacity = pow2_exec(height);
        if leaves.len() > capacity {
            return Err(SynthesisError::TreeTooLarge);
        }
        let mut zero_leaf: Vec<u8> = Vec::new();
        let mut z: usize = 0;
        while z < LEAF_LEN
            invariant
                z <= LEAF_LEN,
                zero_leaf@.len() == z,
                forall|i: int| 0 <= i < z ==> zero_leaf@[i] == 0u8,
            decreases LEAF_LEN - z,
        {
            zero_leaf.push(0u8);
            z = z + 1;
        }
        proof {
            assert(zero_leaf@ =~= empty_leaf());
        }
        let empty_digest = hash_leaf(params, &zero_leaf);

        let mut level0: Vec<Fr> = Vec::new();
        let mut i: usize = 0;
        while i < capacity
            invariant
                i <= capacity,
                capacity == pow2(height as nat),
                params.inv(),
                level0@.len() == i,
                values_inv(level0@),
                empty_digest.inv(),
                empty_digest.v == hash_leaf_val(params.s.v as int, empty_leaf()),
                forall|i: int| 0 <= i < leaves@.len() ==> (#[trigger] leaves@[i])@.len() == LEAF_LEN,
                forall|j: int|
                    0 <= j < i ==> (#[trigger] level0@[j]).v == (if j < leaves@.len() {
                        hash_leaf_val(params.s.v as int, leaves@[j]@)
                    } else {
                        hash_leaf_val(params.s.v as int, empty_leaf())
                    }),
            decreases capacity - i,
        {
            if i < leaves.len() {
                let d = hash_leaf(params, &leaves[i]);
                level0.push(d);
            } else {
                level0.push(empty_digest);
            }
            i = i + 1;
        }

        let mut levels: Vec<Vec<Fr>> = Vec::new();
        levels.push(level0);
        let mut k: usize = 0;
        while k < height
            invariant
                k <= height,
                height <= MAX_HEIGHT,
                capacity == pow2(height as nat),
                params.inv(),
                levels@.len() == k + 1,
                forall|m: int|
                    0 <= m <= k ==> (#[trigger] levels@[m])@.len() == pow2((height - m) as nat),
                forall|m: int| 0 <= m <= k ==> values_inv(#[trigger] levels@[m]@),
                forall|m: int, j: int|
                    1 <= m <= k && 0 <= j < pow2((height - m) as nat)
                        ==> (#[trigger] levels@[m]@[j]).v == compress_val(
                        params.s.v as int,
                        levels@[m - 1]@[2 * j].v as int,
                        levels@[m - 1]@[2 * j + 1].v as int,
                    ),
                forall|q: int|
                    0 <= q < pow2(height as nat) ==> (#[trigger] levels@[0]@[q]).v == (if q
                        < leaves@.len() {
                        hash_leaf_val(params.s.v as int, leaves@[q]@)
                    } else {
                        hash_leaf_val(params.s.v as int, empty_leaf())
                    }),
            decreases height - k,
        {
            let prev_len = levels[k].len();
            proof {
                lemma_pow2_unfold((height - k) as nat);
            }
            let next_len = prev_len / 2;
            proof {
                lemma2_to64();
                if (height - k) < MAX_HEIGHT {
                    vstd::arithmetic::power2::lemma_pow2_strictly_increases(
                        (height - k) as nat,
                        MAX_HEIGHT as nat,
                    );
                }
            }
            let mut next: Vec<Fr> = Vec::new();
            let mut j: usize = 0;
            while j < next_len
                invariant
                    j <= next_len,
                    next_len <= 524288,
                    k < levels@.len(),
                    params.inv(),
                    values_inv(levels@[k as int]@),
                    levels@[k as int]@.len() == 2 * next_len,
                    next@.len() == j,
                    values_inv(next@),
                    forall|q: int|
                        0 <= q < j ==> (#[trigger] next@[q]).v == compress_val(
                            params.s.v as int,
                            levels@[k as int]@[2 * q].v as int,
                            levels@[k as int]@[2 * q + 1].v as int,
                        ),
                decreases next_len - j,
            {
                let a = levels[k][2 * j];
                let b = levels[k][2 * j + 1];
                let d = compress(params, a, b);
                next.push(d);
                j = j + 1;
            }
            proof {
                assert(next@.len() == pow2((height - k - 1) as nat)) by {
                    lemma_pow2_unfold((height - k) as nat);
                }
            }
            levels.push(next);
            k = k + 1;
        }
        proof {
            lemma2_to64();
        }
        Ok(MerkleTree { params: *params, height, levels })
    }

    /// The root digest binding the whole leaf batch.
    pub fn root(&self) -> (r: Fr)
        requires
            self.wf(),
        ensures
            r.inv(),
            r.v == self.root_val(),
    {
        proof {
            lemma2_to64();
            assert(self.levels@[self.height as int]@.len() == pow2(0));
        }
        self.levels[self.height][0]
    }

    /// The membership path for one leaf slot. Fails exactly when the index is
    /// at or beyond the capacity `2^height`. The path does not depend on the
    /// leaf value; the caller-supplied leaf only names the slot's contents.
    #[allow(unused_variables)]
    pub fn path_for(&self, index: usize, leaf: &Vec<u8>) -> (r: Result<
        MembershipPath,
        SynthesisError,
    >)
        requires
            self.wf(),
        ensures
            match r {
                Ok(p) => {
                    &&& index < pow2(self.height as nat)
                    &&& p.wf()
                    &&& p.height() == self.height
                    &&& forall|k: int|
                        0 <= k < self.height ==> (#[trigger] p.siblings@[k]).v == self.node(
                            k,
                            sib_at(index as int, k as nat),
                        )
                    &&& forall|k: int|
                        0 <= k < self.height ==> (#[trigger] p.positions@[k]) == (idx_at(
                            index as int,
                            k as nat,
                        ) % 2 == 1)
                },
                Err(e) => e == SynthesisError::IndexOutOfRange && index >= pow2(
                    self.height as nat,
                ),
            },
    {
        let capacity = pow2_exec(self.height);
        if index >= capacity {
            return Err(SynthesisError::IndexOutOfRange);
        }
        let mut siblings: Vec<Fr> = Vec::new();
        let mut positions: Vec<bool> = Vec::new();
        let mut cur = index;
        let mut k: usize = 0;
        proof {
            lemma2_to64();
        }
        while k < self.height
            invariant
                k <= self.height,
                self.wf(),
                index < pow2(self.height as nat),
                cur == idx_at(index as int, k as nat),
                siblings@.len() == k,
                positions@.len() == k,
                values_inv(siblings@),
                forall|m: int|
                    0 <= m < k ==> (#[trigger] siblings@[m]).v == self.node(
                        m,
                        sib_at(index as int, m as nat),
                    ),
                forall|m: int|
                    0 <= m < k ==> (#[trigger] positions@[m]) == (idx_at(index as int, m as nat) % 2
                        == 1),
            decreases self.height - k,
        {
            proof {
                lemma_level_slot_bound(index as int, self.height as nat, k as nat);
                lemma_pow2_unfold((self.height - k) as nat);
            }
            let sib = if cur % 2 == 0 {
                cur + 1
            } else {
                cur - 1
            };
            siblings.push(self.levels[k][sib]);
            positions.push(cur % 2 == 1);
            cur = cur / 2;
            proof {
                lemma_pow2_pos(k as nat);
                lemma_pow2_unfold((k + 1) as nat);
                lemma_div_denominator(index as int, pow2(k as nat) as int, 2);
            }
            k = k + 1;
        }
        Ok(MembershipPath { siblings, positions })
    }
}

/// Recomputes the root from leaf and path; true exactly when it matches.
pub fn verify_path(params: &CrhParameters, root: Fr, leaf: &Vec<u8>, path: &MembershipPath) -> (r:
    bool)
    requires
        params.inv(),
        root.inv(),
        path.wf(),
        leaf@.len() == LEAF_LEN,
    ensures
        r == (climb(
            params.s.v as int,
            hash_leaf_val(params.s.v as int, leaf@),
            path.siblings@,
            path.positions@,
        ) == root.v),
{
    let mut cur = hash_leaf(params, leaf);
    let n = path.siblings.len();
    let ghost full = climb(params.s.v as int, cur.v as int, path.siblings@, path.positions@);
    proof {
        assert(path.siblings@.skip(0) =~= path.siblings@);
        assert(path.positions@.skip(0) =~= path.positions@);
    }
    let mut k: usize = 0;
    while k < n
        invariant
            k <= n,
            n == path.siblings@.len(),
            params.inv(),
            path.wf(),
            cur.inv(),
            full == climb(
                params.s.v as int,
                cur.v as int,
                path.siblings@.skip(k as int),
                path.positions@.skip(k as int),
            ),
        decreases n - k,
    {
        let sib = path.siblings[k];
        let next = if path.positions[k] {
            compress(params, sib, cur)
        } else {
            compress(params, cur, sib)
        };
        proof {
            assert(path.siblings@.skip(k as int)[0] == path.siblings@[k as int]);
            assert(path.positions@.skip(k as int)[0] == path.positions@[k as int]);
            assert(path.siblings@.skip(k as int).skip(1) =~= path.siblings@.skip(k + 1));
            assert(path.positions@.skip(k as int).skip(1) =~= path.positions@.skip(k + 1));
        }
        cur = next;
        k = k + 1;
    }
    proof {
        assert(path.siblings@.skip(n as int) =~= Seq::<Fr>::empty());
        assert(path.positions@.skip(n as int) =~= Seq::<bool>::empty());
    }
    cur.v == root.v
}

/// `2^e`, for the small exponents the tree supports.
pub fn pow2_exec(e: usize) -> (r: usize)
    requires
        e <= MAX_HEIGHT,
    ensures
        r == pow2(e as nat),
{
    proof {
        lemma2_to64();
    }
    let mut r: usize = 1;
    let mut k: usize = 0;
    while k < e
        invariant
            k <= e,
            e <= MAX_HEIGHT,
            r == pow2(k as nat),
            r <= 1048576,
        decreases e - k,
    {
        proof {
            lemma_pow2_unfold((k + 1) as nat);
            if k + 1 < MAX_HEIGHT {
                vstd::arithmetic::power2::lemma_pow2_strictly_increases(
                    (k + 1) as nat,
                    MAX_HEIGHT as nat,
                );
            }
            lemma2_to64();
        }
        r = 2 * r;
        k = k + 1;
    }
    r
}

/// At every level below the root, the authenticated node's slot sits inside
/// that level, and so does its sibling.
proof fn lemma_level_slot_bound(index: int, height: nat, k: nat)
    requires
        0 <= index < pow2(height),
        k < height,
    ensures
        0 <= idx_at(index, k) < pow2((height - k) as nat),
        0 <= sib_at(index, k) < pow2((height - k) as nat),
{
    lemma_pow2_pos(k);
    lemma_pow2_pos((height - k) as nat);
    lemma_pow2_adds(k, (height - k) as nat);
    lemma_multiply_divide_lt(index, pow2(k) as int, pow2((height - k) as nat) as int);
    lemma_pow2_unfold((height - k) as nat);
    let m = idx_at(index, k);
    let bound = pow2((height - k) as nat) as int;
    assert(bound % 2 == 0);
    if m % 2 == 0 {
        assert(m + 1 < bound);
    }
}

/// Climbing a faithful path from any level's authenticated node reaches the
/// root: the inductive heart of the native round trip.
proof fn lemma_climb_from(t: MerkleTree, index: int, p: MembershipPath, k: nat)
    requires
        t.wf(),
        0 <= index < pow2(t.height as nat),
        p.siblings@.len() == t.height,
        p.positions@.len() == t.height,
        k <= t.height,
        forall|m: int|
            0 <= m < t.height ==> (#[trigger] p.siblings@[m]).v == t.node(
                m,
                sib_at(index, m as nat),
            ),
        forall|m: int|
            0 <= m < t.height ==> (#[trigger] p.positions@[m]) == (idx_at(index, m as nat) % 2
                == 1),
    ensures
        climb(
            t.params.s.v as int,
            t.node(k as int, idx_at(index, k)),
            p.siblings@.skip(k as int),
            p.positions@.skip(k as int),
        ) == t.root_val(),
    decreases t.height - k,
{
    let s = t.params.s.v as int;
    if k == t.height {
        assert(p.siblings@.skip(k as int) =~= Seq::<Fr>::empty());
        lemma_pow2_pos(k);
        lemma_pow2_adds(k, 0);
        assert(pow2(t.height as nat) == pow2(k));
        vstd::arithmetic::div_mod::lemma_basic_div(index, pow2(k) as int);
        assert(idx_at(index, k) == 0);
    } else {
        lemma_level_slot_bound(index, t.height as nat, k);
        let m = idx_at(index, k);
        let sib = sib_at(index, k);
        let right = m % 2 == 1;
        assert(p.siblings@.skip(k as int)[0] == p.siblings@[k as int]);
        assert(p.positions@.skip(k as int)[0] == p.positions@[k as int]);
        assert(p.siblings@.skip(k as int).skip(1) =~= p.siblings@.skip(k as int + 1));
        assert(p.positions@.skip(k as int).skip(1) =~= p.positions@.skip(k as int + 1));
        lemma_pow2_pos(k);
        lemma_pow2_unfold((k + 1) as nat);
        lemma_div_denominator(index, pow2(k) as int, 2);
        assert(idx_at(index, (k + 1) as nat) == m / 2);
        let up = m / 2;
        let stepped = climb_step(s, t.node(k as int, m), t.node(k as int, sib), right);
        assert(1 <= k + 1 <= t.height);
        lemma_pow2_unfold((t.height - k) as nat);
        assert(0 <= up < pow2((t.height - (k + 1)) as nat)) by {
            lemma_pow2_unfold((t.height - k) as nat);
        }
        assert(t.node(k as int + 1, up) == compress_val(
            s,
            t.node(k as int, 2 * up),
            t.node(k as int, 2 * up + 1),
        ));
        if right {
            assert(m == 2 * up + 1);
            assert(sib == 2 * up);
            assert(stepped == t.node(k as int + 1, up));
        } else {
            assert(m == 2 * up);
            assert(sib == 2 * up + 1);
            assert(stepped == t.node(k as int + 1, up));
        }
        lemma_climb_from(t, index, p, k + 1);
    }
}

/// The native round trip: for every tree and every in-range leaf slot, a path
/// generated for that slot climbs from the slot's leaf digest back to the
/// tree's root, so the native path check accepts it.
pub proof fn law_path_round_trip(t: MerkleTree, index: int, p: MembershipPath)
    requires
        t.wf(),
        0 <= index < pow2(t.height as nat),
        p.siblings@.len() == t.height,
        p.positions@.len() == t.height,
        forall|m: int|
            0 <= m < t.height ==> (#[trigger] p.siblings@[m]).v == t.node(
                m,
                sib_at(index, m as nat),
            ),
        forall|m: int|
            0 <= m < t.height ==> (#[trigger] p.positions@[m]) == (idx_at(index, m as nat) % 2
                == 1),
    ensures
        climb(t.params.s.v as int, t.node(0, index), p.siblings@, p.positions@) == t.root_val(),
{
    lemma2_to64();
    assert(idx_at(index, 0) == index) by {
        assert(pow2(0) == 1);
    }
    lemma_climb_from(t, index, p, 0);
    assert(p.siblings@.skip(0) =~= p.siblings@);
    assert(p.positions@.skip(0) =~= p.positions@);
}

} // verus!
