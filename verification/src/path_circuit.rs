//! The membership relation: "the prover knows a membership path that climbs
//! from the public leaf to the public root".
//!
//! Public inputs: the leaf, one byte-variable per byte, then the root digest.
//! Witness: the path's sibling digests and position bits. The compression
//! parameters enter the circuit as constants, as coefficients on the
//! constant-one variable. Synthesis absorbs the leaf byte by byte through the
//! in-circuit compression gadget, then climbs one gadget level per tree
//! level — a position-bit check, a selection product, and a compression — and
//! finally constrains the climbed digest to equal the root. The recorded
//! constraints accept the proving assignment exactly when the native path
//! check `tree::verify_path` accepts leaf, path and root: the in-circuit
//! gadget computes what the native compression computes.

use vstd::prelude::*;

use vstd::arithmetic::div_mod::lemma_fundamental_div_mod;
use vstd::arithmetic::div_mod::lemma_mod_multiples_vanish;
use vstd::arithmetic::div_mod::lemma_mod_self_0;
use vstd::arithmetic::div_mod::lemma_small_mod;
use vstd::arithmetic::mul::lemma_mul_basics;

use crate::crh::{compress, compress_val, hash_leaf_val, CrhParameters, LEAF_LEN};
use crate::cs::{
    constraint_holds, lc_value, lc_wf, var_value, ConstraintModel, ConstraintSystem, Mode,
    SynthesisError, Term, Variable,
};
use crate::field::{Fr, P};
use crate::gadget::{
    bind_product, fpvar_wf, lc0, lc1, lc2, lc3, lc4, lemma_lc1_value, lemma_lc2_value,
    lemma_lc3_value, lemma_lc4_value, FpVar,
};
use crate::relation::Relation;
use crate::tree::{climb, climb_step, MembershipPath, MAX_HEIGHT};

verus! {

/// A public-input variable by index.
pub open spec fn pvar(i: int) -> Variable {
    Variable { is_public: true, idx: i as usize }
}

/// A witness variable by index.
pub open spec fn wvar(i: int) -> Variable {
    Variable { is_public: false, idx: i as usize }
}

/// The witness slot holding the running digest before level `k`: slot
/// `LEAF_LEN` after the leaf fold, then the fourth slot of each level.
pub open spec fn cur_wit(k: int) -> int {
    LEAF_LEN as int + 4 * k
}

/// Constraint binding the fold's seed: `s * one = d_0`.
pub open spec fn init_cm(s: Fr) -> ConstraintModel {
    ConstraintModel {
        left: seq![(Term { var: pvar(0), coeff: s })],
        right: seq![(Term { var: pvar(0), coeff: (Fr { v: 1 }) })],
        output: seq![(Term { var: wvar(0), coeff: (Fr { v: 1 }) })],
    }
}

/// Constraint absorbing byte `j`: `(2 d_j + 3 byte_j + s) * one = d_(j+1)`.
pub open spec fn byte_cm(s: Fr, j: int) -> ConstraintModel {
    ConstraintModel {
        left: seq![
            (Term { var: wvar(j), coeff: (Fr { v: 2 }) }),
            (Term { var: pvar(1 + j), coeff: (Fr { v: 3 }) }),
            (Term { var: pvar(0), coeff: s }),
        ],
        right: seq![(Term { var: pvar(0), coeff: (Fr { v: 1 }) })],
        output: seq![(Term { var: wvar(j + 1), coeff: (Fr { v: 1 }) })],
    }
}

/// Constraint forcing level `k`'s position bit boolean: `b * (b - 1) = 0`.
pub open spec fn bool_cm(k: int) -> ConstraintModel {
    ConstraintModel {
        left: seq![(Term { var: wvar(cur_wit(k) + 2), coeff: (Fr { v: 1 }) })],
        right: seq![
            (Term { var: wvar(cur_wit(k) + 2), coeff: (Fr { v: 1 }) }),
            (Term { var: pvar(0), coeff: (Fr { v: (P - 1) as u64 }) }),
        ],
        output: Seq::<Term>::empty(),
    }
}

/// Constraint computing level `k`'s selector: `(sib - cur) * b = t`.
pub open spec fn sel_cm(k: int) -> ConstraintModel {
    ConstraintModel {
        left: seq![
            (Term { var: wvar(cur_wit(k) + 1), coeff: (Fr { v: 1 }) }),
            (Term { var: wvar(cur_wit(k)), coeff: (Fr { v: (P - 1) as u64 }) }),
        ],
        right: seq![(Term { var: wvar(cur_wit(k) + 2), coeff: (Fr { v: 1 }) })],
        output: seq![(Term { var: wvar(cur_wit(k) + 3), coeff: (Fr { v: 1 }) })],
    }
}

/// Constraint compressing level `k` in the claimed order:
/// `(2 cur + 3 sib - t + s) * one = next`.
pub open spec fn comp_cm(s: Fr, k: int) -> ConstraintModel {
    ConstraintModel {
        left: seq![
            (Term { var: wvar(cur_wit(k)), coeff: (Fr { v: 2 }) }),
            (Term { var: wvar(cur_wit(k) + 1), coeff: (Fr { v: 3 }) }),
            (Term { var: wvar(cur_wit(k) + 3), coeff: (Fr { v: (P - 1) as u64 }) }),
            (Term { var: pvar(0), coeff: s }),
        ],
        right: seq![(Term { var: pvar(0), coeff: (Fr { v: 1 }) })],
        output: seq![(Term { var: wvar(cur_wit(k) + 4), coeff: (Fr { v: 1 }) })],
    }
}

/// Constraint equating the climbed digest with the public root.
pub open spec fn final_cm(h: int) -> ConstraintModel {
    ConstraintModel {
        left: seq![(Term { var: wvar(cur_wit(h)), coeff: (Fr { v: 1 }) })],
        right: seq![(Term { var: pvar(0), coeff: (Fr { v: 1 }) })],
        output: seq![(Term { var: pvar(1 + LEAF_LEN), coeff: (Fr { v: 1 }) })],
    }
}

/// The constraints after the seed and `j` absorbed bytes.
pub open spec fn leaf_cms(s: Fr, j: int) -> Seq<ConstraintModel>
    decreases j,
{
    if j <= 0 {
        seq![init_cm(s)]
    } else {
        leaf_cms(s, j - 1).push(byte_cm(s, j - 1))
    }
}

/// The constraints after the whole leaf fold and `k` levels.
pub open spec fn level_cms(s: Fr, k: int) -> Seq<ConstraintModel>
    decreases k,
{
    if k <= 0 {
        leaf_cms(s, LEAF_LEN as int)
    } else {
        level_cms(s, k - 1).push(bool_cm(k - 1)).push(sel_cm(k - 1)).push(comp_cm(s, k - 1))
    }
}

/// The whole shape of the membership circuit for height `h`.
pub open spec fn path_shape(s: Fr, h: int) -> Seq<ConstraintModel> {
    level_cms(s, h).push(final_cm(h))
}

/// The running digest before level `k`, climbing in the claimed order.
pub open spec fn chain_val(s: int, d0: int, sibs: Seq<Fr>, pos: Seq<bool>, k: int) -> int
    decreases k,
{
    if k <= 0 {
        d0
    } else {
        climb_step(s, chain_val(s, d0, sibs, pos, k - 1), sibs[k - 1].v as int, pos[k - 1])
    }
}

/// Level `k`'s selector value: what the selection product assigns.
pub open spec fn sel_val(cur: int, sibv: int, bitv: int) -> int {
    ((sibv + (P - 1) * cur) * bitv) % (P as int)
}

/// The witness values of the seed and first `j` fold steps.
pub open spec fn leaf_wits(s: Fr, bytes: Seq<u8>, j: int) -> Seq<Fr>
    decreases j,
{
    if j <= 0 {
        seq![s]
    } else {
        leaf_wits(s, bytes, j - 1).push(
            (Fr { v: hash_leaf_val(s.v as int, bytes.take(j)) as u64 }),
        )
    }
}

/// The witness values after the leaf fold and `k` levels: per level the
/// sibling, the position bit, the selector, and the next digest.
pub open spec fn level_wits(s: Fr, bytes: Seq<u8>, sibs: Seq<Fr>, pos: Seq<bool>, k: int) -> Seq<
    Fr,
>
    decreases k,
{
    if k <= 0 {
        leaf_wits(s, bytes, LEAF_LEN as int)
    } else {
        let d0 = hash_leaf_val(s.v as int, bytes);
        let cur = chain_val(s.v as int, d0, sibs, pos, k - 1);
        let bitv: int = if pos[k - 1] {
            1
        } else {
            0
        };
        level_wits(s, bytes, sibs, pos, k - 1) + seq![
            sibs[k - 1],
            (Fr { v: bitv as u64 }),
            (Fr { v: sel_val(cur, sibs[k - 1].v as int, bitv) as u64 }),
            (Fr { v: climb_step(s.v as int, cur, sibs[k - 1].v as int, pos[k - 1]) as u64 }),
        ]
    }
}

/// The public-input values: one field element per leaf byte.
pub open spec fn byte_frs(bytes: Seq<u8>) -> Seq<Fr> {
    Seq::new(bytes.len(), |i: int| Fr { v: bytes[i] as u64 })
}

/// The membership relation instance. For a setup pass only the parameters
/// and the height are present: the shape depends on nothing else.
pub struct PathCheckCircuit {
    pub params: CrhParameters,
    pub height: usize,
    pub leaf: Option<Vec<u8>>,
    pub root: Option<Fr>,
    pub path: Option<MembershipPath>,
}

impl PathCheckCircuit {
    /// The structural instance a setup pass synthesises: values absent, the
    /// path length fixed by the height alone.
    pub fn for_setup(params: CrhParameters, height: usize) -> (r: PathCheckCircuit)
        requires
            params.inv(),
            height <= MAX_HEIGHT,
        ensures
            r.wf(),
            r.params == params,
            r.height == height,
            r.leaf is None,
            r.root is None,
            r.path is None,
    {
        PathCheckCircuit { params, height, leaf: None, root: None, path: None }
    }

    /// The full instance a proving pass synthesises.
    pub fn for_proving(params: CrhParameters, leaf: Vec<u8>, root: Fr, path: MembershipPath) -> (r:
        PathCheckCircuit)
        requires
            params.inv(),
            leaf@.len() == LEAF_LEN,
            root.inv(),
            path.wf(),
            path.siblings@.len() <= MAX_HEIGHT,
        ensures
            r.wf(),
            r.prove_ok(),
            r.params == params,
            r.height == path.siblings@.len(),
            r.leaf == Some(leaf),
            r.root == Some(root),
            r.path == Some(path),
    {
        let height = path.siblings.len();
        PathCheckCircuit { params, height, leaf: Some(leaf), root: Some(root), path: Some(path) }
    }
}

impl Relation for PathCheckCircuit {
    open spec fn wf(&self) -> bool {
        &&& self.params.inv()
        &&& self.height <= MAX_HEIGHT
        &&& self.leaf matches Some(l) ==> l@.len() == LEAF_LEN
        &&& self.root matches Some(d) ==> d.inv()
        &&& self.path matches Some(p) ==> (p.wf() && p.siblings@.len() == self.height)
    }

    open spec fn prove_ok(&self) -> bool {
        self.leaf is Some && self.root is Some && self.path is Some
    }

    open spec fn n_inputs(&self) -> int {
        2 + LEAF_LEN
    }

    open spec fn n_witnesses(&self) -> int {
        1 + LEAF_LEN + 4 * self.height
    }

    open spec fn shape(&self) -> Seq<ConstraintModel> {
        path_shape(self.params.s, self.height as int)
    }

    open spec fn public_vals(&self) -> Seq<Fr> {
        byte_frs((self.leaf->0)@) + seq![self.root->0]
    }

    open spec fn witness_vals(&self) -> Seq<Fr> {
        level_wits(
            self.params.s,
            (self.leaf->0)@,
            (self.path->0).siblings@,
            (self.path->0).positions@,
            self.height as int,
        )
    }

    open spec fn witness_consistent(&self) -> bool {
        climb(
            self.params.s.v as int,
            hash_leaf_val(self.params.s.v as int, (self.leaf->0)@),
            (self.path->0).siblings@,
            (self.path->0).positions@,
        ) == (self.root->0).v
    }

    #[verifier::loop_isolation(false)]
    #[verifier::rlimit(100)]
    fn synthesize(&self, cs: &mut ConstraintSystem) -> (r: Result<(), SynthesisError>) {
        let ghost proving = old(cs).mode == Mode::Prove;
        let s = self.params.s;
        let ghost si = s.v as int;
        let one = Fr::one();
        let two = Fr::from_u64(2);
        let three = Fr::from_u64(3);
        let pm1 = Fr { v: P - 1 };
        let one_v = Variable { is_public: true, idx: 0 };
        let ghost bytes: Seq<u8> = match &self.leaf {
            Some(l) => l@,
            None => Seq::empty(),
        };
        let ghost sibs: Seq<Fr> = match &self.path {
            Some(p) => p.siblings@,
            None => Seq::empty(),
        };
        let ghost pos: Seq<bool> = match &self.path {
            Some(p) => p.positions@,
            None => Seq::empty(),
        };
        let ghost d_leaf = hash_leaf_val(si, bytes);

        match cs.mode {
            Mode::Prove => {
                if self.path.is_none() {
                    return Err(SynthesisError::AssignmentMissing);
                }
            },
            Mode::Setup => {},
        }

        cs.namespace("Leaf");
        proof {
            assert(cs.input_values@ =~= seq![(Fr { v: 1 })]);
            assert(cs.input_values@ =~= seq![(Fr { v: 1 })] + byte_frs(bytes.take(0)));
        }
        let mut j: usize = 0;
        while j < LEAF_LEN
            invariant
                j <= LEAF_LEN,
                cs.wf(),
                cs.mode == old(cs).mode,
                cs.constraints@.len() == 0,
                cs.n_witnesses() == 0,
                cs.n_inputs() == 1 + j,
                proving && j > 0 ==> self.leaf is Some,
                proving ==> cs.input_values@ == seq![(Fr { v: 1 })] + byte_frs(bytes.take(j as int)),
            decreases LEAF_LEN - j,
        {
            let value = match &self.leaf {
                Some(l) => Some(Fr::from_u64(l[j] as u64)),
                None => None,
            };
            proof {
                if self.leaf is Some {
                    lemma_small_mod(bytes[j as int] as nat, P as nat);
                }
            }
            match cs.allocate_input(value) {
                Ok(_) => {},
                Err(e) => {
                    return Err(e);
                },
            }
            proof {
                if proving {
                    assert(cs.input_values@ =~= seq![(Fr { v: 1 })] + byte_frs(
                        bytes.take(j + 1),
                    ));
                }
            }
            j = j + 1;
        }
        proof {
            if proving {
                assert(bytes.take(LEAF_LEN as int) =~= bytes);
            }
        }

        cs.namespace("Digest");
        let root_var = match cs.allocate_input(self.root) {
            Ok(v) => v,
            Err(e) => {
                return Err(e);
            },
        };

        // The compression parameters are bound into the circuit as constants:
        // they appear as coefficients on the constant-one variable below.
        cs.namespace("Parameters");

        cs.namespace("Path");
        let mut cur = match seed_gadget(cs, s) {
            Ok(v) => v,
            Err(e) => {
                proof {
                    assert(false);
                }
                return Err(e);
            },
        };
        proof {
            assert(cs.shape() =~= leaf_cms(s, 0));
            if proving {
                assert(cs.witness_values@ =~= leaf_wits(s, bytes, 0));
                assert(bytes.take(0) =~= Seq::<u8>::empty());
            }
        }

        let mut j: usize = 0;
        while j < LEAF_LEN
            invariant
                j <= LEAF_LEN,
                cs.wf(),
                cs.mode == old(cs).mode,
                cs.n_inputs() == 2 + LEAF_LEN,
                cs.n_witnesses() == 1 + j,
                cs.shape() == leaf_cms(s, j as int),
                fpvar_wf(cur, *cs),
                cur.var == wvar(j as int),
                proving ==> self.leaf is Some,
                proving ==> cs.input_values@ == seq![(Fr { v: 1 })] + byte_frs(bytes) + seq![
                    self.root->0,
                ],
                proving ==> cs.witness_values@ == leaf_wits(s, bytes, j as int),
                proving ==> (cur.value->0).v == hash_leaf_val(si, bytes.take(j as int)),
                proving ==> cs.satisfied(),
            decreases LEAF_LEN - j,
        {
            let value = match (&cur.value, &self.leaf) {
                (Some(cf), Some(l)) => {
                    let b = Fr::from_u64(l[j] as u64);
                    Some(compress(&self.params, *cf, b))
                },
                _ => None,
            };
            let left = lc3(cur.var, two, byte_vars_at(j), three, one_v, s);
            let right = lc1(one_v, one);
            proof {
                let inp = cs.input_values@;
                let wit = cs.witness_values@;
                assert(lc_wf(left.terms@, cs.n_inputs(), cs.n_witnesses()));
                if proving {
                    let bv = bytes[j as int] as int;
                    lemma_small_mod(bytes[j as int] as nat, P as nat);
                    lemma_lc3_value(
                        Term { var: wvar(j as int), coeff: Fr { v: 2 } },
                        Term { var: pvar(1 + j as int), coeff: Fr { v: 3 } },
                        Term { var: pvar(0), coeff: s },
                        inp,
                        wit,
                    );
                    lemma_lc1_value(Term { var: pvar(0), coeff: Fr { v: 1 } }, inp, wit);
                    assert(inp[1 + j as int] == byte_frs(bytes)[j as int]);
                    assert(var_value(pvar(1 + j as int), inp, wit) == bv);
                    let curv = (cur.value->0).v as int;
                    let lv = lc_value(left.terms@, inp, wit);
                    assert(lv == 2 * curv + 3 * bv + si) by {
                        lemma_mul_basics(curv);
                        lemma_mul_basics(bv);
                        lemma_mul_basics(si);
                    }
                    assert(lc_value(right.terms@, inp, wit) == 1) by {
                        lemma_mul_basics(1);
                    }
                    lemma_mul_basics(lv);
                    assert((value->0).v == (lv * lc_value(right.terms@, inp, wit)) % (P as int));
                }
            }
            let next = match bind_product(cs, left, right, value) {
                Ok(v) => v,
                Err(e) => {
                    proof {
                        assert(false);
                    }
                    return Err(e);
                },
            };
            proof {
                assert(cs.shape() =~= leaf_cms(s, j + 1));
                if proving {
                    assert(bytes.take(j + 1).drop_last() =~= bytes.take(j as int));
                    assert(bytes.take(j + 1).last() == bytes[j as int]);
                    assert((next.value->0).v == hash_leaf_val(si, bytes.take(j + 1)));
                    assert(cs.witness_values@ =~= leaf_wits(s, bytes, j + 1));
                }
            }
            cur = next;
            j = j + 1;
        }
        proof {
            if proving {
                assert(bytes.take(LEAF_LEN as int) =~= bytes);
            }
        }

        let height = self.height;
        proof {
            assert(level_cms(s, 0) == leaf_cms(s, LEAF_LEN as int));
            if proving {
                assert(level_wits(s, bytes, sibs, pos, 0) == leaf_wits(s, bytes, LEAF_LEN as int));
                assert(chain_val(si, d_leaf, sibs, pos, 0) == d_leaf);
            }
        }
        let mut k: usize = 0;
        while k < height
            invariant
                k <= height,
                cs.wf(),
                cs.mode == old(cs).mode,
                cs.n_inputs() == 2 + LEAF_LEN,
                cs.n_witnesses() == 1 + LEAF_LEN + 4 * k,
                cs.shape() == level_cms(s, k as int),
                fpvar_wf(cur, *cs),
                cur.var == wvar(cur_wit(k as int)),
                proving && k > 0 ==> self.path is Some,
                proving ==> cs.input_values@ == seq![(Fr { v: 1 })] + byte_frs(bytes) + seq![
                    self.root->0,
                ],
                proving ==> cs.witness_values@ == level_wits(s, bytes, sibs, pos, k as int),
                proving ==> (cur.value->0).v == chain_val(si, d_leaf, sibs, pos, k as int),
                proving ==> cs.satisfied(),
            decreases height - k,
        {
            let ghost pre_k = *cs;
            let sib_value = match &self.path {
                Some(p) => Some(p.siblings[k]),
                None => None,
            };
            let sib_var = match cs.allocate_witness(sib_value) {
                Ok(v) => v,
                Err(e) => {
                    return Err(e);
                },
            };
            let bit_value = match &self.path {
                Some(p) => {
                    if p.positions[k] {
                        Some(Fr { v: 1 })
                    } else {
                        Some(Fr { v: 0 })
                    }
                },
                None => None,
            };
            let bit_var = match cs.allocate_witness(bit_value) {
                Ok(v) => v,
                Err(e) => {
                    proof {
                        assert(false);
                    }
                    return Err(e);
                },
            };
            let ghost mid = *cs;
            proof {
                if proving {
                    assert(pre_k.input_values@.is_prefix_of(mid.input_values@));
                    assert(pre_k.witness_values@.is_prefix_of(mid.witness_values@)) by {
                        assert(pre_k.witness_values@ =~= mid.witness_values@.subrange(
                            0,
                            pre_k.witness_values@.len() as int,
                        ));
                    }
                    crate::cs::lemma_all_hold_extend(
                        pre_k.shape(),
                        pre_k.input_values@,
                        pre_k.witness_values@,
                        mid.input_values@,
                        mid.witness_values@,
                    );
                    assert(mid.satisfied());
                }
            }
            let lbool = lc1(bit_var, one);
            let rbool = lc2(bit_var, one, one_v, pm1);
            let obool = lc0();
            proof {
                assert(lc_wf(rbool.terms@, cs.n_inputs(), cs.n_witnesses()));
                if proving {
                    let inp = cs.input_values@;
                    let wit = cs.witness_values@;
                    let bitv: int = if pos[k as int] {
                        1
                    } else {
                        0
                    };
                    lemma_lc1_value(Term { var: bit_var, coeff: Fr { v: 1 } }, inp, wit);
                    lemma_lc2_value(
                        Term { var: bit_var, coeff: Fr { v: 1 } },
                        Term { var: pvar(0), coeff: pm1 },
                        inp,
                        wit,
                    );
                    lemma_mul_basics(bitv);
                    lemma_mul_basics(bitv + (P - 1));
                    lemma_mul_basics((P - 1) as int);
                    lemma_mod_self_0(P as int);
                    lemma_small_mod(0, P as nat);
                    assert(var_value(bit_var, inp, wit) == bitv);
                    assert(var_value(pvar(0), inp, wit) == 1);
                    assert(lc_value(lbool.terms@, inp, wit) == bitv);
                    assert(lc_value(rbool.terms@, inp, wit) == bitv + (P - 1));
                    assert(lc_value(obool.terms@, inp, wit) == 0);
                    assert(constraint_holds(
                        ConstraintModel { left: lbool.terms@, right: rbool.terms@, output: obool.terms@ },
                        inp,
                        wit,
                    ));
                }
            }
            cs.enforce(lbool, rbool, obool);
            let t_value = match (&cur.value, &sib_value, &bit_value) {
                (Some(cf), Some(sf), Some(bf)) => {
                    proof {
                        assert(cf.v < P);
                        assert(sibs[k as int].inv());
                        assert(sf.v < P);
                        assert(bf.v <= 1);
                        assert((P - 1) * cf.v <= (P - 1) * (P - 1)) by (nonlinear_arith)
                            requires
                                cf.v < P,
                        ;
                    }
                    let lv_u: u64 = sf.v + (P - 1) * cf.v;
                    proof {
                        assert(lv_u * bf.v <= lv_u) by (nonlinear_arith)
                            requires
                                bf.v <= 1,
                        ;
                    }
                    Some(Fr { v: (lv_u * bf.v) % P })
                },
                _ => None,
            };
            let lsel = lc2(sib_var, one, cur.var, pm1);
            let rsel = lc1(bit_var, one);
            proof {
                if proving {
                    let inp = cs.input_values@;
                    let wit = cs.witness_values@;
                    let curv = (cur.value->0).v as int;
                    let sibv = sibs[k as int].v as int;
                    let bitv: int = if pos[k as int] {
                        1
                    } else {
                        0
                    };
                    lemma_lc2_value(
                        Term { var: sib_var, coeff: Fr { v: 1 } },
                        Term { var: cur.var, coeff: pm1 },
                        inp,
                        wit,
                    );
                    lemma_lc1_value(Term { var: bit_var, coeff: Fr { v: 1 } }, inp, wit);
                    assert(var_value(sib_var, inp, wit) == sibv);
                    assert(var_value(bit_var, inp, wit) == bitv);
                    assert(var_value(cur.var, inp, wit) == curv);
                    lemma_mul_basics(sibv);
                    lemma_mul_basics(bitv);
                    assert(lc_value(lsel.terms@, inp, wit) == sibv + (P - 1) * curv);
                    assert(lc_value(rsel.terms@, inp, wit) == bitv);
                    assert((t_value->0).v == ((sibv + (P - 1) * curv) * bitv) % (P as int));
                }
            }
            let t = match bind_product(cs, lsel, rsel, t_value) {
                Ok(v) => v,
                Err(e) => {
                    proof {
                        assert(false);
                    }
                    return Err(e);
                },
            };
            let next_value = match (&cur.value, &sib_value, &bit_value) {
                (Some(cf), Some(sf), Some(bf)) => {
                    if bf.v == 1 {
                        Some(compress(&self.params, *sf, *cf))
                    } else {
                        Some(compress(&self.params, *cf, *sf))
                    }
                },
                _ => None,
            };
            let lcomp = lc4(cur.var, two, sib_var, three, t.var, pm1, one_v, s);
            let rcomp = lc1(one_v, one);
            proof {
                if proving {
                    let inp = cs.input_values@;
                    let wit = cs.witness_values@;
                    let curv = (cur.value->0).v as int;
                    let sibv = sibs[k as int].v as int;
                    let bitv: int = if pos[k as int] {
                        1
                    } else {
                        0
                    };
                    let tv = (t.value->0).v as int;
                    lemma_lc4_value(
                        Term { var: cur.var, coeff: Fr { v: 2 } },
                        Term { var: sib_var, coeff: Fr { v: 3 } },
                        Term { var: t.var, coeff: pm1 },
                        Term { var: pvar(0), coeff: s },
                        inp,
                        wit,
                    );
                    lemma_lc1_value(Term { var: pvar(0), coeff: Fr { v: 1 } }, inp, wit);
                    let lv = lc_value(lcomp.terms@, inp, wit);
                    assert(lv == 2 * curv + 3 * sibv + (P - 1) * tv + si) by {
                        lemma_mul_basics(curv);
                        lemma_mul_basics(sibv);
                        lemma_mul_basics(si);
                    }
                    lemma_mul_basics(var_value(pvar(0), inp, wit));
                    assert(lc_value(rcomp.terms@, inp, wit) == 1);
                    lemma_mul_basics(lv);
                    lemma_comp_reduces(si, curv, sibv, bitv, tv);
                    assert((next_value->0).v == (lv * lc_value(rcomp.terms@, inp, wit)) % (
                    P as int));
                }
            }
            let next = match bind_product(cs, lcomp, rcomp, next_value) {
                Ok(v) => v,
                Err(e) => {
                    proof {
                        assert(false);
                    }
                    return Err(e);
                },
            };
            proof {
                assert(cs.shape() =~= level_cms(s, k + 1));
                if proving {
                    assert(cs.witness_values@ =~= level_wits(s, bytes, sibs, pos, k + 1));
                    assert((next.value->0).v == chain_val(si, d_leaf, sibs, pos, k + 1));
                }
            }
            cur = next;
            k = k + 1;
        }

        cs.namespace("Check membership");
        let ghost pre_final = *cs;
        root_check(cs, cur, root_var);
        proof {
            assert(cs.shape() =~= path_shape(s, height as int));
            if proving {
                assert(self.leaf is Some && self.path is Some && self.root is Some);
                assert(bytes == (self.leaf->0)@);
                assert(sibs == (self.path->0).siblings@);
                assert(pos == (self.path->0).positions@);
                assert(sibs.len() == height && pos.len() == height);
                assert((cur.value->0).v == chain_val(si, d_leaf, sibs, pos, height as int));
                assert(pre_final.input_values@[root_var.idx as int] == self.root->0);
                lemma_chain_is_climb(si, d_leaf, sibs, pos);
                assert(cs.satisfied() <==> self.witness_consistent());
                assert(cs.input_values@ =~= seq![(Fr { v: 1 })] + self.public_vals());
            }
        }
        Ok(())
    }
}

/// The exec-side public-input variable for leaf byte `j`.
fn byte_vars_at(j: usize) -> (r: Variable)
    requires
        j < LEAF_LEN,
    ensures
        r == pvar(1 + j as int),
{
    Variable { is_public: true, idx: 1 + j }
}

/// Allocates and binds the fold's seed digest: `s * one = d`.
fn seed_gadget(cs: &mut ConstraintSystem, s: Fr) -> (r: Result<FpVar, SynthesisError>)
    requires
        old(cs).wf(),
        s.inv(),
    ensures
        r is Ok,
        final(cs).wf(),
        final(cs).mode == old(cs).mode,
        final(cs).input_values@ == old(cs).input_values@,
        final(cs).n_witnesses() == old(cs).n_witnesses() + 1,
        r->Ok_0.var == (Variable { is_public: false, idx: old(cs).witness_values.len() }),
        fpvar_wf(r->Ok_0, *final(cs)),
        final(cs).shape() == old(cs).shape().push(
            (ConstraintModel {
                left: seq![(Term { var: pvar(0), coeff: s })],
                right: seq![(Term { var: pvar(0), coeff: (Fr { v: 1 }) })],
                output: seq![
                    (Term { var: wvar(old(cs).n_witnesses()), coeff: (Fr { v: 1 }) }),
                ],
            }),
        ),
        old(cs).mode == Mode::Prove ==> final(cs).witness_values@ == old(
            cs,
        ).witness_values@.push(s) && r->Ok_0.value == Some(s) && (final(cs).satisfied() <==> old(
            cs,
        ).satisfied()),
        old(cs).mode == Mode::Setup ==> final(cs).witness_values@ == old(
            cs,
        ).witness_values@.push((Fr { v: 0 })) && r->Ok_0.value is None,
{
    let one = Fr::one();
    let one_v = Variable { is_public: true, idx: 0 };
    let value = match cs.mode {
        Mode::Prove => Some(s),
        Mode::Setup => None,
    };
    proof {
        if old(cs).mode == Mode::Prove {
            let inp = cs.input_values@;
            let wit = cs.witness_values@;
            lemma_lc1_value(Term { var: pvar(0), coeff: s }, inp, wit);
            lemma_lc1_value(Term { var: pvar(0), coeff: Fr { v: 1 } }, inp, wit);
            lemma_mul_basics(var_value(pvar(0), inp, wit));
            lemma_mul_basics(s.v as int);
            lemma_small_mod(s.v as nat, P as nat);
        }
    }
    bind_product(cs, lc1(one_v, s), lc1(one_v, one), value)
}

/// Enforces that the climbed digest equals the public root: under a proving
/// assignment the system stays satisfied exactly when the two agree.
fn root_check(cs: &mut ConstraintSystem, cur: FpVar, root_var: Variable)
    requires
        old(cs).wf(),
        fpvar_wf(cur, *old(cs)),
        root_var.is_public,
        root_var.idx < old(cs).n_inputs(),
    ensures
        final(cs).wf(),
        final(cs).mode == old(cs).mode,
        final(cs).input_values@ == old(cs).input_values@,
        final(cs).witness_values@ == old(cs).witness_values@,
        final(cs).shape() == old(cs).shape().push(
            (ConstraintModel {
                left: seq![(Term { var: cur.var, coeff: (Fr { v: 1 }) })],
                right: seq![(Term { var: pvar(0), coeff: (Fr { v: 1 }) })],
                output: seq![(Term { var: root_var, coeff: (Fr { v: 1 }) })],
            }),
        ),
        old(cs).mode == Mode::Prove ==> (final(cs).satisfied() <==> (old(cs).satisfied() && (
        cur.value->0).v == old(cs).input_values@[root_var.idx as int].v)),
{
    let one = Fr::one();
    let one_v = Variable { is_public: true, idx: 0 };
    let lfin = lc1(cur.var, one);
    let rfin = lc1(one_v, one);
    let ofin = lc1(root_var, one);
    proof {
        if old(cs).mode == Mode::Prove {
            let inp = cs.input_values@;
            let wit = cs.witness_values@;
            lemma_lc1_value(Term { var: cur.var, coeff: Fr { v: 1 } }, inp, wit);
            lemma_lc1_value(Term { var: pvar(0), coeff: Fr { v: 1 } }, inp, wit);
            lemma_lc1_value(Term { var: root_var, coeff: Fr { v: 1 } }, inp, wit);
            lemma_mul_basics(var_value(cur.var, inp, wit));
            lemma_mul_basics(var_value(pvar(0), inp, wit));
            lemma_mul_basics(var_value(root_var, inp, wit));
            lemma_small_mod((cur.value->0).v as nat, P as nat);
            lemma_small_mod(inp[root_var.idx as int].v as nat, P as nat);
        }
    }
    cs.enforce(lfin, rfin, ofin);
}

/// Climbing the whole path equals folding it level by level.
pub proof fn lemma_chain_is_climb(s: int, d0: int, sibs: Seq<Fr>, pos: Seq<bool>)
    requires
        sibs.len() == pos.len(),
    ensures
        chain_val(s, d0, sibs, pos, sibs.len() as int) == climb(s, d0, sibs, pos),
    decreases sibs.len(),
{
    if sibs.len() > 0 {
        let stepped = climb_step(s, d0, sibs[0].v as int, pos[0]);
        lemma_chain_is_climb(s, stepped, sibs.skip(1), pos.skip(1));
        lemma_chain_shift(s, d0, sibs, pos, sibs.len() as int);
    }
}

/// Folding `k` levels from the start equals folding `k - 1` levels after one
/// explicit first step.
proof fn lemma_chain_shift(s: int, d0: int, sibs: Seq<Fr>, pos: Seq<bool>, k: int)
    requires
        1 <= k <= sibs.len(),
        sibs.len() == pos.len(),
    ensures
        chain_val(s, d0, sibs, pos, k) == chain_val(
            s,
            climb_step(s, d0, sibs[0].v as int, pos[0]),
            sibs.skip(1),
            pos.skip(1),
            k - 1,
        ),
    decreases k,
{
    let stepped = climb_step(s, d0, sibs[0].v as int, pos[0]);
    if k == 1 {
        assert(chain_val(s, d0, sibs, pos, 0) == d0);
        assert(chain_val(s, stepped, sibs.skip(1), pos.skip(1), 0) == stepped);
    } else {
        lemma_chain_shift(s, d0, sibs, pos, k - 1);
        assert(sibs.skip(1)[k - 2] == sibs[k - 1]);
        assert(pos.skip(1)[k - 2] == pos[k - 1]);
        assert(chain_val(s, d0, sibs, pos, k) == climb_step(
            s,
            chain_val(s, d0, sibs, pos, k - 1),
            sibs[k - 1].v as int,
            pos[k - 1],
        ));
        assert(chain_val(s, stepped, sibs.skip(1), pos.skip(1), k - 1) == climb_step(
            s,
            chain_val(s, stepped, sibs.skip(1), pos.skip(1), k - 2),
            sibs.skip(1)[k - 2].v as int,
            pos.skip(1)[k - 2],
        ));
    }
}


/// Reduces the compression gadget's four-term combination: under a boolean
/// position bit and the selector value the selection product assigned, it
/// equals the compression of current and sibling digest in the claimed order.
pub proof fn lemma_comp_reduces(si: int, curv: int, sibv: int, bitv: int, tv: int)
    requires
        0 <= si < P,
        0 <= curv < P,
        0 <= sibv < P,
        bitv == 0 || bitv == 1,
        tv == ((sibv + (P - 1) * curv) * bitv) % (P as int),
    ensures
        (2 * curv + 3 * sibv + (P - 1) * tv + si) % (P as int) == (if bitv == 1 {
            compress_val(si, sibv, curv)
        } else {
            compress_val(si, curv, sibv)
        }),
{
    let pi = P as int;
    let lv2 = sibv + (pi - 1) * curv;
    if bitv == 1 {
        assert(lv2 * 1 == lv2) by (nonlinear_arith);
        lemma_fundamental_div_mod(lv2, pi);
        let q = lv2 / pi;
        assert(tv == lv2 - pi * q);
        assert(2 * curv + 3 * sibv + (pi - 1) * tv + si == (3 * curv + 2 * sibv + si) + pi * (tv
            - curv + q)) by (nonlinear_arith)
            requires
                tv == lv2 - pi * q,
                lv2 == sibv + (pi - 1) * curv,
        ;
        lemma_mod_multiples_vanish(tv - curv + q, 3 * curv + 2 * sibv + si, pi);
    } else {
        assert(lv2 * 0 == 0) by (nonlinear_arith);
        lemma_small_mod(0, P as nat);
        assert(tv == 0);
        assert((pi - 1) * 0 == 0) by (nonlinear_arith);
    }
}


/// One compression result is always a reduced digest.
proof fn lemma_compress_in_range(si: int, l: int, r: int)
    ensures
        0 <= compress_val(si, l, r) < P,
{
    vstd::arithmetic::div_mod::lemma_mod_division_less_than_divisor(2 * l + 3 * r + si, P as int);
}

/// Climbing propagates a difference in the starting digest all the way to
/// the recomputed root: each level's compression is injective in the
/// authenticated child.
pub proof fn lemma_climb_injective(si: int, d1: int, d2: int, sibs: Seq<Fr>, pos: Seq<bool>)
    requires
        0 <= si < P,
        0 <= d1 < P,
        0 <= d2 < P,
        d1 != d2,
        sibs.len() == pos.len(),
        crate::cs::values_inv(sibs),
    ensures
        climb(si, d1, sibs, pos) != climb(si, d2, sibs, pos),
    decreases sibs.len(),
{
    if sibs.len() > 0 {
        let sib = sibs[0].v as int;
        assert(sibs[0].inv());
        let s1 = climb_step(si, d1, sib, pos[0]);
        let s2 = climb_step(si, d2, sib, pos[0]);
        if pos[0] {
            crate::crh::lemma_compress_right_injective(si, sib, d1, d2);
        } else {
            crate::crh::lemma_compress_left_injective(si, d1, d2, sib);
        }
        lemma_compress_in_range(si, sib, d1);
        lemma_compress_in_range(si, sib, d2);
        lemma_compress_in_range(si, d1, sib);
        lemma_compress_in_range(si, d2, sib);
        assert forall|i: int| 0 <= i < sibs.skip(1).len() implies sibs.skip(1)[i].inv() by {
            assert(sibs.skip(1)[i] == sibs[i + 1]);
        }
        lemma_climb_injective(si, s1, s2, sibs.skip(1), pos.skip(1));
    }
}

/// Tamper evidence, sibling digests: replacing any single sibling digest of
/// a membership path by a different one changes the recomputed root, so the
/// membership relation rejects the tampered path wherever it accepted the
/// original.
pub proof fn law_tampered_sibling_rejected(
    si: int,
    d0: int,
    sibs: Seq<Fr>,
    pos: Seq<bool>,
    k: int,
    x: Fr,
)
    requires
        0 <= si < P,
        0 <= d0 < P,
        sibs.len() == pos.len(),
        crate::cs::values_inv(sibs),
        0 <= k < sibs.len(),
        x.inv(),
        x != sibs[k],
    ensures
        climb(si, d0, sibs.update(k, x), pos) != climb(si, d0, sibs, pos),
    decreases k,
{
    let sibs2 = sibs.update(k, x);
    assert forall|i: int| 0 <= i < sibs2.len() implies sibs2[i].inv() by {
        if i != k {
            assert(sibs2[i] == sibs[i]);
        }
    }
    if k == 0 {
        assert(x.v != sibs[0].v);
        let s1 = climb_step(si, d0, x.v as int, pos[0]);
        let s2 = climb_step(si, d0, sibs[0].v as int, pos[0]);
        assert(sibs[0].inv());
        if pos[0] {
            crate::crh::lemma_compress_left_injective(si, x.v as int, sibs[0].v as int, d0);
        } else {
            crate::crh::lemma_compress_right_injective(si, d0, x.v as int, sibs[0].v as int);
        }
        lemma_compress_in_range(si, x.v as int, d0);
        lemma_compress_in_range(si, sibs[0].v as int, d0);
        lemma_compress_in_range(si, d0, x.v as int);
        lemma_compress_in_range(si, d0, sibs[0].v as int);
        assert(sibs2.skip(1) =~= sibs.skip(1));
        assert forall|i: int| 0 <= i < sibs.skip(1).len() implies sibs.skip(1)[i].inv() by {
            assert(sibs.skip(1)[i] == sibs[i + 1]);
        }
        lemma_climb_injective(si, s1, s2, sibs.skip(1), pos.skip(1));
        assert(sibs2[0] == x);
    } else {
        assert(sibs2[0] == sibs[0]);
        let stepped = climb_step(si, d0, sibs[0].v as int, pos[0]);
        assert(sibs[0].inv());
        lemma_compress_in_range(si, sibs[0].v as int, d0);
        lemma_compress_in_range(si, d0, sibs[0].v as int);
        assert(sibs2.skip(1) =~= sibs.skip(1).update(k - 1, x));
        assert(sibs.skip(1)[k - 1] == sibs[k]);
        assert forall|i: int| 0 <= i < sibs.skip(1).len() implies sibs.skip(1)[i].inv() by {
            assert(sibs.skip(1)[i] == sibs[i + 1]);
        }
        law_tampered_sibling_rejected(si, stepped, sibs.skip(1), pos.skip(1), k - 1, x);
    }
}

/// Tamper evidence, position bits: flipping any single position bit of a
/// membership path changes the recomputed root, provided the running digest
/// and the sibling at that level differ (when they coincide the two
/// compression orders agree, so no check can tell the bit flipped).
pub proof fn law_flipped_position_rejected(
    si: int,
    d0: int,
    sibs: Seq<Fr>,
    pos: Seq<bool>,
    k: int,
)
    requires
        0 <= si < P,
        0 <= d0 < P,
        sibs.len() == pos.len(),
        crate::cs::values_inv(sibs),
        0 <= k < sibs.len(),
        chain_val(si, d0, sibs, pos, k) != sibs[k].v as int,
    ensures
        climb(si, d0, sibs, pos.update(k, !pos[k])) != climb(si, d0, sibs, pos),
    decreases k,
{
    let pos2 = pos.update(k, !pos[k]);
    assert(sibs[k].inv());
    if k == 0 {
        assert(chain_val(si, d0, sibs, pos, 0) == d0);
        crate::crh::lemma_compress_order_sensitive(si, d0, sibs[0].v as int);
        let s1 = climb_step(si, d0, sibs[0].v as int, pos2[0]);
        let s2 = climb_step(si, d0, sibs[0].v as int, pos[0]);
        assert(s1 != s2);
        lemma_compress_in_range(si, sibs[0].v as int, d0);
        lemma_compress_in_range(si, d0, sibs[0].v as int);
        assert forall|i: int| 0 <= i < sibs.skip(1).len() implies sibs.skip(1)[i].inv() by {
            assert(sibs.skip(1)[i] == sibs[i + 1]);
        }
        assert(pos2.skip(1) =~= pos.skip(1));
        lemma_climb_injective(si, s1, s2, sibs.skip(1), pos.skip(1));
    } else {
        assert(pos2[0] == pos[0]);
        let stepped = climb_step(si, d0, sibs[0].v as int, pos[0]);
        assert(sibs[0].inv());
        lemma_compress_in_range(si, sibs[0].v as int, d0);
        lemma_compress_in_range(si, d0, sibs[0].v as int);
        lemma_chain_shift(si, d0, sibs, pos, k);
        assert(sibs.skip(1)[k - 1] == sibs[k]);
        assert forall|i: int| 0 <= i < sibs.skip(1).len() implies sibs.skip(1)[i].inv() by {
            assert(sibs.skip(1)[i] == sibs[i + 1]);
        }
        assert(pos2.skip(1) =~= pos.skip(1).update(k - 1, !pos.skip(1)[k - 1]));
        law_flipped_position_rejected(si, stepped, sibs.skip(1), pos.skip(1), k - 1);
    }
}

/// Completeness of the membership relation: a relation built from a tree's
/// own leaf, root, and generated path carries a consistent witness, so the
/// proving pass's assignment satisfies the circuit and passes verification.
pub proof fn law_membership_round_trip(t: crate::tree::MerkleTree, index: int, rel:
    PathCheckCircuit)
    requires
        t.wf(),
        0 <= index < vstd::arithmetic::power2::pow2(t.height as nat),
        rel.wf(),
        rel.prove_ok(),
        rel.params == t.params,
        rel.height == t.height,
        hash_leaf_val(t.params.s.v as int, (rel.leaf->0)@) == t.node(0, index),
        (rel.root->0).v == t.root_val(),
        (rel.path->0).siblings@.len() == t.height,
        (rel.path->0).positions@.len() == t.height,
        forall|m: int|
            0 <= m < t.height ==> ((#[trigger] (rel.path->0).siblings@[m]).v == t.node(
                m,
                crate::tree::sib_at(index, m as nat),
            )),
        forall|m: int|
            0 <= m < t.height ==> ((#[trigger] (rel.path->0).positions@[m]) == (crate::tree::idx_at(
                index,
                m as nat,
            ) % 2 == 1)),
    ensures
        rel.witness_consistent(),
{
    crate::tree::law_path_round_trip(t, index, rel.path->0);
}

} // verus!
