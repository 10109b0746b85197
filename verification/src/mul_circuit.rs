//! The multiplication relation: "the prover knows `b` such that `a * b = c`"
//! for public `a` and `c`.

use vstd::prelude::*;

use vstd::arithmetic::div_mod::lemma_small_mod;

use crate::cs::{
    all_hold, constraint_holds, lc_value, lc_wf, var_value, ConstraintModel, ConstraintSystem,
    Mode, SynthesisError, Term, Variable,
};
use crate::field::{Fr, P};
use crate::gadget::{lc1, lemma_lc1_value};
use crate::relation::Relation;

verus! {

/// The relation instance: `a` and `c` are public, `b` is the witness. For a
/// setup pass all three are absent; for a proving pass all three are present.
pub struct MulCircuit {
    pub a: Option<Fr>,
    pub b: Option<Fr>,
    pub c: Option<Fr>,
}

/// The single constraint the relation records: `a * b = c` over the slots in
/// allocation order (`one` at input 0, `a` at input 1, `c` at input 2, `b` at
/// witness 0).
pub open spec fn mul_constraint() -> ConstraintModel {
    ConstraintModel {
        left: seq![
            (Term { var: (Variable { is_public: true, idx: 1 }), coeff: (Fr { v: 1 }) }),
        ],
        right: seq![
            (Term { var: (Variable { is_public: false, idx: 0 }), coeff: (Fr { v: 1 }) }),
        ],
        output: seq![
            (Term { var: (Variable { is_public: true, idx: 2 }), coeff: (Fr { v: 1 }) }),
        ],
    }
}

impl MulCircuit {
    /// The structural instance a setup pass synthesises.
    pub fn for_setup() -> (r: MulCircuit)
        ensures
            r.wf(),
            r.a is None,
            r.b is None,
            r.c is None,
    {
        MulCircuit { a: None, b: None, c: None }
    }

    /// The full instance a proving pass synthesises.
    pub fn for_proving(a: Fr, b: Fr, c: Fr) -> (r: MulCircuit)
        requires
            a.inv(),
            b.inv(),
            c.inv(),
        ensures
            r.wf(),
            r.prove_ok(),
            r.a == Some(a),
            r.b == Some(b),
            r.c == Some(c),
    {
        MulCircuit { a: Some(a), b: Some(b), c: Some(c) }
    }
}

impl Relation for MulCircuit {
    open spec fn wf(&self) -> bool {
        &&& self.a matches Some(f) ==> f.inv()
        &&& self.b matches Some(f) ==> f.inv()
        &&& self.c matches Some(f) ==> f.inv()
    }

    open spec fn prove_ok(&self) -> bool {
        self.a is Some && self.b is Some && self.c is Some
    }

    open spec fn n_inputs(&self) -> int {
        3
    }

    open spec fn n_witnesses(&self) -> int {
        1
    }

    open spec fn shape(&self) -> Seq<ConstraintModel> {
        seq![mul_constraint()]
    }

    open spec fn public_vals(&self) -> Seq<Fr> {
        seq![self.a->0, self.c->0]
    }

    open spec fn witness_vals(&self) -> Seq<Fr> {
        seq![self.b->0]
    }

    open spec fn witness_consistent(&self) -> bool {
        ((self.a->0).v * (self.b->0).v) % (P as int) == (self.c->0).v
    }

    fn synthesize(&self, cs: &mut ConstraintSystem) -> (r: Result<(), SynthesisError>) {
        cs.namespace("a");
        let a_var = match cs.allocate_input(self.a) {
            Ok(v) => v,
            Err(e) => {
                return Err(e);
            },
        };
        cs.namespace("c");
        let c_var = match cs.allocate_input(self.c) {
            Ok(v) => v,
            Err(e) => {
                return Err(e);
            },
        };
        cs.namespace("b");
        let b_var = match cs.allocate_witness(self.b) {
            Ok(v) => v,
            Err(e) => {
                return Err(e);
            },
        };
        let one = Fr::one();
        let left = lc1(a_var, one);
        let right = lc1(b_var, one);
        let output = lc1(c_var, one);
        proof {
            assert(lc_wf(left.terms@, cs.n_inputs(), cs.n_witnesses()));
            assert(lc_wf(right.terms@, cs.n_inputs(), cs.n_witnesses()));
            assert(lc_wf(output.terms@, cs.n_inputs(), cs.n_witnesses()));
        }
        let ghost pre = *cs;
        cs.enforce(left, right, output);
        proof {
            assert(cs.shape() =~= seq![mul_constraint()]);
            if old(cs).mode == Mode::Prove {
                let av = self.a->0;
                let bv = self.b->0;
                let cv = self.c->0;
                assert(cs.input_values@ =~= seq![(Fr { v: 1 })] + self.public_vals());
                assert(cs.witness_values@ =~= self.witness_vals());
                assert(cs.input_values@ =~= seq![(Fr { v: 1 }), av, cv]);
                assert(cs.witness_values@ =~= seq![bv]);
                assert(pre.satisfied());
                lemma_mul_constraint_value(av, bv, cv);
                assert(cs.satisfied() <==> all_hold(
                    seq![mul_constraint()],
                    seq![(Fr { v: 1 }), av, cv],
                    seq![bv],
                ));
            }
        }
        Ok(())
    }
}

/// The recorded constraint is satisfied by the assignment
/// `(one, a, c; b)` exactly when `a * b = c` in the field: the two round-trip
/// directions of the multiplication relation rest on this.
pub proof fn lemma_mul_constraint_value(a: Fr, b: Fr, c: Fr)
    requires
        a.inv(),
        b.inv(),
        c.inv(),
    ensures
        all_hold(seq![mul_constraint()], seq![(Fr { v: 1 }), a, c], seq![b]) <==> ((a.v * b.v) % (
        P as int) == c.v),
{
    let inputs = seq![Fr { v: 1 }, a, c];
    let wits = seq![b];
    let cm = mul_constraint();
    lemma_lc1_value(cm.left[0], inputs, wits);
    lemma_lc1_value(cm.right[0], inputs, wits);
    lemma_lc1_value(cm.output[0], inputs, wits);
    assert(cm.left =~= seq![cm.left[0]]);
    assert(cm.right =~= seq![cm.right[0]]);
    assert(cm.output =~= seq![cm.output[0]]);
    lemma_small_mod(c.v as nat, P as nat);
    assert(inputs[1] == a && inputs[2] == c && wits[0] == b);
    assert(var_value(cm.left[0].var, inputs, wits) == a.v);
    assert(var_value(cm.right[0].var, inputs, wits) == b.v);
    assert(var_value(cm.output[0].var, inputs, wits) == c.v);
    vstd::arithmetic::mul::lemma_mul_basics(var_value(cm.left[0].var, inputs, wits));
    vstd::arithmetic::mul::lemma_mul_basics(var_value(cm.right[0].var, inputs, wits));
    vstd::arithmetic::mul::lemma_mul_basics(var_value(cm.output[0].var, inputs, wits));
    assert(lc_value(cm.left, inputs, wits) == a.v);
    assert(lc_value(cm.right, inputs, wits) == b.v);
    assert(lc_value(cm.output, inputs, wits) == c.v);
    assert(constraint_holds(cm, inputs, wits) <==> ((a.v * b.v) % (P as int) == c.v));
    assert(all_hold(seq![cm], inputs, wits) ==> constraint_holds(seq![cm][0], inputs, wits));
    if constraint_holds(cm, inputs, wits) {
        assert forall|i: int| 0 <= i < 1 implies constraint_holds(
            #[trigger] seq![cm][i],
            inputs,
            wits,
        ) by {
            assert(seq![cm][i] == cm);
        }
    }
}

} // verus!
