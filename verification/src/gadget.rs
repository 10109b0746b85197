//! In-circuit values and the allocation gadget shared by the relations.
//!
//! An `FpVar` pairs an allocated variable with the value it carries during a
//! proving pass (absent during a setup pass): the in-circuit handle mirroring
//! a native field element. `bind_product` is the one allocation primitive the
//! circuits build on: it allocates a fresh witness variable and constrains it
//! to equal the product of two linear combinations, so that in a proving pass
//! the new constraint is satisfied by construction.

use vstd::prelude::*;

use vstd::arithmetic::div_mod::lemma_mod_twice;
use vstd::arithmetic::div_mod::lemma_small_mod;

use crate::cs::{
    lc_value, lc_wf, var_in_bounds, var_value, ConstraintModel, ConstraintSystem,
    LinearCombination, Mode, SynthesisError, Term, Variable,
};
use crate::field::{Fr, P};

verus! {

/// An in-circuit field element: the allocated variable, and during proving
/// the value assigned to it.
#[derive(Clone, Copy, PartialEq, Eq, Structural, Debug)]
pub struct FpVar {
    pub var: Variable,
    pub value: Option<Fr>,
}

/// The handle names a slot of the system, and in a proving pass its carried
/// value is exactly the assigned one.
pub open spec fn fpvar_wf(v: FpVar, cs: ConstraintSystem) -> bool {
    &&& var_in_bounds(v.var, cs.n_inputs(), cs.n_witnesses())
    &&& cs.mode == Mode::Prove ==> (v.value matches Some(f) && f.inv() && f.v == var_value(
        v.var,
        cs.input_values@,
        cs.witness_values@,
    ))
    &&& cs.mode == Mode::Setup ==> v.value is None
}

/// Builds the one-term combination `c1 * v1`.
pub fn lc1(v1: Variable, c1: Fr) -> (r: LinearCombination)
    ensures
        r.terms@ == seq![(Term { var: v1, coeff: c1 })],
{
    let mut terms: Vec<Term> = Vec::new();
    terms.push(Term { var: v1, coeff: c1 });
    proof {
        assert(terms@ =~= seq![(Term { var: v1, coeff: c1 })]);
    }
    LinearCombination { terms }
}

/// Builds the two-term combination `c1 * v1 + c2 * v2`.
pub fn lc2(v1: Variable, c1: Fr, v2: Variable, c2: Fr) -> (r: LinearCombination)
    ensures
        r.terms@ == seq![(Term { var: v1, coeff: c1 }), (Term { var: v2, coeff: c2 })],
{
    let mut terms: Vec<Term> = Vec::new();
    terms.push(Term { var: v1, coeff: c1 });
    terms.push(Term { var: v2, coeff: c2 });
    proof {
        assert(terms@ =~= seq![(Term { var: v1, coeff: c1 }), (Term { var: v2, coeff: c2 })]);
    }
    LinearCombination { terms }
}

/// Builds the empty combination, whose value is zero.
pub fn lc0() -> (r: LinearCombination)
    ensures
        r.terms@ == Seq::<Term>::empty(),
{
    let terms: Vec<Term> = Vec::new();
    proof {
        assert(terms@ =~= Seq::<Term>::empty());
    }
    LinearCombination { terms }
}

/// Builds the three-term combination `c1 * v1 + c2 * v2 + c3 * v3`.
pub fn lc3(v1: Variable, c1: Fr, v2: Variable, c2: Fr, v3: Variable, c3: Fr) -> (r:
    LinearCombination)
    ensures
        r.terms@ == seq![
            (Term { var: v1, coeff: c1 }),
            (Term { var: v2, coeff: c2 }),
            (Term { var: v3, coeff: c3 }),
        ],
{
    let mut terms: Vec<Term> = Vec::new();
    terms.push(Term { var: v1, coeff: c1 });
    terms.push(Term { var: v2, coeff: c2 });
    terms.push(Term { var: v3, coeff: c3 });
    proof {
        assert(terms@ =~= seq![
            (Term { var: v1, coeff: c1 }),
            (Term { var: v2, coeff: c2 }),
            (Term { var: v3, coeff: c3 }),
        ]);
    }
    LinearCombination { terms }
}

/// Builds the four-term combination over distinct variables.
pub fn lc4(v1: Variable, c1: Fr, v2: Variable, c2: Fr, v3: Variable, c3: Fr, v4: Variable, c4: Fr)
    -> (r: LinearCombination)
    ensures
        r.terms@ == seq![
            (Term { var: v1, coeff: c1 }),
            (Term { var: v2, coeff: c2 }),
            (Term { var: v3, coeff: c3 }),
            (Term { var: v4, coeff: c4 }),
        ],
{
    let mut terms: Vec<Term> = Vec::new();
    terms.push(Term { var: v1, coeff: c1 });
    terms.push(Term { var: v2, coeff: c2 });
    terms.push(Term { var: v3, coeff: c3 });
    terms.push(Term { var: v4, coeff: c4 });
    proof {
        assert(terms@ =~= seq![
            (Term { var: v1, coeff: c1 }),
            (Term { var: v2, coeff: c2 }),
            (Term { var: v3, coeff: c3 }),
            (Term { var: v4, coeff: c4 }),
        ]);
    }
    LinearCombination { terms }
}

pub proof fn lemma_lc1_value(t1: Term, inputs: Seq<Fr>, wits: Seq<Fr>)
    ensures
        lc_value(seq![t1], inputs, wits) == t1.coeff.v * var_value(t1.var, inputs, wits),
{
    let s1 = seq![t1];
    assert(s1.len() == 1);
    assert(s1.last() == t1);
    assert(s1.drop_last() =~= Seq::<Term>::empty());
    assert(lc_value(Seq::<Term>::empty(), inputs, wits) == 0);
    assert(lc_value(s1, inputs, wits) == lc_value(s1.drop_last(), inputs, wits)
        + s1.last().coeff.v * var_value(s1.last().var, inputs, wits));
}

pub proof fn lemma_lc2_value(t1: Term, t2: Term, inputs: Seq<Fr>, wits: Seq<Fr>)
    ensures
        lc_value(seq![t1, t2], inputs, wits) == t1.coeff.v * var_value(t1.var, inputs, wits)
            + t2.coeff.v * var_value(t2.var, inputs, wits),
{
    let s2 = seq![t1, t2];
    assert(s2.last() == t2);
    assert(s2.drop_last() =~= seq![t1]);
    lemma_lc1_value(t1, inputs, wits);
    assert(lc_value(s2, inputs, wits) == lc_value(s2.drop_last(), inputs, wits)
        + s2.last().coeff.v * var_value(s2.last().var, inputs, wits));
}

pub proof fn lemma_lc3_value(t1: Term, t2: Term, t3: Term, inputs: Seq<Fr>, wits: Seq<Fr>)
    ensures
        lc_value(seq![t1, t2, t3], inputs, wits) == t1.coeff.v * var_value(t1.var, inputs, wits)
            + t2.coeff.v * var_value(t2.var, inputs, wits) + t3.coeff.v * var_value(
            t3.var,
            inputs,
            wits,
        ),
{
    let s3 = seq![t1, t2, t3];
    assert(s3.last() == t3);
    assert(s3.drop_last() =~= seq![t1, t2]);
    lemma_lc2_value(t1, t2, inputs, wits);
    assert(lc_value(s3, inputs, wits) == lc_value(s3.drop_last(), inputs, wits)
        + s3.last().coeff.v * var_value(s3.last().var, inputs, wits));
}

pub proof fn lemma_lc4_value(t1: Term, t2: Term, t3: Term, t4: Term, inputs: Seq<Fr>, wits: Seq<
    Fr,
>)
    ensures
        lc_value(seq![t1, t2, t3, t4], inputs, wits) == t1.coeff.v * var_value(
            t1.var,
            inputs,
            wits,
        ) + t2.coeff.v * var_value(t2.var, inputs, wits) + t3.coeff.v * var_value(
            t3.var,
            inputs,
            wits,
        ) + t4.coeff.v * var_value(t4.var, inputs, wits),
{
    let s4 = seq![t1, t2, t3, t4];
    let s3 = seq![t1, t2, t3];
    assert(s4.last() == t4);
    assert(s3.last() == t3);
    assert(s4.drop_last() =~= s3);
    assert(s3.drop_last() =~= seq![t1, t2]);
    lemma_lc2_value(t1, t2, inputs, wits);
    assert(lc_value(s3, inputs, wits) == lc_value(s3.drop_last(), inputs, wits)
        + s3.last().coeff.v * var_value(s3.last().var, inputs, wits));
    assert(lc_value(s4, inputs, wits) == lc_value(s4.drop_last(), inputs, wits)
        + s4.last().coeff.v * var_value(s4.last().var, inputs, wits));
}

/// Allocates a fresh witness variable bound by the new constraint
/// `left * right = witness`. During proving the caller supplies exactly the
/// product value, so the appended constraint is satisfied by construction
/// and overall satisfaction is unchanged.
pub fn bind_product(
    cs: &mut ConstraintSystem,
    left: LinearCombination,
    right: LinearCombination,
    value: Option<Fr>,
) -> (r: Result<FpVar, SynthesisError>)
    requires
        old(cs).wf(),
        lc_wf(left.terms@, old(cs).n_inputs(), old(cs).n_witnesses()),
        lc_wf(right.terms@, old(cs).n_inputs(), old(cs).n_witnesses()),
        old(cs).mode == Mode::Prove ==> (value matches Some(f) && f.inv() && f.v == (lc_value(
            left.terms@,
            old(cs).input_values@,
            old(cs).witness_values@,
        ) * lc_value(right.terms@, old(cs).input_values@, old(cs).witness_values@)) % (P as int)),
        old(cs).mode == Mode::Setup ==> value is None,
    ensures
        final(cs).wf(),
        final(cs).mode == old(cs).mode,
        final(cs).input_values@ == old(cs).input_values@,
        final(cs).n_witnesses() == old(cs).n_witnesses() + 1,
        old(cs).mode == Mode::Prove ==> final(cs).witness_values@ == old(
            cs,
        ).witness_values@.push(value->0),
        old(cs).mode == Mode::Setup ==> final(cs).witness_values@ == old(
            cs,
        ).witness_values@.push((Fr { v: 0 })),
        r is Ok,
        r->Ok_0 == (FpVar {
            var: (Variable { is_public: false, idx: old(cs).witness_values.len() }),
            value,
        }),
        fpvar_wf(r->Ok_0, *final(cs)),
        final(cs).shape() == old(cs).shape().push(
            (ConstraintModel {
                left: left.terms@,
                right: right.terms@,
                output: seq![
                    (Term {
                        var: (Variable { is_public: false, idx: old(cs).witness_values.len() }),
                        coeff: (Fr { v: 1 }),
                    }),
                ],
            }),
        ),
        old(cs).mode == Mode::Prove ==> (final(cs).satisfied() <==> old(cs).satisfied()),
    {
    let ghost pre = *old(cs);
    let ghost lterms = left.terms@;
    let ghost rterms = right.terms@;
    let idx = cs.witness_values.len();
    let var_res = cs.allocate_witness(value);
    let new_var = match var_res {
        Ok(v) => v,
        Err(e) => {
            proof {
                assert(false);
            }
            return Err(e);
        },
    };
    let ghost mid = *cs;
    let out = lc1(new_var, Fr::one());
    proof {
        assert(pre.input_values@.is_prefix_of(mid.input_values@));
        assert(pre.witness_values@.is_prefix_of(mid.witness_values@)) by {
            assert(pre.witness_values@ =~= mid.witness_values@.subrange(
                0,
                pre.witness_values@.len() as int,
            ));
        }
        crate::cs::lemma_lc_wf_mono(
            left.terms@,
            pre.n_inputs(),
            pre.n_witnesses(),
            mid.n_inputs(),
            mid.n_witnesses(),
        );
        crate::cs::lemma_lc_wf_mono(
            right.terms@,
            pre.n_inputs(),
            pre.n_witnesses(),
            mid.n_inputs(),
            mid.n_witnesses(),
        );
        assert(lc_wf(out.terms@, mid.n_inputs(), mid.n_witnesses()));
    }
    cs.enforce(left, right, out);
    proof {
        let cm = ConstraintModel {
            left: lterms,
            right: rterms,
            output: seq![
                (Term { var: (Variable { is_public: false, idx }), coeff: (Fr { v: 1 }) }),
            ],
        };
        assert(cs.shape() =~= pre.shape().push(cm));
        if pre.mode == Mode::Prove {
            let f = value->0;
            crate::cs::lemma_lc_value_extend(
                lterms,
                pre.input_values@,
                pre.witness_values@,
                mid.input_values@,
                mid.witness_values@,
            );
            crate::cs::lemma_lc_value_extend(
                rterms,
                pre.input_values@,
                pre.witness_values@,
                mid.input_values@,
                mid.witness_values@,
            );
            lemma_lc1_value(
                Term { var: Variable { is_public: false, idx }, coeff: Fr { v: 1 } },
                mid.input_values@,
                mid.witness_values@,
            );
            let lv = lc_value(lterms, pre.input_values@, pre.witness_values@);
            let rv = lc_value(rterms, pre.input_values@, pre.witness_values@);
            assert(lc_value(cm.output, mid.input_values@, mid.witness_values@) == f.v);
            lemma_mod_twice(lv * rv, P as int);
            lemma_small_mod(f.v as nat, P as nat);
            assert(crate::cs::constraint_holds(cm, mid.input_values@, mid.witness_values@));
            crate::cs::lemma_all_hold_extend(
                pre.shape(),
                pre.input_values@,
                pre.witness_values@,
                mid.input_values@,
                mid.witness_values@,
            );
        }
    }
    Ok(FpVar { var: new_var, value })
}

} // verus!
