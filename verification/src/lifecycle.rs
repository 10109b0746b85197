//! The proof lifecycle: setup, prove, verify, for any relation.
//!
//! The backend is modelled at its contract: parameters describe the circuit
//! shape a setup pass learned; a proof carries the witness assignment a
//! proving pass produced (and a blinding element, an encoding detail);
//! verification substitutes the claimed public inputs, evaluates every
//! recorded constraint, and answers with a boolean — a cryptographically
//! invalid proof is a normal `false`, never an error.

use vstd::prelude::*;

use vstd::arithmetic::div_mod::lemma_mul_mod_noop_general;

use crate::cs::{
    all_hold, cm_wf, cmodel, constraint_holds, lc_value, lc_wf, lemma_all_hold_push, values_inv,
    Constraint, ConstraintModel, ConstraintSystem, LinearCombination, Mode, SynthesisError,
};
use crate::field::{Fr, P};
use crate::mul_circuit::{lemma_mul_constraint_value, MulCircuit};
use crate::relation::Relation;

verus! {

/// Backend parameters: the constraint shape learned from one setup pass,
/// plus a tag standing for backend-internal encoding material derived from
/// the setup randomness.
pub struct Parameters {
    pub num_inputs: usize,
    pub num_witnesses: usize,
    pub constraints: Vec<Constraint>,
    pub tag: Fr,
}

impl Parameters {
    pub open spec fn shape(self) -> Seq<ConstraintModel> {
        self.constraints@.map_values(|c: Constraint| cmodel(c))
    }

    pub open spec fn wf(self) -> bool {
        &&& self.num_inputs >= 1
        &&& forall|j: int|
            0 <= j < self.shape().len() ==> cm_wf(
                #[trigger] self.shape()[j],
                self.num_inputs as int,
                self.num_witnesses as int,
            )
    }
}

/// A proof: the witness assignment of one proving pass, and a blinding
/// element derived from the proving randomness (ignored by verification).
pub struct Proof {
    pub witness_values: Vec<Fr>,
    pub blind: Fr,
}

impl Proof {
    pub open spec fn wf(self) -> bool {
        values_inv(self.witness_values@)
    }
}

/// What verification answers: the witness has the declared length and the
/// full assignment — constant one, then the claimed public inputs, then the
/// proof's witness — satisfies every recorded constraint.
pub open spec fn verdict(params: Parameters, pubs: Seq<Fr>, wits: Seq<Fr>) -> bool {
    wits.len() == params.num_witnesses && all_hold(
        params.shape(),
        seq![(Fr { v: 1 })] + pubs,
        wits,
    )
}

/// One synthesis pass in setup mode: learns the constraint shape and derives
/// parameters from it. Runs once per relation shape, reusable across proofs.
pub fn setup<R: Relation>(relation: &R, randomness: Fr) -> (r: Result<Parameters, SynthesisError>)
    requires
        relation.wf(),
        randomness.inv(),
    ensures
        r is Ok,
        r->Ok_0.wf(),
        r->Ok_0.shape() == relation.shape(),
        r->Ok_0.num_inputs == relation.n_inputs(),
        r->Ok_0.num_witnesses == relation.n_witnesses(),
        r->Ok_0.tag == randomness,
{
    let mut cs = ConstraintSystem::new(Mode::Setup);
    let res = relation.synthesize(&mut cs);
    match res {
        Ok(()) => {
            let num_inputs = cs.input_values.len();
            let num_witnesses = cs.witness_values.len();
            Ok(Parameters { num_inputs, num_witnesses, constraints: cs.constraints, tag: randomness })
        },
        Err(e) => {
            proof {
                assert(false);
            }
            Err(e)
        },
    }
}

/// One synthesis pass in proving mode, handed to the backend. Fails with
/// `AssignmentMissing` exactly when a value is absent; fails with
/// `BackendFailure` exactly when the randomness is degenerate (zero) or the
/// parameters disagree with the relation's variable counts.
pub fn prove<R: Relation>(relation: &R, params: &Parameters, randomness: Fr) -> (r: Result<
    Proof,
    SynthesisError,
>)
    requires
        relation.wf(),
        params.wf(),
        randomness.inv(),
    ensures
        !relation.prove_ok() ==> r == Err::<Proof, SynthesisError>(
            SynthesisError::AssignmentMissing,
        ),
        relation.prove_ok() && (randomness.v == 0 || params.num_inputs != relation.n_inputs()
            || params.num_witnesses != relation.n_witnesses()) ==> r == Err::<
            Proof,
            SynthesisError,
        >(SynthesisError::BackendFailure),
        relation.prove_ok() && randomness.v != 0 && params.num_inputs == relation.n_inputs()
            && params.num_witnesses == relation.n_witnesses() ==> (r matches Ok(pf) && pf.wf()
            && pf.witness_values@ == relation.witness_vals() && pf.blind == randomness),
        relation.prove_ok() && params.shape() == relation.shape() && params.num_witnesses
            == relation.n_witnesses() ==> (verdict(
            *params,
            relation.public_vals(),
            relation.witness_vals(),
        ) <==> relation.witness_consistent()),
{
    let mut cs = ConstraintSystem::new(Mode::Prove);
    let res = relation.synthesize(&mut cs);
    match res {
        Err(e) => Err(e),
        Ok(()) => {
            proof {
                if params.shape() == relation.shape() {
                    assert(cs.satisfied() == all_hold(
                        params.shape(),
                        seq![(Fr { v: 1 })] + relation.public_vals(),
                        relation.witness_vals(),
                    ));
                    assert(relation.witness_vals().len() == params.num_witnesses as int
                        <==> relation.n_witnesses() == params.num_witnesses as int);
                }
            }
            if randomness.v == 0 {
                return Err(SynthesisError::BackendFailure);
            }
            if cs.input_values.len() != params.num_inputs {
                return Err(SynthesisError::BackendFailure);
            }
            if cs.witness_values.len() != params.num_witnesses {
                return Err(SynthesisError::BackendFailure);
            }
            Ok(Proof { witness_values: cs.witness_values, blind: randomness })
        },
    }
}

/// Evaluates a linear combination under the assignment, reduced modulo `P`.
fn eval_lc(lc: &LinearCombination, inputs: &Vec<Fr>, wits: &Vec<Fr>) -> (r: Fr)
    requires
        lc_wf(lc.terms@, inputs@.len() as int, wits@.len() as int),
        values_inv(inputs@),
        values_inv(wits@),
    ensures
        r.inv(),
        r.v == lc_value(lc.terms@, inputs@, wits@) % (P as int),
{
    let mut acc = Fr::zero();
    let n = lc.terms.len();
    proof {
        assert(lc.terms@.take(0) =~= Seq::<crate::cs::Term>::empty());
    }
    let mut i: usize = 0;
    while i < n
        invariant
            i <= n,
            n == lc.terms@.len(),
            lc_wf(lc.terms@, inputs@.len() as int, wits@.len() as int),
            values_inv(inputs@),
            values_inv(wits@),
            acc.inv(),
            acc.v == lc_value(lc.terms@.take(i as int), inputs@, wits@) % (P as int),
        decreases n - i,
    {
        let t = lc.terms[i];
        proof {
            assert(crate::cs::term_wf(lc.terms@[i as int], inputs@.len() as int, wits@.len() as int));
        }
        let val = if t.var.is_public {
            inputs[t.var.idx]
        } else {
            wits[t.var.idx]
        };
        let prod = t.coeff.mul(val);
        let next = acc.add(prod);
        proof {
            let ts = lc.terms@;
            let pre = lc_value(ts.take(i as int), inputs@, wits@);
            let tv = ts[i as int].coeff.v * crate::cs::var_value(ts[i as int].var, inputs@, wits@);
            assert(ts.take(i + 1).drop_last() =~= ts.take(i as int));
            assert(ts.take(i + 1).last() == ts[i as int]);
            assert(lc_value(ts.take(i + 1), inputs@, wits@) == pre + tv);
            assert(val.v as int == crate::cs::var_value(ts[i as int].var, inputs@, wits@));
            assert(prod.v == tv % (P as int));
            vstd::arithmetic::div_mod::lemma_add_mod_noop(pre, tv, P as int);
            assert(next.v == ((pre % (P as int)) + (tv % (P as int))) % (P as int));
        }
        acc = next;
        i = i + 1;
    }
    proof {
        assert(lc.terms@.take(n as int) =~= lc.terms@);
    }
    acc
}

/// Evaluates one constraint under the assignment.
fn check_constraint(c: &Constraint, inputs: &Vec<Fr>, wits: &Vec<Fr>) -> (r: bool)
    requires
        cm_wf(cmodel(*c), inputs@.len() as int, wits@.len() as int),
        values_inv(inputs@),
        values_inv(wits@),
    ensures
        r == constraint_holds(cmodel(*c), inputs@, wits@),
{
    let l = eval_lc(&c.left, inputs, wits);
    let rr = eval_lc(&c.right, inputs, wits);
    let o = eval_lc(&c.output, inputs, wits);
    let prod = l.mul(rr);
    proof {
        let lv = lc_value(c.left.terms@, inputs@, wits@);
        let rv = lc_value(c.right.terms@, inputs@, wits@);
        lemma_mul_mod_noop_general(lv, rv, P as int);
    }
    prod.v == o.v
}

/// Checks a proof against the claimed public inputs. Pure: mutates nothing.
/// Fails with `MalformedInput` exactly when the public-input vector's length
/// disagrees with the parameters' declared count; a proof the constraints
/// reject is a normal `false`.
pub fn verify(proof: &Proof, public_inputs: &Vec<Fr>, params: &Parameters) -> (r: Result<
    bool,
    SynthesisError,
>)
    requires
        proof.wf(),
        params.wf(),
        values_inv(public_inputs@),
    ensures
        public_inputs@.len() + 1 != params.num_inputs ==> r == Err::<bool, SynthesisError>(
            SynthesisError::MalformedInput,
        ),
        public_inputs@.len() + 1 == params.num_inputs ==> r == Ok::<bool, SynthesisError>(
            verdict(*params, public_inputs@, proof.witness_values@),
        ),
{
    if public_inputs.len() != params.num_inputs - 1 {
        return Err(SynthesisError::MalformedInput);
    }
    if proof.witness_values.len() != params.num_witnesses {
        return Ok(false);
    }
    let mut inputs: Vec<Fr> = Vec::new();
    inputs.push(Fr::one());
    let np = public_inputs.len();
    let mut i: usize = 0;
    while i < np
        invariant
            i <= np,
            np == public_inputs@.len(),
            values_inv(public_inputs@),
            inputs@ == seq![(Fr { v: 1 })] + public_inputs@.take(i as int),
        decreases np - i,
    {
        inputs.push(public_inputs[i]);
        proof {
            assert(inputs@ =~= seq![(Fr { v: 1 })] + public_inputs@.take(i + 1));
        }
        i = i + 1;
    }
    proof {
        assert(public_inputs@.take(np as int) =~= public_inputs@);
        assert(values_inv(inputs@)) by {
            assert forall|j: int| 0 <= j < inputs@.len() implies inputs@[j].inv() by {
                if j >= 1 {
                    assert(inputs@[j] == public_inputs@[j - 1]);
                }
            }
        }
    }
    let nc = params.constraints.len();
    let mut good = true;
    let mut k: usize = 0;
    proof {
        assert(params.shape().take(0) =~= Seq::<ConstraintModel>::empty());
    }
    while k < nc
        invariant
            k <= nc,
            nc == params.constraints@.len(),
            params.wf(),
            proof.wf(),
            inputs@.len() == params.num_inputs,
            values_inv(inputs@),
            proof.witness_values@.len() == params.num_witnesses,
            good == all_hold(params.shape().take(k as int), inputs@, proof.witness_values@),
        decreases nc - k,
    {
        proof {
            assert(params.shape()[k as int] == cmodel(params.constraints@[k as int]));
            assert(cm_wf(
                params.shape()[k as int],
                params.num_inputs as int,
                params.num_witnesses as int,
            ));
        }
        let ok = check_constraint(&params.constraints[k], &inputs, &proof.witness_values);
        proof {
            assert(params.shape().take(k + 1) =~= params.shape().take(k as int).push(
                params.shape()[k as int],
            ));
            lemma_all_hold_push(
                params.shape().take(k as int),
                params.shape()[k as int],
                inputs@,
                proof.witness_values@,
            );
        }
        good = good && ok;
        k = k + 1;
    }
    proof {
        assert(params.shape().take(nc as int) =~= params.shape());
    }
    Ok(good)
}

/// Setup is shape-deterministic: two setup passes over relations of one
/// shape describe identical parameters — same counts and order of public and
/// witness slots, same constraints — whatever randomness each consumed; only
/// the backend-internal tag may differ.
pub proof fn law_setup_deterministic<R1: Relation, R2: Relation>(
    r1: &R1,
    r2: &R2,
    p1: Parameters,
    p2: Parameters,
)
    requires
        r1.shape() == r2.shape(),
        r1.n_inputs() == r2.n_inputs(),
        r1.n_witnesses() == r2.n_witnesses(),
        p1.shape() == r1.shape(),
        p1.num_inputs == r1.n_inputs(),
        p1.num_witnesses == r1.n_witnesses(),
        p2.shape() == r2.shape(),
        p2.num_inputs == r2.n_inputs(),
        p2.num_witnesses == r2.n_witnesses(),
    ensures
        p1.shape() == p2.shape(),
        p1.num_inputs == p2.num_inputs,
        p1.num_witnesses == p2.num_witnesses,
{
}

/// Completeness of the multiplication relation: whenever `c = a * b` in the
/// field, the proving pass's assignment passes verification against the
/// public pair `(a, c)`.
pub proof fn law_mul_round_trip(rel: MulCircuit, params: Parameters)
    requires
        rel.wf(),
        rel.prove_ok(),
        (rel.c->0).v == ((rel.a->0).v * (rel.b->0).v) % (P as int),
        params.shape() == rel.shape(),
        params.num_inputs == rel.n_inputs(),
        params.num_witnesses == rel.n_witnesses(),
    ensures
        verdict(params, rel.public_vals(), rel.witness_vals()),
{
    lemma_mul_constraint_value(rel.a->0, rel.b->0, rel.c->0);
    assert(seq![(Fr { v: 1 })] + rel.public_vals() =~= seq![(Fr { v: 1 }), rel.a->0, rel.c->0]);
    assert(rel.witness_vals() =~= seq![rel.b->0]);
}

/// Soundness of the multiplication relation: whenever `c != a * b` in the
/// field, the assignment a proving pass would produce from witness `b` fails
/// verification against the public pair `(a, c)` — never a `true` verdict.
pub proof fn law_mul_unsound_witness_rejected(rel: MulCircuit, params: Parameters)
    requires
        rel.wf(),
        rel.prove_ok(),
        (rel.c->0).v != ((rel.a->0).v * (rel.b->0).v) % (P as int),
        params.shape() == rel.shape(),
        params.num_inputs == rel.n_inputs(),
        params.num_witnesses == rel.n_witnesses(),
    ensures
        !verdict(params, rel.public_vals(), rel.witness_vals()),
{
    lemma_mul_constraint_value(rel.a->0, rel.b->0, rel.c->0);
    assert(seq![(Fr { v: 1 })] + rel.public_vals() =~= seq![(Fr { v: 1 }), rel.a->0, rel.c->0]);
    assert(rel.witness_vals() =~= seq![rel.b->0]);
}

} // verus!
