//! The constraint system: the substrate every relation is synthesised against.
//!
//! A synthesis pass allocates public-input and witness variables and appends
//! rank-one constraints `left * right = output`, where each side is a linear
//! combination of variables. Variables and constraints are append-only within
//! one pass. In proving mode every allocation carries a value and the system
//! holds the full assignment; in setup mode allocations record only shape, and
//! the stored values are unconstrained placeholders.

use vstd::prelude::*;

use crate::field::{Fr, P};

verus! {

/// An opaque handle for one value slot of a circuit, tagged at allocation
/// time as public input or witness. Index `0` of the public inputs is the
/// constant-one variable that every fresh system starts with.
#[derive(Clone, Copy, PartialEq, Eq, Structural, Debug)]
pub struct Variable {
    pub is_public: bool,
    pub idx: usize,
}

/// One addend of a linear combination: `coeff * var`.
#[derive(Clone, Copy, PartialEq, Eq, Structural, Debug)]
pub struct Term {
    pub var: Variable,
    pub coeff: Fr,
}

/// An ordered mapping from variables to coefficients, representing
/// the sum of its terms. Immutable once built.
#[derive(Clone, PartialEq, Eq, Debug)]
pub struct LinearCombination {
    pub terms: Vec<Term>,
}

/// One rank-one constraint: `left * right = output` under substitution of the
/// assignment.
#[derive(Clone, PartialEq, Eq, Debug)]
pub struct Constraint {
    pub left: LinearCombination,
    pub right: LinearCombination,
    pub output: LinearCombination,
}

/// The mathematical model of a constraint: the three term sequences.
#[verifier::ext_equal]
pub struct ConstraintModel {
    pub left: Seq<Term>,
    pub right: Seq<Term>,
    pub output: Seq<Term>,
}

pub open spec fn cmodel(c: Constraint) -> ConstraintModel {
    ConstraintModel { left: c.left.terms@, right: c.right.terms@, output: c.output.terms@ }
}

pub open spec fn var_in_bounds(v: Variable, ni: int, nw: int) -> bool {
    if v.is_public {
        v.idx < ni
    } else {
        v.idx < nw
    }
}

pub open spec fn term_wf(t: Term, ni: int, nw: int) -> bool {
    var_in_bounds(t.var, ni, nw) && t.coeff.inv()
}

pub open spec fn lc_wf(ts: Seq<Term>, ni: int, nw: int) -> bool {
    forall|i: int| 0 <= i < ts.len() ==> term_wf(ts[i], ni, nw)
}

pub open spec fn cm_wf(c: ConstraintModel, ni: int, nw: int) -> bool {
    lc_wf(c.left, ni, nw) && lc_wf(c.right, ni, nw) && lc_wf(c.output, ni, nw)
}

/// The value a variable takes under an assignment.
pub open spec fn var_value(v: Variable, inputs: Seq<Fr>, wits: Seq<Fr>) -> int {
    if v.is_public {
        inputs[v.idx as int].v as int
    } else {
        wits[v.idx as int].v as int
    }
}

/// The (unreduced) integer value of a linear combination under an assignment.
pub open spec fn lc_value(ts: Seq<Term>, inputs: Seq<Fr>, wits: Seq<Fr>) -> int
    decreases ts.len(),
{
    if ts.len() == 0 {
        0
    } else {
        lc_value(ts.drop_last(), inputs, wits) + ts.last().coeff.v * var_value(
            ts.last().var,
            inputs,
            wits,
        )
    }
}

/// A constraint holds when `left * right` and `output` agree modulo `P`.
pub open spec fn constraint_holds(c: ConstraintModel, inputs: Seq<Fr>, wits: Seq<Fr>) -> bool {
    (lc_value(c.left, inputs, wits) * lc_value(c.right, inputs, wits)) % (P as int) == lc_value(
        c.output,
        inputs,
        wits,
    ) % (P as int)
}

pub open spec fn all_hold(cs: Seq<ConstraintModel>, inputs: Seq<Fr>, wits: Seq<Fr>) -> bool {
    forall|i: int| 0 <= i < cs.len() ==> constraint_holds(cs[i], inputs, wits)
}

pub open spec fn values_inv(vs: Seq<Fr>) -> bool {
    forall|i: int| 0 <= i < vs.len() ==> vs[i].inv()
}

/// Whether a synthesis pass records only the circuit shape or also the full
/// assignment.
#[derive(Clone, Copy, PartialEq, Eq, Structural, Debug)]
pub enum Mode {
    Setup,
    Prove,
}

/// Every way a lifecycle call can fail.
#[derive(Clone, Copy, PartialEq, Eq, Structural, Debug)]
pub enum SynthesisError {
    /// A value required for proving was absent at synthesis time.
    AssignmentMissing,
    /// A leaf index at or beyond the tree capacity was supplied.
    IndexOutOfRange,
    /// A leaf batch larger than the tree capacity was supplied.
    TreeTooLarge,
    /// The public-input vector disagrees with the relation's declared count.
    MalformedInput,
    /// The proving backend reported an internal failure.
    BackendFailure,
}

pub struct ConstraintSystem {
    pub mode: Mode,
    pub input_values: Vec<Fr>,
    pub witness_values: Vec<Fr>,
    pub constraints: Vec<Constraint>,
}

impl ConstraintSystem {
    pub open spec fn n_inputs(self) -> int {
        self.input_values@.len() as int
    }

    pub open spec fn n_witnesses(self) -> int {
        self.witness_values@.len() as int
    }

    /// The recorded circuit shape, as a sequence of constraint models.
    pub open spec fn shape(self) -> Seq<ConstraintModel> {
        self.constraints@.map_values(|c: Constraint| cmodel(c))
    }

    pub open spec fn wf(self) -> bool {
        &&& self.n_inputs() >= 1
        &&& self.input_values@[0].v == 1
        &&& values_inv(self.input_values@)
        &&& values_inv(self.witness_values@)
        &&& forall|j: int|
            0 <= j < self.shape().len() ==> cm_wf(
                #[trigger] self.shape()[j],
                self.n_inputs(),
                self.n_witnesses(),
            )
    }

    /// A system as handed to a relation: only the constant-one input.
    pub open spec fn is_fresh(self) -> bool {
        self.n_inputs() == 1 && self.n_witnesses() == 0 && self.constraints@.len() == 0
    }

    /// Whether the recorded assignment satisfies every recorded constraint.
    pub open spec fn satisfied(self) -> bool {
        all_hold(self.shape(), self.input_values@, self.witness_values@)
    }

    pub fn new(mode: Mode) -> (r: ConstraintSystem)
        ensures
            r.wf(),
            r.is_fresh(),
            r.satisfied(),
            r.mode == mode,
            r.input_values@ == seq![(Fr { v: 1 })],
    {
        let mut input_values: Vec<Fr> = Vec::new();
        input_values.push(Fr::one());
        proof {
            assert(input_values@ =~= seq![(Fr { v: 1 })]);
        }
        ConstraintSystem { mode, input_values, witness_values: Vec::new(), constraints: Vec::new() }
    }

    /// Creates a public-input variable. During proving the value must be
    /// supplied; during setup-only synthesis the slot is an unconstrained
    /// placeholder and no value is required.
    pub fn allocate_input(&mut self, value: Option<Fr>) -> (r: Result<Variable, SynthesisError>)
        requires
            old(self).wf(),
            value matches Some(f) ==> f.inv(),
        ensures
            final(self).wf(),
            final(self).mode == old(self).mode,
            final(self).witness_values@ == old(self).witness_values@,
            final(self).constraints@ == old(self).constraints@,
            old(self).mode == Mode::Setup ==> r == Ok::<Variable, SynthesisError>(
                (Variable { is_public: true, idx: old(self).input_values.len() }),
            ) && final(self).input_values@ == old(self).input_values@.push((Fr { v: 0 })),
            old(self).mode == Mode::Prove && value is Some ==> r == Ok::<Variable, SynthesisError>(
                (Variable { is_public: true, idx: old(self).input_values.len() }),
            ) && final(self).input_values@ == old(self).input_values@.push(value->0),
            old(self).mode == Mode::Prove && value is None ==> r == Err::<
                Variable,
                SynthesisError,
            >(SynthesisError::AssignmentMissing) && final(self).input_values@
                == old(self).input_values@,
    {
        let idx = self.input_values.len();
        match self.mode {
            Mode::Setup => {
                self.input_values.push(Fr::zero());
                proof {
                    lemma_values_inv_push(old(self).input_values@, Fr { v: 0 });
                    lemma_shape_wf_grow(*old(self), *self);
                }
                Ok(Variable { is_public: true, idx })
            },
            Mode::Prove => {
                match value {
                    Some(f) => {
                        self.input_values.push(f);
                        proof {
                            lemma_values_inv_push(old(self).input_values@, f);
                            lemma_shape_wf_grow(*old(self), *self);
                        }
                        Ok(Variable { is_public: true, idx })
                    },
                    None => Err(SynthesisError::AssignmentMissing),
                }
            },
        }
    }

    /// Creates a witness variable; identical to `allocate_input` except that
    /// the variable is never part of the public-input vector.
    pub fn allocate_witness(&mut self, value: Option<Fr>) -> (r: Result<Variable, SynthesisError>)
        requires
            old(self).wf(),
            value matches Some(f) ==> f.inv(),
        ensures
            final(self).wf(),
            final(self).mode == old(self).mode,
            final(self).input_values@ == old(self).input_values@,
            final(self).constraints@ == old(self).constraints@,
            old(self).mode == Mode::Setup ==> r == Ok::<Variable, SynthesisError>(
                (Variable { is_public: false, idx: old(self).witness_values.len() }),
            ) && final(self).witness_values@ == old(self).witness_values@.push((Fr { v: 0 })),
            old(self).mode == Mode::Prove && value is Some ==> r == Ok::<Variable, SynthesisError>(
                (Variable { is_public: false, idx: old(self).witness_values.len() }),
            ) && final(self).witness_values@ == old(self).witness_values@.push(value->0),
            old(self).mode == Mode::Prove && value is None ==> r == Err::<
                Variable,
                SynthesisError,
            >(SynthesisError::AssignmentMissing) && final(self).witness_values@
                == old(self).witness_values@,
    {
        let idx = self.witness_values.len();
        match self.mode {
            Mode::Setup => {
                self.witness_values.push(Fr::zero());
                proof {
                    lemma_values_inv_push(old(self).witness_values@, Fr { v: 0 });
                    lemma_shape_wf_grow(*old(self), *self);
                }
                Ok(Variable { is_public: false, idx })
            },
            Mode::Prove => {
                match value {
                    Some(f) => {
                        self.witness_values.push(f);
                        proof {
                            lemma_values_inv_push(old(self).witness_values@, f);
                            lemma_shape_wf_grow(*old(self), *self);
                        }
                        Ok(Variable { is_public: false, idx })
                    },
                    None => Err(SynthesisError::AssignmentMissing),
                }
            },
        }
    }

    /// Appends the constraint `left * right = output`. Never fails; a
    /// combination naming a variable this system has not allocated is a
    /// programmer error, excluded by precondition.
    pub fn enforce(
        &mut self,
        left: LinearCombination,
        right: LinearCombination,
        output: LinearCombination,
    )
        requires
            old(self).wf(),
            lc_wf(left.terms@, old(self).n_inputs(), old(self).n_witnesses()),
            lc_wf(right.terms@, old(self).n_inputs(), old(self).n_witnesses()),
            lc_wf(output.terms@, old(self).n_inputs(), old(self).n_witnesses()),
        ensures
            final(self).wf(),
            final(self).mode == old(self).mode,
            final(self).input_values@ == old(self).input_values@,
            final(self).witness_values@ == old(self).witness_values@,
            final(self).shape() == old(self).shape().push(
                (ConstraintModel { left: left.terms@, right: right.terms@, output: output.terms@ }),
            ),
            final(self).satisfied() <==> old(self).satisfied() && constraint_holds(
                (ConstraintModel { left: left.terms@, right: right.terms@, output: output.terms@ }),
                old(self).input_values@,
                old(self).witness_values@,
            ),
    {
        let ghost cm = ConstraintModel {
            left: left.terms@,
            right: right.terms@,
            output: output.terms@,
        };
        self.constraints.push(Constraint { left, right, output });
        proof {
            assert(self.shape() =~= old(self).shape().push(cm));
            lemma_all_hold_push(
                old(self).shape(),
                cm,
                self.input_values@,
                self.witness_values@,
            );
        }
    }

    /// A labelling hook for diagnostics. It has no effect on the constraint
    /// semantics; variable and constraint identities are indices, unique
    /// across any nesting of scopes.
    #[allow(unused_variables)]
    pub fn namespace(&mut self, label: &str)
        ensures
            *final(self) == *old(self),
    {
    }
}

pub proof fn lemma_values_inv_push(vs: Seq<Fr>, f: Fr)
    requires
        values_inv(vs),
        f.inv(),
    ensures
        values_inv(vs.push(f)),
{
    assert forall|i: int| 0 <= i < vs.push(f).len() implies vs.push(f)[i].inv() by {
        if i < vs.len() {
            assert(vs.push(f)[i] == vs[i]);
        }
    }
}

/// Growing the assignment (and never shrinking it) keeps every recorded
/// constraint well-formed: bounds only loosen.
pub proof fn lemma_lc_wf_mono(ts: Seq<Term>, ni1: int, nw1: int, ni2: int, nw2: int)
    requires
        lc_wf(ts, ni1, nw1),
        ni1 <= ni2,
        nw1 <= nw2,
    ensures
        lc_wf(ts, ni2, nw2),
{
    assert forall|i: int| 0 <= i < ts.len() implies term_wf(ts[i], ni2, nw2) by {
        assert(term_wf(ts[i], ni1, nw1));
    }
}

pub proof fn lemma_cm_wf_mono(c: ConstraintModel, ni1: int, nw1: int, ni2: int, nw2: int)
    requires
        cm_wf(c, ni1, nw1),
        ni1 <= ni2,
        nw1 <= nw2,
    ensures
        cm_wf(c, ni2, nw2),
{
    lemma_lc_wf_mono(c.left, ni1, nw1, ni2, nw2);
    lemma_lc_wf_mono(c.right, ni1, nw1, ni2, nw2);
    lemma_lc_wf_mono(c.output, ni1, nw1, ni2, nw2);
}

/// Pushing one value onto either assignment vector preserves
/// well-formedness of a system whose constraints are unchanged.
proof fn lemma_shape_wf_grow(pre: ConstraintSystem, post: ConstraintSystem)
    requires
        pre.wf(),
        post.constraints@ == pre.constraints@,
        post.n_inputs() >= pre.n_inputs(),
        post.n_witnesses() >= pre.n_witnesses(),
        post.input_values@[0].v == 1,
        values_inv(post.input_values@),
        values_inv(post.witness_values@),
    ensures
        post.wf(),
{
    assert forall|j: int| 0 <= j < post.shape().len() implies cm_wf(
        #[trigger] post.shape()[j],
        post.n_inputs(),
        post.n_witnesses(),
    ) by {
        assert(post.shape() == pre.shape());
        assert(cm_wf(pre.shape()[j], pre.n_inputs(), pre.n_witnesses()));
        lemma_cm_wf_mono(
            pre.shape()[j],
            pre.n_inputs(),
            pre.n_witnesses(),
            post.n_inputs(),
            post.n_witnesses(),
        );
    }
}

pub proof fn lemma_all_hold_push(
    cs: Seq<ConstraintModel>,
    c: ConstraintModel,
    inputs: Seq<Fr>,
    wits: Seq<Fr>,
)
    ensures
        all_hold(cs.push(c), inputs, wits) <==> (all_hold(cs, inputs, wits) && constraint_holds(
            c,
            inputs,
            wits,
        )),
{
    assert(cs.push(c)[cs.len() as int] == c);
    if all_hold(cs, inputs, wits) && constraint_holds(c, inputs, wits) {
        assert forall|i: int| 0 <= i < cs.push(c).len() implies constraint_holds(
            #[trigger] cs.push(c)[i],
            inputs,
            wits,
        ) by {
            if i < cs.len() {
                assert(cs.push(c)[i] == cs[i]);
                assert(constraint_holds(cs[i], inputs, wits));
            }
        }
    }
    if all_hold(cs.push(c), inputs, wits) {
        assert forall|i: int| 0 <= i < cs.len() implies constraint_holds(
            #[trigger] cs[i],
            inputs,
            wits,
        ) by {
            assert(constraint_holds(cs.push(c)[i], inputs, wits));
            assert(cs.push(c)[i] == cs[i]);
        }
    }
}

/// A linear combination only reads the slots it names, so extending the
/// assignment does not change its value.
pub proof fn lemma_lc_value_extend(
    ts: Seq<Term>,
    inputs1: Seq<Fr>,
    wits1: Seq<Fr>,
    inputs2: Seq<Fr>,
    wits2: Seq<Fr>,
)
    requires
        lc_wf(ts, inputs1.len() as int, wits1.len() as int),
        inputs1.is_prefix_of(inputs2),
        wits1.is_prefix_of(wits2),
    ensures
        lc_value(ts, inputs2, wits2) == lc_value(ts, inputs1, wits1),
    decreases ts.len(),
{
    if ts.len() > 0 {
        assert forall|i: int| 0 <= i < ts.drop_last().len() implies term_wf(
            #[trigger] ts.drop_last()[i],
            inputs1.len() as int,
            wits1.len() as int,
        ) by {
            assert(ts.drop_last()[i] == ts[i]);
            assert(term_wf(ts[i], inputs1.len() as int, wits1.len() as int));
        }
        lemma_lc_value_extend(ts.drop_last(), inputs1, wits1, inputs2, wits2);
        let t = ts.last();
        assert(term_wf(t, inputs1.len() as int, wits1.len() as int));
        if t.var.is_public {
            assert(inputs2[t.var.idx as int] == inputs1[t.var.idx as int]);
        } else {
            assert(wits2[t.var.idx as int] == wits1[t.var.idx as int]);
        }
    }
}

pub proof fn lemma_constraint_holds_extend(
    c: ConstraintModel,
    inputs1: Seq<Fr>,
    wits1: Seq<Fr>,
    inputs2: Seq<Fr>,
    wits2: Seq<Fr>,
)
    requires
        cm_wf(c, inputs1.len() as int, wits1.len() as int),
        inputs1.is_prefix_of(inputs2),
        wits1.is_prefix_of(wits2),
    ensures
        constraint_holds(c, inputs2, wits2) == constraint_holds(c, inputs1, wits1),
{
    lemma_lc_value_extend(c.left, inputs1, wits1, inputs2, wits2);
    lemma_lc_value_extend(c.right, inputs1, wits1, inputs2, wits2);
    lemma_lc_value_extend(c.output, inputs1, wits1, inputs2, wits2);
}

pub proof fn lemma_all_hold_extend(
    cs: Seq<ConstraintModel>,
    inputs1: Seq<Fr>,
    wits1: Seq<Fr>,
    inputs2: Seq<Fr>,
    wits2: Seq<Fr>,
)
    requires
        forall|j: int|
            0 <= j < cs.len() ==> cm_wf(#[trigger] cs[j], inputs1.len() as int, wits1.len() as int),
        inputs1.is_prefix_of(inputs2),
        wits1.is_prefix_of(wits2),
    ensures
        all_hold(cs, inputs2, wits2) == all_hold(cs, inputs1, wits1),
{
    assert forall|j: int| 0 <= j < cs.len() implies (constraint_holds(#[trigger] cs[j], inputs2, wits2)
        == constraint_holds(cs[j], inputs1, wits1)) by {
        lemma_constraint_holds_extend(cs[j], inputs1, wits1, inputs2, wits2);
    }
}

} // verus!
