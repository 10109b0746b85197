//! The interface every provable relation implements.
//!
//! A relation carries its public values and, for a proving pass, its witness
//! values; one `synthesize` call expresses it against a fresh constraint
//! system. The shape it records — constraints and variable counts — depends
//! only on the relation's structure, never on which values are present, so a
//! setup pass and a proving pass of the same relation agree on shape.

use vstd::prelude::*;

use crate::cs::{ConstraintModel, ConstraintSystem, Mode, SynthesisError};
use crate::field::Fr;

verus! {

pub trait Relation {
    /// The relation instance is internally consistent (values reduced,
    /// lengths as declared).
    spec fn wf(&self) -> bool;

    /// Every value a proving pass needs is present.
    spec fn prove_ok(&self) -> bool;

    /// How many public-input slots synthesis allocates, the constant-one
    /// slot included.
    spec fn n_inputs(&self) -> int;

    /// How many witness slots synthesis allocates.
    spec fn n_witnesses(&self) -> int;

    /// The constraints synthesis records: a function of the relation's
    /// structure alone.
    spec fn shape(&self) -> Seq<ConstraintModel>;

    /// The public-input vector a proving pass assigns, in allocation order,
    /// the constant-one slot excluded.
    spec fn public_vals(&self) -> Seq<Fr>;

    /// The witness vector a proving pass assigns, in allocation order.
    spec fn witness_vals(&self) -> Seq<Fr>;

    /// Whether the carried witness actually satisfies the relation: the
    /// recorded constraints accept the proving pass's assignment exactly in
    /// this case.
    spec fn witness_consistent(&self) -> bool;

    /// Expresses the relation against a fresh system: allocates every public
    /// and witness slot and records every constraint. A setup pass always
    /// succeeds; a proving pass succeeds exactly when every value is present,
    /// and then the recorded assignment is the declared one.
    fn synthesize(&self, cs: &mut ConstraintSystem) -> (r: Result<(), SynthesisError>)
        requires
            self.wf(),
            old(cs).wf(),
            old(cs).is_fresh(),
        ensures
            final(cs).wf(),
            final(cs).mode == old(cs).mode,
            r is Ok ==> final(cs).shape() == self.shape(),
            r is Ok ==> final(cs).n_inputs() == self.n_inputs() && final(cs).n_witnesses()
                == self.n_witnesses(),
            old(cs).mode == Mode::Setup ==> r is Ok,
            old(cs).mode == Mode::Prove ==> (r is Ok <==> self.prove_ok()),
            old(cs).mode == Mode::Prove && r is Ok ==> final(cs).input_values@ == seq![
                (Fr { v: 1 }),
            ] + self.public_vals() && final(cs).witness_values@ == self.witness_vals(),
            old(cs).mode == Mode::Prove && r is Ok ==> (final(cs).satisfied()
                <==> self.witness_consistent()),
            r is Err ==> r == Err::<(), SynthesisError>(SynthesisError::AssignmentMissing),
    ;
}

} // verus!
