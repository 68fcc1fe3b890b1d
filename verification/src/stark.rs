//! The interface of a constraint system.

use crate::constraint_consumer::ConstraintConsumer;
use crate::field;
use crate::vars::StarkEvaluationVars;
use vstd::prelude::*;

verus! {

/// One residue of a constraint system, with the rows on which it binds.
pub enum Constraint {
    /// Binds on every row.
    EveryRow(u64),
    /// Binds on the first row.
    FirstRow(u64),
    /// Binds on the last row.
    LastRow(u64),
}

/// The residue that reaches the accumulators: a boundary residue is scaled
/// by the polynomial that singles out its row.
pub open spec fn filtered(c: Constraint, lagrange_first: u64, lagrange_last: u64) -> int {
    match c {
        Constraint::EveryRow(r) => field::residue(r as int),
        Constraint::FirstRow(r) => field::product(r as int, lagrange_first as int),
        Constraint::LastRow(r) => field::product(r as int, lagrange_last as int),
    }
}

/// [`filtered`], on each residue of a list.
pub open spec fn filtered_all(cs: Seq<Constraint>, lagrange_first: u64, lagrange_last: u64) -> Seq<
    int,
> {
    Seq::new(cs.len(), |j: int| filtered(cs[j], lagrange_first, lagrange_last))
}

/// A constraint system: the width of its trace, the number of its public
/// inputs, and its residues on a pair of adjacent rows.
pub trait Stark {
    /// The number of columns of the trace.
    spec fn columns_spec(&self) -> nat;

    /// The number of public inputs.
    spec fn public_inputs_spec(&self) -> nat;

    /// The residues on a row and its successor, in the order in which
    /// [`Stark::eval_packed_base`] hands them over.
    spec fn constraints(
        &self,
        local_values: Seq<u64>,
        next_values: Seq<u64>,
        public_inputs: Seq<u64>,
    ) -> Seq<Constraint>;

    /// The number of columns of the trace.
    fn columns(&self) -> (n: usize)
        ensures
            n == self.columns_spec(),
    ;

    /// The number of public inputs.
    fn public_inputs(&self) -> (n: usize)
        ensures
            n == self.public_inputs_spec(),
    ;

    /// Hands the residues at one point to `consumer`, and changes nothing else of it.
    fn eval_packed_base(&self, vars: StarkEvaluationVars<'_>, consumer: &mut ConstraintConsumer)
        requires
            vars.local_values@.len() == self.columns_spec(),
            vars.next_values@.len() == self.columns_spec(),
            vars.public_inputs@.len() == self.public_inputs_spec(),
            old(consumer).wf(),
        ensures
            final(consumer).wf(),
            final(consumer).alphas() == old(consumer).alphas(),
            final(consumer).lagrange_first() == old(consumer).lagrange_first(),
            final(consumer).lagrange_last() == old(consumer).lagrange_last(),
            final(consumer).emitted() == old(consumer).emitted() + filtered_all(
                self.constraints(vars.local_values@, vars.next_values@, vars.public_inputs@),
                old(consumer).lagrange_first(),
                old(consumer).lagrange_last(),
            ),
    ;
}

} // verus!
