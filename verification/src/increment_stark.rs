//! A constraint system of one column that counts up by one from row to row.

use crate::constraint_consumer::ConstraintConsumer;
use crate::field;
use crate::field::field_sub;
use crate::stark::{Constraint, Stark};
use crate::vars::StarkEvaluationVars;
use vstd::prelude::*;

verus! {

/// The system whose single residue is `next - local - 1`.
pub struct IncrementStark {}

impl IncrementStark {
    /// The residue of a row holding `local` that is followed by `next`.
    pub open spec fn step_residue(local: u64, next: u64) -> u64 {
        field::difference(field::difference(next as int, local as int), 1) as u64
    }
}

impl Stark for IncrementStark {
    open spec fn columns_spec(&self) -> nat {
        1
    }

    open spec fn public_inputs_spec(&self) -> nat {
        0
    }

    open spec fn constraints(
        &self,
        local_values: Seq<u64>,
        next_values: Seq<u64>,
        public_inputs: Seq<u64>,
    ) -> Seq<Constraint> {
        seq![Constraint::EveryRow(Self::step_residue(local_values[0], next_values[0]))]
    }

    fn columns(&self) -> (n: usize) {
        1
    }

    fn public_inputs(&self) -> (n: usize) {
        0
    }

    fn eval_packed_base(&self, vars: StarkEvaluationVars<'_>, consumer: &mut ConstraintConsumer) {
        let step: u64 = field_sub(vars.next_values[0], vars.local_values[0]);
        let residue: u64 = field_sub(step, 1);
        proof {
            field::lemma_residue_range(residue as int);
            let given = self.constraints(
                vars.local_values@,
                vars.next_values@,
                vars.public_inputs@,
            );
            let added = crate::stark::filtered_all(
                given,
                old(consumer).lagrange_first(),
                old(consumer).lagrange_last(),
            );
            assert(added =~= seq![field::residue(residue as int)]);
            assert(old(consumer).emitted() + added =~= old(consumer).emitted().push(
                field::residue(residue as int),
            ));
        }
        consumer.constraint(residue);
    }
}

} // verus!
