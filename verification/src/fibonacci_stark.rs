//! A constraint system of two columns that steps through the Fibonacci
//! sequence: a row `[x0, x1]` is followed by `[x1, x0 + x1]`.

use crate::constraint_consumer::ConstraintConsumer;
use crate::field;
use crate::field::field_sub;
use crate::stark::{filtered_all, Constraint, Stark};
use crate::vars::StarkEvaluationVars;
use vstd::prelude::*;

verus! {

/// The Fibonacci system. Its public inputs are the two values of the first
/// row and the second value of the last row.
pub struct FibonacciStark {}

impl FibonacciStark {
    /// The place among the public inputs of the first value of the first row.
    pub const PI_INDEX_X0: usize = 0;

    /// The place among the public inputs of the second value of the first row.
    pub const PI_INDEX_X1: usize = 1;

    /// The place among the public inputs of the second value of the last row.
    pub const PI_INDEX_RES: usize = 2;

    /// `a - b` in the field, on representatives.
    pub open spec fn minus(a: u64, b: u64) -> u64 {
        field::difference(a as int, b as int) as u64
    }
}

impl Stark for FibonacciStark {
    open spec fn columns_spec(&self) -> nat {
        2
    }

    open spec fn public_inputs_spec(&self) -> nat {
        3
    }

    open spec fn constraints(
        &self,
        local_values: Seq<u64>,
        next_values: Seq<u64>,
        public_inputs: Seq<u64>,
    ) -> Seq<Constraint> {
        seq![
            Constraint::FirstRow(Self::minus(local_values[0], public_inputs[0])),
            Constraint::FirstRow(Self::minus(local_values[1], public_inputs[1])),
            Constraint::LastRow(Self::minus(local_values[1], public_inputs[2])),
            Constraint::EveryRow(Self::minus(next_values[0], local_values[1])),
            Constraint::EveryRow(
                Self::minus(Self::minus(next_values[1], local_values[0]), local_values[1]),
            ),
        ]
    }

    fn columns(&self) -> (n: usize) {
        2
    }

    fn public_inputs(&self) -> (n: usize) {
        3
    }

    fn eval_packed_base(&self, vars: StarkEvaluationVars<'_>, consumer: &mut ConstraintConsumer) {
        let local = vars.local_values;
        let next = vars.next_values;
        let inputs = vars.public_inputs;
        let ghost first = consumer.lagrange_first();
        let ghost last = consumer.lagrange_last();
        let ghost given = self.constraints(local@, next@, inputs@);
        let ghost before = consumer.emitted();
        let x0: u64 = field_sub(local[0], inputs[Self::PI_INDEX_X0]);
        let x1: u64 = field_sub(local[1], inputs[Self::PI_INDEX_X1]);
        let res: u64 = field_sub(local[1], inputs[Self::PI_INDEX_RES]);
        let shift: u64 = field_sub(next[0], local[1]);
        let step: u64 = field_sub(field_sub(next[1], local[0]), local[1]);
        consumer.constraint_first_row(x0);
        consumer.constraint_first_row(x1);
        consumer.constraint_last_row(res);
        consumer.constraint(shift);
        consumer.constraint(step);
        proof {
            let added = filtered_all(given, first, last);
            assert(added.len() == 5);
            assert(added[0] == field::product(x0 as int, first as int));
            assert(added[1] == field::product(x1 as int, first as int));
            assert(added[2] == field::product(res as int, last as int));
            assert(added[3] == field::residue(shift as int));
            assert(added[4] == field::residue(step as int));
            assert(consumer.emitted() =~= before + added);
        }
    }
}

} // verus!
