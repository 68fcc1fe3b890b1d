//! What a constraint system sees of the trace at one evaluation point.

use vstd::prelude::*;

verus! {

/// A row of the trace, the row after it, and the public inputs.
pub struct StarkEvaluationVars<'a> {
    pub local_values: &'a Vec<u64>,
    pub next_values: &'a Vec<u64>,
    pub public_inputs: &'a Vec<u64>,
}

} // verus!
