//! The ways in which proving fails.

use vstd::prelude::*;

verus! {

/// A failure of the prover. None of them is recovered from here.
#[derive(Clone, Copy, Debug, PartialEq, Eq)]
pub enum ProveError {
    /// The opening point drawn from the transcript lies in the trace
    /// domain. Honest randomness gives this with negligible probability; a
    /// caller may start over with a fresh transcript.
    OpeningPointInSubgroup,
    /// A quotient polynomial has more coefficients than the extended
    /// domain has points: the constraints and the blow-up do not match.
    DegreeBound,
    /// What a commitment, a transform or the transcript handed back does
    /// not have the shape that was asked for.
    UpstreamFailure,
}

impl ProveError {
    /// The cause of the failure, in words.
    pub fn message(&self) -> (text: &'static str)
        ensures
            *self == ProveError::OpeningPointInSubgroup ==> text@
                == "Opening point is in the subgroup."@,
            *self == ProveError::DegreeBound ==> text@
                == "Quotient has failed, the vanishing polynomial is not divisible by `Z_H`"@,
            *self == ProveError::UpstreamFailure ==> text@
                == "An upstream primitive returned data of the wrong shape."@,
    {
        match self {
            ProveError::OpeningPointInSubgroup => "Opening point is in the subgroup.",
            ProveError::DegreeBound => {
                "Quotient has failed, the vanishing polynomial is not divisible by `Z_H`"
            },
            ProveError::UpstreamFailure => {
                "An upstream primitive returned data of the wrong shape."
            },
        }
    }
}

} // verus!
