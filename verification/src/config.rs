//! The parameters of a proof.

use vstd::prelude::*;

verus! {

/// How the opening protocol chooses the arities of its reductions.
#[derive(Clone, Debug, PartialEq, Eq)]
pub enum FriReductionStrategy {
    /// The exact sequence of arities, in bits.
    Fixed(Vec<usize>),
    /// Reductions of one arity, given in bits, down to a final polynomial
    /// of the degree given in bits.
    ConstantArityBits(usize, usize),
    /// A search for the smallest proof, with an optional bound on the arity bits.
    MinSize(Option<usize>),
}

/// The parameters of the opening protocol.
#[derive(Clone, Debug, PartialEq, Eq)]
pub struct FriConfig {
    /// The blow-up factor of the extended domain, in bits.
    pub rate_bits: usize,
    /// The height of the Merkle caps.
    pub cap_height: usize,
    /// The number of bits of the proof of work.
    pub proof_of_work_bits: u32,
    /// The choice of reduction arities.
    pub reduction_strategy: FriReductionStrategy,
    /// The number of query rounds.
    pub num_query_rounds: usize,
}

/// The parameters of a proof.
#[derive(Clone, Debug, PartialEq, Eq)]
pub struct StarkConfig {
    /// The conjectured security level, in bits.
    pub security_bits: usize,
    /// The number of challenges that combine the constraints.
    pub num_challenges: usize,
    /// The parameters of the opening protocol.
    pub fri_config: FriConfig,
}

impl StarkConfig {
    /// A configuration that favours proving speed over proof size.
    pub fn standard_fast_config() -> (config: Self)
        ensures
            config.security_bits == 100,
            config.num_challenges == 2,
            config.fri_config.rate_bits == 1,
            config.fri_config.cap_height == 4,
            config.fri_config.proof_of_work_bits == 10,
            config.fri_config.reduction_strategy == FriReductionStrategy::ConstantArityBits(4, 5),
            config.fri_config.num_query_rounds == 90,
    {
        StarkConfig {
            security_bits: 100,
            num_challenges: 2,
            fri_config: FriConfig {
                rate_bits: 1,
                cap_height: 4,
                proof_of_work_bits: 10,
                reduction_strategy: FriReductionStrategy::ConstantArityBits(4, 5),
                num_query_rounds: 90,
            },
        }
    }
}

} // verus!
