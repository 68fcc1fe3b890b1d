//! The proving half of a STARK over the Goldilocks field, written as a
//! verified core that is free of I/O: every stage that needs a polynomial
//! commitment, a transcript or a fast Fourier transform is requested from
//! the caller as an action and answered by an event.

pub mod commitment;
pub mod config;
pub mod constraint_consumer;
pub mod error;
pub mod extension;
pub mod fibonacci_stark;
pub mod field;
pub mod increment_stark;
pub mod polynomial;
pub mod prover;
pub mod quotient;
pub mod stark;
pub mod stark_proof;
pub mod util;
pub mod vars;
pub mod zero_poly_coset;
