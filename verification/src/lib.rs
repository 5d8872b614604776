//! An interactive sum-check protocol.
//!
//! A prover convinces a verifier that the sum of a multivariate polynomial's
//! evaluations over the boolean hypercube {0,1}^n equals a claimed value,
//! without the verifier summing over all 2^n points itself. The verifier runs
//! one round per variable: each round the prover sends a univariate
//! polynomial, the verifier checks it against the previous round's target and
//! a degree bound, and answers with a random challenge.

pub mod field;
pub mod hypercube;
pub mod partial;
pub mod poly;
pub mod protocol;
pub mod rng;
pub mod univariate;
