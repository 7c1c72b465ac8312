//! Cubic sumcheck over dense multilinear polynomials on the BN254 scalar field.
//!
//! The prover takes three evaluation tables `eq`, `a`, `b` of equal
//! power-of-two length and, round by round, publishes four evaluations of the
//! cubic `g(x) = sum_i eq_i(x) * a_i(x) * b_i(x)`, derives a challenge from
//! them and binds the top variable of all three tables at that challenge.
//! The verifier replays the challenges from the published evaluations alone.
//!
//! - [`field`]: the field elements and what their arithmetic returns.
//! - [`poly`]: the table of values of a multilinear polynomial and its
//!   binding.
//! - [`vectorized`]: field arithmetic on whole vectors.
//! - [`sumcheck`]: the transcript, the verifier, the prover loop over an
//!   execution strategy, the strategies, and what holds of the protocol.

pub mod field;
pub mod poly;
pub mod sumcheck;
pub mod vectorized;
