//! Dense multilinear polynomials.

pub mod plain;
