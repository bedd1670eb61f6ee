//! Inner-product arguments and a rank-one constraint system prover built on
//! them, over the BLS12-381 scalar field and its group G1.
pub mod field;
pub mod group;
pub mod transcript;
pub mod linalg;
pub mod algebra;
pub mod ipa;
pub mod r1cs;
pub mod circuit;
