//! A pluggable contract for proof systems that compress a folded, relaxed
//! R1CS instance/witness pair into one publicly verifiable proof.
pub mod errors;
pub mod r1cs;
pub mod commitment;
pub mod snark;
pub mod direct;
pub mod codec;
