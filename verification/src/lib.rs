//! Distributed key generation (DKG) for discrete-log cryptosystems, after
//! Gennaro, Jarecki, Krawczyk and Rabin, with hybrid encryption of the
//! per-member shares.
//!
//! A fixed committee of `n` members jointly computes a master public key
//! whose secret key is Shamir-shared with threshold `t`.  The multi-phase
//! protocol driver lives in [`dkg::committee`]; the commitments, the hybrid
//! encryption and the two non-interactive zero-knowledge proofs it relies on
//! live under [`cryptography`].
//!
//! The group is a prime-order group with an explicit, verified scalar ring;
//! the hash and the authenticated cipher come from outside crates and are the
//! only trusted boundary, collected in [`cryptography::backend`].

pub mod cryptography;
pub mod dkg;
pub mod errors;
pub mod group;
pub mod polynomial;
