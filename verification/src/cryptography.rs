//! Cryptographic building blocks of the DKG: the trusted boundary to the
//! outside hash, cipher and randomness crates, Pedersen commitments, hybrid
//! (ElGamal + authenticated cipher) encryption, and the discrete-log-equality
//! proofs built on top of them.

pub mod backend;
pub mod commitment;
pub mod correct_hybrid_decryption_key;
pub mod dl_equality;
pub mod elgamal;
