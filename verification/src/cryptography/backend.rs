//! The trusted boundary of the library.
//!
//! Everything the DKG needs from outside crates goes through the items of
//! this module and nothing else: the Blake2b-512 digest, the
//! ChaCha20-Poly1305 authenticated cipher, and the operating system's
//! randomness.  Each wrapper's contract states only what the outside crate's
//! source and documentation show; the rest of the library is verified
//! against these contracts.

use blake2::Digest;
use chacha20poly1305::aead::{Aead, KeyInit, Payload};
use vstd::prelude::*;

verus! {

/// The Blake2b-512 digest of a byte string, named but not defined: the
/// digest is a function of its input alone, and no contract here says what
/// it is on any given input.
pub uninterp spec fn blake2b_of(input: Seq<u8>) -> Seq<u8>;

/// Relies on `blake2::Blake2b512` (the `Digest` trait of `digest` 0.10):
/// a deterministic 64-byte digest of the input bytes.
#[verifier::external_body]
pub(crate) fn blake2b512(input: &[u8]) -> (r: Vec<u8>)
    ensures
        r@ == blake2b_of(input@),
        r@.len() == 64,
{
    blake2::Blake2b512::digest(input).to_vec()
}

/// The ChaCha20-Poly1305 ciphertext for a key, associated data and message,
/// under the fixed all-zero nonce; named but not defined.  The cipher is a
/// deterministic function of these three inputs.
pub uninterp spec fn seal_of(key: Seq<u8>, aad: Seq<u8>, msg: Seq<u8>) -> Seq<u8>;

/// Relies on `chacha20poly1305::ChaCha20Poly1305::encrypt` (via the `Aead`
/// trait of `aead` 0.5): deterministic encryption under a 32-byte key and the
/// all-zero nonce, appending a 16-byte authentication tag.  `encrypt` fails
/// only when the message reaches `u32::MAX` 64-byte blocks, which the
/// precondition rules out.
#[verifier::external_body]
pub(crate) fn aead_seal(key: &[u8], aad: &[u8], msg: &[u8]) -> (r: Vec<u8>)
    requires
        key@.len() == 32,
        msg@.len() < 0xffffffff * 64,
    ensures
        r@ == seal_of(key@, aad@, msg@),
        r@.len() == msg@.len() + 16,
{
    let cipher = chacha20poly1305::ChaCha20Poly1305::new(
        chacha20poly1305::Key::from_slice(key),
    );
    let nonce = [0u8; 12];
    cipher
        .encrypt(chacha20poly1305::Nonce::from_slice(&nonce), Payload { msg, aad })
        .expect("message within the cipher's length bound")
}

/// Relies on `chacha20poly1305::ChaCha20Poly1305::decrypt` (via the `Aead`
/// trait of `aead` 0.5): decryption inverts encryption under the same key,
/// nonce and associated data, and rejects any byte string that encryption
/// did not produce (the Poly1305 tag is recomputed and checked, and the
/// keystream makes sealing the returned plaintext reproduce the ciphertext
/// exactly).
#[verifier::external_body]
pub(crate) fn aead_open(key: &[u8], aad: &[u8], ciphertext: &[u8]) -> (r: Option<Vec<u8>>)
    requires
        key@.len() == 32,
    ensures
        forall|m: Seq<u8>|
            ciphertext@ == seal_of(key@, aad@, m) ==> r is Some && r->Some_0@ == m,
        r is Some ==> ciphertext@ == seal_of(key@, aad@, r->Some_0@),
{
    let cipher = chacha20poly1305::ChaCha20Poly1305::new(
        chacha20poly1305::Key::from_slice(key),
    );
    let nonce = [0u8; 12];
    cipher
        .decrypt(chacha20poly1305::Nonce::from_slice(&nonce), Payload { msg: ciphertext, aad })
        .ok()
}

/// What authenticated decryption returns, as a function of `seal_of`: the
/// unique message whose sealing gives the ciphertext, if there is one.
pub open spec fn open_of(key: Seq<u8>, aad: Seq<u8>, ciphertext: Seq<u8>) -> Option<Seq<u8>> {
    if exists|m: Seq<u8>| ciphertext == seal_of(key, aad, m) {
        Some(choose|m: Seq<u8>| ciphertext == seal_of(key, aad, m))
    } else {
        None
    }
}

#[verifier::external_type_specification]
#[verifier::external_body]
pub struct ExOsRng(rand_core::OsRng);

/// Relies on `rand_core::OsRng::next_u64`: a fresh value from the operating
/// system's randomness source.  Nothing can be promised of the value.
#[verifier::external_body]
pub(crate) fn rng_u64(rng: &mut rand_core::OsRng) -> u64 {
    rand_core::RngCore::next_u64(rng)
}

} // verus!
