//! ElGamal key agreement and hybrid encryption.
//!
//! Hybrid encryption of a byte message under a recipient public key `pk`:
//! sample an ephemeral scalar `r`, publish `C1 = g^r`, derive the symmetric
//! key `K = pk^r` and seal the payload under `KDF(K)` with the ciphertext
//! bound to `C1` through the associated data.  The recipient recomputes
//! `K = C1^sk` and opens the payload; a failure of the authenticated cipher
//! or of the scalar decoding is reported as absence.

use vstd::prelude::*;

use crate::cryptography::backend::{aead_open, aead_seal, blake2b512, blake2b_of, open_of, seal_of};
use crate::group::{
    be_bytes8, be_val, fmul, gmul, in_field, lemma_fmul_assoc, lemma_fmul_comm, spec_generator,
    PrimeGroupElement, Scalar, GROUP_ORDER,
};

verus! {

/// The symmetric-key bytes derived from a shared group element: a
/// domain-separated digest, truncated to the cipher's 32-byte key.
pub open spec fn kdf_of(k: int) -> Seq<u8> {
    blake2b_of(seq![0x4bu8] + be_bytes8(k)).take(32)
}

/// What opening a hybrid payload under the symmetric key `k` returns.
pub open spec fn open_with_key(k: int, e1: int, e2: Seq<u8>) -> Option<Seq<u8>> {
    open_of(kdf_of(k), be_bytes8(e1), e2)
}

/// What hybrid decryption with the secret key `sk` returns: the symmetric
/// key is recomputed as `C1^sk`.
pub open spec fn spec_hybrid_decrypt(sk: int, e1: int, e2: Seq<u8>) -> Option<Seq<u8>> {
    open_with_key(gmul(sk, e1), e1, e2)
}

/// What opening a hybrid payload under the symmetric key `k` and decoding
/// it as a canonical scalar yields.
#[verifier::opaque]
pub open spec fn open_scalar(k: int, e1: int, e2: Seq<u8>) -> Option<int> {
    match open_with_key(k, e1, e2) {
        Some(bs) => if bs.len() == 8 && be_val(bs) < GROUP_ORDER {
            Some(be_val(bs))
        } else {
            None
        },
        None => None,
    }
}

/// The ciphertext `(e1, e2)` is an encryption of `msg` under `pk`: some
/// ephemeral scalar `r` explains both the header and the sealed payload.
pub open spec fn is_encryption_of(e1: int, e2: Seq<u8>, pk: int, msg: Seq<u8>) -> bool {
    exists|r: int|
        in_field(r) && e1 == gmul(r, spec_generator()) && e2 == seal_of(
            kdf_of(gmul(r, pk)),
            be_bytes8(e1),
            msg,
        )
}

/// Derives the cipher key from a shared group element.
fn kdf(k: &PrimeGroupElement) -> (r: Vec<u8>)
    ensures
        r@ == kdf_of(k@),
        r@.len() == 32,
{
    let mut input: Vec<u8> = Vec::new();
    input.push(0x4bu8);
    let kb = k.to_bytes();
    let mut i: usize = 0;
    while i < 8
        invariant
            i <= 8,
            kb@ == be_bytes8(k@),
            kb@.len() == 8,
            input@.len() == i + 1,
            input@ == seq![0x4bu8] + kb@.take(i as int),
        decreases 8 - i,
    {
        let b = kb[i];
        input.push(b);
        proof {
            assert(input@ =~= seq![0x4bu8] + kb@.take(i + 1));
        }
        i = i + 1;
    }
    proof {
        assert(kb@.take(8) =~= kb@);
    }
    let digest = blake2b512(input.as_slice());
    let mut key: Vec<u8> = Vec::new();
    let mut j: usize = 0;
    while j < 32
        invariant
            j <= 32,
            digest@.len() == 64,
            digest@ == blake2b_of(seq![0x4bu8] + be_bytes8(k@)),
            key@ =~= digest@.take(j as int),
        decreases 32 - j,
    {
        let b = digest[j];
        key.push(b);
        proof {
            assert(key@ =~= digest@.take(j + 1));
        }
        j = j + 1;
    }
    key
}

/// An ElGamal secret key.
#[derive(Clone, Copy, Debug, PartialEq, Eq, Structural)]
pub struct SecretKey {
    pub sk: Scalar,
}

/// An ElGamal public key.
#[derive(Clone, Copy, Debug, PartialEq, Eq, Structural)]
pub struct PublicKey {
    pub pk: PrimeGroupElement,
}

/// An ElGamal keypair.
#[derive(Clone, Copy, Debug, PartialEq, Eq, Structural)]
pub struct Keypair {
    pub secret_key: SecretKey,
    pub public_key: PublicKey,
}

/// The symmetric key shared through the ciphertext header: `pk^r` for the
/// sender, `C1^sk` for the receiver.
#[derive(Clone, Copy, Debug, PartialEq, Eq, Structural)]
pub struct SymmetricKey {
    pub group_repr: PrimeGroupElement,
}

/// A hybrid ciphertext: the ElGamal header `e1 = g^r` and the sealed
/// payload bound to it.
#[derive(Clone, Debug, PartialEq, Eq)]
pub struct HybridCiphertext {
    pub e1: PrimeGroupElement,
    pub e2: Vec<u8>,
}

impl View for HybridCiphertext {
    type V = (int, Seq<u8>);

    open spec fn view(&self) -> (int, Seq<u8>) {
        (self.e1@, self.e2@)
    }
}

impl HybridCiphertext {
    /// A canonical ciphertext.
    pub open spec fn wf(&self) -> bool {
        self.e1.wf()
    }

    /// An exact copy of this ciphertext.
    pub fn duplicate(&self) -> (r: HybridCiphertext)
        ensures
            r.e1 == self.e1,
            r.e2@ == self.e2@,
    {
        HybridCiphertext { e1: self.e1, e2: crate::group::clone_vec(&self.e2) }
    }

    /// Whether two ciphertexts hold the same bytes.
    pub fn same_as(&self, other: &HybridCiphertext) -> (r: bool)
        ensures
            r <==> (self.e1 == other.e1 && self.e2@ == other.e2@),
    {
        if self.e1.v != other.e1.v {
            return false;
        }
        if self.e2.len() != other.e2.len() {
            return false;
        }
        let mut i: usize = 0;
        while i < self.e2.len()
            invariant
                i <= self.e2@.len(),
                self.e2@.len() == other.e2@.len(),
                forall|k: int| 0 <= k < i ==> self.e2@[k] == other.e2@[k],
            decreases self.e2@.len() - i,
        {
            if self.e2[i] != other.e2[i] {
                return false;
            }
            i = i + 1;
        }
        proof {
            assert(self.e2@ =~= other.e2@);
        }
        true
    }
}

impl SecretKey {
    /// A canonical secret key.
    pub open spec fn wf(&self) -> bool {
        self.sk.wf()
    }

    /// A fresh secret key from the caller's randomness source.
    pub fn generate(rng: &mut rand_core::OsRng) -> (r: SecretKey)
        ensures
            r.wf(),
    {
        SecretKey { sk: Scalar::random(rng) }
    }

    /// The public key `g^sk`.
    pub fn to_public(&self) -> (r: PublicKey)
        requires
            self.wf(),
        ensures
            r.pk.wf(),
            r.pk@ == gmul(self.sk@, spec_generator()),
    {
        PublicKey { pk: PrimeGroupElement::generator().mul(&self.sk) }
    }

    /// The symmetric key `C1^sk` implied by a ciphertext header.
    pub fn recover_symmetric_key(&self, ciphertext: &HybridCiphertext) -> (r: SymmetricKey)
        requires
            self.wf(),
            ciphertext.wf(),
        ensures
            r.group_repr.wf(),
            r.group_repr@ == gmul(self.sk@, ciphertext.e1@),
    {
        SymmetricKey { group_repr: ciphertext.e1.mul(&self.sk) }
    }

    /// Opens a hybrid ciphertext with this secret key.
    ///
    /// The second clause is the round-trip law: whatever was encrypted to
    /// this key's public key is returned intact.
    pub fn hybrid_decrypt(&self, ciphertext: &HybridCiphertext) -> (r: Option<Vec<u8>>)
        requires
            self.wf(),
            ciphertext.wf(),
        ensures
            match r {
                Some(p) => spec_hybrid_decrypt(self.sk@, ciphertext.e1@, ciphertext.e2@)
                    == Some(p@),
                None => spec_hybrid_decrypt(self.sk@, ciphertext.e1@, ciphertext.e2@) is None,
            },
            forall|m: Seq<u8>|
                is_encryption_of(
                    ciphertext.e1@,
                    ciphertext.e2@,
                    gmul(self.sk@, spec_generator()),
                    m,
                ) ==> r is Some && r->Some_0@ == m,
    {
        let k = self.recover_symmetric_key(ciphertext);
        let r = k.open(ciphertext);
        proof {
            let sk = self.sk@;
            let e1 = ciphertext.e1@;
            let pk = gmul(sk, spec_generator());
            assert forall|m: Seq<u8>| is_encryption_of(e1, ciphertext.e2@, pk, m) implies r
                is Some && r->Some_0@ == m by {
                let rr = choose|rr: int|
                    in_field(rr) && e1 == gmul(rr, spec_generator()) && ciphertext.e2@
                        == seal_of(kdf_of(gmul(rr, pk)), be_bytes8(e1), m);
                lemma_fmul_comm(rr, fmul(sk, 1));
                lemma_fmul_assoc(sk, 1, rr);
                lemma_fmul_comm(1, rr);
                lemma_fmul_assoc(sk, rr, 1);
                lemma_fmul_comm(rr, 1);
                assert(gmul(rr, pk) == gmul(sk, e1));
            }
        }
        r
    }
}

impl SymmetricKey {
    /// A canonical symmetric key.
    pub open spec fn wf(&self) -> bool {
        self.group_repr.wf()
    }

    /// Opens a hybrid payload under this symmetric key, however the key was
    /// obtained.  An observer uses this with a key revealed in a complaint.
    pub fn open(&self, ciphertext: &HybridCiphertext) -> (r: Option<Vec<u8>>)
        requires
            self.wf(),
            ciphertext.wf(),
        ensures
            match r {
                Some(p) => open_with_key(self.group_repr@, ciphertext.e1@, ciphertext.e2@)
                    == Some(p@),
                None => open_with_key(self.group_repr@, ciphertext.e1@, ciphertext.e2@) is None,
            },
            forall|m: Seq<u8>|
                ciphertext.e2@ == seal_of(
                    kdf_of(self.group_repr@),
                    be_bytes8(ciphertext.e1@),
                    m,
                ) ==> r is Some && r->Some_0@ == m,
    {
        let key = kdf(&self.group_repr);
        let aad = ciphertext.e1.to_bytes();
        let r = aead_open(key.as_slice(), aad.as_slice(), ciphertext.e2.as_slice());
        proof {
            let kk = kdf_of(self.group_repr@);
            let aa = be_bytes8(ciphertext.e1@);
            if exists|m: Seq<u8>| ciphertext.e2@ == seal_of(kk, aa, m) {
                let m = choose|m: Seq<u8>| ciphertext.e2@ == seal_of(kk, aa, m);
                assert(r is Some && r->Some_0@ == m);
            }
        }
        r
    }
}

impl PublicKey {
    /// A canonical public key.
    pub open spec fn wf(&self) -> bool {
        self.pk.wf()
    }

    /// Hybrid encryption of a byte message to this public key.
    pub fn hybrid_encrypt(&self, message: &[u8], rng: &mut rand_core::OsRng) -> (r:
        HybridCiphertext)
        requires
            self.wf(),
            message@.len() < 0xffffffff * 64,
        ensures
            r.wf(),
            is_encryption_of(r.e1@, r.e2@, self.pk@, message@),
    {
        let eph = Scalar::random(rng);
        let e1 = PrimeGroupElement::generator().mul(&eph);
        let shared = self.pk.mul(&eph);
        let key = kdf(&shared);
        let aad = e1.to_bytes();
        let e2 = aead_seal(key.as_slice(), aad.as_slice(), message);
        let r = HybridCiphertext { e1, e2 };
        proof {
            assert(in_field(eph@) && r.e1@ == gmul(eph@, spec_generator()) && r.e2@ == seal_of(
                kdf_of(gmul(eph@, self.pk@)),
                be_bytes8(r.e1@),
                message@,
            ));
        }
        r
    }
}

/// An ElGamal keypair.
impl Keypair {
    /// A fresh keypair from the caller's randomness source.
    pub fn generate(rng: &mut rand_core::OsRng) -> (r: Keypair)
        ensures
            r.secret_key.wf(),
            r.public_key.wf(),
            r.public_key.pk@ == gmul(r.secret_key.sk@, spec_generator()),
    {
        let secret_key = SecretKey::generate(rng);
        let public_key = secret_key.to_public();
        Keypair { secret_key, public_key }
    }
}

} // verus!
