//! Non-interactive zero-knowledge proof of correct hybrid-decryption-key
//! recovery.
//!
//! The proof is `NIZK{(pk, C = (C1, C2), K), (sk): K = C1^sk AND pk = g^sk}`
//! — a proof of discrete-log equality instantiated with `base₁ = g` and
//! `base₂ = C1`.  A member uses it inside a complaint to show that the
//! symmetric key it reveals is the one its communication keypair implies
//! for the ciphertext.

use vstd::prelude::*;

use crate::cryptography::dl_equality::{dleq_challenge, dleq_verifies, DleqZkp};
use crate::cryptography::elgamal::{HybridCiphertext, SymmetricKey};
use crate::dkg::procedure_keys::{MemberCommunicationKey, MemberCommunicationPublicKey};
use crate::errors::ProofError;
use crate::group::{fadd, fmul, gmul, in_field, spec_generator, PrimeGroupElement};

verus! {

/// Whether a correct-decryption proof verifies for the ciphertext header
/// `e1`, the prover's public key and the revealed symmetric key.
pub open spec fn zkp_verifies(e1: int, pk: int, k: int, p: Zkp) -> bool {
    dleq_verifies(spec_generator(), e1, pk, k, p.hybrid_dec_key_proof)
}

/// Proof of correct decryption.
#[derive(Clone, Copy, Debug, PartialEq, Eq, Structural)]
pub struct Zkp {
    pub hybrid_dec_key_proof: DleqZkp,
}

impl Zkp {
    /// A canonical proof.
    pub open spec fn wf(&self) -> bool {
        self.hybrid_dec_key_proof.wf()
    }

    /// Generates a correct-decryption proof: the discrete-log-equality
    /// proof for bases `g` and `C1`, points `pk` and the symmetric key, and
    /// witness `sk`.
    ///
    /// The second clause pins the structure: the announcements are `g^k`
    /// and `C1^k` for one fresh scalar `k`, and the response is
    /// `k + c·sk` under the recomputable challenge `c`.  The last clause is
    /// completeness: when `pk` and the symmetric key really are the
    /// `sk`-multiples of `g` and of the ciphertext header, the proof
    /// verifies.
    pub fn generate(
        c: &HybridCiphertext,
        pk: &MemberCommunicationPublicKey,
        symmetric_key: &SymmetricKey,
        sk: &MemberCommunicationKey,
        rng: &mut rand_core::OsRng,
    ) -> (r: Zkp)
        requires
            c.wf(),
            pk.wf(),
            symmetric_key.wf(),
            sk.wf(),
        ensures
            r.wf(),
            exists|k: int|
                #![auto]
                in_field(k) && r.hybrid_dec_key_proof.announcement_1@ == gmul(
                    k,
                    spec_generator(),
                ) && r.hybrid_dec_key_proof.announcement_2@ == gmul(k, c.e1@)
                    && r.hybrid_dec_key_proof.response@ == fadd(
                    k,
                    fmul(
                        dleq_challenge(
                            spec_generator(),
                            c.e1@,
                            pk.0.pk@,
                            symmetric_key.group_repr@,
                            r.hybrid_dec_key_proof.announcement_1@,
                            r.hybrid_dec_key_proof.announcement_2@,
                        ),
                        sk.0.sk@,
                    ),
                ),
            (pk.0.pk@ == gmul(sk.0.sk@, spec_generator()) && symmetric_key.group_repr@ == gmul(
                sk.0.sk@,
                c.e1@,
            )) ==> zkp_verifies(c.e1@, pk.0.pk@, symmetric_key.group_repr@, r),
    {
        let gen = PrimeGroupElement::generator();
        let hybrid_dec_key_proof = DleqZkp::generate(
            &gen,
            &c.e1,
            &pk.0.pk,
            &symmetric_key.group_repr,
            &sk.0.sk,
            rng,
        );
        Zkp { hybrid_dec_key_proof }
    }

    /// Verifies a correct-decryption proof.
    pub fn verify(
        &self,
        c: &HybridCiphertext,
        symmetric_key: &SymmetricKey,
        pk: &MemberCommunicationPublicKey,
    ) -> (r: Result<(), ProofError>)
        requires
            self.wf(),
            c.wf(),
            symmetric_key.wf(),
            pk.wf(),
        ensures
            r is Ok <==> zkp_verifies(c.e1@, pk.0.pk@, symmetric_key.group_repr@, *self),
            r is Err ==> r->Err_0 == ProofError::InvalidProof,
    {
        let gen = PrimeGroupElement::generator();
        self.hybrid_dec_key_proof.verify(&gen, &c.e1, &pk.0.pk, &symmetric_key.group_repr)
    }
}

} // verus!
