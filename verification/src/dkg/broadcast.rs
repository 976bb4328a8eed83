//! Typed broadcast payloads exchanged at each phase boundary, and the
//! publicly verifiable proof of misbehaviour attached to a complaint.

use vstd::prelude::*;

use crate::cryptography::commitment::{pedersen_check, CommitmentKey};
use crate::cryptography::correct_hybrid_decryption_key::{zkp_verifies, Zkp};
use crate::cryptography::elgamal::{open_scalar, HybridCiphertext, SymmetricKey};
use crate::dkg::committee::MembersFetchedState1;
use crate::dkg::procedure_keys::{MemberCommunicationKey, MemberCommunicationPublicKey};
use crate::errors::DkgError;
use crate::group::{gmul, points_wf, spec_generator, PrimeGroupElement, Scalar};

verus! {

/// The encrypted shares a dealer addresses to one recipient: the 1-based
/// recipient index, the encrypted commitment-randomness evaluation and the
/// encrypted share evaluation.
pub type IndexedEncryptedShares = (usize, HybridCiphertext, HybridCiphertext);

/// The decrypted counterpart a member keeps per dealer: the
/// commitment-randomness scalar, the share scalar, and the dealer's round-1
/// committed coefficients.
pub type IndexedDecryptedShares = (Scalar, Scalar, Vec<PrimeGroupElement>);

/// A round-2 complaint: the accused dealer's 1-based index, the reason, and
/// the publicly verifiable evidence.
pub type MisbehavingPartiesState1 = (usize, DkgError, ProofOfMisbehaviour);

/// A round-4 disclosure: the accused dealer's 1-based index and the two
/// scalars this member received from it in round 1.
pub type MisbehavingPartiesState3 = (usize, Scalar, Scalar);

/// Round-1 broadcast of a dealer: the randomised commitments `E_k` to its
/// polynomial coefficients, and one encrypted share pair per other member.
#[derive(Clone, Debug, PartialEq, Eq)]
pub struct BroadcastPhase1 {
    pub committed_coefficients: Vec<PrimeGroupElement>,
    pub encrypted_shares: Vec<IndexedEncryptedShares>,
}

/// Round-2 broadcast: the complaints this member raises.
#[derive(Debug, PartialEq)]
pub struct BroadcastPhase2 {
    pub misbehaving_parties: Vec<MisbehavingPartiesState1>,
}

/// Round-3 broadcast: the plain commitments `A_k = g^{a_k}`, without
/// randomness.
#[derive(Clone, Debug, PartialEq, Eq)]
pub struct BroadcastPhase3 {
    pub committed_coefficients: Vec<PrimeGroupElement>,
}

/// Round-4 broadcast: the shares this member received from dealers whose
/// round-3 commitments contradict their round-1 shares.
#[derive(Clone, Debug, PartialEq, Eq)]
pub struct BroadcastPhase4 {
    pub misbehaving_parties: Vec<MisbehavingPartiesState3>,
}

/// Round-5 broadcast: the plaintext shares this member discloses for the
/// dealers accused in round 4, so that any third party can re-run the
/// checks.
#[derive(Clone, Debug, PartialEq, Eq)]
pub struct BroadcastPhase5 {
    pub disclosed_shares: Vec<MisbehavingPartiesState3>,
}

impl BroadcastPhase1 {
    /// Canonical group elements and ciphertexts throughout.
    pub open spec fn wf(&self) -> bool {
        points_wf(self.committed_coefficients@) && forall|k: int|
            0 <= k < self.encrypted_shares@.len() ==> {
                &&& (#[trigger] self.encrypted_shares@[k]).1.wf()
                &&& self.encrypted_shares@[k].2.wf()
            }
    }
}

/// The evidence inside a complaint: the exact encrypted shares the accuser
/// received, the two symmetric keys its decryption derived, and one
/// correct-decryption proof per ciphertext binding those keys to the
/// accuser's communication keypair.
#[derive(Debug, PartialEq)]
pub struct ProofOfMisbehaviour {
    pub encrypted_shares: IndexedEncryptedShares,
    pub key_comm: SymmetricKey,
    pub key_shek: SymmetricKey,
    pub proof_comm: Zkp,
    pub proof_shek: Zkp,
}

/// A complaint's evidence is valid against the accused dealer's published
/// round-1 data: the ciphertexts are the published ones, both
/// correct-decryption proofs verify for the accuser's public key, and the
/// decryption outcome they certify is indeed faulty — either a scalar out
/// of range, or a share that fails the Pedersen check at the accuser's
/// index.
pub open spec fn complaint_valid(
    p: ProofOfMisbehaviour,
    accuser_pk: int,
    shares: IndexedEncryptedShares,
    coeffs: Seq<int>,
    h: int,
    t: nat,
    accuser_index: int,
) -> bool {
    &&& p.encrypted_shares.0 == shares.0
    &&& p.encrypted_shares.1@ == shares.1@
    &&& p.encrypted_shares.2@ == shares.2@
    &&& shares.0 == accuser_index
    &&& zkp_verifies(shares.1.e1@, accuser_pk, p.key_comm.group_repr@, p.proof_comm)
    &&& zkp_verifies(shares.2.e1@, accuser_pk, p.key_shek.group_repr@, p.proof_shek)
    &&& {
        let comm = open_scalar(p.key_comm.group_repr@, shares.1.e1@, shares.1.e2@);
        let shek = open_scalar(p.key_shek.group_repr@, shares.2.e1@, shares.2.e2@);
        ||| comm is None
        ||| shek is None
        ||| coeffs.len() != t + 1
        ||| !pedersen_check(h, comm->Some_0, shek->Some_0, coeffs, accuser_index)
    }
}

impl ProofOfMisbehaviour {
    /// Canonical fields throughout.
    pub open spec fn wf(&self) -> bool {
        &&& self.encrypted_shares.1.wf()
        &&& self.encrypted_shares.2.wf()
        &&& self.key_comm.wf()
        &&& self.key_shek.wf()
        &&& self.proof_comm.wf()
        &&& self.proof_shek.wf()
    }

    /// Assembles the evidence for a complaint against the dealer of
    /// `shares`: recovers both symmetric keys with the accuser's secret key
    /// and proves each recovery correct.
    ///
    /// The last clause is completeness: the produced evidence is valid
    /// whenever the decryption outcome it certifies is faulty.
    pub fn generate(
        shares: &IndexedEncryptedShares,
        sk: &MemberCommunicationKey,
        rng: &mut rand_core::OsRng,
    ) -> (r: ProofOfMisbehaviour)
        requires
            sk.wf(),
            shares.1.wf(),
            shares.2.wf(),
        ensures
            r.wf(),
            r.encrypted_shares.0 == shares.0,
            r.encrypted_shares.1@ == shares.1@,
            r.encrypted_shares.2@ == shares.2@,
            r.key_comm.group_repr@ == gmul(sk.0.sk@, shares.1.e1@),
            r.key_shek.group_repr@ == gmul(sk.0.sk@, shares.2.e1@),
            zkp_verifies(
                shares.1.e1@,
                gmul(sk.0.sk@, spec_generator()),
                r.key_comm.group_repr@,
                r.proof_comm,
            ),
            zkp_verifies(
                shares.2.e1@,
                gmul(sk.0.sk@, spec_generator()),
                r.key_shek.group_repr@,
                r.proof_shek,
            ),
    {
        let pk = sk.to_public();
        let key_comm = sk.0.recover_symmetric_key(&shares.1);
        let key_shek = sk.0.recover_symmetric_key(&shares.2);
        let proof_comm = Zkp::generate(&shares.1, &pk, &key_comm, sk, rng);
        let proof_shek = Zkp::generate(&shares.2, &pk, &key_shek, sk, rng);
        ProofOfMisbehaviour {
            encrypted_shares: (shares.0, shares.1.duplicate(), shares.2.duplicate()),
            key_comm,
            key_shek,
            proof_comm,
            proof_shek,
        }
    }

    /// Verifies a complaint against the accused dealer's fetched round-1
    /// data, as any observer can: check the ciphertexts are the published
    /// ones, check both correct-decryption proofs, re-run the decryption
    /// with the revealed keys and re-run the Pedersen check at the
    /// accuser's index.
    pub fn verify(
        &self,
        accuser_pk: &MemberCommunicationPublicKey,
        fetched: &MembersFetchedState1,
        ck: &CommitmentKey,
        threshold: usize,
        accuser_index: usize,
    ) -> (r: Result<(), DkgError>)
        requires
            self.wf(),
            accuser_pk.wf(),
            ck.wf(),
            fetched.wf(),
            threshold < 65521,
            accuser_index < 65521,
        ensures
            r is Ok <==> complaint_valid(
                *self,
                accuser_pk.0.pk@,
                fetched.indexed_shares,
                crate::group::point_views(fetched.committed_coeffs@),
                ck.h@,
                threshold as nat,
                accuser_index as int,
            ),
            r is Err ==> r->Err_0 == DkgError::InvalidProof,
    {
        let shares = &fetched.indexed_shares;
        if self.encrypted_shares.0 != shares.0 || shares.0 != accuser_index {
            return Err(DkgError::InvalidProof);
        }
        if !self.encrypted_shares.1.same_as(&shares.1) || !self.encrypted_shares.2.same_as(
            &shares.2,
        ) {
            return Err(DkgError::InvalidProof);
        }
        if self.proof_comm.verify(&shares.1, &self.key_comm, accuser_pk).is_err() {
            return Err(DkgError::InvalidProof);
        }
        if self.proof_shek.verify(&shares.2, &self.key_shek, accuser_pk).is_err() {
            return Err(DkgError::InvalidProof);
        }
        if outcome_faulty(
            &self.key_comm,
            &self.key_shek,
            shares,
            &fetched.committed_coeffs,
            ck,
            threshold,
            accuser_index,
        ) {
            Ok(())
        } else {
            Err(DkgError::InvalidProof)
        }
    }
}

/// Re-runs the decryption that a complaint's revealed keys determine and
/// decides whether its outcome is indeed faulty: a scalar out of range, a
/// malformed coefficient list, or a share that fails the Pedersen check at
/// the accuser's index.
fn outcome_faulty(
    key_comm: &SymmetricKey,
    key_shek: &SymmetricKey,
    shares: &IndexedEncryptedShares,
    coeffs: &Vec<PrimeGroupElement>,
    ck: &CommitmentKey,
    threshold: usize,
    accuser_index: usize,
) -> (r: bool)
    requires
        key_comm.wf(),
        key_shek.wf(),
        shares.1.wf(),
        shares.2.wf(),
        crate::group::points_wf(coeffs@),
        ck.wf(),
        threshold < 65521,
        accuser_index < 65521,
    ensures
        r <==> ({
            let comm = open_scalar(key_comm.group_repr@, shares.1.e1@, shares.1.e2@);
            let shek = open_scalar(key_shek.group_repr@, shares.2.e1@, shares.2.e2@);
            ||| comm is None
            ||| shek is None
            ||| crate::group::point_views(coeffs@).len() != threshold + 1
            ||| !pedersen_check(
                ck.h@,
                comm->Some_0,
                shek->Some_0,
                crate::group::point_views(coeffs@),
                accuser_index as int,
            )
        }),
{
    let comm = open_scalar_exec(key_comm, &shares.1);
    let shek = open_scalar_exec(key_shek, &shares.2);
    match (comm, shek) {
        (Some(comm), Some(shek)) => {
            if coeffs.len() != threshold + 1 {
                return true;
            }
            let idx = Scalar::from_u64(accuser_index as u64);
            proof {
                vstd::arithmetic::div_mod::lemma_small_mod(
                    accuser_index as nat,
                    crate::group::GROUP_ORDER as nat,
                );
            }
            let powers = crate::group::scalar_powers(&idx, threshold + 1);
            let check = ck.commit(&shek, &comm);
            let combined = PrimeGroupElement::vartime_multiscalar_multiplication(&powers, coeffs);
            proof {
                assert(crate::group::scalar_views(powers@) =~= crate::group::powers_seq(
                    accuser_index as int,
                    (threshold + 1) as nat,
                ));
            }
            check.v != combined.v
        },
        _ => true,
    }
}

/// Opens one ciphertext under a revealed symmetric key and decodes the
/// plaintext as a canonical scalar.
fn open_scalar_exec(key: &SymmetricKey, ciphertext: &HybridCiphertext) -> (r: Option<Scalar>)
    requires
        key.wf(),
        ciphertext.wf(),
    ensures
        match r {
            Some(s) => s.wf() && open_scalar(key.group_repr@, ciphertext.e1@, ciphertext.e2@)
                == Some(s@),
            None => open_scalar(key.group_repr@, ciphertext.e1@, ciphertext.e2@) is None,
        },
{
    proof {
        reveal(open_scalar);
    }
    match key.open(ciphertext) {
        Some(bytes) => Scalar::from_bytes(bytes.as_slice()),
        None => None,
    }
}

} // verus!
