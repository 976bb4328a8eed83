//! Non-interactive zero-knowledge proof of discrete-log equality.
//!
//! For public `(base₁, base₂, A, B)` the prover shows knowledge of `w` with
//! `A = base₁^w` and `B = base₂^w`: it samples `k`, announces `T₁ = base₁^k`
//! and `T₂ = base₂^k`, derives the Fiat–Shamir challenge
//! `c = H(base₁ ‖ base₂ ‖ A ‖ B ‖ T₁ ‖ T₂)` and responds `z = k + c·w`.
//! The verifier recomputes `c` and checks `base₁^z = T₁ + c·A` and
//! `base₂^z = T₂ + c·B`.

use vstd::prelude::*;

use crate::errors::ProofError;
use crate::group::{
    be_bytes8, fadd, fmul, gadd, gmul, hash_to_field, lemma_fmul_assoc, lemma_fmul_dist,
    PrimeGroupElement, Scalar,
};

verus! {

/// The Fiat–Shamir challenge: a domain-separated hash of all public inputs
/// and both announcements.
#[verifier::opaque]
pub open spec fn dleq_challenge(b1: int, b2: int, a: int, b: int, t1: int, t2: int) -> int {
    hash_to_field(
        seq![0x43u8] + be_bytes8(b1) + be_bytes8(b2) + be_bytes8(a) + be_bytes8(b) + be_bytes8(t1)
            + be_bytes8(t2),
    )
}

/// Proof of discrete-log equality: the two announcements and the response.
#[derive(Clone, Copy, Debug, PartialEq, Eq, Structural)]
pub struct DleqZkp {
    pub announcement_1: PrimeGroupElement,
    pub announcement_2: PrimeGroupElement,
    pub response: Scalar,
}

/// Whether a proof passes verification for the public inputs
/// `(base₁, base₂, A, B)`.
pub open spec fn dleq_verifies(b1: int, b2: int, a: int, b: int, p: DleqZkp) -> bool {
    let c = dleq_challenge(b1, b2, a, b, p.announcement_1@, p.announcement_2@);
    &&& gmul(p.response@, b1) == gadd(p.announcement_1@, gmul(c, a))
    &&& gmul(p.response@, b2) == gadd(p.announcement_2@, gmul(c, b))
}

/// Appends the canonical encoding of a group element.
fn push_point_bytes(out: &mut Vec<u8>, p: &PrimeGroupElement)
    ensures
        final(out)@ == old(out)@ + be_bytes8(p@),
{
    let mut pb = p.to_bytes();
    out.append(&mut pb);
}

/// The Fiat–Shamir challenge scalar for the given points.
fn challenge(
    b1: &PrimeGroupElement,
    b2: &PrimeGroupElement,
    a: &PrimeGroupElement,
    b: &PrimeGroupElement,
    t1: &PrimeGroupElement,
    t2: &PrimeGroupElement,
) -> (r: Scalar)
    ensures
        r.wf(),
        r@ == dleq_challenge(b1@, b2@, a@, b@, t1@, t2@),
{
    let mut input: Vec<u8> = Vec::new();
    input.push(0x43u8);
    proof {
        assert(input@ =~= seq![0x43u8]);
    }
    push_point_bytes(&mut input, b1);
    push_point_bytes(&mut input, b2);
    push_point_bytes(&mut input, a);
    push_point_bytes(&mut input, b);
    push_point_bytes(&mut input, t1);
    push_point_bytes(&mut input, t2);
    proof {
        reveal(dleq_challenge);
    }
    Scalar::hash_to_scalar(input.as_slice())
}

impl DleqZkp {
    /// A canonical proof.
    pub open spec fn wf(&self) -> bool {
        self.announcement_1.wf() && self.announcement_2.wf() && self.response.wf()
    }

    /// Generates a proof of discrete-log equality for witness `w`.
    ///
    /// The last clause is completeness: when `A` and `B` really are the
    /// `w`-th multiples of the two bases, the returned proof verifies.
    pub fn generate(
        base_1: &PrimeGroupElement,
        base_2: &PrimeGroupElement,
        a: &PrimeGroupElement,
        b: &PrimeGroupElement,
        w: &Scalar,
        rng: &mut rand_core::OsRng,
    ) -> (r: DleqZkp)
        requires
            base_1.wf(),
            base_2.wf(),
            a.wf(),
            b.wf(),
            w.wf(),
        ensures
            r.wf(),
            exists|k: int|
                #![auto]
                crate::group::in_field(k) && r.announcement_1@ == gmul(k, base_1@)
                    && r.announcement_2@ == gmul(k, base_2@) && r.response@ == fadd(
                    k,
                    fmul(
                        dleq_challenge(
                            base_1@,
                            base_2@,
                            a@,
                            b@,
                            r.announcement_1@,
                            r.announcement_2@,
                        ),
                        w@,
                    ),
                ),
            (a@ == gmul(w@, base_1@) && b@ == gmul(w@, base_2@)) ==> dleq_verifies(
                base_1@,
                base_2@,
                a@,
                b@,
                r,
            ),
    {
        let k = Scalar::random(rng);
        let announcement_1 = base_1.mul(&k);
        let announcement_2 = base_2.mul(&k);
        let c = challenge(base_1, base_2, a, b, &announcement_1, &announcement_2);
        let response = k.add(&c.mul(w));
        let r = DleqZkp { announcement_1, announcement_2, response };
        proof {
            lemma_dleq_complete(base_1@, base_2@, a@, b@, w@, k@, c@);
            assert(crate::group::in_field(k@) && r.announcement_1@ == gmul(k@, base_1@)
                && r.announcement_2@ == gmul(k@, base_2@));
        }
        r
    }

    /// Verifies a proof of discrete-log equality against the public inputs.
    pub fn verify(
        &self,
        base_1: &PrimeGroupElement,
        base_2: &PrimeGroupElement,
        a: &PrimeGroupElement,
        b: &PrimeGroupElement,
    ) -> (r: Result<(), ProofError>)
        requires
            self.wf(),
            base_1.wf(),
            base_2.wf(),
            a.wf(),
            b.wf(),
        ensures
            r is Ok <==> dleq_verifies(base_1@, base_2@, a@, b@, *self),
            r is Err ==> r->Err_0 == ProofError::InvalidProof,
    {
        let c = challenge(base_1, base_2, a, b, &self.announcement_1, &self.announcement_2);
        let lhs_1 = base_1.mul(&self.response);
        let rhs_1 = self.announcement_1.add(&a.mul(&c));
        let lhs_2 = base_2.mul(&self.response);
        let rhs_2 = self.announcement_2.add(&b.mul(&c));
        if lhs_1.v == rhs_1.v && lhs_2.v == rhs_2.v {
            Ok(())
        } else {
            Err(ProofError::InvalidProof)
        }
    }
}

/// Completeness of the verification equations: with an honest announcement
/// `k·base` and response `k + c·w`, each check holds whenever the public
/// point is the witness multiple of its base.
proof fn lemma_dleq_complete(b1: int, b2: int, a: int, b: int, w: int, k: int, c: int)
    ensures
        gmul(fadd(k, fmul(c, w)), b1) == gadd(gmul(k, b1), gmul(c, fmul(w, b1))),
        gmul(fadd(k, fmul(c, w)), b2) == gadd(gmul(k, b2), gmul(c, fmul(w, b2))),
{
    lemma_fmul_dist(k, fmul(c, w), b1);
    lemma_fmul_assoc(c, w, b1);
    lemma_fmul_dist(k, fmul(c, w), b2);
    lemma_fmul_assoc(c, w, b2);
}

} // verus!
