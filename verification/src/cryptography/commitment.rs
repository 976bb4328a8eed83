//! Pedersen commitments over the prime-order group.
//!
//! The commitment key is `(g, h)` with `g` the fixed generator and `h`
//! derived from a shared reference string by hashing to the group, so that
//! no one knows a discrete-log relation between them.  A commitment to `m`
//! with randomness `r` is `Com(m; r) = h^r · g^m`; it is additively
//! homomorphic, which is what lets a received share be checked against the
//! committed coefficients of the dealer's polynomials.

use vstd::prelude::*;

use crate::group::{
    fadd, fmul, gadd, gmul, hash_to_field, lemma_fmul_assoc, lemma_fmul_dist_left, lemma_msm_scale,
    lemma_small_field, msm, powers_seq, scale_seq, seq_in_field, spec_generator, PrimeGroupElement,
    Scalar,
};
use crate::polynomial::poly_eval;
use vstd::arithmetic::div_mod::lemma_add_mod_noop;

verus! {

/// The Pedersen commitment `Com(m; r) = h^r · g^m`, in additive notation
/// `r · h + m · g`.
pub open spec fn spec_commit(h: int, m: int, r: int) -> int {
    gadd(gmul(r, h), gmul(m, spec_generator()))
}

/// The sequence of coefficient commitments `E_k = Com(a_k; b_k)`.
pub open spec fn commit_seq(h: int, a: Seq<int>, b: Seq<int>) -> Seq<int>
    recommends
        a.len() == b.len(),
{
    Seq::new(a.len(), |k: int| spec_commit(h, a[k], b[k]))
}

/// Pedersen commitments are additively homomorphic:
/// `Com(m₁; r₁) + Com(m₂; r₂) == Com(m₁+m₂; r₁+r₂)` as group elements.
pub proof fn lemma_commit_homomorphic(h: int, m1: int, r1: int, m2: int, r2: int)
    ensures
        gadd(spec_commit(h, m1, r1), spec_commit(h, m2, r2))
            == spec_commit(h, fadd(m1, m2), fadd(r1, r2)),
{
    let q = crate::group::GROUP_ORDER as int;
    let a = fmul(r1, h);
    let b = fmul(m1, 1);
    let c = fmul(r2, h);
    let d = fmul(m2, 1);
    // Reorder the four summands modulo q.
    lemma_add_mod_noop(a + b, c + d, q);
    lemma_add_mod_noop(a + c, b + d, q);
    lemma_add_mod_noop(a, b, q);
    lemma_add_mod_noop(c, d, q);
    lemma_add_mod_noop(a, c, q);
    lemma_add_mod_noop(b, d, q);
    // fadd(r1, r2) · h == r1·h + r2·h, and likewise for m with base g.
    crate::group::lemma_fmul_dist(r1, r2, h);
    crate::group::lemma_fmul_dist(m1, m2, 1);
}

/// Scaling a commitment by `x` commits to the scaled message under the
/// scaled randomness.
pub proof fn lemma_commit_scale(h: int, m: int, r: int, x: int)
    ensures
        fmul(x, spec_commit(h, m, r)) == spec_commit(h, fmul(x, m), fmul(x, r)),
{
    lemma_fmul_dist_left(x, fmul(r, h), fmul(m, 1));
    lemma_fmul_assoc(x, r, h);
    lemma_fmul_assoc(x, m, 1);
}

/// The weighted sum `Σ x^k · E_k` of the coefficient commitments is the
/// commitment to the two polynomial values at `x`: the additive
/// homomorphism that the share-verification step exploits.
pub proof fn lemma_commit_seq_eval(h: int, a: Seq<int>, b: Seq<int>, x: int)
    requires
        a.len() == b.len(),
        seq_in_field(a),
        seq_in_field(b),
    ensures
        msm(powers_seq(x, a.len()), commit_seq(h, a, b))
            == spec_commit(h, poly_eval(a, x), poly_eval(b, x)),
    decreases a.len(),
{
    if a.len() == 0 {
        assert(fmul(0, h) == 0);
        assert(fmul(0, 1) == 0);
    } else {
        let e = commit_seq(h, a, b);
        let pw = powers_seq(x, a.len());
        let pw1 = powers_seq(x, (a.len() - 1) as nat);
        lemma_commit_seq_eval(h, a.drop_first(), b.drop_first(), x);
        assert(e.drop_first() =~= commit_seq(h, a.drop_first(), b.drop_first()));
        assert forall|k: int| 0 <= k < pw.drop_first().len() implies pw.drop_first()[k]
            == scale_seq(x, pw1)[k] by {
            assert(pw.drop_first()[k] == crate::group::fpow(x, (k + 1) as nat));
            assert(crate::group::fpow(x, (k + 1) as nat) == fmul(x, crate::group::fpow(x, k as nat)));
        }
        assert(pw.drop_first() =~= scale_seq(x, pw1));
        lemma_msm_scale(x, pw1, e.drop_first());
        // msm(pw, e) == fadd(fmul(1, e[0]), fmul(x, commit(pe(a'), pe(b'))))
        lemma_commit_scale(h, poly_eval(a.drop_first(), x), poly_eval(b.drop_first(), x), x);
        crate::group::lemma_msm_in_field(pw1, e.drop_first());
        lemma_small_field(e[0]);
        assert(fmul(1, e[0]) == e[0]);
        lemma_commit_homomorphic(
            h,
            a[0],
            b[0],
            fmul(x, poly_eval(a.drop_first(), x)),
            fmul(x, poly_eval(b.drop_first(), x)),
        );
    }
}

/// The Pedersen check a member runs on a received share pair: the
/// commitment `Com(shek; comm)` recomputed from the decrypted scalars must
/// equal the weighted sum `Σ idx^k · E_k` of the dealer's committed
/// coefficients at the member's index.
pub open spec fn pedersen_check(h: int, comm: int, shek: int, coeffs: Seq<int>, idx: int) -> bool {
    spec_commit(h, shek, comm) == msm(powers_seq(idx, coeffs.len()), coeffs)
}

/// An honestly dealt share passes the Pedersen check: for polynomials `a`
/// and `b` and any index, the commitment of the two polynomial values at
/// that index equals the weighted sum of the coefficient commitments
/// `E_k = Com(a_k; b_k)` there.
pub proof fn lemma_honest_share_passes(h: int, a: Seq<int>, b: Seq<int>, i: int)
    requires
        a.len() == b.len(),
        seq_in_field(a),
        seq_in_field(b),
    ensures
        pedersen_check(h, poly_eval(b, i), poly_eval(a, i), commit_seq(h, a, b), i),
{
    lemma_commit_seq_eval(h, a, b, i);
}

/// The key `(g, h)` of the Pedersen commitment scheme; `g` is the group's
/// fixed generator and only `h` is carried.
#[derive(Clone, Copy, Debug, PartialEq, Eq, Structural)]
pub struct CommitmentKey {
    pub h: PrimeGroupElement,
}

impl CommitmentKey {
    /// A canonical commitment key.
    pub open spec fn wf(&self) -> bool {
        self.h.wf()
    }

    /// Derives the key from a shared reference string by hashing to the
    /// group, so that `h` is nothing-up-my-sleeve.
    pub fn generate(shared_string: &[u8]) -> (r: CommitmentKey)
        ensures
            r.wf(),
            r.h@ == hash_to_field(shared_string@),
    {
        CommitmentKey { h: PrimeGroupElement::hash_to_group(shared_string) }
    }

    /// The commitment `Com(m; r) = h^r · g^m`.
    pub fn commit(&self, m: &Scalar, r: &Scalar) -> (c: PrimeGroupElement)
        requires
            self.wf(),
            m.wf(),
            r.wf(),
        ensures
            c.wf(),
            c@ == spec_commit(self.h@, m@, r@),
    {
        let gen = PrimeGroupElement::generator();
        self.h.mul(r).add(&gen.mul(m))
    }
}

} // verus!
