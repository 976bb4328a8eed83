//! Univariate polynomials over the scalar field, used by each dealer to
//! Shamir-share its contribution to the master secret.

use vstd::prelude::*;

use crate::group::{
    fadd, fmul, fpow, in_field, lemma_msm_scale, lemma_small_field, msm, powers_seq, scalar_views,
    scalars_wf, scale_seq, seq_in_field, Scalar,
};

verus! {

/// The value of the polynomial with coefficients `c` (constant term first)
/// at the point `x`, by Horner's rule.
pub open spec fn poly_eval(c: Seq<int>, x: int) -> int
    decreases c.len(),
{
    if c.len() == 0 {
        0
    } else {
        fadd(c[0], fmul(x, poly_eval(c.drop_first(), x)))
    }
}

/// The value of a polynomial is a canonical field value.
pub proof fn lemma_poly_eval_in_field(c: Seq<int>, x: int)
    ensures
        in_field(poly_eval(c, x)),
    decreases c.len(),
{
    if c.len() != 0 {
        lemma_poly_eval_in_field(c.drop_first(), x);
    }
}

/// Evaluating a polynomial by Horner's rule agrees with the weighted sum
/// `Σ x^k · c_k` of its coefficients: the form in which the committed
/// coefficients are checked against a received share.
pub proof fn lemma_poly_eval_msm(c: Seq<int>, x: int)
    requires
        seq_in_field(c),
    ensures
        msm(powers_seq(x, c.len()), c) == poly_eval(c, x),
    decreases c.len(),
{
    if c.len() == 0 {
    } else {
        let pw = powers_seq(x, c.len());
        let pw1 = powers_seq(x, (c.len() - 1) as nat);
        assert forall|k: int| 0 <= k < pw.drop_first().len() implies pw.drop_first()[k]
            == scale_seq(x, pw1)[k] by {
            assert(pw.drop_first()[k] == fpow(x, (k + 1) as nat));
            assert(fpow(x, (k + 1) as nat) == fmul(x, fpow(x, k as nat)));
        }
        assert(pw.drop_first() =~= scale_seq(x, pw1));
        lemma_msm_scale(x, pw1, c.drop_first());
        lemma_poly_eval_msm(c.drop_first(), x);
        assert(pw[0] == fpow(x, 0));
        lemma_small_field(c[0]);
        assert(fmul(1, c[0]) == c[0]);
    }
}

/// A polynomial `a₀ + a₁x + … + a_d x^d` over the scalar field, with its
/// coefficients in order of increasing degree.
#[derive(Clone, Debug, PartialEq)]
pub struct Polynomial {
    pub coefficients: Vec<Scalar>,
}

impl View for Polynomial {
    type V = Seq<int>;

    open spec fn view(&self) -> Seq<int> {
        scalar_views(self.coefficients@)
    }
}

impl Polynomial {
    /// All coefficients are canonical.
    pub open spec fn wf(&self) -> bool {
        scalars_wf(self.coefficients@)
    }

    /// A uniformly sampled polynomial of degree `degree`: `degree + 1`
    /// random coefficients.
    pub fn random(rng: &mut rand_core::OsRng, degree: usize) -> (r: Polynomial)
        requires
            degree < usize::MAX,
        ensures
            r.wf(),
            r@.len() == degree + 1,
    {
        let mut coefficients: Vec<Scalar> = Vec::new();
        let mut i: usize = 0;
        while i < degree + 1
            invariant
                degree < usize::MAX,
                i <= degree + 1,
                coefficients@.len() == i,
                scalars_wf(coefficients@),
            decreases degree + 1 - i,
        {
            let c = Scalar::random(rng);
            coefficients.push(c);
            i = i + 1;
        }
        Polynomial { coefficients }
    }

    /// The coefficients, constant term first.
    pub fn get_coefficients(&self) -> (r: &Vec<Scalar>)
        ensures
            r == &self.coefficients,
    {
        &self.coefficients
    }

    /// The value of the polynomial at `x`, by Horner's rule.
    pub fn evaluate(&self, x: &Scalar) -> (r: Scalar)
        requires
            self.wf(),
            x.wf(),
        ensures
            r.wf(),
            r@ == poly_eval(self@, x@),
    {
        let ghost c = self@;
        let mut acc: Scalar = Scalar::zero();
        let mut i: usize = self.coefficients.len();
        while i > 0
            invariant
                i <= self.coefficients@.len(),
                self.wf(),
                x.wf(),
                c == self@,
                acc.wf(),
                acc@ == poly_eval(c.skip(i as int), x@),
            decreases i,
        {
            i = i - 1;
            let term = x.mul(&acc);
            let next = self.coefficients[i].add(&term);
            proof {
                assert(c.skip(i as int).drop_first() =~= c.skip(i as int + 1));
            }
            acc = next;
        }
        proof {
            assert(c.skip(0) =~= c);
        }
        acc
    }
}

} // verus!
