//! The prime-order group and its scalar ring.
//!
//! The protocol is written against an abstract prime-order group `G` with
//! scalar field `F_q`.  This library instantiates it with the additive group
//! of integers modulo the prime `GROUP_ORDER`, written multiplicatively in
//! the protocol's notation: "`g^s`" is the scalar multiple `s · g`.  The
//! whole arithmetic is explicit and verified, which is what lets the
//! commitment, proof and driver layers carry exact contracts; the
//! discrete-log hardness that a production group would add is out of scope
//! here, exactly as the choice of group is out of scope for the protocol.
//!
//! Scalars and group elements are encoded canonically as 8 big-endian bytes;
//! decoding rejects every encoding whose value is not below `GROUP_ORDER`.

use vstd::arithmetic::div_mod::{lemma_add_mod_noop, lemma_mul_mod_noop_general, lemma_small_mod};
use vstd::prelude::*;

use crate::cryptography::backend::{blake2b512, blake2b_of, rng_u64};

verus! {

/// Order of the group and of its scalar field: the largest 16-bit prime.
pub const GROUP_ORDER: u64 = 65521;

/// Field addition modulo `GROUP_ORDER`.
pub open spec fn fadd(a: int, b: int) -> int {
    (a + b) % (GROUP_ORDER as int)
}

/// Field negation modulo `GROUP_ORDER`.
pub open spec fn fneg(a: int) -> int {
    (GROUP_ORDER as int - a) % (GROUP_ORDER as int)
}

/// Field subtraction modulo `GROUP_ORDER`.
pub open spec fn fsub(a: int, b: int) -> int {
    fadd(a, fneg(b))
}

/// Field multiplication modulo `GROUP_ORDER`.
pub open spec fn fmul(a: int, b: int) -> int {
    (a * b) % (GROUP_ORDER as int)
}

/// `x` raised to the `k`-th power in the field.
pub open spec fn fpow(x: int, k: nat) -> int
    decreases k,
{
    if k == 0 {
        1
    } else {
        fmul(x, fpow(x, (k - 1) as nat))
    }
}

/// A canonical field value.
pub open spec fn in_field(a: int) -> bool {
    0 <= a < GROUP_ORDER
}

/// Addition in the field is commutative.
pub proof fn lemma_fadd_comm(a: int, b: int)
    ensures
        fadd(a, b) == fadd(b, a),
{
}

/// Addition in the field is associative.
pub proof fn lemma_fadd_assoc(a: int, b: int, c: int)
    requires
        in_field(a),
        in_field(c),
    ensures
        fadd(fadd(a, b), c) == fadd(a, fadd(b, c)),
{
    let q = GROUP_ORDER as int;
    lemma_small_mod(c as nat, GROUP_ORDER as nat);
    lemma_small_mod(a as nat, GROUP_ORDER as nat);
    lemma_add_mod_noop(a + b, c, q);
    lemma_add_mod_noop(a, b + c, q);
}

/// Multiplication in the field is commutative.
pub proof fn lemma_fmul_comm(a: int, b: int)
    ensures
        fmul(a, b) == fmul(b, a),
{
    assert(a * b == b * a) by (nonlinear_arith);
}

/// Multiplication in the field is associative.
pub proof fn lemma_fmul_assoc(a: int, b: int, c: int)
    ensures
        fmul(fmul(a, b), c) == fmul(a, fmul(b, c)),
{
    let q = GROUP_ORDER as int;
    lemma_mul_mod_noop_general(a * b, c, q);
    assert((a * b) * c == a * (b * c)) by (nonlinear_arith);
    lemma_mul_mod_noop_general(a, b * c, q);
}

/// Multiplication distributes over addition in the field.
pub proof fn lemma_fmul_dist(a: int, b: int, c: int)
    ensures
        fmul(fadd(a, b), c) == fadd(fmul(a, c), fmul(b, c)),
{
    let q = GROUP_ORDER as int;
    lemma_mul_mod_noop_general(a + b, c, q);
    assert((a + b) * c == a * c + b * c) by (nonlinear_arith);
    lemma_add_mod_noop(a * c, b * c, q);
}

/// A canonical field value is fixed by reduction, by multiplication with
/// one and by addition of zero.
pub proof fn lemma_small_field(a: int)
    requires
        in_field(a),
    ensures
        a % (GROUP_ORDER as int) == a,
        fmul(1, a) == a,
        fadd(a, 0) == a,
        fadd(0, a) == a,
{
    lemma_small_mod(a as nat, GROUP_ORDER as nat);
}

/// The value of a byte string read as a big-endian number.
pub open spec fn be_val(s: Seq<u8>) -> int
    decreases s.len(),
{
    if s.len() == 0 {
        0
    } else {
        be_val(s.drop_last()) * 256 + s.last()
    }
}

/// The 8-byte big-endian encoding of a value below `2^64`.
pub open spec fn be_bytes8(v: int) -> Seq<u8> {
    seq![
        ((v / 0x100000000000000) % 256) as u8,
        ((v / 0x1000000000000) % 256) as u8,
        ((v / 0x10000000000) % 256) as u8,
        ((v / 0x100000000) % 256) as u8,
        ((v / 0x1000000) % 256) as u8,
        ((v / 0x10000) % 256) as u8,
        ((v / 0x100) % 256) as u8,
        (v % 256) as u8,
    ]
}

/// The field value that a byte string hashes to: the first 8 digest bytes
/// read big-endian, reduced modulo the group order.
pub open spec fn hash_to_field(input: Seq<u8>) -> int {
    be_val(blake2b_of(input).take(8)) % (GROUP_ORDER as int)
}

/// Reads the first 8 bytes of `digest` as a big-endian number.
fn be_val8(digest: &[u8]) -> (r: u64)
    requires
        digest@.len() >= 8,
    ensures
        r == be_val(digest@.take(8)),
{
    let d0: u64 = digest[0] as u64;
    let d1: u64 = d0 * 256 + digest[1] as u64;
    let d2: u64 = d1 * 256 + digest[2] as u64;
    let d3: u64 = d2 * 256 + digest[3] as u64;
    let d4: u64 = d3 * 256 + digest[4] as u64;
    let d5: u64 = d4 * 256 + digest[5] as u64;
    let d6: u64 = d5 * 256 + digest[6] as u64;
    let d7: u64 = d6 * 256 + digest[7] as u64;
    proof {
        reveal_with_fuel(be_val, 2);
        assert(digest@.take(1).drop_last() =~= digest@.take(0));
        assert(digest@.take(2).drop_last() =~= digest@.take(1));
        assert(digest@.take(3).drop_last() =~= digest@.take(2));
        assert(digest@.take(4).drop_last() =~= digest@.take(3));
        assert(digest@.take(5).drop_last() =~= digest@.take(4));
        assert(digest@.take(6).drop_last() =~= digest@.take(5));
        assert(digest@.take(7).drop_last() =~= digest@.take(6));
        assert(digest@.take(8).drop_last() =~= digest@.take(7));
        assert(be_val(digest@.take(0)) == 0);
        assert(be_val(digest@.take(1)) == d0);
        assert(be_val(digest@.take(2)) == d1);
        assert(be_val(digest@.take(3)) == d2);
        assert(be_val(digest@.take(4)) == d3);
        assert(be_val(digest@.take(5)) == d4);
        assert(be_val(digest@.take(6)) == d5);
        assert(be_val(digest@.take(7)) == d6);
        assert(be_val(digest@.take(8)) == d7);
    }
    d7
}

/// An element-for-element copy of a vector of plain values.
pub(crate) fn clone_vec<T: Copy>(v: &Vec<T>) -> (r: Vec<T>)
    ensures
        r@ == v@,
{
    let mut out: Vec<T> = Vec::new();
    let mut i: usize = 0;
    while i < v.len()
        invariant
            i <= v@.len(),
            out@ =~= v@.take(i as int),
        decreases v@.len() - i,
    {
        let x = v[i];
        out.push(x);
        proof {
            assert(out@ =~= v@.take(i + 1));
        }
        i = i + 1;
    }
    proof {
        assert(v@.take(v@.len() as int) =~= v@);
    }
    out
}

/// A scalar of the field `F_q`, held in canonical form.
#[derive(Clone, Copy, Debug, PartialEq, Eq, Structural)]
pub struct Scalar {
    pub v: u64,
}

impl View for Scalar {
    type V = int;

    open spec fn view(&self) -> int {
        self.v as int
    }
}

impl Scalar {
    /// A canonical scalar value.
    pub open spec fn wf(&self) -> bool {
        in_field(self@)
    }

    /// The zero scalar.
    pub fn zero() -> (r: Scalar)
        ensures
            r.wf(),
            r@ == 0,
    {
        Scalar { v: 0 }
    }

    /// The unit scalar.
    pub fn one() -> (r: Scalar)
        ensures
            r.wf(),
            r@ == 1,
    {
        Scalar { v: 1 }
    }

    /// The scalar that a machine word reduces to.
    pub fn from_u64(x: u64) -> (r: Scalar)
        ensures
            r.wf(),
            r@ == x as int % (GROUP_ORDER as int),
    {
        Scalar { v: x % GROUP_ORDER }
    }

    /// Scalar addition.
    pub fn add(&self, other: &Scalar) -> (r: Scalar)
        requires
            self.wf(),
            other.wf(),
        ensures
            r.wf(),
            r@ == fadd(self@, other@),
    {
        Scalar { v: (self.v + other.v) % GROUP_ORDER }
    }

    /// Scalar negation.
    pub fn neg(&self) -> (r: Scalar)
        requires
            self.wf(),
        ensures
            r.wf(),
            r@ == fneg(self@),
    {
        Scalar { v: (GROUP_ORDER - self.v) % GROUP_ORDER }
    }

    /// Scalar subtraction.
    pub fn sub(&self, other: &Scalar) -> (r: Scalar)
        requires
            self.wf(),
            other.wf(),
        ensures
            r.wf(),
            r@ == fsub(self@, other@),
    {
        Scalar { v: (self.v + (GROUP_ORDER - other.v) % GROUP_ORDER) % GROUP_ORDER }
    }

    /// Scalar multiplication.
    pub fn mul(&self, other: &Scalar) -> (r: Scalar)
        requires
            self.wf(),
            other.wf(),
        ensures
            r.wf(),
            r@ == fmul(self@, other@),
    {
        proof {
            assert(self.v * other.v < 0x1_0000_0000) by (nonlinear_arith)
                requires
                    self.v < 65521,
                    other.v < 65521,
            ;
        }
        Scalar { v: (self.v * other.v) % GROUP_ORDER }
    }

    /// A scalar drawn from the caller's randomness source.
    pub fn random(rng: &mut rand_core::OsRng) -> (r: Scalar)
        ensures
            r.wf(),
    {
        let x = rng_u64(rng);
        Scalar { v: x % GROUP_ORDER }
    }

    /// The scalar that a byte string hashes to, used for Fiat–Shamir
    /// challenges.
    pub fn hash_to_scalar(input: &[u8]) -> (r: Scalar)
        ensures
            r.wf(),
            r@ == hash_to_field(input@),
    {
        let digest = blake2b512(input);
        let x = be_val8(digest.as_slice());
        proof {
            assert(digest@.take(8) =~= blake2b_of(input@).take(8));
        }
        Scalar { v: x % GROUP_ORDER }
    }

    /// Decodes a canonical scalar: exactly 8 big-endian bytes whose value is
    /// below the group order; every other input is rejected.
    pub fn from_bytes(bytes: &[u8]) -> (r: Option<Scalar>)
        ensures
            r is Some <==> (bytes@.len() == 8 && be_val(bytes@) < GROUP_ORDER),
            r is Some ==> r->Some_0.wf() && r->Some_0@ == be_val(bytes@),
    {
        if bytes.len() != 8 {
            return None;
        }
        let x = be_val8(bytes);
        proof {
            assert(bytes@.take(8) =~= bytes@);
        }
        if x < GROUP_ORDER {
            Some(Scalar { v: x })
        } else {
            None
        }
    }

    /// The canonical 8-byte big-endian encoding.
    pub fn to_bytes(&self) -> (r: Vec<u8>)
        ensures
            r@ == be_bytes8(self@),
            r@.len() == 8,
    {
        be_bytes8_exec(self.v)
    }

    /// The sequence of powers `1, x, x^2, …` of this scalar, as a stateful
    /// generator.
    pub fn exp_iter(&self) -> (r: ScalarExp)
        requires
            self.wf(),
        ensures
            r.x == *self,
            r.next_exp_x.wf(),
            r.next_exp_x@ == 1,
    {
        ScalarExp { x: *self, next_exp_x: Scalar::one() }
    }
}

/// Encodes a machine word as 8 big-endian bytes.
fn be_bytes8_exec(v: u64) -> (r: Vec<u8>)
    ensures
        r@ == be_bytes8(v as int),
        r@.len() == 8,
{
    let mut out: Vec<u8> = Vec::new();
    out.push(((v / 0x100000000000000) % 256) as u8);
    out.push(((v / 0x1000000000000) % 256) as u8);
    out.push(((v / 0x10000000000) % 256) as u8);
    out.push(((v / 0x100000000) % 256) as u8);
    out.push(((v / 0x1000000) % 256) as u8);
    out.push(((v / 0x10000) % 256) as u8);
    out.push(((v / 0x100) % 256) as u8);
    out.push((v % 256) as u8);
    proof {
        assert(out@ =~= be_bytes8(v as int));
    }
    out
}

/// Generator of the powers of a scalar: `next` hands out `1, x, x^2, …`.
///
/// This mirrors the shape of an iterator without implementing the trait:
/// each call to [`ScalarExp::next`] returns the current power and advances.
pub struct ScalarExp {
    pub x: Scalar,
    pub next_exp_x: Scalar,
}

impl ScalarExp {
    /// Hands out the current power and steps to the next one.
    pub fn next(&mut self) -> (r: Option<Scalar>)
        requires
            old(self).x.wf(),
            old(self).next_exp_x.wf(),
        ensures
            final(self).x == old(self).x,
            final(self).next_exp_x.wf(),
            final(self).next_exp_x@ == fmul(old(self).next_exp_x@, old(self).x@),
            r == Some(old(self).next_exp_x),
    {
        let exp_x = self.next_exp_x;
        self.next_exp_x = self.next_exp_x.mul(&self.x);
        Some(exp_x)
    }

    /// The powers never run out: the hint an iterator would give.
    pub fn size_hint(&self) -> (r: (usize, Option<usize>))
        ensures
            r.0 == usize::MAX,
            r.1 is None,
    {
        (usize::MAX, None)
    }
}

/// The first `count` powers `1, x, …, x^{count-1}` of a scalar.
pub fn scalar_powers(x: &Scalar, count: usize) -> (r: Vec<Scalar>)
    requires
        x.wf(),
    ensures
        r@.len() == count,
        forall|k: int| 0 <= k < count ==> (#[trigger] r@[k]).wf() && r@[k]@ == fpow(x@, k as nat),
{
    let mut out: Vec<Scalar> = Vec::new();
    let mut cur: Scalar = Scalar::one();
    let mut i: usize = 0;
    while i < count
        invariant
            i <= count,
            x.wf(),
            cur.wf(),
            cur@ == fpow(x@, i as nat),
            out@.len() == i,
            forall|k: int| 0 <= k < i ==> (#[trigger] out@[k]).wf() && out@[k]@ == fpow(x@, k as nat),
        decreases count - i,
    {
        out.push(cur);
        let next = cur.mul(x);
        proof {
            lemma_fmul_comm(cur@, x@);
        }
        cur = next;
        i = i + 1;
    }
    out
}

/// An element of the prime-order group, held in canonical form.
#[derive(Clone, Copy, Debug, PartialEq, Eq, Structural)]
pub struct PrimeGroupElement {
    pub v: u64,
}

impl View for PrimeGroupElement {
    type V = int;

    open spec fn view(&self) -> int {
        self.v as int
    }
}

/// The scalar multiple `s · p` — the group-notation "`p^s`".
pub open spec fn gmul(s: int, p: int) -> int {
    fmul(s, p)
}

/// The group operation.
pub open spec fn gadd(p: int, q: int) -> int {
    fadd(p, q)
}

/// The generator `g` of the group.
pub open spec fn spec_generator() -> int {
    1
}

/// The field values of a sequence of scalars.
pub open spec fn scalar_views(s: Seq<Scalar>) -> Seq<int> {
    s.map_values(|x: Scalar| x@)
}

/// The field values of a sequence of group elements.
pub open spec fn point_views(p: Seq<PrimeGroupElement>) -> Seq<int> {
    p.map_values(|x: PrimeGroupElement| x@)
}

/// Every scalar of a sequence is canonical.
pub open spec fn scalars_wf(s: Seq<Scalar>) -> bool {
    forall|k: int| 0 <= k < s.len() ==> (#[trigger] s[k]).wf()
}

/// Every group element of a sequence is canonical.
pub open spec fn points_wf(p: Seq<PrimeGroupElement>) -> bool {
    forall|k: int| 0 <= k < p.len() ==> (#[trigger] p[k]).wf()
}

/// Multi-scalar multiplication `Σ sᵢ · pᵢ` over two sequences of equal
/// length.
pub open spec fn msm(ss: Seq<int>, ps: Seq<int>) -> int
    decreases ss.len(),
{
    if ss.len() == 0 {
        0
    } else {
        fadd(fmul(ss[0], ps[0]), msm(ss.drop_first(), ps.drop_first()))
    }
}

/// Every value of a sequence is canonical.
pub open spec fn seq_in_field(s: Seq<int>) -> bool {
    forall|k: int| 0 <= k < s.len() ==> in_field(#[trigger] s[k])
}

/// The first `n` powers `1, x, …, x^{n-1}` of a field value.
pub open spec fn powers_seq(x: int, n: nat) -> Seq<int> {
    Seq::new(n, |k: int| fpow(x, k as nat))
}

/// Every value of a sequence multiplied by `x`.
pub open spec fn scale_seq(x: int, s: Seq<int>) -> Seq<int> {
    s.map_values(|v: int| fmul(x, v))
}

/// Multiplication from the left distributes over field addition.
pub proof fn lemma_fmul_dist_left(x: int, u: int, v: int)
    ensures
        fmul(x, fadd(u, v)) == fadd(fmul(x, u), fmul(x, v)),
{
    lemma_fmul_comm(x, fadd(u, v));
    lemma_fmul_dist(u, v, x);
    lemma_fmul_comm(u, x);
    lemma_fmul_comm(v, x);
}

/// Scaling the scalars of a multi-scalar multiplication scales its value.
pub proof fn lemma_msm_scale(x: int, ss: Seq<int>, ps: Seq<int>)
    requires
        ss.len() == ps.len(),
    ensures
        msm(scale_seq(x, ss), ps) == fmul(x, msm(ss, ps)),
    decreases ss.len(),
{
    if ss.len() == 0 {
        assert(fmul(x, 0) == 0);
    } else {
        lemma_msm_scale(x, ss.drop_first(), ps.drop_first());
        assert(scale_seq(x, ss).drop_first() =~= scale_seq(x, ss.drop_first()));
        lemma_fmul_assoc(x, ss[0], ps[0]);
        lemma_fmul_dist_left(x, fmul(ss[0], ps[0]), msm(ss.drop_first(), ps.drop_first()));
    }
}

/// A multi-scalar multiplication of canonical values is canonical.
pub proof fn lemma_msm_in_field(ss: Seq<int>, ps: Seq<int>)
    ensures
        in_field(msm(ss, ps)),
    decreases ss.len(),
{
    if ss.len() != 0 {
        lemma_msm_in_field(ss.drop_first(), ps.drop_first());
    }
}

impl PrimeGroupElement {
    /// A canonical group element.
    pub open spec fn wf(&self) -> bool {
        in_field(self@)
    }

    /// The fixed generator of the group.
    pub fn generator() -> (r: PrimeGroupElement)
        ensures
            r.wf(),
            r@ == spec_generator(),
    {
        PrimeGroupElement { v: 1 }
    }

    /// The identity element.
    pub fn zero() -> (r: PrimeGroupElement)
        ensures
            r.wf(),
            r@ == 0,
    {
        PrimeGroupElement { v: 0 }
    }

    /// The group operation.
    pub fn add(&self, other: &PrimeGroupElement) -> (r: PrimeGroupElement)
        requires
            self.wf(),
            other.wf(),
        ensures
            r.wf(),
            r@ == gadd(self@, other@),
    {
        PrimeGroupElement { v: (self.v + other.v) % GROUP_ORDER }
    }

    /// The scalar multiple `s · self`, the group-notation "`self^s`".
    pub fn mul(&self, s: &Scalar) -> (r: PrimeGroupElement)
        requires
            self.wf(),
            s.wf(),
        ensures
            r.wf(),
            r@ == gmul(s@, self@),
    {
        proof {
            assert(self.v * s.v < 0x1_0000_0000 && self.v * s.v == s.v * self.v)
                by (nonlinear_arith)
                requires
                    self.v < 65521,
                    s.v < 65521,
            ;
        }
        PrimeGroupElement { v: (self.v * s.v) % GROUP_ORDER }
    }

    /// The group element that a byte string hashes to, used to derive
    /// nothing-up-my-sleeve elements such as the commitment key.
    pub fn hash_to_group(input: &[u8]) -> (r: PrimeGroupElement)
        ensures
            r.wf(),
            r@ == hash_to_field(input@),
    {
        let digest = blake2b512(input);
        let x = be_val8(digest.as_slice());
        proof {
            assert(digest@.take(8) =~= blake2b_of(input@).take(8));
        }
        PrimeGroupElement { v: x % GROUP_ORDER }
    }

    /// Decodes a canonical group element: exactly 8 big-endian bytes whose
    /// value is below the group order.
    pub fn from_bytes(bytes: &[u8]) -> (r: Option<PrimeGroupElement>)
        ensures
            r is Some <==> (bytes@.len() == 8 && be_val(bytes@) < GROUP_ORDER),
            r is Some ==> r->Some_0.wf() && r->Some_0@ == be_val(bytes@),
    {
        if bytes.len() != 8 {
            return None;
        }
        let x = be_val8(bytes);
        proof {
            assert(bytes@.take(8) =~= bytes@);
        }
        if x < GROUP_ORDER {
            Some(PrimeGroupElement { v: x })
        } else {
            None
        }
    }

    /// The canonical 8-byte big-endian encoding.
    pub fn to_bytes(&self) -> (r: Vec<u8>)
        ensures
            r@ == be_bytes8(self@),
            r@.len() == 8,
    {
        be_bytes8_exec(self.v)
    }

    /// Multi-scalar multiplication `Σ sᵢ · pᵢ`.
    pub fn vartime_multiscalar_multiplication(
        scalars: &Vec<Scalar>,
        points: &Vec<PrimeGroupElement>,
    ) -> (r: PrimeGroupElement)
        requires
            scalars@.len() == points@.len(),
            scalars_wf(scalars@),
            points_wf(points@),
        ensures
            r.wf(),
            r@ == msm(scalar_views(scalars@), point_views(points@)),
    {
        let ghost ss = scalar_views(scalars@);
        let ghost ps = point_views(points@);
        let mut acc: PrimeGroupElement = PrimeGroupElement::zero();
        let mut i: usize = scalars.len();
        while i > 0
            invariant
                i <= scalars@.len(),
                scalars@.len() == points@.len(),
                scalars_wf(scalars@),
                points_wf(points@),
                ss == scalar_views(scalars@),
                ps == point_views(points@),
                acc.wf(),
                acc@ == msm(ss.skip(i as int), ps.skip(i as int)),
            decreases i,
        {
            i = i - 1;
            let term = points[i].mul(&scalars[i]);
            let next = term.add(&acc);
            proof {
                assert(ss.skip(i as int).drop_first() =~= ss.skip(i as int + 1));
                assert(ps.skip(i as int).drop_first() =~= ps.skip(i as int + 1));
            }
            acc = next;
        }
        proof {
            assert(ss.skip(0) =~= ss);
            assert(ps.skip(0) =~= ps);
        }
        acc
    }
}

} // verus!
