//! Keys of a committee member.
//!
//! Each member owns a long-lived communication keypair, used only to carry
//! the encrypted shares of the ceremony; the ceremony itself produces the
//! member's secret share of the master key and the master public key.

use vstd::prelude::*;

use crate::cryptography::elgamal::{
    is_encryption_of, spec_hybrid_decrypt, HybridCiphertext, PublicKey, SecretKey,
};
use crate::dkg::broadcast::IndexedEncryptedShares;
use crate::group::{
    be_val, gadd, gmul, in_field, spec_generator, PrimeGroupElement, Scalar, GROUP_ORDER,
};

verus! {

/// Committee member's secret share of the master key, produced at the end
/// of the ceremony.
#[derive(Clone, Copy, Debug, PartialEq, Eq, Structural)]
pub struct MemberSecretShare(pub SecretKey);

/// The public counterpart `g^share` of a member's secret share.
#[derive(Clone, Copy, Debug, PartialEq, Eq, Structural)]
pub struct MemberPublicShare(pub PublicKey);

/// Committee member's communication private key.  This differs from the
/// secret share: members need a pre-existing keypair to receive their
/// encrypted shares.
#[derive(Clone, Copy, Debug, PartialEq, Eq, Structural)]
pub struct MemberCommunicationKey(pub SecretKey);

/// Committee member's communication public key.
#[derive(Clone, Copy, Debug, PartialEq, Eq, Structural)]
pub struct MemberCommunicationPublicKey(pub PublicKey);

/// The master public key that the ceremony produces.
#[derive(Clone, Copy, Debug, PartialEq, Eq, Structural)]
pub struct MasterPublicKey(pub PublicKey);

/// What decrypting one share ciphertext yields: the opened bytes decoded as
/// a canonical scalar, absence on any failure.
#[verifier::opaque]
pub open spec fn decrypt_scalar(sk: int, e1: int, e2: Seq<u8>) -> Option<int> {
    match spec_hybrid_decrypt(sk, e1, e2) {
        Some(bs) => if bs.len() == 8 && be_val(bs) < GROUP_ORDER {
            Some(be_val(bs))
        } else {
            None
        },
        None => None,
    }
}

impl MemberSecretShare {
    /// A canonical share.
    pub open spec fn wf(&self) -> bool {
        self.0.wf()
    }

    /// The public share `g^share`.
    pub fn to_public(&self) -> (r: MemberPublicShare)
        requires
            self.wf(),
        ensures
            r.0.pk.wf(),
            r.0.pk@ == gmul(self.0.sk@, spec_generator()),
    {
        MemberPublicShare(self.0.to_public())
    }
}

impl From<PublicKey> for MemberPublicShare {
    fn from(pk: PublicKey) -> (r: MemberPublicShare)
    {
        MemberPublicShare(pk)
    }
}

impl vstd::std_specs::convert::FromSpecImpl<PublicKey> for MemberPublicShare {
    open spec fn obeys_from_spec() -> bool {
        true
    }

    open spec fn from_spec(pk: PublicKey) -> MemberPublicShare {
        MemberPublicShare(pk)
    }
}

impl From<PublicKey> for MemberCommunicationPublicKey {
    fn from(pk: PublicKey) -> (r: MemberCommunicationPublicKey)
    {
        MemberCommunicationPublicKey(pk)
    }
}

impl vstd::std_specs::convert::FromSpecImpl<PublicKey> for MemberCommunicationPublicKey {
    open spec fn obeys_from_spec() -> bool {
        true
    }

    open spec fn from_spec(pk: PublicKey) -> MemberCommunicationPublicKey {
        MemberCommunicationPublicKey(pk)
    }
}

impl MemberCommunicationKey {
    /// A canonical key.
    pub open spec fn wf(&self) -> bool {
        self.0.wf()
    }

    /// A fresh communication keypair from the caller's randomness source.
    pub fn new(rng: &mut rand_core::OsRng) -> (r: MemberCommunicationKey)
        ensures
            r.wf(),
    {
        MemberCommunicationKey(SecretKey::generate(rng))
    }

    /// The public communication key `g^sk`.
    pub fn to_public(&self) -> (r: MemberCommunicationPublicKey)
        requires
            self.wf(),
        ensures
            r.0.pk.wf(),
            r.0.pk@ == gmul(self.0.sk@, spec_generator()),
    {
        MemberCommunicationPublicKey(self.0.to_public())
    }

    /// Opens a hybrid ciphertext addressed to this member.
    ///
    /// The second clause is the round-trip law: whatever was encrypted to
    /// this member's public key is returned intact.
    pub fn hybrid_decrypt(&self, ciphertext: &HybridCiphertext) -> (r: Option<Vec<u8>>)
        requires
            self.wf(),
            ciphertext.wf(),
        ensures
            match r {
                Some(p) => spec_hybrid_decrypt(self.0.sk@, ciphertext.e1@, ciphertext.e2@)
                    == Some(p@),
                None => spec_hybrid_decrypt(self.0.sk@, ciphertext.e1@, ciphertext.e2@) is None,
            },
            forall|m: Seq<u8>|
                is_encryption_of(
                    ciphertext.e1@,
                    ciphertext.e2@,
                    gmul(self.0.sk@, spec_generator()),
                    m,
                ) ==> r is Some && r->Some_0@ == m,
    {
        self.0.hybrid_decrypt(ciphertext)
    }

    /// Decrypts the pair of share ciphertexts addressed to this member and
    /// decodes each plaintext as a canonical scalar.
    ///
    /// The last two clauses are the round-trip law at the scalar level:
    /// whatever scalar encoding was encrypted to this member's public key
    /// decodes back to that scalar, absence arising exactly from a
    /// non-canonical plaintext.
    pub fn decrypt_shares(&self, shares: &IndexedEncryptedShares) -> (r: (
        Option<Scalar>,
        Option<Scalar>,
    ))
        requires
            self.wf(),
            shares.1.wf(),
            shares.2.wf(),
        ensures
            match r.0 {
                Some(s) => s.wf() && decrypt_scalar(self.0.sk@, shares.1.e1@, shares.1.e2@)
                    == Some(s@),
                None => decrypt_scalar(self.0.sk@, shares.1.e1@, shares.1.e2@) is None,
            },
            match r.1 {
                Some(s) => s.wf() && decrypt_scalar(self.0.sk@, shares.2.e1@, shares.2.e2@)
                    == Some(s@),
                None => decrypt_scalar(self.0.sk@, shares.2.e1@, shares.2.e2@) is None,
            },
            forall|m: Seq<u8>|
                is_encryption_of(
                    shares.1.e1@,
                    shares.1.e2@,
                    gmul(self.0.sk@, spec_generator()),
                    m,
                ) ==> ((r.0 is Some <==> m.len() == 8 && be_val(m) < GROUP_ORDER) && (r.0 is Some
                    ==> r.0->Some_0@ == be_val(m))),
            forall|m: Seq<u8>|
                is_encryption_of(
                    shares.2.e1@,
                    shares.2.e2@,
                    gmul(self.0.sk@, spec_generator()),
                    m,
                ) ==> ((r.1 is Some <==> m.len() == 8 && be_val(m) < GROUP_ORDER) && (r.1 is Some
                    ==> r.1->Some_0@ == be_val(m))),
    {
        let comm = self.decrypt_one(&shares.1);
        let shek = self.decrypt_one(&shares.2);
        (comm, shek)
    }

    /// Decrypts one share ciphertext and decodes the plaintext scalar.
    fn decrypt_one(&self, ciphertext: &HybridCiphertext) -> (r: Option<Scalar>)
        requires
            self.wf(),
            ciphertext.wf(),
        ensures
            match r {
                Some(s) => s.wf() && decrypt_scalar(self.0.sk@, ciphertext.e1@, ciphertext.e2@)
                    == Some(s@),
                None => decrypt_scalar(self.0.sk@, ciphertext.e1@, ciphertext.e2@) is None,
            },
            forall|m: Seq<u8>|
                is_encryption_of(
                    ciphertext.e1@,
                    ciphertext.e2@,
                    gmul(self.0.sk@, spec_generator()),
                    m,
                ) ==> ((r is Some <==> m.len() == 8 && be_val(m) < GROUP_ORDER) && (r is Some
                    ==> r->Some_0@ == be_val(m))),
    {
        proof {
            reveal(decrypt_scalar);
        }
        let opened = self.hybrid_decrypt(ciphertext);
        match opened {
            Some(bytes) => {
                let decoded = Scalar::from_bytes(bytes.as_slice());
                proof {
                    assert forall|m: Seq<u8>|
                        is_encryption_of(
                            ciphertext.e1@,
                            ciphertext.e2@,
                            gmul(self.0.sk@, spec_generator()),
                            m,
                        ) implies ((decoded is Some <==> m.len() == 8 && be_val(m) < GROUP_ORDER)
                        && (decoded is Some ==> decoded->Some_0@ == be_val(m))) by {
                        assert(bytes@ == m);
                    }
                }
                decoded
            },
            None => None,
        }
    }
}

impl MemberCommunicationPublicKey {
    /// A canonical key.
    pub open spec fn wf(&self) -> bool {
        self.0.wf()
    }

    /// Hybrid encryption of a message to this member.
    pub fn hybrid_encrypt(&self, message: &[u8], rng: &mut rand_core::OsRng) -> (r:
        HybridCiphertext)
        requires
            self.wf(),
            message@.len() < 0xffffffff * 64,
        ensures
            r.wf(),
            crate::cryptography::elgamal::is_encryption_of(r.e1@, r.e2@, self.0.pk@, message@),
    {
        self.0.hybrid_encrypt(message, rng)
    }

    /// The deterministic total order on communication public keys: the
    /// numeric order of the canonical key value, which coincides with the
    /// lexicographic order of the big-endian key encodings.
    pub fn cmp(&self, other: &MemberCommunicationPublicKey) -> (r: core::cmp::Ordering)
        ensures
            r == core::cmp::Ordering::Less <==> self.0.pk@ < other.0.pk@,
            r == core::cmp::Ordering::Equal <==> self.0.pk@ == other.0.pk@,
            r == core::cmp::Ordering::Greater <==> self.0.pk@ > other.0.pk@,
    {
        if self.0.pk.v < other.0.pk.v {
            core::cmp::Ordering::Less
        } else if self.0.pk.v == other.0.pk.v {
            core::cmp::Ordering::Equal
        } else {
            core::cmp::Ordering::Greater
        }
    }

    /// The order with the shape of `PartialOrd`: always defined.
    pub fn partial_cmp(&self, other: &MemberCommunicationPublicKey) -> (r: Option<
        core::cmp::Ordering,
    >)
        ensures
            r == Some(self.cmp_spec(other)),
    {
        Some(self.cmp(other))
    }

    /// The comparison as a specification value.
    pub open spec fn cmp_spec(&self, other: &MemberCommunicationPublicKey) -> core::cmp::Ordering {
        if self.0.pk@ < other.0.pk@ {
            core::cmp::Ordering::Less
        } else if self.0.pk@ == other.0.pk@ {
            core::cmp::Ordering::Equal
        } else {
            core::cmp::Ordering::Greater
        }
    }
}

/// The communication-key order is a total order: it is antisymmetric,
/// transitive and total, and two keys compare equal exactly when their
/// canonical values — and so their byte encodings — coincide.
pub proof fn lemma_communication_key_order_total(
    a: MemberCommunicationPublicKey,
    b: MemberCommunicationPublicKey,
    c: MemberCommunicationPublicKey,
)
    ensures
        a.cmp_spec(&b) == core::cmp::Ordering::Equal <==> a.0.pk@ == b.0.pk@,
        a.cmp_spec(&b) == core::cmp::Ordering::Less <==> b.cmp_spec(&a)
            == core::cmp::Ordering::Greater,
        a.cmp_spec(&b) == core::cmp::Ordering::Less && b.cmp_spec(&c) == core::cmp::Ordering::Less
            ==> a.cmp_spec(&c) == core::cmp::Ordering::Less,
        a.cmp_spec(&b) == core::cmp::Ordering::Less || a.cmp_spec(&b) == core::cmp::Ordering::Equal
            || a.cmp_spec(&b) == core::cmp::Ordering::Greater,
{
}

impl MasterPublicKey {
    /// The master key assembled from the public shares of the participants:
    /// the sum of all `g^{share_i}`.
    pub fn from_participants(pks: &Vec<MemberPublicShare>) -> (r: MasterPublicKey)
        requires
            pks@.len() >= 1,
            forall|k: int| 0 <= k < pks@.len() ==> (#[trigger] pks@[k]).0.pk.wf(),
        ensures
            r.0.pk.wf(),
            r.0.pk@ == spec_sum_shares(pks@),
    {
        let mut k: PrimeGroupElement = pks[0].0.pk;
        let mut i: usize = 1;
        proof {
            assert(pks@.take(1).drop_last() =~= pks@.take(0));
            assert(pks@.take(1).last() == pks@[0]);
            assert(spec_sum_shares(pks@.take(0)) == 0);
            crate::group::lemma_small_field(pks@[0].0.pk@);
            assert(spec_sum_shares(pks@.take(1)) == gadd(0, pks@[0].0.pk@));
        }
        while i < pks.len()
            invariant
                1 <= i <= pks@.len(),
                forall|j: int| 0 <= j < pks@.len() ==> (#[trigger] pks@[j]).0.pk.wf(),
                k.wf(),
                k@ == spec_sum_shares(pks@.take(i as int)),
            decreases pks@.len() - i,
        {
            let next = k.add(&pks[i].0.pk);
            proof {
                assert(pks@.take(i + 1).drop_last() =~= pks@.take(i as int));
            }
            k = next;
            i = i + 1;
        }
        proof {
            assert(pks@.take(pks@.len() as int) =~= pks@);
        }
        MasterPublicKey(PublicKey { pk: k })
    }

    /// The raw public key inside.
    pub fn as_raw(&self) -> (r: &PublicKey)
        ensures
            r == &self.0,
    {
        &self.0
    }
}

/// The group-element sum of a sequence of public shares.
pub open spec fn spec_sum_shares(pks: Seq<MemberPublicShare>) -> int
    decreases pks.len(),
{
    if pks.len() == 0 {
        0
    } else {
        gadd(spec_sum_shares(pks.drop_last()), pks.last().0.pk@)
    }
}

/// The summand step that assembles the master key from public shares.
pub open spec fn share_add() -> spec_fn(MemberPublicShare, int) -> int {
    |x: MemberPublicShare, acc: int| gadd(acc, x.0.pk@)
}

/// The share sum is a canonical group element.
pub proof fn lemma_sum_shares_in_field(pks: Seq<MemberPublicShare>)
    ensures
        in_field(spec_sum_shares(pks)),
    decreases pks.len(),
{
    if pks.len() > 0 {
        lemma_sum_shares_in_field(pks.drop_last());
    }
}

/// Folding the shares with the summand step from any canonical start adds
/// the start to the share sum.
proof fn lemma_sum_shares_as_fold(pks: Seq<MemberPublicShare>, acc: int)
    requires
        in_field(acc),
        forall|k: int| 0 <= k < pks.len() ==> (#[trigger] pks[k]).0.pk.wf(),
    ensures
        pks.fold_right(share_add(), acc) == gadd(spec_sum_shares(pks), acc),
    decreases pks.len(),
{
    if pks.len() == 0 {
        crate::group::lemma_small_field(acc);
    } else {
        let lp = pks.last().0.pk@;
        assert forall|k: int|
            0 <= k < pks.drop_last().len() implies (#[trigger] pks.drop_last()[k]).0.pk.wf() by {
            assert(pks[k].0.pk.wf());
        }
        lemma_sum_shares_as_fold(pks.drop_last(), gadd(acc, lp));
        let partial = spec_sum_shares(pks.drop_last());
        lemma_sum_shares_in_field(pks.drop_last());
        crate::group::lemma_fadd_comm(acc, lp);
        crate::group::lemma_fadd_assoc(partial, lp, acc);
    }
}

/// Master-key order independence: the sum of the participants' public
/// shares does not depend on the order of the list — two lists holding
/// the same shares, however ordered, give the same master public key.
pub proof fn lemma_sum_shares_order_independent(
    s1: Seq<MemberPublicShare>,
    s2: Seq<MemberPublicShare>,
)
    requires
        s1.to_multiset() == s2.to_multiset(),
        forall|k: int| 0 <= k < s1.len() ==> (#[trigger] s1[k]).0.pk.wf(),
        forall|k: int| 0 <= k < s2.len() ==> (#[trigger] s2[k]).0.pk.wf(),
    ensures
        spec_sum_shares(s1) == spec_sum_shares(s2),
{
    let f = share_add();
    assert(vstd::seq_lib::commutative_foldr(f)) by {
        assert forall|x: MemberPublicShare, y: MemberPublicShare, v: int| #[trigger] f(
            x,
            f(y, v),
        ) == f(y, f(x, v)) by {
            let q = crate::group::GROUP_ORDER as int;
            vstd::arithmetic::div_mod::lemma_add_mod_noop_right(x.0.pk@, v + y.0.pk@, q);
            vstd::arithmetic::div_mod::lemma_add_mod_noop_right(y.0.pk@, v + x.0.pk@, q);
        }
    }
    vstd::seq_lib::lemma_fold_right_permutation(s1, s2, f, 0);
    lemma_sum_shares_as_fold(s1, 0);
    lemma_sum_shares_as_fold(s2, 0);
    lemma_sum_shares_in_field(s1);
    lemma_sum_shares_in_field(s2);
    crate::group::lemma_small_field(spec_sum_shares(s1));
    crate::group::lemma_small_field(spec_sum_shares(s2));
}

} // verus!
