//! The multi-phase driver of the distributed key generation, after Gennaro,
//! Jarecki, Krawczyk and Rabin, with hybrid encryption of the per-member
//! shares.
//!
//! The progression `Initialise → Phase1 → … → Phase5 → finalise` is
//! enforced at the type level: each phase is a distinct marker type and the
//! only way to obtain a phase value is the transition from its predecessor,
//! which consumes the old state.  Every transition returns a pair of the
//! next phase (or the error that ends this member's ceremony) and the data
//! to broadcast, because a failed transition may still owe the channel its
//! evidence.

use core::marker::PhantomData;
use vstd::prelude::*;

use crate::cryptography::commitment::{pedersen_check, spec_commit, CommitmentKey};
use crate::cryptography::elgamal::is_encryption_of;
use crate::dkg::broadcast::{
    complaint_valid, BroadcastPhase1, BroadcastPhase2, BroadcastPhase3, BroadcastPhase4,
    BroadcastPhase5, IndexedDecryptedShares, IndexedEncryptedShares, MisbehavingPartiesState1,
    MisbehavingPartiesState3, ProofOfMisbehaviour,
};
use crate::dkg::procedure_keys::{
    decrypt_scalar, MemberCommunicationKey, MemberCommunicationPublicKey, MemberSecretShare,
    MasterPublicKey,
};
use crate::errors::DkgError;
use crate::group::{
    be_bytes8, clone_vec, fadd, gadd, gmul, in_field, msm, point_views, points_wf, powers_seq,
    spec_generator, PrimeGroupElement, Scalar, GROUP_ORDER,
};
use crate::polynomial::{poly_eval, Polynomial};

verus! {

/// Environment parameters of the ceremony, shared by all members.
///
/// The threshold must exceed half the committee, and the committee must be
/// small enough that every 1-based member index is a distinct nonzero field
/// point.
#[derive(Clone, Copy, Debug, PartialEq, Eq, Structural)]
pub struct Environment {
    pub threshold: usize,
    pub nr_members: usize,
    pub commitment_key: CommitmentKey,
}

impl Environment {
    /// Well-formed environment parameters.
    pub open spec fn wf(&self) -> bool {
        &&& 1 <= self.threshold <= self.nr_members
        &&& self.nr_members < GROUP_ORDER
        &&& self.threshold > self.nr_members / 2
        &&& self.commitment_key.wf()
    }

    /// Packs the environment parameters of the ceremony.
    pub fn init(threshold: usize, nr_members: usize, commitment_key: CommitmentKey) -> (r:
        Environment)
        requires
            1 <= threshold <= nr_members,
            nr_members < 65521,
            threshold > nr_members / 2,
            commitment_key.wf(),
        ensures
            r == (Environment { threshold, nr_members, commitment_key }),
            r.wf(),
    {
        Environment { threshold, nr_members, commitment_key }
    }
}

/// Marker of the freshly constructed driver.
#[derive(Clone, Copy, Debug, PartialEq, Eq)]
pub struct Initialise {}

/// Marker of the dealer phase's successor state.
#[derive(Clone, Copy, Debug, PartialEq, Eq)]
pub struct Phase1 {}

/// Marker of the share-verification successor state.
#[derive(Clone, Copy, Debug, PartialEq, Eq)]
pub struct Phase2 {}

/// Marker of the qualification successor state.
#[derive(Clone, Copy, Debug, PartialEq, Eq)]
pub struct Phase3 {}

/// Marker of the plain-commitment-check successor state.
#[derive(Clone, Copy, Debug, PartialEq, Eq)]
pub struct Phase4 {}

/// Marker of the disclosure successor state.
#[derive(Clone, Copy, Debug, PartialEq, Eq)]
pub struct Phase5 {}

/// Private per-member state, carried through the phases.
#[derive(Clone, Debug, PartialEq)]
pub struct IndividualState {
    /// This member's 1-based index in the committee.
    pub index: usize,
    /// The shared environment parameters.
    pub environment: Environment,
    /// The member's long-lived communication secret key.
    pub communication_sk: MemberCommunicationKey,
    /// All members' communication public keys, in index order.
    pub committee_pks: Vec<MemberCommunicationPublicKey>,
    /// This member's plain coefficient commitments `A_k = g^{a_k}`.
    pub committed_coefficients: Vec<PrimeGroupElement>,
    /// Per dealer, the decrypted share pair and the dealer's round-1
    /// committed coefficients; the member's own slot holds its own
    /// evaluations.
    pub indexed_received_shares: Option<Vec<Option<IndexedDecryptedShares>>>,
    /// Per dealer, the plain committed coefficients fetched in round 3.
    pub indexed_committed_shares: Option<Vec<Option<Vec<PrimeGroupElement>>>>,
    /// One flag per member: 1 while the member counts as qualified.
    pub qualified_set: Vec<usize>,
}

/// A well-formed decrypted-share entry: canonical scalars and canonical
/// committed coefficients.
pub open spec fn share_entry_wf(e: IndexedDecryptedShares, t: nat) -> bool {
    e.0.wf() && e.1.wf() && points_wf(e.2@)
}

impl IndividualState {
    /// The invariants that hold from construction on.
    pub open spec fn wf_base(&self) -> bool {
        &&& self.environment.wf()
        &&& 1 <= self.index <= self.environment.nr_members
        &&& self.communication_sk.wf()
        &&& self.committee_pks@.len() == self.environment.nr_members
        &&& forall|k: int|
            0 <= k < self.committee_pks@.len() ==> (#[trigger] self.committee_pks@[k]).wf()
        &&& self.committee_pks@[self.index - 1].0.pk@ == gmul(
            self.communication_sk.0.sk@,
            spec_generator(),
        )
        &&& self.committed_coefficients@.len() == self.environment.threshold + 1
        &&& points_wf(self.committed_coefficients@)
        &&& self.qualified_set@.len() == self.environment.nr_members
        &&& forall|k: int|
            0 <= k < self.qualified_set@.len() ==> (#[trigger] self.qualified_set@[k]) == 0
                || self.qualified_set@[k] == 1
    }

    /// The received-share table exists, is complete in length, holds only
    /// well-formed entries, and holds this member's own evaluations.
    pub open spec fn wf_shares(&self) -> bool {
        &&& self.indexed_received_shares is Some
        &&& {
            let irs = self.indexed_received_shares->Some_0;
            &&& irs@.len() == self.environment.nr_members
            &&& forall|k: int|
                0 <= k < irs@.len() && (#[trigger] irs@[k]) is Some ==> share_entry_wf(
                    irs@[k]->Some_0,
                    self.environment.threshold as nat,
                )
            &&& irs@[self.index - 1] is Some
        }
    }

    /// The round-3 commitment table exists, holds only well-formed entries,
    /// and covers every still-qualified member.
    pub open spec fn wf_committed(&self) -> bool {
        &&& self.indexed_committed_shares is Some
        &&& {
            let ics = self.indexed_committed_shares->Some_0;
            let irs = self.indexed_received_shares->Some_0;
            &&& ics@.len() == self.environment.nr_members
            &&& forall|k: int|
                0 <= k < ics@.len() && (#[trigger] ics@[k]) is Some ==> {
                    &&& ics@[k]->Some_0@.len() == self.environment.threshold + 1
                    &&& points_wf(ics@[k]->Some_0@)
                }
            &&& forall|k: int|
                0 <= k < self.qualified_set@.len() && (#[trigger] self.qualified_set@[k]) == 1
                    ==> ics@[k] is Some && irs@[k] is Some
        }
    }
}

/// A phase of the driver: the member's state, tagged by the phase marker so
/// that only the designated transition can consume it.
#[derive(Debug, PartialEq)]
pub struct Phase<P> {
    pub state: IndividualState,
    pub phase: PhantomData<P>,
}

/// The entry point of the driver.
pub type DistributedKeyGeneration = Phase<Initialise>;

impl Phase<Phase1> {
    /// State invariant while waiting for the peers' round-1 broadcasts.
    pub open spec fn wf(&self) -> bool {
        self.state.wf_base() && self.state.wf_shares() && self.state.indexed_committed_shares
            is None
    }
}

impl Phase<Phase2> {
    /// State invariant after share verification.
    pub open spec fn wf(&self) -> bool {
        self.state.wf_base() && self.state.wf_shares() && self.state.indexed_committed_shares
            is None
    }
}

impl Phase<Phase3> {
    /// State invariant after qualification.
    pub open spec fn wf(&self) -> bool {
        self.state.wf_base() && self.state.wf_shares() && self.state.indexed_committed_shares
            is None
    }
}

impl Phase<Phase4> {
    /// State invariant after the plain-commitment check.
    pub open spec fn wf(&self) -> bool {
        self.state.wf_base() && self.state.wf_shares() && self.state.wf_committed()
    }
}

impl Phase<Phase5> {
    /// State invariant after the disclosure round.
    pub open spec fn wf(&self) -> bool {
        self.state.wf_base() && self.state.wf_shares() && self.state.wf_committed()
    }
}

/// What a member fetches from one peer after round 1: the sender's 1-based
/// index, the encrypted share pair the sender addressed to this member, and
/// the sender's committed coefficients.
#[derive(Debug, PartialEq)]
pub struct MembersFetchedState1 {
    pub sender_index: usize,
    pub indexed_shares: IndexedEncryptedShares,
    pub committed_coeffs: Vec<PrimeGroupElement>,
}

impl MembersFetchedState1 {
    /// Canonical ciphertexts and group elements.
    pub open spec fn wf(&self) -> bool {
        self.indexed_shares.1.wf() && self.indexed_shares.2.wf() && points_wf(
            self.committed_coeffs@,
        )
    }

    /// The recipient index the sender wrote on the shares.
    pub fn get_index(&self) -> (r: usize)
        ensures
            r == self.indexed_shares.0,
    {
        self.indexed_shares.0
    }
}

/// What a member fetches from one peer after round 3: the sender's 1-based
/// index and its plain committed coefficients.
#[derive(Clone, Debug, PartialEq)]
pub struct MembersFetchedState3 {
    pub sender_index: usize,
    pub committed_coefficients: Vec<PrimeGroupElement>,
}

impl MembersFetchedState3 {
    /// Canonical group elements.
    pub open spec fn wf(&self) -> bool {
        points_wf(self.committed_coefficients@)
    }
}

/// The 1-based recipient of the `j`-th entry of a dealer's round-1 share
/// list: the members in index order, skipping the dealer itself.
pub open spec fn recipient_at(j: int, my: int) -> int {
    if j + 1 < my {
        j + 1
    } else {
        j + 2
    }
}

/// The dealer's outputs are explained by a pair of polynomials `(a, b)`:
/// the state keeps `A_k = g^{a_k}`, the broadcast publishes
/// `E_k = Com(a_k; b_k)`, each other member receives encryptions of the two
/// evaluations at its index, and the dealer's own slot holds its own
/// evaluations.
pub open spec fn dealer_polys_match(
    h: int,
    t: nat,
    n: nat,
    my: int,
    pks: Seq<MemberCommunicationPublicKey>,
    state: IndividualState,
    bc: BroadcastPhase1,
    a: Seq<int>,
    b: Seq<int>,
) -> bool {
    &&& a.len() == t + 1
    &&& b.len() == t + 1
    &&& crate::group::seq_in_field(a)
    &&& crate::group::seq_in_field(b)
    &&& forall|k: int|
        0 <= k < t + 1 ==> (#[trigger] state.committed_coefficients@[k])@ == gmul(
            a[k],
            spec_generator(),
        )
    &&& bc.committed_coefficients@.len() == t + 1
    &&& forall|k: int|
        0 <= k < t + 1 ==> (#[trigger] bc.committed_coefficients@[k])@ == spec_commit(
            h,
            a[k],
            b[k],
        )
    &&& bc.encrypted_shares@.len() == n - 1
    &&& forall|j: int|
        0 <= j < n - 1 ==> {
            let e = #[trigger] bc.encrypted_shares@[j];
            let rec = recipient_at(j, my);
            &&& e.0 == rec
            &&& is_encryption_of(e.1.e1@, e.1.e2@, pks[rec - 1].0.pk@, be_bytes8(poly_eval(b, rec)))
            &&& is_encryption_of(e.2.e1@, e.2.e2@, pks[rec - 1].0.pk@, be_bytes8(poly_eval(a, rec)))
        }
    &&& state.indexed_received_shares is Some
    &&& {
        let own = state.indexed_received_shares->Some_0@[my - 1];
        &&& own is Some
        &&& own->Some_0.0@ == poly_eval(b, my)
        &&& own->Some_0.1@ == poly_eval(a, my)
        &&& point_views(own->Some_0.2@) == point_views(bc.committed_coefficients@)
    }
}

/// Some pair of polynomials explains the dealer's outputs.
pub open spec fn dealer_output_consistent(
    h: int,
    t: nat,
    n: nat,
    my: int,
    pks: Seq<MemberCommunicationPublicKey>,
    state: IndividualState,
    bc: BroadcastPhase1,
) -> bool {
    exists|a: Seq<int>, b: Seq<int>| dealer_polys_match(h, t, n, my, pks, state, bc, a, b)
}

/// What this member's decryption yields for the commitment-randomness
/// ciphertext of a fetched round-1 item.
pub open spec fn fetched_comm(sk: int, f: MembersFetchedState1) -> Option<int> {
    decrypt_scalar(sk, f.indexed_shares.1.e1@, f.indexed_shares.1.e2@)
}

/// What this member's decryption yields for the share ciphertext of a
/// fetched round-1 item.
pub open spec fn fetched_shek(sk: int, f: MembersFetchedState1) -> Option<int> {
    decrypt_scalar(sk, f.indexed_shares.2.e1@, f.indexed_shares.2.e2@)
}

/// Whether this member's round-2 checks find the sender of a fetched item
/// misbehaving: a scalar fails to decrypt canonically, the coefficient list
/// is malformed, or the Pedersen check fails at this member's index.
pub open spec fn sender_misbehaved(sk: int, h: int, my: int, t: nat, f: MembersFetchedState1) -> bool {
    let comm = fetched_comm(sk, f);
    let shek = fetched_shek(sk, f);
    ||| comm is None
    ||| shek is None
    ||| point_views(f.committed_coeffs@).len() != t + 1
    ||| !pedersen_check(h, comm->Some_0, shek->Some_0, point_views(f.committed_coeffs@), my)
}

/// The reason recorded against a misbehaving sender.
pub open spec fn misbehaviour_reason(sk: int, f: MembersFetchedState1) -> DkgError {
    if fetched_comm(sk, f) is None || fetched_shek(sk, f) is None {
        DkgError::ScalarOutOfBounds
    } else {
        DkgError::ShareValidityFailed
    }
}

/// The fetched items whose senders this member finds misbehaving, in input
/// order.
pub open spec fn misbehaving_of(
    sk: int,
    h: int,
    my: int,
    t: nat,
    fs: Seq<MembersFetchedState1>,
) -> Seq<MembersFetchedState1>
    decreases fs.len(),
{
    if fs.len() == 0 {
        Seq::empty()
    } else {
        let rest = misbehaving_of(sk, h, my, t, fs.drop_last());
        if sender_misbehaved(sk, h, my, t, fs.last()) {
            rest.push(fs.last())
        } else {
            rest
        }
    }
}

/// Whether the member of 1-based index `i` is found misbehaving in the
/// fetched list.
pub open spec fn accuses(
    sk: int,
    h: int,
    my: int,
    t: nat,
    fs: Seq<MembersFetchedState1>,
    i: int,
) -> bool
    decreases fs.len(),
{
    if fs.len() == 0 {
        false
    } else {
        accuses(sk, h, my, t, fs.drop_last(), i) || (fs.last().sender_index == i
            && sender_misbehaved(sk, h, my, t, fs.last()))
    }
}

/// Whether some fetched item was sent by the member of 1-based index `i`.
pub open spec fn named_in(fs: Seq<MembersFetchedState1>, i: int) -> bool
    decreases fs.len(),
{
    if fs.len() == 0 {
        false
    } else {
        named_in(fs.drop_last(), i) || fs.last().sender_index == i
    }
}

/// `named_in` holds exactly when some item has the sender index.
pub proof fn lemma_named_in_exists(fs: Seq<MembersFetchedState1>, i: int)
    ensures
        named_in(fs, i) <==> exists|k: int|
            0 <= k < fs.len() && (#[trigger] fs[k]).sender_index == i,
    decreases fs.len(),
{
    if fs.len() > 0 {
        lemma_named_in_exists(fs.drop_last(), i);
        if named_in(fs, i) {
            if fs.last().sender_index == i {
                assert(fs[fs.len() - 1].sender_index == i);
            } else {
                let k = choose|k: int|
                    0 <= k < fs.drop_last().len() && (#[trigger] fs.drop_last()[k]).sender_index
                        == i;
                assert(fs[k].sender_index == i);
            }
        } else {
            assert forall|k: int| 0 <= k < fs.len() implies (#[trigger] fs[k]).sender_index != i by {
                if k < fs.len() - 1 {
                    assert(fs.drop_last()[k].sender_index != i);
                }
            }
        }
    }
}

/// Every fetched item names this member as the recipient of its shares.
pub open spec fn all_addressed_to(fs: Seq<MembersFetchedState1>, my: int) -> bool {
    forall|k: int| 0 <= k < fs.len() ==> (#[trigger] fs[k]).indexed_shares.0 == my
}

/// The broadcast complaints correspond one to one to the misbehaving
/// fetched items: same accused sender, the reason the checks found, the
/// published ciphertexts as evidence, the symmetric keys this member's
/// secret key implies, and correct-decryption proofs that verify for this
/// member's public key.
pub open spec fn complaints_match(
    sk: int,
    h: int,
    my: int,
    t: nat,
    bad: Seq<MembersFetchedState1>,
    parties: Seq<MisbehavingPartiesState1>,
) -> bool {
    &&& parties.len() == bad.len()
    &&& forall|k: int|
        0 <= k < bad.len() ==> {
            let f = #[trigger] bad[k];
            let p = parties[k];
            &&& p.0 == f.sender_index
            &&& p.1 == misbehaviour_reason(sk, f)
            &&& p.2.wf()
            &&& p.2.encrypted_shares.0 == f.indexed_shares.0
            &&& p.2.encrypted_shares.1@ == f.indexed_shares.1@
            &&& p.2.encrypted_shares.2@ == f.indexed_shares.2@
            &&& p.2.key_comm.group_repr@ == gmul(sk, f.indexed_shares.1.e1@)
            &&& p.2.key_shek.group_repr@ == gmul(sk, f.indexed_shares.2.e1@)
            &&& crate::cryptography::correct_hybrid_decryption_key::zkp_verifies(
                f.indexed_shares.1.e1@,
                gmul(sk, spec_generator()),
                p.2.key_comm.group_repr@,
                p.2.proof_comm,
            )
            &&& crate::cryptography::correct_hybrid_decryption_key::zkp_verifies(
                f.indexed_shares.2.e1@,
                gmul(sk, spec_generator()),
                p.2.key_shek.group_repr@,
                p.2.proof_shek,
            )
        }
}

impl Phase<Initialise> {
    /// Starts the ceremony for one member: samples the two degree-`t`
    /// polynomials, keeps the plain coefficient commitments, publishes the
    /// randomised ones, and addresses the encrypted evaluations to every
    /// other member.
    pub fn init(
        rng: &mut rand_core::OsRng,
        environment: &Environment,
        secret_key: &MemberCommunicationKey,
        committee_pks: &Vec<MemberCommunicationPublicKey>,
        my: usize,
    ) -> (r: (Phase<Phase1>, BroadcastPhase1))
        requires
            environment.wf(),
            secret_key.wf(),
            committee_pks@.len() == environment.nr_members,
            forall|k: int| 0 <= k < committee_pks@.len() ==> (#[trigger] committee_pks@[k]).wf(),
            1 <= my <= environment.nr_members,
            committee_pks@[my - 1].0.pk@ == gmul(secret_key.0.sk@, spec_generator()),
        ensures
            r.0.wf(),
            r.1.wf(),
            r.0.state.index == my,
            r.0.state.environment == *environment,
            r.0.state.communication_sk == *secret_key,
            r.0.state.committee_pks@ == committee_pks@,
            forall|k: int|
                0 <= k < environment.nr_members ==> (#[trigger] r.0.state.qualified_set@[k]) == 1,
            dealer_output_consistent(
                environment.commitment_key.h@,
                environment.threshold as nat,
                environment.nr_members as nat,
                my as int,
                committee_pks@,
                r.0.state,
                r.1,
            ),
    {
        let t = environment.threshold;
        let n = environment.nr_members;
        let pcomm = Polynomial::random(rng, t);
        let pshek = Polynomial::random(rng, t);
        let ghost av = pshek@;
        let ghost bv = pcomm@;
        let gen = PrimeGroupElement::generator();

        let mut apubs: Vec<PrimeGroupElement> = Vec::new();
        let mut coeff_comms: Vec<PrimeGroupElement> = Vec::new();
        let mut k: usize = 0;
        while k < t + 1
            invariant
                k <= t + 1,
                environment.wf(),
                t == environment.threshold,
                pshek.wf(),
                pcomm.wf(),
                pshek@ == av,
                pcomm@ == bv,
                av.len() == t + 1,
                bv.len() == t + 1,
                gen.wf(),
                gen@ == spec_generator(),
                apubs@.len() == k,
                coeff_comms@.len() == k,
                points_wf(apubs@),
                points_wf(coeff_comms@),
                forall|j: int|
                    0 <= j < k ==> (#[trigger] apubs@[j])@ == gmul(av[j], spec_generator()),
                forall|j: int|
                    0 <= j < k ==> (#[trigger] coeff_comms@[j])@ == spec_commit(
                        environment.commitment_key.h@,
                        av[j],
                        bv[j],
                    ),
            decreases t + 1 - k,
        {
            let ai = pshek.coefficients[k];
            let bi = pcomm.coefficients[k];
            apubs.push(gen.mul(&ai));
            coeff_comms.push(environment.commitment_key.commit(&ai, &bi));
            k = k + 1;
        }

        let mut encrypted_shares: Vec<IndexedEncryptedShares> = Vec::new();
        let mut i: usize = 0;
        while i < n
            invariant
                i <= n,
                n == environment.nr_members,
                t == environment.threshold,
                environment.wf(),
                1 <= my <= n,
                pshek.wf(),
                pcomm.wf(),
                pshek@ == av,
                pcomm@ == bv,
                av.len() == t + 1,
                bv.len() == t + 1,
                committee_pks@.len() == n,
                forall|j: int| 0 <= j < committee_pks@.len() ==> (#[trigger] committee_pks@[j]).wf(),
                encrypted_shares@.len() == (if i <= my - 1 {
                    i as int
                } else {
                    i - 1
                }),
                forall|j: int|
                    0 <= j < encrypted_shares@.len() ==> {
                        let e = #[trigger] encrypted_shares@[j];
                        let rec = recipient_at(j, my as int);
                        &&& e.1.wf()
                        &&& e.2.wf()
                        &&& e.0 == rec
                        &&& is_encryption_of(
                            e.1.e1@,
                            e.1.e2@,
                            committee_pks@[rec - 1].0.pk@,
                            be_bytes8(poly_eval(bv, rec)),
                        )
                        &&& is_encryption_of(
                            e.2.e1@,
                            e.2.e2@,
                            committee_pks@[rec - 1].0.pk@,
                            be_bytes8(poly_eval(av, rec)),
                        )
                    },
            decreases n - i,
        {
            if i != my - 1 {
                let idx = Scalar::from_u64((i as u64) + 1);
                proof {
                    vstd::arithmetic::div_mod::lemma_small_mod((i + 1) as nat, GROUP_ORDER as nat);
                }
                let share_comm = pcomm.evaluate(&idx);
                let share_shek = pshek.evaluate(&idx);
                let comm_bytes = share_comm.to_bytes();
                let shek_bytes = share_shek.to_bytes();
                let ecomm = committee_pks[i].hybrid_encrypt(comm_bytes.as_slice(), rng);
                let eshek = committee_pks[i].hybrid_encrypt(shek_bytes.as_slice(), rng);
                encrypted_shares.push((i + 1, ecomm, eshek));
            }
            i = i + 1;
        }

        let idx_my = Scalar::from_u64(my as u64);
        proof {
            vstd::arithmetic::div_mod::lemma_small_mod(my as nat, GROUP_ORDER as nat);
        }
        let own_comm = pcomm.evaluate(&idx_my);
        let own_shek = pshek.evaluate(&idx_my);

        let mut irs: Vec<Option<IndexedDecryptedShares>> = Vec::new();
        let mut j: usize = 0;
        while j < n
            invariant
                j <= n,
                irs@.len() == j,
                forall|m: int| 0 <= m < j ==> (#[trigger] irs@[m]) is None,
            decreases n - j,
        {
            irs.push(None);
            j = j + 1;
        }
        irs[my - 1] = Some((own_comm, own_shek, clone_vec(&coeff_comms)));

        let mut qualified_set: Vec<usize> = Vec::new();
        let mut q: usize = 0;
        while q < n
            invariant
                q <= n,
                qualified_set@.len() == q,
                forall|m: int| 0 <= m < q ==> (#[trigger] qualified_set@[m]) == 1,
            decreases n - q,
        {
            qualified_set.push(1);
            q = q + 1;
        }

        let state = IndividualState {
            index: my,
            environment: *environment,
            communication_sk: *secret_key,
            committee_pks: clone_vec(committee_pks),
            committed_coefficients: apubs,
            indexed_received_shares: Some(irs),
            indexed_committed_shares: None,
            qualified_set,
        };
        let bc = BroadcastPhase1 { committed_coefficients: coeff_comms, encrypted_shares };
        proof {
            assert(dealer_polys_match(
                environment.commitment_key.h@,
                t as nat,
                n as nat,
                my as int,
                committee_pks@,
                state,
                bc,
                av,
                bv,
            ));
        }
        (Phase::<Phase1> { state, phase: PhantomData }, bc)
    }
}

impl Phase<Phase1> {
    /// Verifies the shares fetched after round 1 and records the outcome.
    ///
    /// Each sender's pair of ciphertexts is decrypted and checked against
    /// its committed coefficients; a failure is recorded as a complaint
    /// with publicly verifiable evidence and the sender is disqualified.
    /// The member leaves the ceremony when the complaints reach the
    /// threshold, still emitting the complaints so that others observe the
    /// evidence.
    #[verifier::rlimit(100)]
    pub fn to_phase_2(
        self,
        environment: &Environment,
        members_state: &Vec<MembersFetchedState1>,
        rng: &mut rand_core::OsRng,
    ) -> (r: (Result<Phase<Phase2>, DkgError>, Option<BroadcastPhase2>))
        requires
            self.wf(),
            *environment == self.state.environment,
            forall|k: int|
                0 <= k < members_state@.len() ==> {
                    let f = #[trigger] members_state@[k];
                    &&& f.wf()
                    &&& 1 <= f.sender_index <= environment.nr_members
                    &&& f.sender_index != self.state.index
                },
            forall|k1: int, k2: int|
                0 <= k1 < k2 < members_state@.len() ==> (#[trigger] members_state@[k1]).sender_index
                    != (#[trigger] members_state@[k2]).sender_index,
        ensures
            to_phase_2_post(self, members_state@, r),
    {
        let my = self.state.index;
        let t = environment.threshold;
        let n = environment.nr_members;
        let ghost sk = self.state.communication_sk.0.sk@;
        let ghost h = environment.commitment_key.h@;
        let ghost fs = members_state@;
        let ghost old_state = self.state;

        let IndividualState {
            index,
            environment: state_environment,
            communication_sk,
            committee_pks,
            committed_coefficients,
            indexed_received_shares,
            indexed_committed_shares,
            qualified_set,
        } = self.state;
        let mut irs: Vec<Option<IndexedDecryptedShares>> = match indexed_received_shares {
            Some(v) => v,
            None => {
                proof {
                    assert(false);
                }
                Vec::new()
            },
        };
        let mut qualified = qualified_set;
        let mut misbehaving: Vec<MisbehavingPartiesState1> = Vec::new();

        let idx_my = Scalar::from_u64(my as u64);
        proof {
            vstd::arithmetic::div_mod::lemma_small_mod(my as nat, GROUP_ORDER as nat);
        }
        let powers = crate::group::scalar_powers(&idx_my, t + 1);
        proof {
            assert(crate::group::scalar_views(powers@) =~= crate::group::powers_seq(
                my as int,
                (t + 1) as nat,
            ));
        }

        let mut i: usize = 0;
        while i < members_state.len()
            invariant
                i <= fs.len(),
                fs == members_state@,
                old_state == self.state,
                old_state.wf_base(),
                old_state.indexed_received_shares is Some,
                old_state.wf_shares(),
                my == old_state.index,
                t == old_state.environment.threshold,
                n == old_state.environment.nr_members,
                sk == old_state.communication_sk.0.sk@,
                h == old_state.environment.commitment_key.h@,
                *environment == old_state.environment,
                communication_sk == old_state.communication_sk,
                forall|k: int|
                    0 <= k < fs.len() ==> {
                        let f = #[trigger] fs[k];
                        &&& f.wf()
                        &&& 1 <= f.sender_index <= n
                        &&& f.sender_index != my
                    },
                forall|k1: int, k2: int|
                    0 <= k1 < k2 < fs.len() ==> (#[trigger] fs[k1]).sender_index != (
                    #[trigger] fs[k2]).sender_index,
                forall|k: int| 0 <= k < i ==> (#[trigger] fs[k]).indexed_shares.0 == my,
                powers@.len() == t + 1,
                crate::group::scalars_wf(powers@),
                crate::group::scalar_views(powers@) == crate::group::powers_seq(
                    my as int,
                    (t + 1) as nat,
                ),
                irs@.len() == n,
                forall|j: int|
                    0 <= j < irs@.len() && (#[trigger] irs@[j]) is Some ==> share_entry_wf(
                        irs@[j]->Some_0,
                        t as nat,
                    ),
                forall|j: int|
                    0 <= j < n && !named_in(fs.take(i as int), j + 1) ==> irs@[j]
                        == old_state.indexed_received_shares->Some_0@[j],
                forall|k: int|
                    0 <= k < i ==> {
                        let f = #[trigger] fs[k];
                        if !sender_misbehaved(sk, h, my as int, t as nat, f) {
                            &&& irs@[f.sender_index - 1] is Some
                            &&& irs@[f.sender_index - 1]->Some_0.0@ == fetched_comm(
                                sk,
                                f,
                            )->Some_0
                            &&& irs@[f.sender_index - 1]->Some_0.1@ == fetched_shek(
                                sk,
                                f,
                            )->Some_0
                            &&& point_views(irs@[f.sender_index - 1]->Some_0.2@) == point_views(
                                f.committed_coeffs@,
                            )
                        } else {
                            irs@[f.sender_index - 1] == old_state.indexed_received_shares->Some_0@[f.sender_index
                                - 1]
                        }
                    },
                qualified@.len() == n,
                forall|j: int|
                    0 <= j < n ==> (#[trigger] qualified@[j]) == (if accuses(
                        sk,
                        h,
                        my as int,
                        t as nat,
                        fs.take(i as int),
                        j + 1,
                    ) {
                        0int
                    } else {
                        old_state.qualified_set@[j] as int
                    }),
                complaints_match(
                    sk,
                    h,
                    my as int,
                    t as nat,
                    misbehaving_of(sk, h, my as int, t as nat, fs.take(i as int)),
                    misbehaving@,
                ),
            decreases fs.len() - i,
        {
            let f = &members_state[i];
            proof {
                assert(fs.take(i + 1).drop_last() =~= fs.take(i as int));
                assert(fs.take(i + 1).last() == fs[i as int]);
            }
            if f.indexed_shares.0 != my {
                proof {
                    assert(fs[i as int].indexed_shares.0 != my);
                    assert(!all_addressed_to(fs, my as int));
                }
                return (Err(DkgError::FetchedInvalidData), None);
            }
            let decrypted = communication_sk.decrypt_shares(&f.indexed_shares);
            match decrypted {
                (Some(comm), Some(shek)) => {
                    proof {
                        assert forall|k: int| 0 <= k < i implies (#[trigger] fs[k]).sender_index
                            != fs[i as int].sender_index by {}
                        assert(fetched_comm(sk, fs[i as int]) == Some(comm@));
                        assert(fetched_shek(sk, fs[i as int]) == Some(shek@));
                        lemma_named_in_exists(
                            fs.take(i as int),
                            fs[i as int].sender_index as int,
                        );
                        assert forall|k: int|
                            0 <= k < fs.take(i as int).len() implies (#[trigger] fs.take(
                            i as int,
                        )[k]).sender_index != fs[i as int].sender_index by {}
                        assert(!named_in(fs.take(i as int), fs[i as int].sender_index as int));
                    }
                    let share_ok: bool = if f.committed_coeffs.len() == t + 1 {
                        let check = environment.commitment_key.commit(&shek, &comm);
                        let combined = PrimeGroupElement::vartime_multiscalar_multiplication(
                            &powers,
                            &f.committed_coeffs,
                        );
                        check.v == combined.v
                    } else {
                        false
                    };
                    proof {
                        assert(share_ok <==> !sender_misbehaved(sk, h, my as int, t as nat, fs[i as int]));
                    }
                    if !share_ok {
                        let evidence = ProofOfMisbehaviour::generate(
                            &f.indexed_shares,
                            &communication_sk,
                            rng,
                        );
                        qualified[f.sender_index - 1] = 0;
                        misbehaving.push((f.sender_index, DkgError::ShareValidityFailed, evidence));
                        proof {
                            assert(misbehaving_of(sk, h, my as int, t as nat, fs.take(i + 1))
                                =~= misbehaving_of(sk, h, my as int, t as nat, fs.take(i as int)).push(
                                fs[i as int],
                            ));
                        }
                    } else {
                        irs[f.sender_index - 1] = Some(
                            (comm, shek, clone_vec(&f.committed_coeffs)),
                        );
                        proof {
                            assert(misbehaving_of(sk, h, my as int, t as nat, fs.take(i + 1))
                                =~= misbehaving_of(sk, h, my as int, t as nat, fs.take(i as int)));
                        }
                    }
                },
                _ => {
                    proof {
                        assert forall|k: int| 0 <= k < i implies (#[trigger] fs[k]).sender_index
                            != fs[i as int].sender_index by {}
                        lemma_named_in_exists(
                            fs.take(i as int),
                            fs[i as int].sender_index as int,
                        );
                        assert forall|k: int|
                            0 <= k < fs.take(i as int).len() implies (#[trigger] fs.take(
                            i as int,
                        )[k]).sender_index != fs[i as int].sender_index by {}
                        assert(!named_in(fs.take(i as int), fs[i as int].sender_index as int));
                    }
                    let evidence = ProofOfMisbehaviour::generate(
                        &f.indexed_shares,
                        &communication_sk,
                        rng,
                    );
                    qualified[f.sender_index - 1] = 0;
                    misbehaving.push((f.sender_index, DkgError::ScalarOutOfBounds, evidence));
                    proof {
                        assert(sender_misbehaved(sk, h, my as int, t as nat, fs[i as int]));
                        assert(misbehaving_of(sk, h, my as int, t as nat, fs.take(i + 1))
                            =~= misbehaving_of(sk, h, my as int, t as nat, fs.take(i as int)).push(
                            fs[i as int],
                        ));
                    }
                },
            }
            i = i + 1;
        }
        proof {
            assert(fs.take(fs.len() as int) =~= fs);
            lemma_named_in_exists(fs, my as int);
            assert(!named_in(fs, my as int));
        }

        if misbehaving.len() >= t {
            return (
                Err(DkgError::MisbehaviourHigherThreshold),
                Some(BroadcastPhase2 { misbehaving_parties: misbehaving }),
            );
        }

        let state = IndividualState {
            index,
            environment: state_environment,
            communication_sk,
            committee_pks,
            committed_coefficients,
            indexed_received_shares: Some(irs),
            indexed_committed_shares,
            qualified_set: qualified,
        };
        let broadcast = if misbehaving.len() == 0 {
            None
        } else {
            Some(BroadcastPhase2 { misbehaving_parties: misbehaving })
        };
        (Ok(Phase::<Phase2> { state, phase: PhantomData }), broadcast)
    }
}

/// What a member fetches from one peer after round 2: the accuser's 1-based
/// index, as the authenticated channel attests it, and its complaints.
#[derive(Debug, PartialEq)]
pub struct MembersFetchedState2 {
    pub sender_index: usize,
    pub accusations: BroadcastPhase2,
}

impl MembersFetchedState2 {
    /// Canonical evidence throughout.
    pub open spec fn wf(&self) -> bool {
        forall|e: int|
            0 <= e < self.accusations.misbehaving_parties@.len() ==> (
            #[trigger] self.accusations.misbehaving_parties@[e]).2.wf()
    }
}

/// Whether the complaint evidence is valid against some entry of the
/// accused dealer's published round-1 share list.
pub open spec fn shares_entry_upheld(
    p: ProofOfMisbehaviour,
    accuser_pk: int,
    es: Seq<IndexedEncryptedShares>,
    coeffs: Seq<int>,
    h: int,
    t: nat,
    accuser: int,
) -> bool
    decreases es.len(),
{
    if es.len() == 0 {
        false
    } else {
        shares_entry_upheld(p, accuser_pk, es.drop_last(), coeffs, h, t, accuser)
            || complaint_valid(p, accuser_pk, es.last(), coeffs, h, t, accuser)
    }
}

/// Whether one accusation holds up under public verification: the accused
/// dealer published round-1 data, and the evidence is valid against it at
/// the accuser's index.
pub open spec fn accusation_upheld(
    pks: Seq<MemberCommunicationPublicKey>,
    bcs1: Seq<Option<BroadcastPhase1>>,
    h: int,
    t: nat,
    accuser: int,
    accused: int,
    p: ProofOfMisbehaviour,
) -> bool {
    let n = pks.len() as int;
    &&& 1 <= accused <= n
    &&& 1 <= accuser <= n
    &&& bcs1[accused - 1] is Some
    &&& shares_entry_upheld(
        p,
        pks[accuser - 1].0.pk@,
        bcs1[accused - 1]->Some_0.encrypted_shares@,
        point_views(bcs1[accused - 1]->Some_0.committed_coefficients@),
        h,
        t,
        accuser,
    )
}

/// Whether one complaint broadcast carries an upheld accusation against the
/// member of 1-based index `i`.
pub open spec fn broadcast_accuses(
    pks: Seq<MemberCommunicationPublicKey>,
    bcs1: Seq<Option<BroadcastPhase1>>,
    h: int,
    t: nat,
    accuser: int,
    parties: Seq<MisbehavingPartiesState1>,
    i: int,
) -> bool
    decreases parties.len(),
{
    if parties.len() == 0 {
        false
    } else {
        broadcast_accuses(pks, bcs1, h, t, accuser, parties.drop_last(), i) || (parties.last().0
            == i && accusation_upheld(
            pks,
            bcs1,
            h,
            t,
            accuser,
            parties.last().0 as int,
            parties.last().2,
        ))
    }
}

/// Whether any fetched complaint broadcast carries an upheld accusation
/// against the member of 1-based index `i`.
pub open spec fn any_complaint_against(
    pks: Seq<MemberCommunicationPublicKey>,
    bcs1: Seq<Option<BroadcastPhase1>>,
    h: int,
    t: nat,
    cs: Seq<MembersFetchedState2>,
    i: int,
) -> bool
    decreases cs.len(),
{
    if cs.len() == 0 {
        false
    } else {
        any_complaint_against(pks, bcs1, h, t, cs.drop_last(), i) || broadcast_accuses(
            pks,
            bcs1,
            h,
            t,
            cs.last().sender_index as int,
            cs.last().accusations.misbehaving_parties@,
            i,
        )
    }
}

/// The number of ones in a qualified-set vector.
pub open spec fn count_ones(s: Seq<usize>) -> int
    decreases s.len(),
{
    if s.len() == 0 {
        0
    } else {
        count_ones(s.drop_last()) + if s.last() == 1 {
            1int
        } else {
            0int
        }
    }
}

/// Counts the members still qualified.
fn count_qualified(q: &Vec<usize>) -> (r: usize)
    ensures
        r == count_ones(q@),
{
    let mut count: usize = 0;
    let mut i: usize = 0;
    while i < q.len()
        invariant
            i <= q@.len(),
            count <= i,
            count == count_ones(q@.take(i as int)),
        decreases q@.len() - i,
    {
        proof {
            assert(q@.take(i + 1).drop_last() =~= q@.take(i as int));
        }
        if q[i] == 1 {
            count = count + 1;
        }
        i = i + 1;
    }
    proof {
        assert(q@.take(q@.len() as int) =~= q@);
    }
    count
}

/// Checks one accusation as any observer can: the accused dealer must have
/// published round-1 data against which the complaint's evidence verifies
/// at the accuser's index.
fn check_accusation(
    pks: &Vec<MemberCommunicationPublicKey>,
    bcs1: &Vec<Option<BroadcastPhase1>>,
    ck: &CommitmentKey,
    threshold: usize,
    accuser: usize,
    accused: usize,
    evidence: &ProofOfMisbehaviour,
) -> (r: bool)
    requires
        pks@.len() == bcs1@.len(),
        pks@.len() < 65521,
        forall|k: int| 0 <= k < pks@.len() ==> (#[trigger] pks@[k]).wf(),
        forall|k: int|
            0 <= k < bcs1@.len() && (#[trigger] bcs1@[k]) is Some ==> bcs1@[k]->Some_0.wf(),
        ck.wf(),
        threshold < 65521,
        evidence.wf(),
    ensures
        r <==> accusation_upheld(
            pks@,
            bcs1@,
            ck.h@,
            threshold as nat,
            accuser as int,
            accused as int,
            *evidence,
        ),
{
    let n = pks.len();
    if accused < 1 || accused > n || accuser < 1 || accuser > n {
        return false;
    }
    match &bcs1[accused - 1] {
        None => false,
        Some(bc1) => {
            let ghost es = bc1.encrypted_shares@;
            let ghost coeffs = point_views(bc1.committed_coefficients@);
            let mut upheld: bool = false;
            let mut j: usize = 0;
            while j < bc1.encrypted_shares.len()
                invariant
                    j <= es.len(),
                    es == bc1.encrypted_shares@,
                    coeffs == point_views(bc1.committed_coefficients@),
                    bc1.wf(),
                    ck.wf(),
                    threshold < 65521,
                    evidence.wf(),
                    1 <= accuser <= pks@.len(),
                    pks@.len() < 65521,
                    forall|k: int| 0 <= k < pks@.len() ==> (#[trigger] pks@[k]).wf(),
                    upheld == shares_entry_upheld(
                        *evidence,
                        pks@[accuser - 1].0.pk@,
                        es.take(j as int),
                        coeffs,
                        ck.h@,
                        threshold as nat,
                        accuser as int,
                    ),
                decreases es.len() - j,
            {
                proof {
                    assert(es.take(j + 1).drop_last() =~= es.take(j as int));
                    assert(es.take(j + 1).last() == es[j as int]);
                }
                let entry = &bc1.encrypted_shares[j];
                let fetched = MembersFetchedState1 {
                    sender_index: accused,
                    indexed_shares: (entry.0, entry.1.duplicate(), entry.2.duplicate()),
                    committed_coeffs: clone_vec(&bc1.committed_coefficients),
                };
                if evidence.verify(&pks[accuser - 1], &fetched, ck, threshold, accuser).is_ok() {
                    upheld = true;
                }
                j = j + 1;
            }
            proof {
                assert(es.take(es.len() as int) =~= es);
            }
            upheld
        },
    }
}

/// Applies one member's complaint broadcast to the qualified set:
/// disqualifies every accused member whose accusation holds up.
fn apply_complaint_broadcast(
    qualified: &mut Vec<usize>,
    pks: &Vec<MemberCommunicationPublicKey>,
    bcs1: &Vec<Option<BroadcastPhase1>>,
    ck: &CommitmentKey,
    threshold: usize,
    accuser: usize,
    parties: &Vec<MisbehavingPartiesState1>,
)
    requires
        pks@.len() == bcs1@.len(),
        pks@.len() < 65521,
        forall|k: int| 0 <= k < pks@.len() ==> (#[trigger] pks@[k]).wf(),
        forall|k: int|
            0 <= k < bcs1@.len() && (#[trigger] bcs1@[k]) is Some ==> bcs1@[k]->Some_0.wf(),
        ck.wf(),
        threshold < 65521,
        old(qualified)@.len() == pks@.len(),
        forall|e: int| 0 <= e < parties@.len() ==> (#[trigger] parties@[e]).2.wf(),
    ensures
        final(qualified)@.len() == old(qualified)@.len(),
        forall|j: int|
            0 <= j < final(qualified)@.len() ==> (#[trigger] final(qualified)@[j]) == (
            if broadcast_accuses(
                pks@,
                bcs1@,
                ck.h@,
                threshold as nat,
                accuser as int,
                parties@,
                j + 1,
            ) {
                0int
            } else {
                old(qualified)@[j] as int
            }),
{
    let ghost q0 = qualified@;
    let ghost ps = parties@;
    let mut e: usize = 0;
    while e < parties.len()
        invariant
            e <= ps.len(),
            ps == parties@,
            q0.len() == qualified@.len(),
            qualified@.len() == pks@.len(),
            pks@.len() == bcs1@.len(),
            pks@.len() < 65521,
            forall|k: int| 0 <= k < pks@.len() ==> (#[trigger] pks@[k]).wf(),
            forall|k: int|
                0 <= k < bcs1@.len() && (#[trigger] bcs1@[k]) is Some ==> bcs1@[k]->Some_0.wf(),
            ck.wf(),
            threshold < 65521,
            forall|x: int| 0 <= x < ps.len() ==> (#[trigger] ps[x]).2.wf(),
            forall|j: int|
                0 <= j < qualified@.len() ==> (#[trigger] qualified@[j]) == (if broadcast_accuses(
                    pks@,
                    bcs1@,
                    ck.h@,
                    threshold as nat,
                    accuser as int,
                    ps.take(e as int),
                    j + 1,
                ) {
                    0int
                } else {
                    q0[j] as int
                }),
        decreases ps.len() - e,
    {
        proof {
            assert(ps.take(e + 1).drop_last() =~= ps.take(e as int));
            assert(ps.take(e + 1).last() == ps[e as int]);
        }
        let entry = &parties[e];
        let accused = entry.0;
        if check_accusation(pks, bcs1, ck, threshold, accuser, accused, &entry.2) {
            if accused >= 1 && accused <= qualified.len() {
                qualified[accused - 1] = 0;
            }
        }
        e = e + 1;
    }
    proof {
        assert(ps.take(ps.len() as int) =~= ps);
    }
}

/// The qualified set after acting on the round-2 complaints: a member is
/// disqualified exactly when some fetched complaint against it holds up
/// under public verification.
pub open spec fn qualified_after_complaints(
    p: Phase<Phase2>,
    cs: Seq<MembersFetchedState2>,
    bcs1: Seq<Option<BroadcastPhase1>>,
) -> Seq<usize> {
    Seq::new(
        p.state.qualified_set@.len(),
        |j: int|
            if any_complaint_against(
                p.state.committee_pks@,
                bcs1,
                p.state.environment.commitment_key.h@,
                p.state.environment.threshold as nat,
                cs,
                j + 1,
            ) {
                0usize
            } else {
                p.state.qualified_set@[j]
            },
    )
}

/// The full contract of [`Phase::<Phase2>::to_phase_3`]: every fetched
/// complaint is verified against the accused dealer's published round-1
/// data before it is acted on, the member aborts when fewer than
/// `threshold` members stay qualified, and otherwise it advances and
/// broadcasts its plain committed coefficients.
pub open spec fn to_phase_3_post(
    p: Phase<Phase2>,
    cs: Seq<MembersFetchedState2>,
    bcs1: Seq<Option<BroadcastPhase1>>,
    r: (Result<Phase<Phase3>, DkgError>, Option<BroadcastPhase3>),
) -> bool {
    let newq = qualified_after_complaints(p, cs, bcs1);
    &&& (count_ones(newq) < p.state.environment.threshold ==> r.0 is Err && r.0->Err_0
        == DkgError::MisbehaviourHigherThreshold && r.1 is None)
    &&& (count_ones(newq) >= p.state.environment.threshold ==> {
        let s = r.0->Ok_0.state;
        &&& r.0 is Ok
        &&& r.0->Ok_0.wf()
        &&& s.index == p.state.index
        &&& s.environment == p.state.environment
        &&& s.communication_sk == p.state.communication_sk
        &&& s.committee_pks == p.state.committee_pks
        &&& s.committed_coefficients == p.state.committed_coefficients
        &&& s.indexed_received_shares == p.state.indexed_received_shares
        &&& s.indexed_committed_shares == p.state.indexed_committed_shares
        &&& s.qualified_set@ == newq
        &&& r.1 is Some
        &&& r.1->Some_0.committed_coefficients@ == p.state.committed_coefficients@
    })
}

impl Phase<Phase2> {
    /// Computes the qualified set from the broadcast complaints and emits
    /// this member's plain committed coefficients.
    ///
    /// Each complaint is verified against the accused dealer's published
    /// round-1 broadcast before it is acted on; an unverifiable complaint
    /// is discarded.  The member aborts when fewer than `threshold` members
    /// stay qualified.
    pub fn to_phase_3(
        self,
        broadcast_complaints: &Vec<MembersFetchedState2>,
        broadcasts1: &Vec<Option<BroadcastPhase1>>,
    ) -> (r: (Result<Phase<Phase3>, DkgError>, Option<BroadcastPhase3>))
        requires
            self.wf(),
            broadcasts1@.len() == self.state.environment.nr_members,
            forall|k: int|
                0 <= k < broadcasts1@.len() && (#[trigger] broadcasts1@[k]) is Some
                    ==> broadcasts1@[k]->Some_0.wf(),
            forall|c: int|
                0 <= c < broadcast_complaints@.len() ==> (#[trigger] broadcast_complaints@[c]).wf(),
        ensures
            to_phase_3_post(self, broadcast_complaints@, broadcasts1@, r),
    {
        let t = self.state.environment.threshold;
        let ghost cs = broadcast_complaints@;
        let ghost old_state = self.state;

        let IndividualState {
            index,
            environment: state_environment,
            communication_sk,
            committee_pks,
            committed_coefficients,
            indexed_received_shares,
            indexed_committed_shares,
            qualified_set,
        } = self.state;
        let mut qualified = qualified_set;

        let mut c: usize = 0;
        while c < broadcast_complaints.len()
            invariant
                c <= cs.len(),
                cs == broadcast_complaints@,
                old_state == self.state,
                old_state.wf_base(),
                t == old_state.environment.threshold,
                state_environment == old_state.environment,
                committee_pks == old_state.committee_pks,
                broadcasts1@.len() == old_state.environment.nr_members,
                forall|k: int|
                    0 <= k < broadcasts1@.len() && (#[trigger] broadcasts1@[k]) is Some
                        ==> broadcasts1@[k]->Some_0.wf(),
                forall|x: int| 0 <= x < cs.len() ==> (#[trigger] cs[x]).wf(),
                qualified@.len() == old_state.qualified_set@.len(),
                forall|j: int|
                    0 <= j < qualified@.len() ==> (#[trigger] qualified@[j]) == (
                    if any_complaint_against(
                        old_state.committee_pks@,
                        broadcasts1@,
                        old_state.environment.commitment_key.h@,
                        t as nat,
                        cs.take(c as int),
                        j + 1,
                    ) {
                        0int
                    } else {
                        old_state.qualified_set@[j] as int
                    }),
            decreases cs.len() - c,
        {
            proof {
                assert(cs.take(c + 1).drop_last() =~= cs.take(c as int));
                assert(cs.take(c + 1).last() == cs[c as int]);
            }
            let fetched = &broadcast_complaints[c];
            apply_complaint_broadcast(
                &mut qualified,
                &committee_pks,
                broadcasts1,
                &state_environment.commitment_key,
                t,
                fetched.sender_index,
                &fetched.accusations.misbehaving_parties,
            );
            c = c + 1;
        }
        proof {
            assert(cs.take(cs.len() as int) =~= cs);
            assert(qualified@ =~= qualified_after_complaints(self, cs, broadcasts1@));
        }

        let remaining = count_qualified(&qualified);
        if remaining < t {
            return (Err(DkgError::MisbehaviourHigherThreshold), None);
        }

        let broadcast = BroadcastPhase3 {
            committed_coefficients: clone_vec(&committed_coefficients),
        };
        let state = IndividualState {
            index,
            environment: state_environment,
            communication_sk,
            committee_pks,
            committed_coefficients,
            indexed_received_shares,
            indexed_committed_shares,
            qualified_set: qualified,
        };
        (Ok(Phase::<Phase3> { state, phase: PhantomData }), Some(broadcast))
    }
}

/// The round-3 consistency check: the dealer's plain commitments must have
/// `t + 1` coefficients and explain the share this member holds,
/// `g^{shek} = Σ my^k · A_k`.
pub open spec fn round3_check(my: int, shek: int, coeffs: Seq<int>, t: nat) -> bool {
    coeffs.len() == t + 1 && gmul(shek, spec_generator()) == msm(
        powers_seq(my, coeffs.len() as nat),
        coeffs,
    )
}

/// Whether a fetched round-3 item passes the consistency check against the
/// share this member recorded from its sender.
pub open spec fn round3_ok(st: IndividualState, f: MembersFetchedState3) -> bool {
    let irs = st.indexed_received_shares->Some_0;
    &&& irs@[f.sender_index - 1] is Some
    &&& round3_check(
        st.index as int,
        irs@[f.sender_index - 1]->Some_0.1@,
        point_views(f.committed_coefficients@),
        st.environment.threshold as nat,
    )
}

/// Whether some fetched round-3 item shows the sender `i` still
/// participating with a well-sized coefficient list, while this member
/// holds `i`'s shares.
pub open spec fn round3_retained(
    st: IndividualState,
    fs: Seq<MembersFetchedState3>,
    i: int,
) -> bool
    decreases fs.len(),
{
    if fs.len() == 0 {
        false
    } else {
        round3_retained(st, fs.drop_last(), i) || {
            let f = fs.last();
            &&& f.sender_index == i
            &&& f.committed_coefficients@.len() == st.environment.threshold + 1
            &&& st.indexed_received_shares->Some_0@[i - 1] is Some
        }
    }
}

/// Whether some fetched round-3 item makes the still-qualified sender `i`
/// count as honest: it passes the consistency check.
pub open spec fn honest_in(st: IndividualState, fs: Seq<MembersFetchedState3>, i: int) -> bool
    decreases fs.len(),
{
    if fs.len() == 0 {
        false
    } else {
        honest_in(st, fs.drop_last(), i) || {
            let f = fs.last();
            f.sender_index == i && st.qualified_set@[i - 1] == 1 && round3_ok(st, f)
        }
    }
}

/// The number of honest members among `1..=n`: this member itself and every
/// qualified sender whose round-3 commitments check out.
pub open spec fn count_honest(st: IndividualState, fs: Seq<MembersFetchedState3>, n: nat) -> int
    decreases n,
{
    if n == 0 {
        0
    } else {
        count_honest(st, fs, (n - 1) as nat) + if n == st.index || honest_in(st, fs, n as int) {
            1int
        } else {
            0int
        }
    }
}

/// A flag vector that marks exactly the honest members counts as many ones
/// as [`count_honest`].
proof fn lemma_count_honest_matches(
    st: IndividualState,
    fs: Seq<MembersFetchedState3>,
    hs: Seq<usize>,
    upto: nat,
)
    requires
        upto <= hs.len(),
        forall|j: int|
            0 <= j < upto ==> ((#[trigger] hs[j]) == 1 <==> (j + 1 == st.index || honest_in(
                st,
                fs,
                j + 1,
            ))),
    ensures
        count_ones(hs.take(upto as int)) == count_honest(st, fs, upto),
    decreases upto,
{
    if upto > 0 {
        lemma_count_honest_matches(st, fs, hs, (upto - 1) as nat);
        assert(hs.take(upto as int).drop_last() =~= hs.take(upto - 1));
    }
}

/// The disclosures this member owes after round 3: for each fetched item
/// from a still-qualified dealer whose commitments contradict the recorded
/// share, the share pair received from that dealer in round 1.
pub open spec fn round4_complaints(
    st: IndividualState,
    fs: Seq<MembersFetchedState3>,
) -> Seq<MisbehavingPartiesState3>
    decreases fs.len(),
{
    if fs.len() == 0 {
        Seq::empty()
    } else {
        let rest = round4_complaints(st, fs.drop_last());
        let f = fs.last();
        let irs = st.indexed_received_shares->Some_0;
        if st.qualified_set@[f.sender_index - 1] == 1 && irs@[f.sender_index - 1] is Some
            && !round3_ok(st, f) {
            rest.push(
                (
                    f.sender_index,
                    irs@[f.sender_index - 1]->Some_0.0,
                    irs@[f.sender_index - 1]->Some_0.1,
                ),
            )
        } else {
            rest
        }
    }
}

/// The full contract of [`Phase::<Phase3>::to_phase_4`]: for each fetched
/// round-3 broadcast of a still-qualified dealer, the plain commitments are
/// checked against the share recorded in round 1; a contradiction is
/// disclosed in the returned broadcast.  Dealers that stay silent in round
/// 3 are dropped from the qualified set; the member aborts when fewer than
/// `threshold` members remain honest, still returning its disclosures.
///
/// Dropping silent dealers rewrites the qualified set, where this
/// transition once passed it through unchanged.  The rewrite is deliberate:
/// the master key is assembled at finalisation from the plain constant-term
/// commitments published in round 3, so a dealer that never published them
/// cannot contribute, and removing it here — identically at every member
/// that received the same broadcasts — keeps the members agreed on the
/// final qualified set.
pub open spec fn to_phase_4_post(
    p: Phase<Phase3>,
    fs: Seq<MembersFetchedState3>,
    r: (Result<Phase<Phase4>, DkgError>, Option<BroadcastPhase4>),
) -> bool {
    let st = p.state;
    let my = st.index as int;
    let t = st.environment.threshold;
    let n = st.environment.nr_members as int;
    let complaints = round4_complaints(st, fs);
    let hcount = count_honest(st, fs, st.environment.nr_members as nat);
    &&& (complaints.len() == 0 <==> r.1 is None)
    &&& (complaints.len() > 0 ==> r.1 is Some && r.1->Some_0.misbehaving_parties@ == complaints)
    &&& (hcount < t ==> r.0 is Err && r.0->Err_0 == DkgError::MisbehaviourHigherThreshold)
    &&& (hcount >= t ==> {
        let s = r.0->Ok_0.state;
        &&& r.0 is Ok
        &&& r.0->Ok_0.wf()
        &&& s.index == st.index
        &&& s.environment == st.environment
        &&& s.communication_sk == st.communication_sk
        &&& s.committee_pks == st.committee_pks
        &&& s.committed_coefficients == st.committed_coefficients
        &&& s.indexed_received_shares == st.indexed_received_shares
        &&& s.qualified_set@.len() == n
        &&& forall|j: int|
            0 <= j < n ==> (#[trigger] s.qualified_set@[j]) == (if j + 1 == my {
                st.qualified_set@[j] as int
            } else if st.qualified_set@[j] == 1 && round3_retained(st, fs, j + 1) {
                1int
            } else {
                0int
            })
        &&& s.indexed_committed_shares is Some
        &&& s.indexed_committed_shares->Some_0@.len() == n
        &&& (st.qualified_set@[my - 1] == 1 ==> {
            let own = s.indexed_committed_shares->Some_0@[my - 1];
            own is Some && point_views(own->Some_0@) == point_views(st.committed_coefficients@)
        })
        &&& forall|k: int|
            0 <= k < fs.len() ==> {
                let f = #[trigger] fs[k];
                let e = s.indexed_committed_shares->Some_0@[f.sender_index - 1];
                (st.qualified_set@[f.sender_index - 1] == 1
                    && st.indexed_received_shares->Some_0@[f.sender_index - 1] is Some
                    && f.committed_coefficients@.len() == t + 1) ==> e is Some && point_views(
                    e->Some_0@,
                ) == point_views(f.committed_coefficients@)
            }
    })
}

impl Phase<Phase3> {
    /// Checks the peers' plain round-3 commitments against the shares
    /// recorded in round 1 and tracks the honest set.
    ///
    /// A dealer whose commitments contradict its round-1 shares is exposed
    /// by disclosing the shares it dealt; a dealer that stays silent is
    /// dropped from the qualified set.  The member aborts when fewer than
    /// `threshold` members remain honest, still returning its disclosures.
    #[verifier::rlimit(50)]
    pub fn to_phase_4(
        self,
        fetched_state_3: &Vec<MembersFetchedState3>,
    ) -> (r: (Result<Phase<Phase4>, DkgError>, Option<BroadcastPhase4>))
        requires
            self.wf(),
            forall|k: int|
                0 <= k < fetched_state_3@.len() ==> {
                    let f = #[trigger] fetched_state_3@[k];
                    &&& f.wf()
                    &&& 1 <= f.sender_index <= self.state.environment.nr_members
                    &&& f.sender_index != self.state.index
                },
            forall|k1: int, k2: int|
                0 <= k1 < k2 < fetched_state_3@.len() ==> (
                #[trigger] fetched_state_3@[k1]).sender_index != (
                #[trigger] fetched_state_3@[k2]).sender_index,
        ensures
            to_phase_4_post(self, fetched_state_3@, r),
    {
        let my = self.state.index;
        let t = self.state.environment.threshold;
        let n = self.state.environment.nr_members;
        let ghost fs = fetched_state_3@;
        let ghost old_state = self.state;

        let IndividualState {
            index,
            environment: state_environment,
            communication_sk,
            committee_pks,
            committed_coefficients,
            indexed_received_shares,
            indexed_committed_shares: _,
            qualified_set,
        } = self.state;
        let irs: Vec<Option<IndexedDecryptedShares>> = match indexed_received_shares {
            Some(v) => v,
            None => {
                proof {
                    assert(false);
                }
                Vec::new()
            },
        };

        let idx_my = Scalar::from_u64(my as u64);
        proof {
            vstd::arithmetic::div_mod::lemma_small_mod(my as nat, GROUP_ORDER as nat);
        }
        let powers = crate::group::scalar_powers(&idx_my, t + 1);
        proof {
            assert(crate::group::scalar_views(powers@) =~= powers_seq(my as int, (t + 1) as nat));
        }
        let gen = PrimeGroupElement::generator();

        let mut honest: Vec<usize> = Vec::new();
        let mut retained: Vec<usize> = Vec::new();
        let mut ics: Vec<Option<Vec<PrimeGroupElement>>> = Vec::new();
        let mut j0: usize = 0;
        while j0 < n
            invariant
                j0 <= n,
                honest@.len() == j0,
                retained@.len() == j0,
                ics@.len() == j0,
                forall|m: int| 0 <= m < j0 ==> (#[trigger] honest@[m]) == 0,
                forall|m: int| 0 <= m < j0 ==> (#[trigger] retained@[m]) == 0,
                forall|m: int| 0 <= m < j0 ==> (#[trigger] ics@[m]) is None,
            decreases n - j0,
        {
            honest.push(0);
            retained.push(0);
            ics.push(None);
            j0 = j0 + 1;
        }
        honest[my - 1] = 1;

        let mut complaints: Vec<MisbehavingPartiesState3> = Vec::new();
        let mut i: usize = 0;
        while i < fetched_state_3.len()
            invariant
                i <= fs.len(),
                fs == fetched_state_3@,
                old_state == self.state,
                old_state.wf_base(),
                old_state.wf_shares(),
                my == old_state.index,
                t == old_state.environment.threshold,
                n == old_state.environment.nr_members,
                irs@ == old_state.indexed_received_shares->Some_0@,
                qualified_set@ == old_state.qualified_set@,
                forall|k: int|
                    0 <= k < fs.len() ==> {
                        let f = #[trigger] fs[k];
                        &&& f.wf()
                        &&& 1 <= f.sender_index <= n
                        &&& f.sender_index != my
                    },
                forall|k1: int, k2: int|
                    0 <= k1 < k2 < fs.len() ==> (#[trigger] fs[k1]).sender_index != (
                    #[trigger] fs[k2]).sender_index,
                powers@.len() == t + 1,
                crate::group::scalars_wf(powers@),
                crate::group::scalar_views(powers@) == powers_seq(my as int, (t + 1) as nat),
                gen.wf(),
                gen@ == spec_generator(),
                honest@.len() == n,
                retained@.len() == n,
                ics@.len() == n,
                forall|j: int|
                    0 <= j < n ==> ((#[trigger] honest@[j]) == 1 <==> (j + 1 == my || honest_in(
                        old_state,
                        fs.take(i as int),
                        j + 1,
                    ))),
                forall|j: int|
                    0 <= j < n ==> ((#[trigger] retained@[j]) == 1 <==> (old_state.qualified_set@[j]
                        == 1 && round3_retained(old_state, fs.take(i as int), j + 1))),
                forall|j: int| 0 <= j < n ==> honest@[j] == 0 || honest@[j] == 1,
                forall|j: int| 0 <= j < n ==> retained@[j] == 0 || retained@[j] == 1,
                forall|j: int|
                    0 <= j < n && !named3_in(fs.take(i as int), j + 1) ==> (#[trigger] ics@[j])
                        is None,
                forall|j: int|
                    0 <= j < n && (#[trigger] ics@[j]) is Some ==> points_wf(ics@[j]->Some_0@)
                        && ics@[j]->Some_0@.len() == t + 1,
                forall|k: int|
                    0 <= k < i ==> {
                        let f = #[trigger] fs[k];
                        let e = ics@[f.sender_index - 1];
                        (old_state.qualified_set@[f.sender_index - 1] == 1
                            && irs@[f.sender_index - 1] is Some && f.committed_coefficients@.len()
                            == t + 1) ==> e is Some && point_views(e->Some_0@) == point_views(
                            f.committed_coefficients@,
                        )
                    },
                complaints@ == round4_complaints(old_state, fs.take(i as int)),
            decreases fs.len() - i,
        {
            proof {
                assert(fs.take(i + 1).drop_last() =~= fs.take(i as int));
                assert(fs.take(i + 1).last() == fs[i as int]);
            }
            let f = &fetched_state_3[i];
            let s = f.sender_index;
            if qualified_set[s - 1] == 1 {
                match &irs[s - 1] {
                    Some(entry) => {
                        if f.committed_coefficients.len() == t + 1 {
                            retained[s - 1] = 1;
                            ics[s - 1] = Some(clone_vec(&f.committed_coefficients));
                            let check = gen.mul(&entry.1);
                            let combined = PrimeGroupElement::vartime_multiscalar_multiplication(
                                &powers,
                                &f.committed_coefficients,
                            );
                            if check.v == combined.v {
                                honest[s - 1] = 1;
                            } else {
                                complaints.push((s, entry.0, entry.1));
                            }
                        } else {
                            complaints.push((s, entry.0, entry.1));
                        }
                    },
                    None => {},
                }
            }
            i = i + 1;
        }
        proof {
            assert(fs.take(fs.len() as int) =~= fs);
        }

        ics[my - 1] = Some(clone_vec(&committed_coefficients));

        let mut qualified = qualified_set;
        let mut j: usize = 0;
        while j < n
            invariant
                j <= n,
                old_state.wf_base(),
                my == old_state.index,
                n == old_state.environment.nr_members,
                1 <= my <= n,
                qualified@.len() == n,
                retained@.len() == n,
                forall|m: int|
                    0 <= m < n ==> ((#[trigger] retained@[m]) == 1 <==> (old_state.qualified_set@[m]
                        == 1 && round3_retained(old_state, fs, m + 1))),
                forall|m: int| j <= m < n ==> (#[trigger] qualified@[m]) == old_state.qualified_set@[m],
                forall|m: int|
                    0 <= m < j ==> (#[trigger] qualified@[m]) == (if m + 1 == my {
                        old_state.qualified_set@[m] as int
                    } else if old_state.qualified_set@[m] == 1 && round3_retained(
                        old_state,
                        fs,
                        m + 1,
                    ) {
                        1int
                    } else {
                        0int
                    }),
            decreases n - j,
        {
            if j != my - 1 {
                if qualified[j] == 1 && retained[j] == 1 {
                    qualified[j] = 1;
                } else {
                    qualified[j] = 0;
                }
            }
            j = j + 1;
        }

        let hcount = count_qualified(&honest);
        proof {
            lemma_count_honest_matches(old_state, fs, honest@, n as nat);
            assert(honest@.take(n as int) =~= honest@);
        }

        let broadcast = if complaints.len() == 0 {
            None
        } else {
            Some(BroadcastPhase4 { misbehaving_parties: complaints })
        };

        if hcount < t {
            return (Err(DkgError::MisbehaviourHigherThreshold), broadcast);
        }

        proof {
            assert forall|m: int| 0 <= m < n && (#[trigger] qualified@[m]) == 1 implies ics@[m]
                is Some && irs@[m] is Some by {
                if m + 1 == my {
                } else {
                    lemma_round3_retained_exists(old_state, fs, m + 1);
                    let k = choose|k: int|
                        0 <= k < fs.len() && (#[trigger] fs[k]).sender_index == m + 1
                            && fs[k].committed_coefficients@.len() == old_state.environment.threshold
                            + 1 && old_state.indexed_received_shares->Some_0@[m] is Some;
                    assert(fs[k].sender_index == m + 1);
                }
            }
        }
        let state = IndividualState {
            index,
            environment: state_environment,
            communication_sk,
            committee_pks,
            committed_coefficients,
            indexed_received_shares: Some(irs),
            indexed_committed_shares: Some(ics),
            qualified_set: qualified,
        };
        (Ok(Phase::<Phase4> { state, phase: PhantomData }), broadcast)
    }
}

/// What a member fetches from one peer after round 4: the accuser's 1-based
/// index and its disclosures against round-3 liars.
#[derive(Clone, Debug, PartialEq)]
pub struct MembersFetchedState4 {
    pub sender_index: usize,
    pub accusations: BroadcastPhase4,
}

impl MembersFetchedState4 {
    /// Canonical scalars throughout.
    pub open spec fn wf(&self) -> bool {
        forall|e: int|
            0 <= e < self.accusations.misbehaving_parties@.len() ==> {
                &&& (#[trigger] self.accusations.misbehaving_parties@[e]).1.wf()
                &&& self.accusations.misbehaving_parties@[e].2.wf()
            }
    }
}

/// Whether a round-4 accusation against dealer `d` holds up for this
/// member: the disclosed share pair opens the dealer's round-1 commitments
/// at the accuser's index — so the pair is genuine by the binding of the
/// commitment — while the dealer's round-3 commitments fail to explain it.
pub open spec fn exposure_upheld(st: IndividualState, a: int, d: int, comm: int, shek: int) -> bool {
    let irs = st.indexed_received_shares->Some_0;
    let ics = st.indexed_committed_shares->Some_0;
    let n = st.environment.nr_members as int;
    &&& 1 <= d <= n
    &&& 1 <= a <= n
    &&& st.qualified_set@[d - 1] == 1
    &&& irs@[d - 1] is Some
    &&& ics@[d - 1] is Some
    &&& pedersen_check(
        st.environment.commitment_key.h@,
        comm,
        shek,
        point_views(irs@[d - 1]->Some_0.2@),
        a,
    )
    &&& !round3_check(
        a,
        shek,
        point_views(ics@[d - 1]->Some_0@),
        st.environment.threshold as nat,
    )
}

/// Whether one round-4 broadcast carries an upheld accusation against the
/// member of 1-based index `i`.
pub open spec fn broadcast4_exposes(
    st: IndividualState,
    a: int,
    parties: Seq<MisbehavingPartiesState3>,
    i: int,
) -> bool
    decreases parties.len(),
{
    if parties.len() == 0 {
        false
    } else {
        broadcast4_exposes(st, a, parties.drop_last(), i) || (parties.last().0 == i
            && exposure_upheld(st, a, i, parties.last().1@, parties.last().2@))
    }
}

/// Whether any fetched round-4 broadcast carries an upheld accusation
/// against the member of 1-based index `i`.
pub open spec fn any_exposure_against(
    st: IndividualState,
    cs: Seq<MembersFetchedState4>,
    i: int,
) -> bool
    decreases cs.len(),
{
    if cs.len() == 0 {
        false
    } else {
        any_exposure_against(st, cs.drop_last(), i) || broadcast4_exposes(
            st,
            cs.last().sender_index as int,
            cs.last().accusations.misbehaving_parties@,
            i,
        )
    }
}

/// The share pairs this member discloses for the dealers that one round-4
/// broadcast validly accuses.
pub open spec fn disclosures_for_broadcast(
    st: IndividualState,
    a: int,
    parties: Seq<MisbehavingPartiesState3>,
) -> Seq<MisbehavingPartiesState3>
    decreases parties.len(),
{
    if parties.len() == 0 {
        Seq::empty()
    } else {
        let rest = disclosures_for_broadcast(st, a, parties.drop_last());
        let e = parties.last();
        if exposure_upheld(st, a, e.0 as int, e.1@, e.2@) {
            rest.push(
                (
                    e.0,
                    st.indexed_received_shares->Some_0@[e.0 - 1]->Some_0.0,
                    st.indexed_received_shares->Some_0@[e.0 - 1]->Some_0.1,
                ),
            )
        } else {
            rest
        }
    }
}

/// All the share pairs this member disclosed over the fetched round-4
/// broadcasts, in input order.
pub open spec fn disclosures_after(
    st: IndividualState,
    cs: Seq<MembersFetchedState4>,
) -> Seq<MisbehavingPartiesState3>
    decreases cs.len(),
{
    if cs.len() == 0 {
        Seq::empty()
    } else {
        disclosures_after(st, cs.drop_last()) + disclosures_for_broadcast(
            st,
            cs.last().sender_index as int,
            cs.last().accusations.misbehaving_parties@,
        )
    }
}

/// Whether some fetched round-3 item was sent by the member of 1-based
/// index `i`.
pub open spec fn named3_in(fs: Seq<MembersFetchedState3>, i: int) -> bool
    decreases fs.len(),
{
    if fs.len() == 0 {
        false
    } else {
        named3_in(fs.drop_last(), i) || fs.last().sender_index == i
    }
}

/// `round3_retained` holds exactly when some fetched item witnesses it.
pub proof fn lemma_round3_retained_exists(
    st: IndividualState,
    fs: Seq<MembersFetchedState3>,
    i: int,
)
    ensures
        round3_retained(st, fs, i) <==> exists|k: int|
            0 <= k < fs.len() && (#[trigger] fs[k]).sender_index == i
                && fs[k].committed_coefficients@.len() == st.environment.threshold + 1
                && st.indexed_received_shares->Some_0@[i - 1] is Some,
    decreases fs.len(),
{
    if fs.len() > 0 {
        lemma_round3_retained_exists(st, fs.drop_last(), i);
        if round3_retained(st, fs, i) {
            if fs.last().sender_index == i && fs.last().committed_coefficients@.len()
                == st.environment.threshold + 1 && st.indexed_received_shares->Some_0@[i - 1]
                is Some {
                assert(fs[fs.len() - 1].sender_index == i && fs[fs.len()
                    - 1].committed_coefficients@.len() == st.environment.threshold + 1);
            } else {
                let k = choose|k: int|
                    0 <= k < fs.drop_last().len() && (#[trigger] fs.drop_last()[k]).sender_index
                        == i && fs.drop_last()[k].committed_coefficients@.len()
                        == st.environment.threshold + 1
                        && st.indexed_received_shares->Some_0@[i - 1] is Some;
                assert(fs[k].sender_index == i && fs[k].committed_coefficients@.len()
                    == st.environment.threshold + 1);
            }
        } else {
            assert forall|k: int|
                0 <= k < fs.len() && (#[trigger] fs[k]).sender_index == i implies !(
            fs[k].committed_coefficients@.len() == st.environment.threshold + 1
                && st.indexed_received_shares->Some_0@[i - 1] is Some) by {
                if k < fs.len() - 1 {
                    assert(fs.drop_last()[k].sender_index == i);
                }
            }
        }
    }
}

/// The full contract of [`Phase::<Phase1>::to_phase_2`], over the consumed
/// phase value, the fetched items and the returned pair.
///
/// A wrongly addressed item ends the transition with
/// [`DkgError::FetchedInvalidData`].  Otherwise the misbehaving senders are
/// exactly those of [`misbehaving_of`]; complaints reaching the threshold
/// end the ceremony for this member with the complaints still emitted, and
/// below the threshold the member advances, broadcasting the complaints
/// exactly when there are any.  A share pair is recorded in the table only
/// when it decrypts canonically and passes the Pedersen check; a failed
/// sender's slot stays as it was.
pub open spec fn to_phase_2_post(
    p: Phase<Phase1>,
    fs: Seq<MembersFetchedState1>,
    r: (Result<Phase<Phase2>, DkgError>, Option<BroadcastPhase2>),
) -> bool {
    let sk = p.state.communication_sk.0.sk@;
    let h = p.state.environment.commitment_key.h@;
    let my = p.state.index as int;
    let t = p.state.environment.threshold as nat;
    let n = p.state.environment.nr_members as int;
    let bad = misbehaving_of(sk, h, my, t, fs);
    &&& (!all_addressed_to(fs, my) ==> r.0 is Err && r.0->Err_0 == DkgError::FetchedInvalidData
        && r.1 is None)
    &&& (all_addressed_to(fs, my) && bad.len() >= t ==> {
        &&& r.0 is Err
        &&& r.0->Err_0 == DkgError::MisbehaviourHigherThreshold
        &&& r.1 is Some
        &&& complaints_match(sk, h, my, t, bad, r.1->Some_0.misbehaving_parties@)
    })
    &&& (all_addressed_to(fs, my) && bad.len() < t ==> {
        &&& r.0 is Ok
        &&& (r.1 is Some <==> bad.len() > 0)
        &&& (bad.len() > 0 ==> complaints_match(
            sk,
            h,
            my,
            t,
            bad,
            r.1->Some_0.misbehaving_parties@,
        ))
        &&& {
            let s = r.0->Ok_0.state;
            &&& r.0->Ok_0.wf()
            &&& s.index == p.state.index
            &&& s.environment == p.state.environment
            &&& s.communication_sk == p.state.communication_sk
            &&& s.committee_pks == p.state.committee_pks
            &&& s.committed_coefficients == p.state.committed_coefficients
            &&& s.indexed_committed_shares == p.state.indexed_committed_shares
            &&& s.qualified_set@.len() == n
            &&& forall|j: int|
                0 <= j < n ==> (#[trigger] s.qualified_set@[j]) == (if accuses(
                    sk,
                    h,
                    my,
                    t,
                    fs,
                    j + 1,
                ) {
                    0int
                } else {
                    p.state.qualified_set@[j] as int
                })
            &&& s.indexed_received_shares is Some
            &&& s.indexed_received_shares->Some_0@.len() == n
            &&& forall|j: int|
                0 <= j < n && !named_in(fs, j + 1)
                    ==> s.indexed_received_shares->Some_0@[j]
                    == p.state.indexed_received_shares->Some_0@[j]
            &&& forall|k: int|
                0 <= k < fs.len() ==> {
                    let f = #[trigger] fs[k];
                    let e = s.indexed_received_shares->Some_0@[f.sender_index - 1];
                    if !sender_misbehaved(sk, h, my, t, f) {
                        &&& e is Some
                        &&& e->Some_0.0@ == fetched_comm(sk, f)->Some_0
                        &&& e->Some_0.1@ == fetched_shek(sk, f)->Some_0
                        &&& point_views(e->Some_0.2@) == point_views(f.committed_coeffs@)
                    } else {
                        e == p.state.indexed_received_shares->Some_0@[f.sender_index - 1]
                    }
                }
        }
    })
}

/// Applies one member's round-4 broadcast: marks every validly accused
/// dealer as exposed and discloses the share pair this member holds from
/// it.
fn apply_exposure_broadcast(
    st: &IndividualState,
    exposed: &mut Vec<usize>,
    disclosures: &mut Vec<MisbehavingPartiesState3>,
    accuser: usize,
    parties: &Vec<MisbehavingPartiesState3>,
)
    requires
        st.wf_base(),
        st.wf_shares(),
        st.wf_committed(),
        old(exposed)@.len() == st.environment.nr_members,
        forall|e: int|
            0 <= e < parties@.len() ==> (#[trigger] parties@[e]).1.wf() && parties@[e].2.wf(),
    ensures
        final(exposed)@.len() == old(exposed)@.len(),
        forall|j: int|
            0 <= j < final(exposed)@.len() ==> ((#[trigger] final(exposed)@[j]) == 1 <==> (old(
                exposed,
            )@[j] == 1 || broadcast4_exposes(*st, accuser as int, parties@, j + 1))),
        forall|j: int|
            0 <= j < final(exposed)@.len() ==> final(exposed)@[j] == 0 || final(exposed)@[j] == 1
                || old(exposed)@[j] == final(exposed)@[j],
        final(disclosures)@ == old(disclosures)@ + disclosures_for_broadcast(
            *st,
            accuser as int,
            parties@,
        ),
{
    let ghost e0 = exposed@;
    let ghost d0 = disclosures@;
    let ghost ps = parties@;
    let n = st.environment.nr_members;
    let t = st.environment.threshold;
    let irs = match &st.indexed_received_shares {
        Some(v) => v,
        None => {
            proof {
                assert(false);
            }
            return ;
        },
    };
    let ics = match &st.indexed_committed_shares {
        Some(v) => v,
        None => {
            proof {
                assert(false);
            }
            return ;
        },
    };
    let gen = PrimeGroupElement::generator();
    let mut e: usize = 0;
    while e < parties.len()
        invariant
            e <= ps.len(),
            ps == parties@,
            st.wf_base(),
            st.wf_shares(),
            st.wf_committed(),
            irs@ == st.indexed_received_shares->Some_0@,
            ics@ == st.indexed_committed_shares->Some_0@,
            n == st.environment.nr_members,
            t == st.environment.threshold,
            gen.wf(),
            gen@ == spec_generator(),
            forall|x: int|
                0 <= x < ps.len() ==> (#[trigger] ps[x]).1.wf() && ps[x].2.wf(),
            exposed@.len() == e0.len(),
            e0.len() == n,
            forall|j: int|
                0 <= j < exposed@.len() ==> ((#[trigger] exposed@[j]) == 1 <==> (e0[j] == 1
                    || broadcast4_exposes(*st, accuser as int, ps.take(e as int), j + 1))),
            forall|j: int|
                0 <= j < exposed@.len() ==> exposed@[j] == 0 || exposed@[j] == 1 || e0[j]
                    == exposed@[j],
            disclosures@ == d0 + disclosures_for_broadcast(*st, accuser as int, ps.take(e as int)),
        decreases ps.len() - e,
    {
        proof {
            assert(ps.take(e + 1).drop_last() =~= ps.take(e as int));
            assert(ps.take(e + 1).last() == ps[e as int]);
        }
        let entry = &parties[e];
        let d = entry.0;
        let mut upheld: bool = false;
        if d >= 1 && d <= n && accuser >= 1 && accuser <= n {
            if st.qualified_set[d - 1] == 1 {
                match (&irs[d - 1], &ics[d - 1]) {
                    (Some(re), Some(ce)) => {
                        let idx_a = Scalar::from_u64(accuser as u64);
                        proof {
                            vstd::arithmetic::div_mod::lemma_small_mod(
                                accuser as nat,
                                GROUP_ORDER as nat,
                            );
                        }
                        let powers_e = crate::group::scalar_powers(&idx_a, re.2.len());
                        proof {
                            assert(crate::group::scalar_views(powers_e@) =~= powers_seq(
                                accuser as int,
                                re.2@.len() as nat,
                            ));
                        }
                        let check_1 = st.environment.commitment_key.commit(&entry.2, &entry.1);
                        let combined_1 = PrimeGroupElement::vartime_multiscalar_multiplication(
                            &powers_e,
                            &re.2,
                        );
                        let opens_round_1 = check_1.v == combined_1.v;
                        let explains_round_3: bool = if ce.len() == t + 1 {
                            let powers_a = crate::group::scalar_powers(&idx_a, t + 1);
                            proof {
                                assert(crate::group::scalar_views(powers_a@) =~= powers_seq(
                                    accuser as int,
                                    (t + 1) as nat,
                                ));
                            }
                            let check_3 = gen.mul(&entry.2);
                            let combined_3 =
                                PrimeGroupElement::vartime_multiscalar_multiplication(
                                &powers_a,
                                ce,
                            );
                            check_3.v == combined_3.v
                        } else {
                            false
                        };
                        if opens_round_1 && !explains_round_3 {
                            upheld = true;
                        }
                    },
                    _ => {},
                }
            }
        }
        proof {
            assert(upheld <==> exposure_upheld(
                *st,
                accuser as int,
                d as int,
                ps[e as int].1@,
                ps[e as int].2@,
            ));
        }
        if upheld {
            match &irs[d - 1] {
                Some(re) => {
                    exposed[d - 1] = 1;
                    disclosures.push((d, re.0, re.1));
                },
                None => {
                    proof {
                        assert(false);
                    }
                },
            }
        }
        e = e + 1;
    }
    proof {
        assert(ps.take(ps.len() as int) =~= ps);
    }
}

/// The qualified set after acting on the round-4 disclosures: a dealer is
/// disqualified exactly when some fetched disclosure against it holds up.
pub open spec fn qualified_after_exposures(
    st: IndividualState,
    cs: Seq<MembersFetchedState4>,
) -> Seq<usize> {
    Seq::new(
        st.qualified_set@.len(),
        |j: int|
            if any_exposure_against(st, cs, j + 1) {
                0usize
            } else {
                st.qualified_set@[j]
            },
    )
}

/// The full contract of [`Phase::<Phase4>::to_phase_5`]: each round-4
/// accusation is verified against this member's recorded round-1 and
/// round-3 commitments of the accused dealer; a dealer validly accused is
/// disqualified, and this member discloses the share pair it received from
/// it so that third parties can re-run the checks.  The member aborts when
/// fewer than `threshold` members stay qualified.
///
/// Disqualifying an exposed dealer departs from the classical treatment,
/// which keeps the dealer qualified and publicly reconstructs its
/// polynomial by Lagrange interpolation from the disclosed shares.  That
/// reconstruction is out of reach at this protocol's own margin: a dealer
/// polynomial has degree `threshold`, so it takes `threshold + 1` points
/// to interpolate, while as few as `threshold` honest members — the
/// allowed minimum — can be left to disclose.  Removing the dealer
/// instead, from the same verified disclosures at every member, keeps the
/// ceremony deterministic and the members agreed on the master key.
pub open spec fn to_phase_5_post(
    p: Phase<Phase4>,
    cs: Seq<MembersFetchedState4>,
    r: (Result<Phase<Phase5>, DkgError>, Option<BroadcastPhase5>),
) -> bool {
    let st = p.state;
    let newq = qualified_after_exposures(st, cs);
    let ds = disclosures_after(st, cs);
    &&& (ds.len() == 0 <==> r.1 is None)
    &&& (ds.len() > 0 ==> r.1 is Some && r.1->Some_0.disclosed_shares@ == ds)
    &&& (count_ones(newq) < st.environment.threshold ==> r.0 is Err && r.0->Err_0
        == DkgError::MisbehaviourHigherThreshold)
    &&& (count_ones(newq) >= st.environment.threshold ==> {
        let s = r.0->Ok_0.state;
        &&& r.0 is Ok
        &&& r.0->Ok_0.wf()
        &&& s.index == st.index
        &&& s.environment == st.environment
        &&& s.communication_sk == st.communication_sk
        &&& s.committee_pks == st.committee_pks
        &&& s.committed_coefficients == st.committed_coefficients
        &&& s.indexed_received_shares == st.indexed_received_shares
        &&& s.indexed_committed_shares == st.indexed_committed_shares
        &&& s.qualified_set@ == newq
    })
}

impl Phase<Phase4> {
    /// Acts on the round-4 disclosures: verifies each accusation against
    /// the recorded commitments of the accused dealer, disqualifies the
    /// dealers exposed as round-3 liars, and discloses the share pairs this
    /// member holds from them.
    pub fn to_phase_5(
        self,
        broadcast_complaints: &Vec<MembersFetchedState4>,
    ) -> (r: (Result<Phase<Phase5>, DkgError>, Option<BroadcastPhase5>))
        requires
            self.wf(),
            forall|c: int|
                0 <= c < broadcast_complaints@.len() ==> (#[trigger] broadcast_complaints@[c]).wf(),
        ensures
            to_phase_5_post(self, broadcast_complaints@, r),
    {
        let n = self.state.environment.nr_members;
        let t = self.state.environment.threshold;
        let ghost cs = broadcast_complaints@;
        let st = self.state;

        let mut exposed: Vec<usize> = Vec::new();
        let mut z: usize = 0;
        while z < n
            invariant
                z <= n,
                exposed@.len() == z,
                forall|m: int| 0 <= m < z ==> (#[trigger] exposed@[m]) == 0,
            decreases n - z,
        {
            exposed.push(0);
            z = z + 1;
        }

        let mut disclosures: Vec<MisbehavingPartiesState3> = Vec::new();
        let mut c: usize = 0;
        while c < broadcast_complaints.len()
            invariant
                c <= cs.len(),
                cs == broadcast_complaints@,
                st == self.state,
                st.wf_base(),
                st.wf_shares(),
                st.wf_committed(),
                n == st.environment.nr_members,
                t == st.environment.threshold,
                forall|x: int| 0 <= x < cs.len() ==> (#[trigger] cs[x]).wf(),
                exposed@.len() == n,
                forall|j: int|
                    0 <= j < n ==> ((#[trigger] exposed@[j]) == 1 <==> any_exposure_against(
                        st,
                        cs.take(c as int),
                        j + 1,
                    )),
                forall|j: int| 0 <= j < n ==> exposed@[j] == 0 || exposed@[j] == 1,
                disclosures@ == disclosures_after(st, cs.take(c as int)),
            decreases cs.len() - c,
        {
            proof {
                assert(cs.take(c + 1).drop_last() =~= cs.take(c as int));
                assert(cs.take(c + 1).last() == cs[c as int]);
                assert(disclosures_after(st, cs.take(c as int)) + Seq::<
                    MisbehavingPartiesState3,
                >::empty() =~= disclosures_after(st, cs.take(c as int)));
            }
            let fetched = &broadcast_complaints[c];
            apply_exposure_broadcast(
                &st,
                &mut exposed,
                &mut disclosures,
                fetched.sender_index,
                &fetched.accusations.misbehaving_parties,
            );
            c = c + 1;
        }
        proof {
            assert(cs.take(cs.len() as int) =~= cs);
        }

        let IndividualState {
            index,
            environment: state_environment,
            communication_sk,
            committee_pks,
            committed_coefficients,
            indexed_received_shares,
            indexed_committed_shares,
            qualified_set,
        } = st;
        let mut qualified = qualified_set;
        let mut j: usize = 0;
        while j < n
            invariant
                j <= n,
                qualified@.len() == n,
                exposed@.len() == n,
                self.state.qualified_set@.len() == n,
                forall|m: int|
                    0 <= m < n ==> ((#[trigger] exposed@[m]) == 1 <==> any_exposure_against(
                        self.state,
                        cs,
                        m + 1,
                    )),
                forall|m: int| j <= m < n ==> (#[trigger] qualified@[m])
                    == self.state.qualified_set@[m],
                forall|m: int|
                    0 <= m < j ==> (#[trigger] qualified@[m]) == (if any_exposure_against(
                        self.state,
                        cs,
                        m + 1,
                    ) {
                        0int
                    } else {
                        self.state.qualified_set@[m] as int
                    }),
            decreases n - j,
        {
            if exposed[j] == 1 {
                qualified[j] = 0;
            }
            j = j + 1;
        }
        proof {
            assert(qualified@ =~= qualified_after_exposures(self.state, cs));
        }

        let broadcast = if disclosures.len() == 0 {
            None
        } else {
            Some(BroadcastPhase5 { disclosed_shares: disclosures })
        };

        let remaining = count_qualified(&qualified);
        if remaining < t {
            return (Err(DkgError::MisbehaviourHigherThreshold), broadcast);
        }

        let state = IndividualState {
            index,
            environment: state_environment,
            communication_sk,
            committee_pks,
            committed_coefficients,
            indexed_received_shares,
            indexed_committed_shares,
            qualified_set: qualified,
        };
        (Ok(Phase::<Phase5> { state, phase: PhantomData }), broadcast)
    }
}

/// The master public key this member's state determines: the sum of the
/// constant-term commitments `A_{i,0}` over the first `upto` members of the
/// qualified set.
pub open spec fn spec_master_key(st: IndividualState, upto: nat) -> int
    decreases upto,
{
    if upto == 0 {
        0
    } else {
        let rest = spec_master_key(st, (upto - 1) as nat);
        if st.qualified_set@[upto - 1] == 1 {
            gadd(rest, st.indexed_committed_shares->Some_0@[upto - 1]->Some_0@[0]@)
        } else {
            rest
        }
    }
}

/// The secret share this member's state determines: the sum of the share
/// scalars received from the first `upto` members of the qualified set.
pub open spec fn spec_final_share(st: IndividualState, upto: nat) -> int
    decreases upto,
{
    if upto == 0 {
        0
    } else {
        let rest = spec_final_share(st, (upto - 1) as nat);
        if st.qualified_set@[upto - 1] == 1 {
            fadd(rest, st.indexed_received_shares->Some_0@[upto - 1]->Some_0.1@)
        } else {
            rest
        }
    }
}

impl Phase<Phase5> {
    /// Completes the ceremony: the master public key is the sum of the
    /// qualified dealers' constant-term commitments, and this member's
    /// secret share is the sum of the share scalars those dealers dealt to
    /// it.
    ///
    /// Finalisation takes no further input: dealers exposed after round 4
    /// were already removed by [`Phase::<Phase4>::to_phase_5`] rather than
    /// reconstructed (see there for why), so every remaining qualified
    /// dealer's commitments and shares are at hand and the result depends
    /// on this member's state alone.
    pub fn finalise(self) -> (r: Result<(MasterPublicKey, MemberSecretShare), DkgError>)
        requires
            self.wf(),
        ensures
            r is Ok,
            r->Ok_0.0.0.pk.wf(),
            r->Ok_0.0.0.pk@ == spec_master_key(
                self.state,
                self.state.environment.nr_members as nat,
            ),
            r->Ok_0.1.0.sk.wf(),
            r->Ok_0.1.0.sk@ == spec_final_share(
                self.state,
                self.state.environment.nr_members as nat,
            ),
    {
        let st = &self.state;
        let n = st.environment.nr_members;
        let irs = match &st.indexed_received_shares {
            Some(v) => v,
            None => {
                proof {
                    assert(false);
                }
                return Err(DkgError::InconsistentMasterKey);
            },
        };
        let ics = match &st.indexed_committed_shares {
            Some(v) => v,
            None => {
                proof {
                    assert(false);
                }
                return Err(DkgError::InconsistentMasterKey);
            },
        };
        let mut master = PrimeGroupElement::zero();
        let mut share = Scalar::zero();
        let mut j: usize = 0;
        while j < n
            invariant
                j <= n,
                st == &self.state,
                st.wf_base(),
                st.wf_shares(),
                st.wf_committed(),
                n == st.environment.nr_members,
                irs@ == st.indexed_received_shares->Some_0@,
                ics@ == st.indexed_committed_shares->Some_0@,
                master.wf(),
                master@ == spec_master_key(self.state, j as nat),
                share.wf(),
                share@ == spec_final_share(self.state, j as nat),
            decreases n - j,
        {
            if qualified_at(st, j) {
                match (&irs[j], &ics[j]) {
                    (Some(re), Some(ce)) => {
                        master = master.add(&ce[0]);
                        share = share.add(&re.1);
                    },
                    _ => {
                        proof {
                            assert(false);
                        }
                    },
                }
            }
            j = j + 1;
        }
        Ok((
            MasterPublicKey(crate::cryptography::elgamal::PublicKey { pk: master }),
            MemberSecretShare(crate::cryptography::elgamal::SecretKey { sk: share }),
        ))
    }
}

/// Whether the member at 0-based slot `j` is still qualified.
fn qualified_at(st: &IndividualState, j: usize) -> (r: bool)
    requires
        j < st.qualified_set@.len(),
    ensures
        r <==> st.qualified_set@[j as int] == 1,
{
    st.qualified_set[j] == 1
}

/// The combined committed polynomial evaluated at this member's index: the
/// sum over the first `upto` qualified dealers of `Σ_k my^k · A_{d,k}`.
pub open spec fn spec_combined_eval(st: IndividualState, upto: nat) -> int
    decreases upto,
{
    if upto == 0 {
        0
    } else {
        let rest = spec_combined_eval(st, (upto - 1) as nat);
        if st.qualified_set@[upto - 1] == 1 {
            gadd(
                rest,
                msm(
                    powers_seq(st.index as int, (st.environment.threshold + 1) as nat),
                    point_views(st.indexed_committed_shares->Some_0@[upto - 1]->Some_0@),
                ),
            )
        } else {
            rest
        }
    }
}

/// Master-key agreement: two members that hold the same qualified set and
/// recorded the same constant-term commitments for every qualified dealer
/// — as any two honest members that saw the same broadcasts do — compute
/// the same master public key.
pub proof fn lemma_master_key_agreement(s1: IndividualState, s2: IndividualState, upto: nat)
    requires
        s1.qualified_set@ == s2.qualified_set@,
        upto <= s1.qualified_set@.len(),
        forall|j: int|
            0 <= j < upto && (#[trigger] s1.qualified_set@[j]) == 1 ==> {
                &&& s1.indexed_committed_shares->Some_0@[j] is Some
                &&& s2.indexed_committed_shares->Some_0@[j] is Some
                &&& s1.indexed_committed_shares->Some_0@[j]->Some_0@[0]@
                    == s2.indexed_committed_shares->Some_0@[j]->Some_0@[0]@
            },
    ensures
        spec_master_key(s1, upto) == spec_master_key(s2, upto),
    decreases upto,
{
    if upto > 0 {
        lemma_master_key_agreement(s1, s2, (upto - 1) as nat);
    }
}

/// The secret share lies on the combined committed polynomial: when every
/// qualified dealer's recorded round-3 commitments explain the share it
/// dealt to this member — which is what the round-3 check established —
/// then `g^{share}` equals the sum over the qualified set of
/// `Σ_k my^k · A_{d,k}`, the combined committed polynomial at this
/// member's index.
pub proof fn lemma_share_on_combined_polynomial(st: IndividualState, upto: nat)
    requires
        upto <= st.qualified_set@.len(),
        forall|j: int|
            0 <= j < upto && (#[trigger] st.qualified_set@[j]) == 1 ==> {
                &&& st.indexed_received_shares->Some_0@[j] is Some
                &&& st.indexed_committed_shares->Some_0@[j] is Some
                &&& round3_check(
                    st.index as int,
                    st.indexed_received_shares->Some_0@[j]->Some_0.1@,
                    point_views(st.indexed_committed_shares->Some_0@[j]->Some_0@),
                    st.environment.threshold as nat,
                )
            },
    ensures
        gmul(spec_final_share(st, upto), spec_generator()) == spec_combined_eval(st, upto),
    decreases upto,
{
    if upto == 0 {
        assert(gmul(0, 1) == 0);
    } else {
        lemma_share_on_combined_polynomial(st, (upto - 1) as nat);
        if st.qualified_set@[upto - 1] == 1 {
            let rest = spec_final_share(st, (upto - 1) as nat);
            let s = st.indexed_received_shares->Some_0@[upto - 1]->Some_0.1@;
            crate::group::lemma_fmul_dist(rest, s, 1);
            assert(point_views(
                st.indexed_committed_shares->Some_0@[upto - 1]->Some_0@,
            ).len() == st.environment.threshold + 1);
        }
    }
}

/// An honest dealer's plain commitments explain its dealt shares: with
/// `A_k = g^{a_k}`, the round-3 check holds at every index for the value
/// of the polynomial `a` there.
pub proof fn lemma_honest_round3_passes(a: Seq<int>, i: int, t: nat)
    requires
        a.len() == t + 1,
        crate::group::seq_in_field(a),
    ensures
        round3_check(
            i,
            poly_eval(a, i),
            Seq::new(a.len(), |k: int| gmul(a[k], spec_generator())),
            t,
        ),
{
    let coeffs = Seq::new(a.len(), |k: int| gmul(a[k], spec_generator()));
    assert forall|k: int| 0 <= k < a.len() implies coeffs[k] == a[k] by {
        crate::group::lemma_small_field(a[k]);
    }
    assert(coeffs =~= a);
    crate::polynomial::lemma_poly_eval_msm(a, i);
    crate::polynomial::lemma_poly_eval_in_field(a, i);
    crate::group::lemma_small_field(poly_eval(a, i));
}

/// Transition monotonicity at the qualification step: a member
/// disqualified before `to_phase_3` is still disqualified after it.
pub proof fn lemma_disqualified_stays_phase_3(
    p: Phase<Phase2>,
    cs: Seq<MembersFetchedState2>,
    bcs1: Seq<Option<BroadcastPhase1>>,
    r: (Result<Phase<Phase3>, DkgError>, Option<BroadcastPhase3>),
)
    requires
        to_phase_3_post(p, cs, bcs1, r),
        r.0 is Ok,
    ensures
        forall|j: int|
            0 <= j < r.0->Ok_0.state.qualified_set@.len() && (
            #[trigger] r.0->Ok_0.state.qualified_set@[j]) == 1 ==> p.state.qualified_set@[j] == 1,
{
}

/// Transition monotonicity at the plain-commitment check: a member
/// disqualified before `to_phase_4` is still disqualified after it.
pub proof fn lemma_disqualified_stays_phase_4(
    p: Phase<Phase3>,
    fs: Seq<MembersFetchedState3>,
    r: (Result<Phase<Phase4>, DkgError>, Option<BroadcastPhase4>),
)
    requires
        to_phase_4_post(p, fs, r),
        r.0 is Ok,
        p.state.wf_base(),
    ensures
        forall|j: int|
            0 <= j < r.0->Ok_0.state.qualified_set@.len() && (
            #[trigger] r.0->Ok_0.state.qualified_set@[j]) == 1 ==> p.state.qualified_set@[j] == 1,
{
}

/// Transition monotonicity at the disclosure step: a member disqualified
/// before `to_phase_5` is still disqualified after it, and `finalise`
/// never changes the qualified set.  Together with the two lemmas above, a
/// member disqualified at any phase stays disqualified through the end of
/// the ceremony.
pub proof fn lemma_disqualified_stays_phase_5(
    p: Phase<Phase4>,
    cs: Seq<MembersFetchedState4>,
    r: (Result<Phase<Phase5>, DkgError>, Option<BroadcastPhase5>),
)
    requires
        to_phase_5_post(p, cs, r),
        r.0 is Ok,
    ensures
        forall|j: int|
            0 <= j < r.0->Ok_0.state.qualified_set@.len() && (
            #[trigger] r.0->Ok_0.state.qualified_set@[j]) == 1 ==> p.state.qualified_set@[j] == 1,
{
}

/// Transition monotonicity, composed: a member disqualified before the
/// qualification step is still disqualified in the state that reaches
/// finalisation — no later transition re-qualifies anyone, and `finalise`
/// reads the qualified set without changing it.
pub proof fn lemma_disqualified_stays_through_finalise(
    p2: Phase<Phase2>,
    cs2: Seq<MembersFetchedState2>,
    bcs1: Seq<Option<BroadcastPhase1>>,
    r3: (Result<Phase<Phase3>, DkgError>, Option<BroadcastPhase3>),
    fs3: Seq<MembersFetchedState3>,
    r4: (Result<Phase<Phase4>, DkgError>, Option<BroadcastPhase4>),
    cs4: Seq<MembersFetchedState4>,
    r5: (Result<Phase<Phase5>, DkgError>, Option<BroadcastPhase5>),
)
    requires
        to_phase_3_post(p2, cs2, bcs1, r3),
        r3.0 is Ok,
        to_phase_4_post(r3.0->Ok_0, fs3, r4),
        r4.0 is Ok,
        to_phase_5_post(r4.0->Ok_0, cs4, r5),
        r5.0 is Ok,
    ensures
        forall|j: int|
            0 <= j < r5.0->Ok_0.state.qualified_set@.len() && (
            #[trigger] r5.0->Ok_0.state.qualified_set@[j]) == 1 ==> p2.state.qualified_set@[j]
                == 1,
{
    lemma_disqualified_stays_phase_3(p2, cs2, bcs1, r3);
    lemma_disqualified_stays_phase_4(r3.0->Ok_0, fs3, r4);
    lemma_disqualified_stays_phase_5(r4.0->Ok_0, cs4, r5);
}

} // verus!
