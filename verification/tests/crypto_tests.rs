//! Tests of the cryptographic building blocks: scalar encoding bounds,
//! Pedersen homomorphism, hybrid-encryption round trips, the proofs of
//! discrete-log equality and of correct decryption, and the key ordering.

use dkg::cryptography::commitment::CommitmentKey;
use dkg::cryptography::correct_hybrid_decryption_key::Zkp;
use dkg::cryptography::dl_equality::DleqZkp;
use dkg::cryptography::elgamal::Keypair;
use dkg::dkg::procedure_keys::{
    MasterPublicKey, MemberCommunicationKey, MemberCommunicationPublicKey, MemberPublicShare,
    MemberSecretShare,
};
use dkg::errors::ProofError;
use dkg::group::{PrimeGroupElement, Scalar, GROUP_ORDER};

#[test]
pub fn it_works() {
    let mut r = rand_core::OsRng;

    let comm_key = MemberCommunicationKey::new(&mut r);
    let comm_pkey = comm_key.to_public();

    let plaintext = [10u8; 43];
    let ciphertext = comm_pkey.hybrid_encrypt(&plaintext, &mut r);

    let decryption_key = comm_key.0.recover_symmetric_key(&ciphertext);

    let proof = Zkp::generate(&ciphertext, &comm_pkey, &decryption_key, &comm_key, &mut r);
    assert!(proof
        .verify(&ciphertext, &decryption_key, &comm_pkey)
        .is_ok())
}

#[test]
fn from_fns() {
    let mut rng = rand_core::OsRng;
    let keypair = Keypair::generate(&mut rng);
    let sk_comm = MemberCommunicationKey(keypair.secret_key);
    let pk_comm = MemberCommunicationPublicKey(keypair.public_key);

    let pk_comm_exp = sk_comm.to_public();

    assert_eq!(pk_comm, pk_comm_exp);
}

/// Scalar decoding accepts exactly the canonical encodings: the boundary
/// values `q`, `q + 1` and the all-ones word are rejected, `q - 1` is
/// accepted, and encoding round-trips.
#[test]
fn scalar_from_bytes_rejects_out_of_range() {
    // GROUP_ORDER is 65521 = 0xfff1: big-endian [0, .., 0xff, 0xf1].
    let q_bytes = [0u8, 0, 0, 0, 0, 0, 0xff, 0xf1];
    assert!(Scalar::from_bytes(&q_bytes).is_none());

    let q_plus_one = [0u8, 0, 0, 0, 0, 0, 0xff, 0xf2];
    assert!(Scalar::from_bytes(&q_plus_one).is_none());

    let all_ones = [0xffu8; 8];
    assert!(Scalar::from_bytes(&all_ones).is_none());

    let q_minus_one = [0u8, 0, 0, 0, 0, 0, 0xff, 0xf0];
    let s = Scalar::from_bytes(&q_minus_one).unwrap();
    assert_eq!(s.v, GROUP_ORDER - 1);
    assert_eq!(s.to_bytes(), q_minus_one.to_vec());

    // A wrong length is rejected too.
    assert!(Scalar::from_bytes(&[1u8, 2, 3]).is_none());
}

/// Pedersen commitments are additively homomorphic on concrete values.
#[test]
fn pedersen_homomorphism_concrete() {
    let shared_string = b"Example of a shared string.".to_owned();
    let ck = CommitmentKey::generate(&shared_string);

    let m1 = Scalar::from_u64(1234);
    let r1 = Scalar::from_u64(9999);
    let m2 = Scalar::from_u64(60000);
    let r2 = Scalar::from_u64(65520);

    let lhs = ck.commit(&m1, &r1).add(&ck.commit(&m2, &r2));
    let rhs = ck.commit(&m1.add(&m2), &r1.add(&r2));
    assert_eq!(lhs, rhs);
}

/// Hybrid encryption round-trips, and a tampered payload or header is
/// rejected by the authenticated cipher.
#[test]
fn hybrid_encryption_round_trip() {
    let mut rng = rand_core::OsRng;
    let keypair = Keypair::generate(&mut rng);

    for message in [b"".to_vec(), b"m".to_vec(), vec![10u8; 43]] {
        let ciphertext = keypair.public_key.hybrid_encrypt(&message, &mut rng);
        let opened = keypair.secret_key.hybrid_decrypt(&ciphertext).unwrap();
        assert_eq!(opened, message);
    }

    let ciphertext = keypair.public_key.hybrid_encrypt(b"payload", &mut rng);

    let mut tampered = ciphertext.clone();
    tampered.e2[0] ^= 1;
    assert!(keypair.secret_key.hybrid_decrypt(&tampered).is_none());

    let mut rekeyed = ciphertext.clone();
    rekeyed.e1 = PrimeGroupElement { v: (rekeyed.e1.v + 1) % GROUP_ORDER };
    assert!(keypair.secret_key.hybrid_decrypt(&rekeyed).is_none());
}

/// A freshly generated proof of discrete-log equality verifies, and any
/// tamper of the response or of an announcement is rejected.
#[test]
fn dleq_generate_verify_and_tamper() {
    let mut rng = rand_core::OsRng;
    let base_1 = PrimeGroupElement::generator();
    let base_2 = PrimeGroupElement::hash_to_group(b"second base");
    let w = Scalar::from_u64(4242);
    let a = base_1.mul(&w);
    let b = base_2.mul(&w);

    let proof = DleqZkp::generate(&base_1, &base_2, &a, &b, &w, &mut rng);
    assert!(proof.verify(&base_1, &base_2, &a, &b).is_ok());

    // Flip the last byte of the response's encoding.
    let mut response_bytes = proof.response.to_bytes();
    response_bytes[7] ^= 1;
    let tampered_response = match Scalar::from_bytes(&response_bytes) {
        Some(s) => s,
        None => proof.response.add(&Scalar::one()),
    };
    let tampered = DleqZkp {
        announcement_1: proof.announcement_1,
        announcement_2: proof.announcement_2,
        response: tampered_response,
    };
    assert_eq!(
        tampered.verify(&base_1, &base_2, &a, &b),
        Err(ProofError::InvalidProof)
    );

    // Tamper an announcement: the challenge changes and the check fails.
    let tampered_announcement = DleqZkp {
        announcement_1: proof.announcement_1.add(&base_1),
        announcement_2: proof.announcement_2,
        response: proof.response,
    };
    assert_eq!(
        tampered_announcement.verify(&base_1, &base_2, &a, &b),
        Err(ProofError::InvalidProof)
    );

    // A wrong statement does not verify either.
    assert!(proof.verify(&base_1, &base_2, &b, &a).is_err());
}

/// The communication-key order is total, antisymmetric and deterministic
/// from the key bytes.
#[test]
fn communication_key_ordering() {
    let mut rng = rand_core::OsRng;
    let mut keys = Vec::new();
    for _ in 0..8 {
        keys.push(MemberCommunicationKey::new(&mut rng).to_public());
    }
    for a in &keys {
        for b in &keys {
            let ab = a.cmp(b);
            let ba = b.cmp(a);
            match ab {
                core::cmp::Ordering::Less => assert_eq!(ba, core::cmp::Ordering::Greater),
                core::cmp::Ordering::Equal => {
                    assert_eq!(ba, core::cmp::Ordering::Equal);
                    assert_eq!(a.0.pk.to_bytes(), b.0.pk.to_bytes());
                }
                core::cmp::Ordering::Greater => assert_eq!(ba, core::cmp::Ordering::Less),
            }
            assert_eq!(a.partial_cmp(b), Some(ab));
            // The order is the lexicographic order of the big-endian
            // encodings.
            assert_eq!(a.0.pk.to_bytes().cmp(&b.0.pk.to_bytes()), ab);
        }
    }
    // It is deterministic across calls.
    assert_eq!(keys[0].cmp(&keys[1]), keys[0].cmp(&keys[1]));
}

/// The hash-derived commitment key is deterministic in the seed and is not
/// the bytes of the seed itself.
#[test]
fn commitment_key_is_deterministic_hash() {
    let seed = b"Example of a shared string.".to_owned();
    let ck1 = CommitmentKey::generate(&seed);
    let ck2 = CommitmentKey::generate(&seed);
    assert_eq!(ck1, ck2);

    let other = CommitmentKey::generate(b"another shared string");
    assert_ne!(ck1, other);

    // A digest of all zeroes would only arise from a broken hash: the
    // derived element differs from the zero element, and hashing a
    // zero-filled string does not hand the input back.
    let zeroes = [0u8; 64];
    let from_zeroes = PrimeGroupElement::hash_to_group(&zeroes);
    assert_ne!(from_zeroes, PrimeGroupElement::zero());
    assert_ne!(Scalar::hash_to_scalar(&zeroes), Scalar::zero());
}

/// The master key assembled from public shares is their group sum.
#[test]
fn master_key_from_participants() {
    let shares = vec![
        MemberSecretShare(dkg::cryptography::elgamal::SecretKey {
            sk: Scalar::from_u64(11),
        }),
        MemberSecretShare(dkg::cryptography::elgamal::SecretKey {
            sk: Scalar::from_u64(22),
        }),
        MemberSecretShare(dkg::cryptography::elgamal::SecretKey {
            sk: Scalar::from_u64(33),
        }),
    ];
    let publics: Vec<MemberPublicShare> = shares.iter().map(|s| s.to_public()).collect();
    let master = MasterPublicKey::from_participants(&publics);

    let total = Scalar::from_u64(66);
    let expected = PrimeGroupElement::generator().mul(&total);
    assert_eq!(master.as_raw().pk, expected);
    assert_eq!(
        master.0.pk,
        publics[0].0.pk.add(&publics[1].0.pk).add(&publics[2].0.pk)
    );

    // The sum does not depend on the order of the list.
    let permuted = vec![publics[2], publics[0], publics[1]];
    assert_eq!(MasterPublicKey::from_participants(&permuted), master);
}

/// Scalar powers enumerate `1, x, x², …` and match the iterator shape.
#[test]
fn scalar_powers_iterate() {
    let x = Scalar::from_u64(3);
    let mut iter = x.exp_iter();
    let mut expected = Scalar::one();
    for _ in 0..6 {
        let got = iter.next().unwrap();
        assert_eq!(got, expected);
        expected = expected.mul(&x);
    }
    assert_eq!(Scalar::from_u64(243), x.mul(&x).mul(&x).mul(&x).mul(&x));

    // Subtraction and negation agree with addition.
    let y = Scalar::from_u64(70000);
    assert_eq!(y.sub(&y), Scalar::zero());
    assert_eq!(y.add(&y.neg()), Scalar::zero());
    assert_eq!(y.sub(&x), y.add(&x.neg()));
}
