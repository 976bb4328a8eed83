//! Tests of the multi-phase DKG driver: honest runs, misbehaving dealers,
//! threshold aborts, and full ceremonies through finalisation.

use dkg::cryptography::commitment::CommitmentKey;
use dkg::dkg::broadcast::BroadcastPhase1;
use dkg::dkg::committee::{
    DistributedKeyGeneration, Environment, MembersFetchedState1, MembersFetchedState2,
    MembersFetchedState3, MembersFetchedState4,
};
use dkg::dkg::procedure_keys::MemberCommunicationKey;
use dkg::errors::DkgError;
use dkg::group::{scalar_powers, PrimeGroupElement, Scalar};

#[test]
fn valid_phase_2() {
    let mut rng = rand_core::OsRng;

    let shared_string = b"Example of a shared string.".to_owned();
    let h = CommitmentKey::generate(&shared_string);
    let threshold = 2;
    let nr_members = 2;
    let environment = Environment::init(threshold, nr_members, h);

    let mc1 = MemberCommunicationKey::new(&mut rng);
    let mc2 = MemberCommunicationKey::new(&mut rng);
    let mc = vec![mc1.to_public(), mc2.to_public()];

    let (m1, _broadcast1) = DistributedKeyGeneration::init(&mut rng, &environment, &mc1, &mc, 1);
    let (_m2, broadcast2) = DistributedKeyGeneration::init(&mut rng, &environment, &mc2, &mc, 2);

    // Now, party one fetches the state of the other party.
    let fetched_state = vec![MembersFetchedState1 {
        sender_index: 2,
        indexed_shares: broadcast2.encrypted_shares[0].clone(),
        committed_coeffs: broadcast2.committed_coefficients.clone(),
    }];

    let phase_2 = m1.to_phase_2(&environment, &fetched_state, &mut rng);
    if let Some(_data) = phase_2.1 {
        // broadcast the `data`
    }

    phase_2.0.unwrap();
}

#[test]
fn invalid_phase_2() {
    let mut rng = rand_core::OsRng;

    let shared_string = b"Example of a shared string.".to_owned();
    let h = CommitmentKey::generate(&shared_string);
    let threshold = 2;
    let nr_members = 3;
    let environment = Environment::init(threshold, nr_members, h);

    let mc1 = MemberCommunicationKey::new(&mut rng);
    let mc2 = MemberCommunicationKey::new(&mut rng);
    let mc3 = MemberCommunicationKey::new(&mut rng);
    let mc = vec![mc1.to_public(), mc2.to_public(), mc3.to_public()];

    let (m1, _broad_1) = DistributedKeyGeneration::init(&mut rng, &environment, &mc1, &mc, 1);
    let (_m2, broad_2) = DistributedKeyGeneration::init(&mut rng, &environment, &mc2, &mc, 2);
    let (_m3, broad_3) = DistributedKeyGeneration::init(&mut rng, &environment, &mc3, &mc, 3);

    // Now, party one fetches invalid state of the other parties: both
    // claim committed coefficients that do not correspond to the shares.
    let fetched_state = vec![
        MembersFetchedState1 {
            sender_index: 2,
            indexed_shares: broad_2.encrypted_shares[0].clone(),
            committed_coeffs: vec![PrimeGroupElement::zero(); 3],
        },
        MembersFetchedState1 {
            sender_index: 3,
            indexed_shares: broad_3.encrypted_shares[0].clone(),
            committed_coeffs: vec![PrimeGroupElement::zero(); 3],
        },
    ];

    // Given that there is a number of misbehaving parties higher than the
    // threshold, proceeding to phase 2 should fail.
    let phase_2_faked = m1.to_phase_2(&environment, &fetched_state, &mut rng);
    assert_eq!(phase_2_faked.0, Err(DkgError::MisbehaviourHigherThreshold));

    // And there should be data to broadcast, carrying both complaints.
    assert!(phase_2_faked.1.is_some());
    assert_eq!(phase_2_faked.1.unwrap().misbehaving_parties.len(), 2);
}

#[test]
fn misbehaving_parties() {
    let mut rng = rand_core::OsRng;

    let shared_string = b"Example of a shared string.".to_owned();
    let h = CommitmentKey::generate(&shared_string);

    let threshold = 2;
    let nr_members = 3;
    let environment = Environment::init(threshold, nr_members, h);

    let mc1 = MemberCommunicationKey::new(&mut rng);
    let mc2 = MemberCommunicationKey::new(&mut rng);
    let mc3 = MemberCommunicationKey::new(&mut rng);
    let mc = vec![mc1.to_public(), mc2.to_public(), mc3.to_public()];

    let (m1, broad_1) = DistributedKeyGeneration::init(&mut rng, &environment, &mc1, &mc, 1);
    let (_m2, broad_2) = DistributedKeyGeneration::init(&mut rng, &environment, &mc2, &mc, 2);
    let (_m3, broad_3) = DistributedKeyGeneration::init(&mut rng, &environment, &mc3, &mc, 3);

    // Member 3 published zero committed coefficients, which do not explain
    // the shares it dealt.
    let mut broad_3_tampered = broad_3;
    broad_3_tampered.committed_coefficients = vec![PrimeGroupElement::zero(); 3];

    // Party one fetches the broadcasts: party 2's is valid, party 3's
    // commitments do not explain the received shares.
    let fetched_state = vec![
        MembersFetchedState1 {
            sender_index: 2,
            indexed_shares: broad_2.encrypted_shares[0].clone(),
            committed_coeffs: broad_2.committed_coefficients.clone(),
        },
        MembersFetchedState1 {
            sender_index: 3,
            indexed_shares: broad_3_tampered.encrypted_shares[0].clone(),
            committed_coeffs: broad_3_tampered.committed_coefficients.clone(),
        },
    ];

    // Party 3 submitted shares that do not correspond to the committed
    // coefficients, while party 2 submitted valid ones: phase 2 succeeds
    // for party 1 and there is a log of party 3's misbehaviour.
    let (phase_2, broadcast_data) = m1.to_phase_2(&environment, &fetched_state, &mut rng);

    assert!(phase_2.is_ok());
    let unwrapped_phase = phase_2.unwrap();

    assert!(broadcast_data.is_some());
    let bd = broadcast_data.unwrap();

    // Party 2 should be good, party 3 should fail.
    assert_eq!(bd.misbehaving_parties.len(), 1);
    assert_eq!(bd.misbehaving_parties[0].0, 3);
    assert_eq!(bd.misbehaving_parties[0].1, DkgError::ShareValidityFailed);

    // And the complaint should be valid for any observer checking it
    // against party 3's published round-1 data.
    assert!(bd.misbehaving_parties[0]
        .2
        .verify(&mc1.to_public(), &fetched_state[1], &h, 2, 1)
        .is_ok());

    // A complaint checked against the wrong accuser is rejected.
    assert_eq!(
        bd.misbehaving_parties[0]
            .2
            .verify(&mc2.to_public(), &fetched_state[1], &h, 2, 2),
        Err(DkgError::InvalidProof)
    );

    // The qualified set should become [1, 1, 0] once the complaint is
    // verified against party 3's published broadcast.
    let round_1_broadcasts = vec![
        Some(broad_1),
        Some(broad_2),
        Some(broad_3_tampered),
    ];
    let complaints = vec![MembersFetchedState2 {
        sender_index: 1,
        accusations: bd,
    }];
    let (phase_3, _broadcast_data_3) = unwrapped_phase.to_phase_3(&complaints, &round_1_broadcasts);
    assert!(phase_3.is_ok());
    assert_eq!(phase_3.unwrap().state.qualified_set, [1, 1, 0]);
}

#[test]
fn phase_4_tests() {
    let mut rng = rand_core::OsRng;

    let shared_string = b"Example of a shared string.".to_owned();
    let h = CommitmentKey::generate(&shared_string);

    let threshold = 2;
    let nr_members = 3;
    let environment = Environment::init(threshold, nr_members, h);

    let mc1 = MemberCommunicationKey::new(&mut rng);
    let mc2 = MemberCommunicationKey::new(&mut rng);
    let mc3 = MemberCommunicationKey::new(&mut rng);
    let mc = vec![mc1.to_public(), mc2.to_public(), mc3.to_public()];

    let (m1, broad_1) = DistributedKeyGeneration::init(&mut rng, &environment, &mc1, &mc, 1);
    let (m2, broad_2) = DistributedKeyGeneration::init(&mut rng, &environment, &mc2, &mc, 2);
    let (_m3, broad_3) = DistributedKeyGeneration::init(&mut rng, &environment, &mc3, &mc, 3);

    let fetched_state_1 = vec![
        MembersFetchedState1 {
            sender_index: 2,
            indexed_shares: broad_2.encrypted_shares[0].clone(),
            committed_coeffs: broad_2.committed_coefficients.clone(),
        },
        MembersFetchedState1 {
            sender_index: 3,
            indexed_shares: broad_3.encrypted_shares[0].clone(),
            committed_coeffs: broad_3.committed_coefficients.clone(),
        },
    ];

    let fetched_state_2 = vec![
        MembersFetchedState1 {
            sender_index: 1,
            indexed_shares: broad_1.encrypted_shares[0].clone(),
            committed_coeffs: broad_1.committed_coefficients.clone(),
        },
        MembersFetchedState1 {
            sender_index: 3,
            indexed_shares: broad_3.encrypted_shares[1].clone(),
            committed_coeffs: broad_3.committed_coefficients.clone(),
        },
    ];

    let round_1_broadcasts = vec![Some(broad_1), Some(broad_2), Some(broad_3)];

    // Now we proceed to phase two.
    let (party_1_phase_2, _) = m1.to_phase_2(&environment, &fetched_state_1, &mut rng);
    let (party_2_phase_2, _) = m2.to_phase_2(&environment, &fetched_state_2, &mut rng);

    assert!(party_1_phase_2.is_ok());
    assert!(party_2_phase_2.is_ok());

    // We proceed to phase three with no complaints.
    let (party_1_phase_3, _party_1_broadcast_data_3) =
        party_1_phase_2.unwrap().to_phase_3(&vec![], &round_1_broadcasts);
    let (party_2_phase_3, party_2_broadcast_data_3) =
        party_2_phase_2.unwrap().to_phase_3(&vec![], &round_1_broadcasts);

    assert!(party_1_phase_3.is_ok() && party_2_phase_3.is_ok());

    // Fetched state of party 1: party three stopped participating.
    let party_1_fetched_state_phase_3 = vec![MembersFetchedState3 {
        sender_index: 2,
        committed_coefficients: party_2_broadcast_data_3.unwrap().committed_coefficients,
    }];

    // The protocol should continue, as two honest parties remain, which is
    // not lower than the threshold.
    assert!(party_1_phase_3
        .unwrap()
        .to_phase_4(&party_1_fetched_state_phase_3)
        .0
        .is_ok());

    // If party three stops participating and party 1 misbehaves, the
    // protocol fails for party 2, with the evidence of party 1's
    // misbehaviour.
    let party_2_fetched_state_phase_3 = vec![MembersFetchedState3 {
        sender_index: 1,
        committed_coefficients: vec![PrimeGroupElement::generator(); threshold + 1],
    }];

    let failing_phase = party_2_phase_3
        .unwrap()
        .to_phase_4(&party_2_fetched_state_phase_3);
    assert!(failing_phase.0.is_err());
    assert!(failing_phase.1.is_some());
    assert_eq!(failing_phase.1.unwrap().misbehaving_parties[0].0, 1);
}

fn full_run() -> Result<(), DkgError> {
    let mut rng = rand_core::OsRng;

    let shared_string = b"Example of a shared string.".to_owned();
    let h = CommitmentKey::generate(&shared_string);

    let threshold = 2;
    let nr_members = 3;
    let environment = Environment::init(threshold, nr_members, h);

    let mc1 = MemberCommunicationKey::new(&mut rng);
    let mc2 = MemberCommunicationKey::new(&mut rng);
    let mc3 = MemberCommunicationKey::new(&mut rng);
    let mc = vec![mc1.to_public(), mc2.to_public(), mc3.to_public()];

    let (m1, broad_1) = DistributedKeyGeneration::init(&mut rng, &environment, &mc1, &mc, 1);
    let (m2, broad_2) = DistributedKeyGeneration::init(&mut rng, &environment, &mc2, &mc, 2);
    let (m3, broad_3) = DistributedKeyGeneration::init(&mut rng, &environment, &mc3, &mc, 3);

    let fetched_state_1 = vec![
        MembersFetchedState1 {
            sender_index: 2,
            indexed_shares: broad_2.encrypted_shares[0].clone(),
            committed_coeffs: broad_2.committed_coefficients.clone(),
        },
        MembersFetchedState1 {
            sender_index: 3,
            indexed_shares: broad_3.encrypted_shares[0].clone(),
            committed_coeffs: broad_3.committed_coefficients.clone(),
        },
    ];

    let fetched_state_2 = vec![
        MembersFetchedState1 {
            sender_index: 1,
            indexed_shares: broad_1.encrypted_shares[0].clone(),
            committed_coeffs: broad_1.committed_coefficients.clone(),
        },
        MembersFetchedState1 {
            sender_index: 3,
            indexed_shares: broad_3.encrypted_shares[1].clone(),
            committed_coeffs: broad_3.committed_coefficients.clone(),
        },
    ];

    let fetched_state_3 = vec![
        MembersFetchedState1 {
            sender_index: 1,
            indexed_shares: broad_1.encrypted_shares[1].clone(),
            committed_coeffs: broad_1.committed_coefficients.clone(),
        },
        MembersFetchedState1 {
            sender_index: 2,
            indexed_shares: broad_2.encrypted_shares[1].clone(),
            committed_coeffs: broad_2.committed_coefficients.clone(),
        },
    ];

    let round_1_broadcasts = vec![Some(broad_1), Some(broad_2), Some(broad_3)];

    // Now we proceed to phase two.
    let (party_1_phase_2, _) = m1.to_phase_2(&environment, &fetched_state_1, &mut rng);
    let (party_2_phase_2, _) = m2.to_phase_2(&environment, &fetched_state_2, &mut rng);
    let (party_3_phase_2, _) = m3.to_phase_2(&environment, &fetched_state_3, &mut rng);

    // We proceed to phase three with no complaints.
    let (party_1_phase_3, party_1_broadcast_data_3) =
        party_1_phase_2?.to_phase_3(&vec![], &round_1_broadcasts);
    let (party_2_phase_3, party_2_broadcast_data_3) =
        party_2_phase_2?.to_phase_3(&vec![], &round_1_broadcasts);
    let (party_3_phase_3, party_3_broadcast_data_3) =
        party_3_phase_2?.to_phase_3(&vec![], &round_1_broadcasts);

    // A valid run of phase 3 always outputs a broadcast message.
    let committed_coefficients_1 = party_1_broadcast_data_3
        .expect("valid run returns a broadcast")
        .committed_coefficients;
    let committed_coefficients_2 = party_2_broadcast_data_3
        .expect("valid run returns a broadcast")
        .committed_coefficients;
    let committed_coefficients_3 = party_3_broadcast_data_3
        .expect("valid run returns a broadcast")
        .committed_coefficients;

    let fetched_state_1_phase_3 = vec![
        MembersFetchedState3 {
            sender_index: 2,
            committed_coefficients: committed_coefficients_2.clone(),
        },
        MembersFetchedState3 {
            sender_index: 3,
            committed_coefficients: committed_coefficients_3.clone(),
        },
    ];

    let fetched_state_2_phase_3 = vec![
        MembersFetchedState3 {
            sender_index: 1,
            committed_coefficients: committed_coefficients_1.clone(),
        },
        MembersFetchedState3 {
            sender_index: 3,
            committed_coefficients: committed_coefficients_3,
        },
    ];

    let fetched_state_3_phase_3 = vec![
        MembersFetchedState3 {
            sender_index: 2,
            committed_coefficients: committed_coefficients_2,
        },
        MembersFetchedState3 {
            sender_index: 1,
            committed_coefficients: committed_coefficients_1,
        },
    ];

    let (_party_1_phase_4, _) = party_1_phase_3?.to_phase_4(&fetched_state_1_phase_3);
    let (_party_2_phase_4, _) = party_2_phase_3?.to_phase_4(&fetched_state_2_phase_3);
    let (_party_3_phase_4, _) = party_3_phase_3?.to_phase_4(&fetched_state_3_phase_3);

    Ok(())
}

#[test]
fn full_valid_run() {
    let run: Result<(), DkgError> = full_run();

    assert!(run.is_ok());
}

/// Two members, both honest: both reach finalisation and compute the same
/// master public key.
#[test]
fn two_member_ceremony_agrees() {
    let mut rng = rand_core::OsRng;

    let shared_string = b"Example of a shared string.".to_owned();
    let h = CommitmentKey::generate(&shared_string);
    let environment = Environment::init(2, 2, h);

    let mc1 = MemberCommunicationKey::new(&mut rng);
    let mc2 = MemberCommunicationKey::new(&mut rng);
    let mc = vec![mc1.to_public(), mc2.to_public()];

    let (m1, broad_1) = DistributedKeyGeneration::init(&mut rng, &environment, &mc1, &mc, 1);
    let (m2, broad_2) = DistributedKeyGeneration::init(&mut rng, &environment, &mc2, &mc, 2);

    let fetched_state_1 = vec![MembersFetchedState1 {
        sender_index: 2,
        indexed_shares: broad_2.encrypted_shares[0].clone(),
        committed_coeffs: broad_2.committed_coefficients.clone(),
    }];
    let fetched_state_2 = vec![MembersFetchedState1 {
        sender_index: 1,
        indexed_shares: broad_1.encrypted_shares[0].clone(),
        committed_coeffs: broad_1.committed_coefficients.clone(),
    }];
    let round_1_broadcasts = vec![Some(broad_1), Some(broad_2)];

    let (p1, b1) = m1.to_phase_2(&environment, &fetched_state_1, &mut rng);
    let (p2, b2) = m2.to_phase_2(&environment, &fetched_state_2, &mut rng);
    assert!(b1.is_none() && b2.is_none());

    let (p1, c1) = p1.unwrap().to_phase_3(&vec![], &round_1_broadcasts);
    let (p2, c2) = p2.unwrap().to_phase_3(&vec![], &round_1_broadcasts);
    let cc1 = c1.unwrap().committed_coefficients;
    let cc2 = c2.unwrap().committed_coefficients;

    let (p1, d1) = p1.unwrap().to_phase_4(&vec![MembersFetchedState3 {
        sender_index: 2,
        committed_coefficients: cc2.clone(),
    }]);
    let (p2, d2) = p2.unwrap().to_phase_4(&vec![MembersFetchedState3 {
        sender_index: 1,
        committed_coefficients: cc1.clone(),
    }]);
    assert!(d1.is_none() && d2.is_none());

    let (p1, e1) = p1.unwrap().to_phase_5(&vec![]);
    let (p2, e2) = p2.unwrap().to_phase_5(&vec![]);
    assert!(e1.is_none() && e2.is_none());

    let (mk_1, sk_1) = p1.unwrap().finalise().unwrap();
    let (mk_2, sk_2) = p2.unwrap().finalise().unwrap();

    assert_eq!(mk_1, mk_2);

    // Each share lies on the combined committed polynomial: g^{share_i}
    // equals the sum over the qualified dealers of their round-3
    // commitments combined at index i.
    for (i, sk) in [(1u64, &sk_1), (2u64, &sk_2)] {
        let idx = Scalar::from_u64(i);
        let powers = scalar_powers(&idx, 3);
        let from_1 = PrimeGroupElement::vartime_multiscalar_multiplication(&powers, &cc1);
        let from_2 = PrimeGroupElement::vartime_multiscalar_multiplication(&powers, &cc2);
        assert_eq!(sk.to_public().0.pk, from_1.add(&from_2));
    }
}

/// Three members with threshold two; member 3 publishes zero commitments.
/// Members 1 and 2 disqualify it on verified complaints and finish the
/// ceremony together, agreeing on the master public key.
#[test]
fn ceremony_disqualifies_zero_committer() {
    let mut rng = rand_core::OsRng;

    let shared_string = b"Example of a shared string.".to_owned();
    let h = CommitmentKey::generate(&shared_string);
    let environment = Environment::init(2, 3, h);

    let mc1 = MemberCommunicationKey::new(&mut rng);
    let mc2 = MemberCommunicationKey::new(&mut rng);
    let mc3 = MemberCommunicationKey::new(&mut rng);
    let mc = vec![mc1.to_public(), mc2.to_public(), mc3.to_public()];

    let (m1, broad_1) = DistributedKeyGeneration::init(&mut rng, &environment, &mc1, &mc, 1);
    let (m2, broad_2) = DistributedKeyGeneration::init(&mut rng, &environment, &mc2, &mc, 2);
    let (_m3, broad_3) = DistributedKeyGeneration::init(&mut rng, &environment, &mc3, &mc, 3);

    let mut broad_3_tampered = broad_3;
    broad_3_tampered.committed_coefficients = vec![PrimeGroupElement::zero(); 3];

    let fetched_state_1 = vec![
        MembersFetchedState1 {
            sender_index: 2,
            indexed_shares: broad_2.encrypted_shares[0].clone(),
            committed_coeffs: broad_2.committed_coefficients.clone(),
        },
        MembersFetchedState1 {
            sender_index: 3,
            indexed_shares: broad_3_tampered.encrypted_shares[0].clone(),
            committed_coeffs: broad_3_tampered.committed_coefficients.clone(),
        },
    ];
    let fetched_state_2 = vec![
        MembersFetchedState1 {
            sender_index: 1,
            indexed_shares: broad_1.encrypted_shares[0].clone(),
            committed_coeffs: broad_1.committed_coefficients.clone(),
        },
        MembersFetchedState1 {
            sender_index: 3,
            indexed_shares: broad_3_tampered.encrypted_shares[1].clone(),
            committed_coeffs: broad_3_tampered.committed_coefficients.clone(),
        },
    ];
    let round_1_broadcasts = vec![Some(broad_1), Some(broad_2), Some(broad_3_tampered)];

    let (p1, c1) = m1.to_phase_2(&environment, &fetched_state_1, &mut rng);
    let (p2, c2) = m2.to_phase_2(&environment, &fetched_state_2, &mut rng);
    let complaints = vec![
        MembersFetchedState2 {
            sender_index: 1,
            accusations: c1.unwrap(),
        },
        MembersFetchedState2 {
            sender_index: 2,
            accusations: c2.unwrap(),
        },
    ];

    let (p1, cc1) = p1.unwrap().to_phase_3(&complaints, &round_1_broadcasts);
    let (p2, cc2) = p2.unwrap().to_phase_3(&complaints, &round_1_broadcasts);
    let p1 = p1.unwrap();
    let p2 = p2.unwrap();
    assert_eq!(p1.state.qualified_set, [1, 1, 0]);
    assert_eq!(p2.state.qualified_set, [1, 1, 0]);
    let cc1 = cc1.unwrap().committed_coefficients;
    let cc2 = cc2.unwrap().committed_coefficients;

    let (p1, _) = p1.to_phase_4(&vec![MembersFetchedState3 {
        sender_index: 2,
        committed_coefficients: cc2.clone(),
    }]);
    let (p2, _) = p2.to_phase_4(&vec![MembersFetchedState3 {
        sender_index: 1,
        committed_coefficients: cc1.clone(),
    }]);

    let (p1, _) = p1.unwrap().to_phase_5(&vec![]);
    let (p2, _) = p2.unwrap().to_phase_5(&vec![]);

    let (mk_1, _sk_1) = p1.unwrap().finalise().unwrap();
    let (mk_2, _sk_2) = p2.unwrap().finalise().unwrap();
    assert_eq!(mk_1, mk_2);
}

/// Three members with threshold two; member 3 goes silent from round 3 on.
/// The two remaining members still finalise and agree.
#[test]
fn absent_member_from_round_3() {
    let mut rng = rand_core::OsRng;

    let shared_string = b"Example of a shared string.".to_owned();
    let h = CommitmentKey::generate(&shared_string);
    let environment = Environment::init(2, 3, h);

    let mc1 = MemberCommunicationKey::new(&mut rng);
    let mc2 = MemberCommunicationKey::new(&mut rng);
    let mc3 = MemberCommunicationKey::new(&mut rng);
    let mc = vec![mc1.to_public(), mc2.to_public(), mc3.to_public()];

    let (m1, broad_1) = DistributedKeyGeneration::init(&mut rng, &environment, &mc1, &mc, 1);
    let (m2, broad_2) = DistributedKeyGeneration::init(&mut rng, &environment, &mc2, &mc, 2);
    let (_m3, broad_3) = DistributedKeyGeneration::init(&mut rng, &environment, &mc3, &mc, 3);

    let fetched_state_1 = vec![
        MembersFetchedState1 {
            sender_index: 2,
            indexed_shares: broad_2.encrypted_shares[0].clone(),
            committed_coeffs: broad_2.committed_coefficients.clone(),
        },
        MembersFetchedState1 {
            sender_index: 3,
            indexed_shares: broad_3.encrypted_shares[0].clone(),
            committed_coeffs: broad_3.committed_coefficients.clone(),
        },
    ];
    let fetched_state_2 = vec![
        MembersFetchedState1 {
            sender_index: 1,
            indexed_shares: broad_1.encrypted_shares[0].clone(),
            committed_coeffs: broad_1.committed_coefficients.clone(),
        },
        MembersFetchedState1 {
            sender_index: 3,
            indexed_shares: broad_3.encrypted_shares[1].clone(),
            committed_coeffs: broad_3.committed_coefficients.clone(),
        },
    ];
    let round_1_broadcasts = vec![Some(broad_1), Some(broad_2), Some(broad_3)];

    let (p1, _) = m1.to_phase_2(&environment, &fetched_state_1, &mut rng);
    let (p2, _) = m2.to_phase_2(&environment, &fetched_state_2, &mut rng);

    let (p1, cc1) = p1.unwrap().to_phase_3(&vec![], &round_1_broadcasts);
    let (p2, cc2) = p2.unwrap().to_phase_3(&vec![], &round_1_broadcasts);
    let cc1 = cc1.unwrap().committed_coefficients;
    let cc2 = cc2.unwrap().committed_coefficients;

    // Member 3 stays silent from round 3 on: its commitments are missing,
    // and it is dropped from the qualified set.
    let (p1, _) = p1.unwrap().to_phase_4(&vec![MembersFetchedState3 {
        sender_index: 2,
        committed_coefficients: cc2.clone(),
    }]);
    let (p2, _) = p2.unwrap().to_phase_4(&vec![MembersFetchedState3 {
        sender_index: 1,
        committed_coefficients: cc1.clone(),
    }]);
    let p1 = p1.unwrap();
    let p2 = p2.unwrap();
    assert_eq!(p1.state.qualified_set, [1, 1, 0]);

    let (p1, _) = p1.to_phase_5(&vec![]);
    let (p2, _) = p2.to_phase_5(&vec![]);

    let (mk_1, _) = p1.unwrap().finalise().unwrap();
    let (mk_2, _) = p2.unwrap().finalise().unwrap();
    assert_eq!(mk_1, mk_2);
}

/// A round-1 item addressed to somebody else is a transport error.
#[test]
fn wrongly_addressed_shares_rejected() {
    let mut rng = rand_core::OsRng;

    let shared_string = b"Example of a shared string.".to_owned();
    let h = CommitmentKey::generate(&shared_string);
    let environment = Environment::init(2, 3, h);

    let mc1 = MemberCommunicationKey::new(&mut rng);
    let mc2 = MemberCommunicationKey::new(&mut rng);
    let mc3 = MemberCommunicationKey::new(&mut rng);
    let mc = vec![mc1.to_public(), mc2.to_public(), mc3.to_public()];

    let (m1, _broad_1) = DistributedKeyGeneration::init(&mut rng, &environment, &mc1, &mc, 1);
    let (_m2, broad_2) = DistributedKeyGeneration::init(&mut rng, &environment, &mc2, &mc, 2);

    // The transport hands member 1 the shares member 2 addressed to
    // member 3.
    let fetched_state = vec![MembersFetchedState1 {
        sender_index: 2,
        indexed_shares: broad_2.encrypted_shares[1].clone(),
        committed_coeffs: broad_2.committed_coefficients.clone(),
    }];

    let (result, broadcast) = m1.to_phase_2(&environment, &fetched_state, &mut rng);
    assert_eq!(result, Err(DkgError::FetchedInvalidData));
    assert!(broadcast.is_none());
}

/// Shares that decrypt to a non-canonical scalar draw a complaint with the
/// out-of-bounds reason.
#[test]
fn out_of_bounds_share_complaint() {
    let mut rng = rand_core::OsRng;

    let shared_string = b"Example of a shared string.".to_owned();
    let h = CommitmentKey::generate(&shared_string);
    let environment = Environment::init(2, 2, h);

    let mc1 = MemberCommunicationKey::new(&mut rng);
    let mc2 = MemberCommunicationKey::new(&mut rng);
    let mc = vec![mc1.to_public(), mc2.to_public()];

    let (m1, _broad_1) = DistributedKeyGeneration::init(&mut rng, &environment, &mc1, &mc, 1);
    let (_m2, broad_2) = DistributedKeyGeneration::init(&mut rng, &environment, &mc2, &mc, 2);

    // Member 2 encrypts bytes that do not decode to a canonical scalar.
    let bogus_1 = mc1.to_public().hybrid_encrypt(&[0xffu8; 8], &mut rng);
    let bogus_2 = mc1.to_public().hybrid_encrypt(&[0xffu8; 8], &mut rng);
    let fetched_state = vec![MembersFetchedState1 {
        sender_index: 2,
        indexed_shares: (1, bogus_1, bogus_2),
        committed_coeffs: broad_2.committed_coefficients.clone(),
    }];

    let (result, broadcast) = m1.to_phase_2(&environment, &fetched_state, &mut rng);
    assert!(result.is_ok());
    let bd = broadcast.unwrap();
    assert_eq!(bd.misbehaving_parties.len(), 1);
    assert_eq!(bd.misbehaving_parties[0].0, 2);
    assert_eq!(bd.misbehaving_parties[0].1, DkgError::ScalarOutOfBounds);
}

/// A dealer whose round-3 commitments contradict its round-1 shares is
/// exposed in round 4 and disqualified in round 5 by every member that
/// verifies the disclosure.
#[test]
fn round_3_liar_disqualified_at_phase_5() {
    let mut rng = rand_core::OsRng;

    let shared_string = b"Example of a shared string.".to_owned();
    let h = CommitmentKey::generate(&shared_string);
    let environment = Environment::init(2, 3, h);

    let mc1 = MemberCommunicationKey::new(&mut rng);
    let mc2 = MemberCommunicationKey::new(&mut rng);
    let mc3 = MemberCommunicationKey::new(&mut rng);
    let mc = vec![mc1.to_public(), mc2.to_public(), mc3.to_public()];

    let (m1, broad_1) = DistributedKeyGeneration::init(&mut rng, &environment, &mc1, &mc, 1);
    let (m2, broad_2) = DistributedKeyGeneration::init(&mut rng, &environment, &mc2, &mc, 2);
    let (m3, broad_3) = DistributedKeyGeneration::init(&mut rng, &environment, &mc3, &mc, 3);

    let fetch = |skip: usize, slot_a: usize, slot_b: usize| -> Vec<MembersFetchedState1> {
        let broads = [&broad_1, &broad_2, &broad_3];
        let mut out = Vec::new();
        for (idx, b) in broads.iter().enumerate() {
            if idx + 1 != skip {
                let slot = if idx + 1 < skip { slot_a } else { slot_b };
                out.push(MembersFetchedState1 {
                    sender_index: idx + 1,
                    indexed_shares: b.encrypted_shares[slot].clone(),
                    committed_coeffs: b.committed_coefficients.clone(),
                });
            }
        }
        out
    };
    let fetched_state_1 = fetch(1, 0, 0);
    let fetched_state_2 = fetch(2, 0, 1);
    let fetched_state_3 = fetch(3, 1, 1);

    let round_1_broadcasts = vec![Some(broad_1), Some(broad_2), Some(broad_3)];

    let (p1, _) = m1.to_phase_2(&environment, &fetched_state_1, &mut rng);
    let (p2, _) = m2.to_phase_2(&environment, &fetched_state_2, &mut rng);
    let (p3, _) = m3.to_phase_2(&environment, &fetched_state_3, &mut rng);

    let (p1, cc1) = p1.unwrap().to_phase_3(&vec![], &round_1_broadcasts);
    let (p2, _cc2) = p2.unwrap().to_phase_3(&vec![], &round_1_broadcasts);
    let (p3, cc3) = p3.unwrap().to_phase_3(&vec![], &round_1_broadcasts);
    let cc1 = cc1.unwrap().committed_coefficients;
    let cc3 = cc3.unwrap().committed_coefficients;

    // Member 2 lies in round 3: it publishes generator points instead of
    // its real commitments.
    let cc2_tampered = vec![PrimeGroupElement::generator(); 3];

    let (p1, d1) = p1.unwrap().to_phase_4(&vec![
        MembersFetchedState3 {
            sender_index: 2,
            committed_coefficients: cc2_tampered.clone(),
        },
        MembersFetchedState3 {
            sender_index: 3,
            committed_coefficients: cc3.clone(),
        },
    ]);
    let (p3, d3) = p3.unwrap().to_phase_4(&vec![
        MembersFetchedState3 {
            sender_index: 1,
            committed_coefficients: cc1.clone(),
        },
        MembersFetchedState3 {
            sender_index: 2,
            committed_coefficients: cc2_tampered.clone(),
        },
    ]);
    let _ = p2;

    // Both honest members disclose the shares member 2 dealt them.
    let d1 = d1.unwrap();
    let d3 = d3.unwrap();
    assert_eq!(d1.misbehaving_parties[0].0, 2);
    assert_eq!(d3.misbehaving_parties[0].0, 2);

    let complaints = vec![
        MembersFetchedState4 {
            sender_index: 1,
            accusations: d1,
        },
        MembersFetchedState4 {
            sender_index: 3,
            accusations: d3,
        },
    ];

    let (p1, e1) = p1.unwrap().to_phase_5(&complaints);
    let (p3, e3) = p3.unwrap().to_phase_5(&complaints);
    assert!(e1.is_some() && e3.is_some());

    let p1 = p1.unwrap();
    let p3 = p3.unwrap();
    assert_eq!(p1.state.qualified_set, [1, 0, 1]);
    assert_eq!(p3.state.qualified_set, [1, 0, 1]);

    let (mk_1, _) = p1.finalise().unwrap();
    let (mk_3, _) = p3.finalise().unwrap();
    assert_eq!(mk_1, mk_3);
}
