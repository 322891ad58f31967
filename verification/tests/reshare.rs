//! Whole reshares, run by hand from message to message.
use dynamic_reshare::builder::{reshare, Dealer, Role};
use dynamic_reshare::config::ReshareConfig;
use dynamic_reshare::dealer::{
    perform_vss_distribution, run_reshare_as_dealer, share_weight,
};
use dynamic_reshare::error::{Bug, DynamicReshareError, IoError, KeyRefreshError};
use dynamic_reshare::key_share::{
    AuxInfo, IncompleteKeyShare, KeyInfo, KeyShare, PregeneratedPrimes, VssSetup,
};
use dynamic_reshare::messages::{
    Msg, MsgAuxInfo, MsgFeldmanCommitment, MsgFinalProofs, MsgReliabilityCheck, MsgShareDistribution,
    PaillierProofs,
};
use dynamic_reshare::polynomial::Polynomial;
use dynamic_reshare::receiver::{
    reliability_digest, run_reshare_as_receiver, AwaitCommitments, AwaitHashes, AwaitProofs,
    AwaitShares, Committed, OwnAux, Receiver, Session,
};
use dynamic_reshare::round_input::{Incoming, SubsetRoundInput};
use dynamic_reshare::secp256k1::Secp256k1Sha256;
use dynamic_reshare::suite::{Point, Scalar, Suite};
use dynamic_reshare::unambiguous::{
    ExecutionId, HashCommitment, ShareProof, HASH_COMMITMENT_TAG, SHARE_PROOF_TAG,
};
use std::collections::{HashMap, HashSet};

type C = Secp256k1Sha256;

const SID: &[u8] = b"reshare";

/// Stands for the proofs on Paillier moduli: here a proof is the index of its prover.
struct Stub;

impl PaillierProofs for Stub {
    type Prm = u16;
    type Mod = u16;
    type Fac = u16;
}

fn num(value: u64) -> Scalar<C> {
    C::decode_scalar(&value.to_be_bytes().to_vec()).unwrap()
}

fn times(k: u64) -> Point<C> {
    C::generator_mul(&num(k))
}

fn is(s: &Scalar<C>, value: u64) -> bool {
    s.to_bytes() == num(value).to_bytes()
}

fn primes(tag: u8) -> PregeneratedPrimes {
    PregeneratedPrimes { p: vec![tag, 3], q: vec![tag, 5] }
}

fn range(n: u16) -> Vec<u16> {
    (0..n).collect()
}

/// Old shares of `secret`: points of a polynomial of degree `t - 1`, or additive ones.
fn old_shares(secret: u64, n: u16, threshold: Option<u16>) -> Vec<KeyShare<C>> {
    (0..n)
        .map(|i| {
            let (x, vss_setup) = match threshold {
                Some(t) => {
                    let random = (1..t as u64).map(|k| num(1000 * k + 7)).collect();
                    let polynomial = Polynomial::new_with_secret(&num(secret), random);
                    let setup = VssSetup {
                        min_signers: t,
                        I: (0..n).map(|j| C::scalar_from(j + 1)).collect(),
                    };
                    (polynomial.evaluate(&C::scalar_from(i + 1)), Some(setup))
                }
                None => {
                    let rest: u64 = (1..n as u64).map(|k| 10 * k).sum();
                    (if i == 0 { num(secret - rest) } else { num(10 * i as u64) }, None)
                }
            };
            KeyShare {
                core: IncompleteKeyShare {
                    i,
                    key_info: KeyInfo {
                        shared_public_key: times(secret),
                        public_shares: vec![],
                        vss_setup,
                    },
                    x,
                },
                aux: AuxInfo { p: vec![], q: vec![], parties: vec![] },
            }
        })
        .collect()
}

fn coefficients(config: &ReshareConfig<C>, seed: u64) -> Vec<Scalar<C>> {
    (1..config.effective_new_threshold() as u64).map(|k| num(seed * 31 + k * 17)).collect()
}

fn nonces(config: &ReshareConfig<C>, seed: u64) -> Vec<Scalar<C>> {
    (0..config.new_parties.len() as u64).map(|k| num(seed * 100 + k + 1)).collect()
}

fn own_aux(party: u16) -> OwnAux {
    let b = party as u8;
    OwnAux { N: vec![b, 1], s: vec![b, 2], t: vec![b, 3], rho_bytes: vec![b, 0x0f, 1 << (b % 8)] }
}

fn everyone() -> HashSet<u16> {
    (0..=65535).collect()
}

/// What a store holds after the messages of all senders but the receiver were put into it.
fn collect<M>(mut store: SubsetRoundInput<M>, msgs: Vec<(u16, M)>, me: u16) -> HashMap<u16, M> {
    for (k, (sender, msg)) in msgs.into_iter().enumerate() {
        if sender != me {
            assert!(store.add_message(Incoming { id: k as u64, sender, msg }).is_ok());
        }
    }
    match store.output() {
        Ok(msgs) => msgs,
        Err(_) => panic!("a message is missing"),
    }
}

/// Runs all parties of a reshare, and gives the new key shares in the order of `new_parties`.
fn run(shares: &Vec<KeyShare<C>>, config: &ReshareConfig<C>) -> Vec<KeyShare<C>> {
    run_with(shares, config, false)
}

/// Runs all parties with or without reliable broadcast.
fn run_with(
    shares: &Vec<KeyShare<C>>,
    config: &ReshareConfig<C>,
    reliable: bool,
) -> Vec<KeyShare<C>> {
    let eid = ExecutionId::new(SID);
    let mut commitments: Vec<(u16, MsgFeldmanCommitment<C>)> = vec![];
    let mut dealt: Vec<(u16, Vec<(u16, MsgShareDistribution<C>)>)> = vec![];
    let mut receivers: Vec<Receiver<C>> = vec![];
    for (k, &i) in config.old_parties.iter().enumerate() {
        let core_index = if config.old_core_indices.is_empty() {
            i
        } else {
            config.old_core_indices[k]
        };
        let mut builder = reshare(eid, i, config.clone())
            .set_old_share(&shares[core_index as usize])
            .enforce_reliable_broadcast(reliable);
        if config.is_new_party(i) {
            builder = builder.set_pregenerated_primes(primes(i as u8));
        }
        let dealer: Dealer<C> = match builder.start() {
            Ok(Role::Dealer(dealer)) => dealer,
            _ => panic!("an old party deals"),
        };
        let (random, drawn) = (coefficients(config, i as u64 + 1), nonces(config, i as u64 + 1));
        let run = run_reshare_as_dealer(
            dealer.sid,
            &dealer.old_share.core,
            dealer.i_local,
            dealer.config,
            dealer.pregenerated,
            dealer.reliable_broadcast,
            random,
            &drawn,
        )
        .unwrap();
        commitments.push((i, run.commitment));
        dealt.push((i, run.shares));
        match run.next {
            Ok(None) => assert!(!config.is_new_party(i)),
            Ok(Some(receiver)) => receivers.push(receiver),
            Err(_) => panic!("the primes are there"),
        }
    }
    for &i in &config.new_parties {
        if !config.is_old_party(i) {
            let builder = reshare(eid, i, config.clone())
                .set_pregenerated_primes(primes(i as u8))
                .enforce_reliable_broadcast(reliable);
            match builder.start() {
                Ok(Role::Receiver(receiver)) => receivers.push(receiver),
                _ => panic!("a new party receives"),
            }
        }
    }
    receivers.sort_by_key(|r| config.new_party_position(r.my_new_index));

    let mut waiting: Vec<(Committed<C>, SubsetRoundInput<_>, SubsetRoundInput<_>)> = vec![];
    let mut hashes: Vec<(u16, MsgReliabilityCheck)> = vec![];
    for receiver in receivers {
        let me = receiver.my_new_index;
        let aux_store = receiver.new_party_round();
        let commitment_store = receiver.commitment_round();
        let share_store = receiver.share_round();
        let hash_store = receiver.new_party_round();
        let auxes: Vec<(u16, MsgAuxInfo<Stub>)> = config
            .new_parties
            .iter()
            .map(|&p| (p, own_aux(p).message::<Stub>(p)))
            .collect();
        let auxes = collect(aux_store, auxes, me);
        let state = receiver.on_aux(own_aux(me), &auxes, &everyone()).unwrap();
        // The commitments arrive in an order of their own at each participant.
        let mut received: Vec<(u16, MsgFeldmanCommitment<C>)> =
            commitments.iter().map(|(d, c)| (*d, c.clone())).collect();
        let by = me as usize % received.len();
        received.rotate_left(by);
        let committed = state.on_commitments(collect(commitment_store, received, me));
        if let Committed::CheckReliability(check) = &committed {
            hashes.push((me, check.message()));
        }
        waiting.push((committed, hash_store, share_store));
    }
    assert_eq!(hashes.len(), if reliable { config.new_parties.len() } else { 0 });

    let mut states: Vec<AwaitProofs<C>> = vec![];
    let mut finals: Vec<(u16, MsgFinalProofs<C, Stub>)> = vec![];
    for (committed, hash_store, share_store) in waiting {
        let state = match committed {
            Committed::Proceed(state) => state,
            Committed::CheckReliability(check) => {
                let me = check.next.session.my_new_index;
                let received =
                    hashes.iter().map(|(p, m)| (*p, m.clone())).collect();
                check.on_hashes(&collect(hash_store, received, me)).unwrap()
            }
        };
        let me = state.session.my_new_index;
        let mut received: Vec<(u16, MsgShareDistribution<C>)> = vec![];
        for (d, shares) in &dealt {
            for (to, msg) in shares {
                if *to == me {
                    received.push((*d, msg.clone()));
                }
            }
        }
        let state = state.on_shares(collect(share_store, received, me)).unwrap();
        finals.push((me, state.message::<Stub>(me, me, &num(5000 + me as u64))));
        states.push(state);
    }
    states
        .into_iter()
        .map(|state| {
            let me = state.session.my_new_index;
            let msgs: HashMap<u16, MsgFinalProofs<C, Stub>> = finals
                .iter()
                .filter(|(p, _)| *p != me)
                .map(|(p, m)| (*p, m.clone()))
                .collect();
            state.on_final_proofs(&msgs, &everyone(), &everyone()).unwrap()
        })
        .collect()
}

/// The secret that the shares of these signers interpolate to.
fn interpolate(keys: &Vec<KeyShare<C>>, signers: &[usize]) -> Scalar<C> {
    let nodes: Vec<Scalar<C>> = signers
        .iter()
        .map(|&s| keys[s].core.key_info.vss_setup.as_ref().unwrap().I[s].clone())
        .collect();
    let mut secret = num(0);
    for (k, &s) in signers.iter().enumerate() {
        let weight = C::lagrange_coefficient_at_zero(k, &nodes).unwrap();
        secret = C::scalar_add(&secret, &C::scalar_mul(&weight, &keys[s].core.x));
    }
    secret
}

/// Every key share is consistent, and any quorum holds the secret.
fn check(keys: &Vec<KeyShare<C>>, config: &ReshareConfig<C>, secret: u64) {
    let n = config.new_parties.len();
    let t = config.effective_new_threshold() as usize;
    assert_eq!(keys.len(), n);
    for (k, key) in keys.iter().enumerate() {
        assert_eq!(key.core.i as usize, k);
        let info = &key.core.key_info;
        assert!(C::point_eq(&info.shared_public_key, &times(secret)));
        assert_eq!(info.public_shares.len(), n);
        assert_eq!(key.aux.parties.len(), n);
        let setup = info.vss_setup.as_ref().unwrap();
        assert_eq!(setup.min_signers as usize, t);
        assert_eq!(setup.I.len(), n);
        assert!(C::point_eq(&info.public_shares[k], &C::generator_mul(&key.core.x)));
        let party = config.new_parties[k];
        assert!(is(&setup.I[k], party as u64 + 1));
        assert_eq!(key.aux.p, primes(party as u8).p);
        assert_eq!(key.aux.q, primes(party as u8).q);
        for (j, aux) in key.aux.parties.iter().enumerate() {
            let expected = own_aux(config.new_parties[j]);
            assert_eq!(aux.N, expected.N);
            assert_eq!(aux.s, expected.s);
            assert_eq!(aux.t, expected.t);
        }
        for j in 0..n {
            assert!(C::point_eq(&info.public_shares[j], &keys[0].core.key_info.public_shares[j]));
        }
    }
    let first: Vec<usize> = (0..t).collect();
    let last: Vec<usize> = (n - t..n).collect();
    let all: Vec<usize> = (0..n).collect();
    assert!(is(&interpolate(keys, &first), secret));
    assert!(is(&interpolate(keys, &last), secret));
    assert!(is(&interpolate(keys, &all), secret));
    if t > 1 {
        assert!(!is(&interpolate(keys, &first[1..]), secret));
    }
}

fn dynamic_reshare_works(
    n_old: u16,
    n_new: u16,
    old_threshold: Option<u16>,
    new_threshold: Option<u16>,
    old_participants: Option<u16>,
) {
    let secret = 123456;
    let shares = old_shares(secret, n_old, old_threshold);
    let participating = old_participants.or(old_threshold).unwrap_or(n_old);
    let config = match new_threshold {
        Some(t) => ReshareConfig::with_new_threshold(
            range(participating),
            range(n_new),
            times(secret),
            t,
        ),
        None => ReshareConfig::new(range(participating), range(n_new), times(secret)),
    };
    let keys = run(&shares, &config);
    check(&keys, &config, secret);
}

#[test]
fn n3_replace_all() {
    dynamic_reshare_works(3, 3, None, None, None);
}

#[test]
fn n3_overlap_1() {
    dynamic_reshare_works(3, 3, None, None, None);
}

#[test]
fn n2_to_n3() {
    dynamic_reshare_works(2, 3, None, None, None);
}

#[test]
fn t2n3_to_t2n3() {
    dynamic_reshare_works(3, 3, Some(2), Some(2), None);
}

#[test]
fn t2n3_to_n3() {
    dynamic_reshare_works(3, 3, Some(2), None, None);
}

#[test]
fn n3_to_t2n3() {
    dynamic_reshare_works(3, 3, None, Some(2), None);
}

#[test]
fn t2n3_to_t2n4() {
    dynamic_reshare_works(3, 4, Some(2), Some(2), None);
}

#[test]
fn t2n3_to_t2n2() {
    dynamic_reshare_works(3, 2, Some(2), Some(2), None);
}

#[test]
fn t3n5_4_old_to_t3n5() {
    dynamic_reshare_works(5, 5, Some(3), Some(3), Some(4));
}

#[test]
fn stored_indices_may_differ_from_those_of_the_run() {
    let secret = 777;
    let shares = old_shares(secret, 5, Some(3));
    let mut config =
        ReshareConfig::with_new_threshold(vec![0, 1, 2], vec![3, 4, 5], times(secret), 2);
    config.old_core_indices = vec![4, 1, 3];
    let keys = run(&shares, &config);
    check(&keys, &config, secret);
}

#[test]
fn reshare_can_be_repeated() {
    let secret = 4242;
    let shares = old_shares(secret, 3, Some(2));
    let config = ReshareConfig::with_new_threshold(range(2), range(4), times(secret), 3);
    let keys = run(&shares, &config);
    check(&keys, &config, secret);
    let mut again =
        ReshareConfig::with_new_threshold(vec![0, 1, 2], vec![2, 3, 4], times(secret), 2);
    again.old_core_indices = vec![0, 2, 3];
    let keys = run(&keys, &again);
    check(&keys, &again, secret);
}

#[test]
fn equal_views_pass_the_reliability_check() {
    let secret = 2024;
    let shares = old_shares(secret, 5, Some(3));
    let config =
        ReshareConfig::with_new_threshold(range(5), vec![3, 4, 5, 6], times(secret), 2);
    let keys = run_with(&shares, &config, true);
    check(&keys, &config, secret);
}

#[test]
fn party_with_the_last_index_takes_part() {
    let secret = 808;
    let shares = old_shares(secret, 2, None);
    let config =
        ReshareConfig::with_new_threshold(range(2), vec![65535, 7, 0], times(secret), 2);
    let keys = run(&shares, &config);
    check(&keys, &config, secret);
}

#[test]
fn role_follows_from_the_lists() {
    let eid = ExecutionId::new(SID);
    let shares = old_shares(1000, 2, None);
    let config = || ReshareConfig::new(vec![0, 1], vec![1, 2], times(1000));
    assert!(matches!(
        reshare(eid, 0, config()).start(),
        Err(DynamicReshareError::MissingOldShare(0))
    ));
    assert!(matches!(
        reshare(eid, 1, config()).set_pregenerated_primes(primes(1)).start(),
        Err(DynamicReshareError::MissingOldShare(1))
    ));
    assert!(matches!(
        reshare(eid, 2, config()).start(),
        Err(DynamicReshareError::MissingPrimes(2))
    ));
    assert!(matches!(
        reshare(eid, 3, config()).set_pregenerated_primes(primes(3)).start(),
        Err(DynamicReshareError::InvalidParticipantIndex(3))
    ));
    assert!(matches!(
        reshare(eid, 1, config()).set_old_share(&shares[1]).start(),
        Err(DynamicReshareError::MissingPrimes(1))
    ));
    assert!(matches!(
        reshare(eid, 1, config()).start(),
        Err(DynamicReshareError::MissingOldShare(1))
    ));
    let builder = reshare(eid, 1, config()).set_old_share(&shares[1]);
    match builder.set_pregenerated_primes(primes(1)).start() {
        Ok(Role::Dealer(dealer)) => {
            assert_eq!(dealer.i_local, 1);
            assert!(dealer.reliable_broadcast);
            assert!(matches!(dealer.pregenerated, Some(own) if own.p == primes(1).p));
            assert_eq!(dealer.sid.as_bytes(), SID);
        }
        _ => panic!("a retained party is a dealer first"),
    }
    match reshare(eid, 0, config()).set_old_share(&shares[0]).start() {
        Ok(Role::Dealer(dealer)) => assert!(dealer.pregenerated.is_none()),
        _ => panic!("a leaving party needs no primes"),
    }
    match reshare(eid, 2, config()).set_pregenerated_primes(primes(2)).start() {
        Ok(Role::Receiver(receiver)) => {
            assert_eq!(receiver.my_new_index, 2);
            assert_eq!(receiver.primes.p, primes(2).p);
            assert!(receiver.preloaded_share.is_none());
            assert!(receiver.self_commitment.is_none());
            assert!(receiver.reliable_broadcast);
        }
        _ => panic!("a new party receives"),
    }
}

#[test]
fn additive_shares_have_weight_one() {
    let config = ReshareConfig::new(vec![0, 1], vec![2], times(1));
    assert!(is(&share_weight::<C>(&None, 7, &config).unwrap(), 1));
}

#[test]
fn threshold_shares_have_their_interpolation_coefficient() {
    let mut config = ReshareConfig::new(vec![0, 1], vec![2], times(1));
    let setup = Some(VssSetup { min_signers: 2, I: vec![num(1), num(2), num(3)] });
    // Nodes 1 and 2: 2 / (2 - 1) and 1 / (1 - 2).
    assert!(is(&share_weight::<C>(&setup, 0, &config).unwrap(), 2));
    let weight = share_weight::<C>(&setup, 1, &config).unwrap();
    assert!(!C::scalar_is_nonzero(&C::scalar_add(&weight, &num(1))));
    // A share that does not take part.
    assert!(is(&share_weight::<C>(&setup, 2, &config).unwrap(), 0));
    // Nodes 1 and 3: 3 / (3 - 1).
    config.old_core_indices = vec![2, 0];
    let weight = share_weight::<C>(&setup, 0, &config).unwrap();
    assert!(is(&C::scalar_mul(&weight, &num(2)), 3));
    // An index beyond the setup stands for itself plus one: nodes 6 and 1.
    config.old_core_indices = vec![5, 0];
    let weight = share_weight::<C>(&setup, 0, &config).unwrap();
    assert!(is(&C::scalar_mul(&weight, &num(5)), 6));
}

#[test]
fn old_parties_stand_in_for_missing_stored_indices() {
    let setup = Some(VssSetup { min_signers: 2, I: vec![num(7), num(2), num(3)] });
    let plain = ReshareConfig::new(vec![0, 2], vec![4], times(1));
    let mut explicit = ReshareConfig::new(vec![0, 2], vec![4], times(1));
    explicit.old_core_indices = vec![0, 2];
    for i in 0..3 {
        let weight = share_weight::<C>(&setup, i, &plain).unwrap();
        assert_eq!(
            weight.to_bytes(),
            share_weight::<C>(&setup, i, &explicit).unwrap().to_bytes()
        );
    }
}

#[test]
fn one_of_the_old_parties_is_retained() {
    let secret = 31337;
    let shares = old_shares(secret, 3, Some(2));
    let config =
        ReshareConfig::with_new_threshold(vec![0, 1, 2], vec![2, 3, 4], times(secret), 3);
    let keys = run(&shares, &config);
    check(&keys, &config, secret);
}

#[test]
fn equal_coordinates_have_no_weight() {
    let config = ReshareConfig::new(vec![0, 1], vec![2], times(1));
    let setup = Some(VssSetup { min_signers: 2, I: vec![num(4), num(4)] });
    assert!(matches!(
        share_weight::<C>(&setup, 0, &config),
        Err(DynamicReshareError::InternalError(Bug::PartyIndexOutOfBounds))
    ));
    let mut share = old_shares(5, 2, Some(2)).remove(0);
    share.core.key_info.vss_setup = setup;
    let drawn = nonces(&config, 1);
    assert!(matches!(
        run_reshare_as_dealer(
            ExecutionId::new(SID),
            &share.core,
            0,
            config,
            None,
            false,
            vec![],
            &drawn,
        ),
        Err(DynamicReshareError::InternalError(Bug::PartyIndexOutOfBounds))
    ));
}

#[test]
fn last_stored_index_has_a_coordinate() {
    let setup = Some(VssSetup { min_signers: 2, I: vec![num(1)] });
    let mut config = ReshareConfig::new(vec![0, 1], vec![2], times(1));
    config.old_core_indices = vec![0, 65535];
    // Nodes 1 and 65536: 65536 / (65536 - 1).
    let weight = share_weight::<C>(&setup, 0, &config).unwrap();
    assert!(is(&C::scalar_mul(&weight, &num(65535)), 65536));
}

#[test]
fn last_index_is_dealt_its_own_share() {
    let config = ReshareConfig::with_new_threshold(vec![0], vec![4, 65535], times(9), 2);
    let dealt = perform_vss_distribution(
        ExecutionId::new(SID),
        3,
        &config,
        &num(9),
        None,
        vec![num(2)],
        &vec![num(11), num(12)],
    );
    assert_eq!(dealt.shares[1].0, 65535);
    // 9 + 2 x at x = 65536
    assert!(is(&dealt.shares[1].1.share, 131081));
}

#[test]
fn distribution_of_a_leaving_dealer() {
    let config = ReshareConfig::with_new_threshold(vec![0], vec![4, 6], times(9), 2);
    let dealt = perform_vss_distribution(
        ExecutionId::new(SID),
        3,
        &config,
        &num(9),
        None,
        vec![num(2)],
        &vec![num(11), num(12)],
    );
    assert!(dealt.self_share.is_none());
    assert!(C::point_eq(&dealt.commitment.commitment[0], &times(9)));
    assert!(C::point_eq(&dealt.commitment.commitment[1], &times(2)));
    assert_eq!(dealt.shares.len(), 2);
    // 9 + 2 x at x = 5 and x = 7
    assert_eq!(dealt.shares[0].0, 4);
    assert!(is(&dealt.shares[0].1.share, 19));
    assert_eq!(dealt.shares[1].0, 6);
    assert!(is(&dealt.shares[1].1.share, 23));
    let msg = &dealt.shares[1].1;
    assert!(C::point_eq(&msg.schnorr_commit, &times(12)));
    let challenge = C::share_proof_challenge(
        SHARE_PROOF_TAG,
        &ShareProof {
            sid: ExecutionId::new(SID),
            dealer: 3,
            receiver: 6,
            expected_public_share: times(23),
        },
    );
    let expected = C::scalar_add(&num(12), &C::scalar_mul(&challenge, &num(23)));
    assert_eq!(msg.schnorr_proof.to_bytes(), expected.to_bytes());
    assert!(C::schnorr_verify(&msg.schnorr_proof, &msg.schnorr_commit, &challenge, &times(23)));
}

#[test]
fn retained_dealer_keeps_its_own_share() {
    let config = ReshareConfig::with_new_threshold(vec![0, 1], vec![1, 2, 3], times(9), 2);
    let dealt = perform_vss_distribution(
        ExecutionId::new(SID),
        1,
        &config,
        &num(9),
        Some(1),
        vec![num(2)],
        &vec![num(11), num(12), num(13)],
    );
    let receivers: Vec<u16> = dealt.shares.iter().map(|(to, _)| *to).collect();
    assert_eq!(receivers, vec![2, 3]);
    let kept = dealt.self_share.unwrap();
    assert!(is(&kept.share, 13));
    assert!(C::point_eq(&kept.schnorr_commit, &times(11)));
}

#[test]
fn retained_dealer_without_primes_fails_after_it_dealt() {
    let config = ReshareConfig::new(vec![0, 1], vec![1, 2], times(1000));
    let shares = old_shares(1000, 2, None);
    let (random, drawn) = (coefficients(&config, 1), nonces(&config, 1));
    let run = run_reshare_as_dealer(
        ExecutionId::new(SID),
        &shares[1].core,
        1,
        config,
        None,
        true,
        random,
        &drawn,
    )
    .unwrap();
    assert_eq!(run.shares.len(), 1);
    assert!(C::point_eq(&run.commitment.commitment[0], &times(10)));
    assert!(matches!(
        run.next,
        Err(DynamicReshareError::InternalError(Bug::PaillierKeyError))
    ));
}

#[test]
fn share_that_takes_no_part_deals_zero() {
    let config = ReshareConfig::new(vec![0, 1], vec![5], times(1));
    let shares = old_shares(77, 3, Some(2));
    let drawn = nonces(&config, 1);
    let run = run_reshare_as_dealer(
        ExecutionId::new(SID),
        &shares[2].core,
        2,
        config,
        None,
        false,
        vec![],
        &drawn,
    )
    .unwrap();
    assert!(!C::point_is_nonzero(&run.commitment.commitment[0]));
    assert!(is(&run.shares[0].1.share, 0));
    assert!(matches!(run.next, Ok(None)));
}

fn receiver(me: u16, config: ReshareConfig<C>) -> Receiver<'static, C> {
    run_reshare_as_receiver(ExecutionId::new(SID), me, config, primes(me as u8), true)
}

#[test]
fn rounds_wait_for_the_right_parties() {
    let config = || ReshareConfig::new(vec![0, 1, 2], vec![2, 3, 4], times(1));
    let plain = receiver(3, config());
    let mut store: SubsetRoundInput<u8> = plain.share_round();
    for sender in [0, 1, 2] {
        assert!(store.wants_more());
        assert!(store.add_message(Incoming { id: 0, sender, msg: 0 }).is_ok());
    }
    assert!(!store.wants_more());
    let mut retained = receiver(2, config());
    retained.preloaded_share = Some((
        0,
        MsgShareDistribution {
            share: num(0),
            schnorr_proof: num(0),
            schnorr_commit: times(0),
        },
    ));
    let mut store: SubsetRoundInput<u8> = retained.share_round();
    assert!(store.add_message(Incoming { id: 0, sender: 0, msg: 0 }).is_err());
    assert!(store.add_message(Incoming { id: 0, sender: 2, msg: 0 }).is_err());
    assert!(store.add_message(Incoming { id: 0, sender: 1, msg: 0 }).is_ok());
    assert!(!store.wants_more());
    let mut store: SubsetRoundInput<u8> = retained.commitment_round();
    for sender in [0, 1] {
        assert!(store.add_message(Incoming { id: 0, sender, msg: 0 }).is_ok());
    }
    assert!(!store.wants_more());
    let mut store: SubsetRoundInput<u8> = retained.new_party_round();
    for sender in [3, 4] {
        assert!(store.add_message(Incoming { id: 0, sender, msg: 0 }).is_ok());
    }
    assert!(!store.wants_more());
}

fn aux_msgs(parties: &[u16]) -> HashMap<u16, MsgAuxInfo<Stub>> {
    parties.iter().map(|&p| (p, own_aux(p).message::<Stub>(p))).collect()
}

#[test]
fn auxiliary_data_is_taken_in_order() {
    let config = ReshareConfig::new(vec![0], vec![5, 3, 9], times(1));
    let state = receiver(3, config).on_aux(own_aux(3), &aux_msgs(&[5, 9]), &everyone()).unwrap();
    let session = &state.session;
    assert_eq!(session.auxes.len(), 3);
    assert_eq!(session.auxes[0].N, vec![5, 1]);
    assert_eq!(session.auxes[1].s, vec![3, 2]);
    assert_eq!(session.auxes[2].t, vec![9, 3]);
    assert_eq!(session.rho, vec![3 ^ 5 ^ 9, 0x0f, 8 ^ 32 ^ 2]);
    assert!(state.reliable_broadcast);
}

#[test]
fn randomness_is_the_same_for_all() {
    let parties = [5u16, 3, 9];
    let mut seen: Vec<Vec<u8>> = vec![];
    for me in parties {
        let config = ReshareConfig::new(vec![0], parties.to_vec(), times(1));
        let others: Vec<u16> = parties.iter().copied().filter(|p| *p != me).collect();
        let state = receiver(me, config)
            .on_aux(own_aux(me), &aux_msgs(&others), &everyone())
            .unwrap();
        seen.push(state.session.rho);
    }
    assert_eq!(seen[0], seen[1]);
    assert_eq!(seen[0], seen[2]);
}

#[test]
fn first_party_without_valid_parameters_is_named() {
    let config = || ReshareConfig::new(vec![0], vec![5, 3, 9, 7], times(1));
    let valid: HashSet<u16> = [5, 7].into_iter().collect();
    assert!(matches!(
        receiver(3, config()).on_aux(own_aux(3), &aux_msgs(&[5, 9, 7]), &valid),
        Err(DynamicReshareError::InvalidShare(9))
    ));
    assert!(matches!(
        receiver(3, config()).on_aux(own_aux(3), &aux_msgs(&[9]), &valid),
        Err(DynamicReshareError::InvalidShare(5))
    ));
    let statement = receiver(3, config()).prm_statement(9);
    assert_eq!(statement.prover, 9);
    assert_eq!(statement.sid.as_bytes(), SID);
}

fn session(me: u16, config: ReshareConfig<C>) -> Session<'static, C> {
    Session {
        sid: ExecutionId::new(SID),
        my_new_index: me,
        config,
        primes: primes(me as u8),
        auxes: vec![],
        rho: vec![1, 2, 3],
    }
}

fn commitment(coefs: &[u64]) -> MsgFeldmanCommitment<C> {
    MsgFeldmanCommitment { commitment: coefs.iter().map(|c| times(*c)).collect() }
}

fn share(value: u64) -> MsgShareDistribution<C> {
    MsgShareDistribution { share: num(value), schnorr_proof: num(0), schnorr_commit: times(0) }
}

#[test]
fn own_commitment_joins_those_received() {
    let config = ReshareConfig::new(vec![0, 1], vec![1, 2], times(1));
    let state = AwaitCommitments {
        session: session(1, config),
        preloaded_share: Some((1, share(5))),
        self_commitment: Some(commitment(&[8])),
        reliable_broadcast: false,
    };
    let mut received = HashMap::new();
    received.insert(0, commitment(&[3]));
    match state.on_commitments(received) {
        Committed::Proceed(next) => {
            assert_eq!(next.commitments.len(), 2);
            assert!(C::point_eq(&next.commitments[&1].commitment[0], &times(8)));
            assert!(C::point_eq(&next.commitments[&0].commitment[0], &times(3)));
        }
        Committed::CheckReliability(_) => panic!("no reliable broadcast is enforced"),
    }
}

#[test]
fn commitment_without_a_share_of_its_own_is_left_out() {
    let config = ReshareConfig::new(vec![0, 1], vec![1, 2], times(1));
    let state = AwaitCommitments {
        session: session(1, config),
        preloaded_share: None,
        self_commitment: Some(commitment(&[8])),
        reliable_broadcast: false,
    };
    match state.on_commitments(HashMap::new()) {
        Committed::Proceed(next) => assert!(next.commitments.is_empty()),
        Committed::CheckReliability(_) => panic!("no reliable broadcast is enforced"),
    }
}

fn await_hashes() -> AwaitHashes<'static, C> {
    let config = ReshareConfig::new(vec![0], vec![1, 2], times(1));
    let state = AwaitCommitments {
        session: session(1, config),
        preloaded_share: None,
        self_commitment: None,
        reliable_broadcast: true,
    };
    let mut received = HashMap::new();
    received.insert(0, commitment(&[3, 4]));
    match state.on_commitments(received) {
        Committed::CheckReliability(check) => check,
        Committed::Proceed(_) => panic!("reliable broadcast is enforced"),
    }
}

#[test]
fn digest_of_the_reliability_check() {
    let check = await_hashes();
    let mut commitments = HashMap::new();
    commitments.insert(0, commitment(&[3, 4]));
    let expected = reliability_digest(ExecutionId::new(SID), &commitments);
    assert_eq!(check.hash, expected);
    assert_eq!(check.message().0, expected);
    assert_eq!(expected.len(), 32);
    commitments.insert(0, commitment(&[3, 5]));
    let other = reliability_digest(ExecutionId::new(SID), &commitments);
    assert_ne!(expected, other);
}

#[test]
fn digest_takes_the_dealers_in_ascending_order() {
    let (low, high) = (vec![times(1), times(2)], vec![times(3)]);
    let sid = ExecutionId::new(SID);
    let expected = C::commitments_digest(
        HASH_COMMITMENT_TAG,
        &vec![
            HashCommitment { sid, party_index: 2, commitment: &low },
            HashCommitment { sid, party_index: 300, commitment: &high },
        ],
    );
    for order in [[2u16, 300], [300, 2]] {
        for _ in 0..10 {
            let mut commitments = HashMap::new();
            for dealer in order {
                let msg = if dealer == 2 { commitment(&[1, 2]) } else { commitment(&[3]) };
                commitments.insert(dealer, msg);
            }
            assert_eq!(reliability_digest(sid, &commitments), expected);
        }
    }
}

#[test]
fn equal_digests_pass_the_reliability_check() {
    let check = await_hashes();
    let mut hashes = HashMap::new();
    hashes.insert(2, MsgReliabilityCheck(check.hash.clone()));
    hashes.insert(3, MsgReliabilityCheck(check.hash.clone()));
    let next = check.on_hashes(&hashes);
    assert!(matches!(next, Ok(next) if next.commitments.len() == 1));
}

#[test]
fn different_digest_fails_the_reliability_check() {
    let check = await_hashes();
    let mut hashes = HashMap::new();
    hashes.insert(2, MsgReliabilityCheck(check.hash.clone()));
    let mut other = check.hash.clone();
    other[31] ^= 1;
    hashes.insert(3, MsgReliabilityCheck(other));
    assert!(matches!(
        check.on_hashes(&hashes),
        Err(DynamicReshareError::ConfigurationMismatch)
    ));
}

/// A participant that holds commitments to `10 + 3 x` and `20 + 4 x`.
fn await_shares(me: u16, key: u64) -> AwaitShares<'static, C> {
    let mut commitments = HashMap::new();
    commitments.insert(0, commitment(&[10, 3]));
    commitments.insert(1, commitment(&[20, 4]));
    AwaitShares {
        session: session(me, ReshareConfig::new(vec![0, 1], vec![2, 3], times(key))),
        preloaded_share: None,
        commitments,
    }
}

#[test]
fn shares_are_verified_and_added() {
    let mut received = HashMap::new();
    received.insert(0, share(22));
    received.insert(1, share(36));
    let state = await_shares(3, 30).on_shares(received).unwrap();
    assert!(is(&state.share, 58));
    assert_eq!(state.my_position, 1);
    assert!(C::point_eq(&state.public_shares[0], &times(51)));
    assert!(C::point_eq(&state.public_shares[1], &times(58)));
}

#[test]
fn preloaded_share_joins_those_received() {
    let mut state = await_shares(3, 30);
    state.preloaded_share = Some((1, share(36)));
    let mut received = HashMap::new();
    received.insert(0, share(22));
    assert!(is(&state.on_shares(received).unwrap().share, 58));
}

#[test]
fn changed_public_key_is_refused() {
    let mut received = HashMap::new();
    received.insert(0, share(22));
    received.insert(1, share(36));
    assert!(matches!(
        await_shares(3, 31).on_shares(received),
        Err(DynamicReshareError::PublicKeyMismatch)
    ));
}

#[test]
fn share_that_was_not_committed_to_is_refused() {
    let mut received = HashMap::new();
    received.insert(0, share(22));
    received.insert(1, share(37));
    assert!(matches!(
        await_shares(3, 30).on_shares(received),
        Err(DynamicReshareError::InvalidShare(1))
    ));
    let mut received = HashMap::new();
    received.insert(0, share(22));
    received.insert(1, share(36));
    received.insert(7, share(0));
    assert!(matches!(
        await_shares(3, 30).on_shares(received),
        Err(DynamicReshareError::InvalidShare(7))
    ));
}

#[test]
fn public_share_of_zero_stops_the_reshare() {
    let q_minus_one = C::decode_scalar(
        &hex::decode("fffffffffffffffffffffffffffffffebaaedce6af48a03bbfd25e8cd0364140").unwrap(),
    )
    .unwrap();
    let mut state = await_shares(3, 3);
    state.commitments = HashMap::new();
    // 3 - x is zero for the party with index 2.
    let points = vec![times(3), C::generator_mul(&q_minus_one)];
    state.commitments.insert(0, MsgFeldmanCommitment { commitment: points });
    assert!(matches!(
        state.on_shares(HashMap::new()),
        Err(DynamicReshareError::InternalError(Bug::ZeroShare))
    ));
}

#[test]
fn participant_outside_the_list_is_refused() {
    let mut received = HashMap::new();
    received.insert(0, share(25));
    received.insert(1, share(40));
    assert!(matches!(
        await_shares(4, 30).on_shares(received),
        Err(DynamicReshareError::ConfigurationMismatch)
    ));
}

#[test]
fn empty_commitment_is_refused() {
    let received = || {
        let mut received = HashMap::new();
        received.insert(0, share(22));
        received.insert(1, share(36));
        received.insert(5, share(0));
        received
    };
    let mut state = await_shares(3, 30);
    state.commitments.insert(5, commitment(&[]));
    assert!(matches!(
        state.on_shares(received()),
        Err(DynamicReshareError::InvalidFeldmanCommitment(5))
    ));
    let mut state = await_shares(3, 31);
    state.commitments.insert(5, commitment(&[]));
    state.commitments.insert(1, commitment(&[]));
    assert!(matches!(
        state.on_shares(received()),
        Err(DynamicReshareError::InvalidFeldmanCommitment(1))
    ));
}

#[test]
fn lowest_dealer_with_a_bad_share_is_named() {
    let mut received = HashMap::new();
    received.insert(0, share(22));
    received.insert(1, share(37));
    received.insert(9, share(0));
    assert!(matches!(
        await_shares(3, 30).on_shares(received),
        Err(DynamicReshareError::InvalidShare(1))
    ));
}

/// The new participants 2 and 3 of `30 + 7 x`, of which this is one.
fn await_proofs(me: u16) -> AwaitProofs<'static, C> {
    let position = if me == 2 { 0 } else { 1 };
    AwaitProofs {
        session: session(me, ReshareConfig::new(vec![0, 1], vec![2, 3], times(30))),
        share: num(if me == 2 { 51 } else { 58 }),
        public_shares: vec![times(51), times(58)],
        my_position: position,
    }
}

fn final_msgs(msg: MsgFinalProofs<C, Stub>) -> HashMap<u16, MsgFinalProofs<C, Stub>> {
    let mut msgs = HashMap::new();
    msgs.insert(2, msg);
    msgs
}

#[test]
fn honest_final_proof_is_accepted() {
    let msg = await_proofs(2).message::<Stub>(20, 21, &num(99));
    assert_eq!(msg.psi_mod, 20);
    assert_eq!(msg.phi_fac, 21);
    assert!(C::point_eq(&msg.public_share, &times(51)));
    assert!(C::point_eq(&msg.schnorr_commit, &times(99)));
    let key = await_proofs(3)
        .on_final_proofs(&final_msgs(msg), &everyone(), &everyone())
        .unwrap();
    assert_eq!(key.core.i, 1);
    assert!(is(&key.core.x, 58));
    let setup = key.core.key_info.vss_setup.unwrap();
    assert_eq!(setup.min_signers, 2);
    assert!(is(&setup.I[0], 3));
    assert!(is(&setup.I[1], 4));
    assert_eq!(key.aux.p, vec![3, 3]);
    assert_eq!(key.aux.q, vec![3, 5]);
}

#[test]
fn final_proofs_that_do_not_hold_are_refused() {
    let nobody: HashSet<u16> = HashSet::new();
    let honest = || await_proofs(2).message::<Stub>(20, 21, &num(99));
    let refused = |msgs: &HashMap<u16, MsgFinalProofs<C, Stub>>,
                   mod_valid: &HashSet<u16>,
                   fac_valid: &HashSet<u16>| {
        matches!(
            await_proofs(3).on_final_proofs(msgs, mod_valid, fac_valid),
            Err(DynamicReshareError::InvalidShare(2))
        )
    };
    assert!(refused(&HashMap::new(), &everyone(), &everyone()));
    assert!(refused(&final_msgs(honest()), &nobody, &everyone()));
    assert!(refused(&final_msgs(honest()), &everyone(), &nobody));
    let mut msg = honest();
    msg.public_share = times(58);
    assert!(refused(&final_msgs(msg), &everyone(), &everyone()));
    let mut msg = honest();
    msg.schnorr_commit = times(98);
    assert!(refused(&final_msgs(msg), &everyone(), &everyone()));
    let mut msg = honest();
    msg.schnorr_proof = num(1);
    assert!(refused(&final_msgs(msg), &everyone(), &everyone()));
    assert!(!refused(&final_msgs(honest()), &everyone(), &everyone()));
}

#[test]
fn final_proof_is_bound_to_the_randomness() {
    let msg = await_proofs(2).message::<Stub>(20, 21, &num(99));
    let mut verifier = await_proofs(3);
    verifier.session.rho = vec![1, 2, 4];
    assert!(matches!(
        verifier.on_final_proofs(&final_msgs(msg), &everyone(), &everyone()),
        Err(DynamicReshareError::InvalidShare(2))
    ));
}

#[test]
fn share_of_zero_is_refused() {
    let msg = await_proofs(2).message::<Stub>(20, 21, &num(99));
    let mut state = await_proofs(3);
    state.share = num(0);
    assert!(matches!(
        state.on_final_proofs(&final_msgs(msg), &everyone(), &everyone()),
        Err(DynamicReshareError::InternalError(Bug::ZeroShare))
    ));
}

#[test]
fn statements_of_the_final_proofs() {
    let state = await_proofs(3);
    let statement = state.mod_statement(2);
    assert_eq!(statement.prover, 2);
    assert_eq!(statement.rho, &[1, 2, 3]);
    assert_eq!(statement.sid.as_bytes(), SID);
    let statement = state.fac_statement(3);
    assert_eq!(statement.prover, 3);
    assert_eq!(statement.rho, &[1, 2, 3]);
    assert_eq!(statement.sid.as_bytes(), SID);
}

#[test]
fn errors_are_wrapped() {
    let err = DynamicReshareError::from(KeyRefreshError { reason: "why".to_string() });
    assert!(matches!(err, DynamicReshareError::KeyRefreshError(e) if e.reason == "why"));
    let err = DynamicReshareError::from(IoError::SendMessage("lost".to_string()));
    assert!(matches!(
        err,
        DynamicReshareError::IoError(IoError::SendMessage(text)) if text == "lost"
    ));
    let err = DynamicReshareError::from(Bug::PowMod);
    assert!(matches!(err, DynamicReshareError::InternalError(Bug::PowMod)));
}

#[test]
fn clones_are_equal() {
    let mut config = ReshareConfig::with_new_threshold(vec![0, 1], vec![2, 3], times(9), 2);
    config.old_core_indices = vec![5, 6];
    let copy = config.clone();
    assert_eq!(copy.old_parties, vec![0, 1]);
    assert_eq!(copy.new_parties, vec![2, 3]);
    assert_eq!(copy.new_threshold, Some(2));
    assert_eq!(copy.old_core_indices, vec![5, 6]);
    assert!(C::point_eq(&copy.shared_public_key, &times(9)));
    assert_eq!(format!("{:?}", copy), format!("{:?}", config));

    let msg: Msg<C, Stub> = Msg::FeldmanCommitment(commitment(&[4, 5]));
    match msg.clone() {
        Msg::FeldmanCommitment(copy) => {
            assert_eq!(copy.commitment.len(), 2);
            assert!(C::point_eq(&copy.commitment[1], &times(5)));
        }
        _ => panic!("a clone is of the same kind"),
    }
    let mut sent = share(12);
    sent.schnorr_proof = num(13);
    sent.schnorr_commit = times(14);
    match Msg::<C, Stub>::ShareDistribution(sent).clone() {
        Msg::ShareDistribution(copy) => {
            assert!(is(&copy.share, 12));
            assert!(is(&copy.schnorr_proof, 13));
            assert!(C::point_eq(&copy.schnorr_commit, &times(14)));
        }
        _ => panic!("a clone is of the same kind"),
    }
    match Msg::<C, Stub>::AuxInfo(own_aux(7).message(70)).clone() {
        Msg::AuxInfo(copy) => {
            assert_eq!(copy.N, own_aux(7).N);
            assert_eq!(copy.s, own_aux(7).s);
            assert_eq!(copy.t, own_aux(7).t);
            assert_eq!(copy.psi_prm, 70);
            assert_eq!(copy.rho_bytes, own_aux(7).rho_bytes);
        }
        _ => panic!("a clone is of the same kind"),
    }
    let proofs = await_proofs(2).message::<Stub>(20, 21, &num(99));
    match Msg::<C, Stub>::FinalProofs(proofs).clone() {
        Msg::FinalProofs(copy) => {
            assert_eq!((copy.psi_mod, copy.phi_fac), (20, 21));
            assert!(C::point_eq(&copy.public_share, &times(51)));
            assert!(C::point_eq(&copy.schnorr_commit, &times(99)));
        }
        _ => panic!("a clone is of the same kind"),
    }
    match Msg::<C, Stub>::ReliabilityCheck(MsgReliabilityCheck(vec![1, 2])).clone() {
        Msg::ReliabilityCheck(copy) => assert_eq!(copy.0, vec![1, 2]),
        _ => panic!("a clone is of the same kind"),
    }
}
