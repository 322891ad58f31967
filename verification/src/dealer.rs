//! What an old participant does: it weights its old share so that the weighted shares of all
//! dealers add up to the secret, and deals the result to the new participants.
use crate::algebra::eval;
use crate::config::ReshareConfig;
use crate::error::{Bug, DynamicReshareError};
use crate::interpolation::is_coefficient;
use crate::key_share::{IncompleteKeyShare, PregeneratedPrimes, VssSetup};
use crate::messages::{MsgFeldmanCommitment, MsgShareDistribution};
use crate::polynomial::{share_coordinate, Polynomial};
use crate::receiver::Receiver;
use crate::seqs::{first_at, last_at, lemma_take_contains};
use crate::suite::{encodings, logs, vals, Group, Scalar, Suite};
use crate::unambiguous::{ExecutionId, ShareProof, SHARE_PROOF_TAG};
use vstd::prelude::*;

verus! {

/// The coordinate of the share with index `core_index`: the one that the setup gives, or else
/// the index plus one.
pub open spec fn coordinate<S: Group>(setup: VssSetup<S>, core_index: u16) -> int {
    if core_index < setup.I@.len() {
        setup.I@[core_index as int].val()
    } else {
        core_index + 1
    }
}

/// The coordinates of the shares that take part in the reshare.
pub open spec fn coordinates<S: Group>(setup: VssSetup<S>, config: ReshareConfig<S>) -> Seq<int> {
    Seq::new(
        config.core_indices().len(),
        |k: int| coordinate(setup, config.core_indices()[k]),
    )
}

/// Node `pos` has a coefficient in the interpolation at zero: every other node differs from
/// it and from zero.
pub open spec fn has_coefficient(xs: Seq<int>, pos: int) -> bool {
    forall|m: int| 0 <= m < xs.len() && m != pos ==> #[trigger] xs[m] != xs[pos] && xs[m] != 0
}

/// `weight` is what the share `core_index` of a key with this setup is multiplied with: one
/// for an additively shared key, the interpolation coefficient of the share for a threshold
/// key, and zero for a share that does not take part.
pub open spec fn is_weight<S: Group>(
    setup: Option<VssSetup<S>>,
    core_index: u16,
    config: ReshareConfig<S>,
    weight: int,
) -> bool {
    match setup {
        None => weight == 1,
        Some(vss) => if config.core_indices().contains(core_index) {
            exists|pos: int| #[trigger]
                first_at(config.core_indices(), core_index, pos) && is_coefficient(
                    coordinates(vss, config),
                    pos,
                    weight,
                    S::order(),
                )
        } else {
            weight == 0
        },
    }
}

/// No weight can be given: the coordinates do not admit an interpolation.
pub open spec fn no_weight<S: Group>(
    setup: Option<VssSetup<S>>,
    core_index: u16,
    config: ReshareConfig<S>,
) -> bool {
    match setup {
        None => false,
        Some(vss) => exists|pos: int| #[trigger]
            first_at(config.core_indices(), core_index, pos) && !has_coefficient(
                coordinates(vss, config),
                pos,
            ),
    }
}

/// The coordinates of the shares that take part in the reshare.
fn active_coordinates<S: Suite>(setup: &VssSetup<S>, config: &ReshareConfig<S>) -> (res: Vec<
    Scalar<S>,
>)
    ensures
        vals(res@) == coordinates(*setup, *config),
{
    let core_indices: &Vec<u16> = if config.old_core_indices.len() > 0 {
        &config.old_core_indices
    } else {
        &config.old_parties
    };
    let mut res: Vec<Scalar<S>> = Vec::new();
    let mut k: usize = 0;
    while k < core_indices.len()
        invariant
            k <= core_indices@.len(),
            core_indices@ == config.core_indices(),
            res@.len() == k,
            forall|j: int|
                0 <= j < k ==> (#[trigger] res@[j]).val() == coordinate(*setup, core_indices@[j]),
        decreases core_indices@.len() - k,
    {
        let ci: u16 = core_indices[k];
        assert(config.core_indices()[k as int] == ci);
        if (ci as usize) < setup.I.len() {
            res.push(setup.I[ci as usize].clone());
        } else {
            res.push(share_coordinate(ci));
        }
        k = k + 1;
    }
    assert(vals(res@) =~= coordinates(*setup, *config));
    res
}

/// The factor that turns the old share `core_index` into an additive share of the secret.
pub fn share_weight<S: Suite>(
    setup: &Option<VssSetup<S>>,
    core_index: u16,
    config: &ReshareConfig<S>,
) -> (res: Result<Scalar<S>, DynamicReshareError>)
    ensures
        match res {
            Ok(weight) => {
                &&& !no_weight(*setup, core_index, *config)
                &&& is_weight(*setup, core_index, *config, weight.val())
                &&& 0 <= weight.val() < S::order()
            },
            Err(err) => no_weight(*setup, core_index, *config) && err
                == DynamicReshareError::InternalError(Bug::PartyIndexOutOfBounds),
        },
{
    proof {
        S::lemma_order();
    }
    match setup {
        None => Ok(S::scalar_from(1)),
        Some(vss) => match config.core_position(core_index) {
            None => Ok(S::scalar_from(0)),
            Some(pos) => {
                proof {
                    assert(config.core_indices()[pos as int] == core_index);
                }
                let xs = active_coordinates(vss, config);
                proof {
                    let c = coordinates(*vss, *config);
                    assert forall|m: int| 0 <= m < c.len() implies #[trigger] c[m] == xs@[m].val() by {
                        assert(vals(xs@)[m] == c[m]);
                    }
                    assert forall|p: int| #[trigger]
                        first_at(config.core_indices(), core_index, p) implies p == pos by {
                        if p < pos {
                            assert(config.core_indices()[p] != core_index);
                        }
                        if pos < p {
                            assert(config.core_indices()[pos as int] != core_index);
                        }
                    }
                }
                match S::lagrange_coefficient_at_zero(pos, &xs) {
                    Some(weight) => {
                        proof {
                            use_type_invariant(&weight);
                            assert(has_coefficient(coordinates(*vss, *config), pos as int));
                        }
                        Ok(weight)
                    },
                    None => {
                        proof {
                            let c = coordinates(*vss, *config);
                            let m = choose|m: int|
                                0 <= m < xs@.len() && m != pos && ((#[trigger] xs@[m]).val()
                                    == xs@[pos as int].val() || xs@[m].val() == 0);
                            assert(c[m] == xs@[m].val() && c[pos as int] == xs@[pos as int].val());
                            assert(!has_coefficient(c, pos as int));
                        }
                        Err(DynamicReshareError::InternalError(Bug::PartyIndexOutOfBounds))
                    },
                }
            },
        },
    }
}

/// `msg` is what `dealer` sends to `receiver`: the value of its polynomial at the index of the
/// receiver plus one, and a Schnorr proof with this nonce that the dealer knows it.
pub open spec fn is_share_msg<S: Group>(
    msg: MsgShareDistribution<S>,
    coefs: Seq<int>,
    sid: Seq<u8>,
    dealer: u16,
    receiver: u16,
    nonce: int,
) -> bool {
    let share = eval(coefs, receiver + 1) % S::order();
    let challenge = S::hash_share_proof(
        SHARE_PROOF_TAG@,
        sid,
        dealer,
        receiver,
        S::multiple(share),
    );
    &&& msg.share.val() == share
    &&& msg.schnorr_commit.log() == nonce
    &&& msg.schnorr_proof.val() == (nonce + challenge * share) % S::order()
}

/// The positions in `parties` of those to whom a share is sent: all but `retained`.
pub open spec fn sent_positions(parties: Seq<u16>, retained: Option<u16>) -> Seq<int>
    decreases parties.len(),
{
    if parties.len() == 0 {
        Seq::empty()
    } else {
        let before = sent_positions(parties.drop_last(), retained);
        if retained == Some(parties.last()) {
            before
        } else {
            before.push(parties.len() - 1)
        }
    }
}

/// What a dealer distributes.
pub struct Distribution<S: Group> {
    /// The commitment to its polynomial, for everyone.
    pub commitment: MsgFeldmanCommitment<S>,
    /// The shares that it sends, each with the index of its receiver.
    pub shares: Vec<(u16, MsgShareDistribution<S>)>,
    /// The share that it keeps, where it is a new participant itself.
    pub self_share: Option<MsgShareDistribution<S>>,
}

impl<S: Group> Distribution<S> {
    /// The distribution of the polynomial with coefficients `coefs`, where `nonces[k]` goes
    /// into the proof for the new participant at position `k`.
    pub open spec fn distributes(
        self,
        coefs: Seq<int>,
        sid: Seq<u8>,
        dealer: u16,
        parties: Seq<u16>,
        retained: Option<u16>,
        nonces: Seq<int>,
    ) -> bool {
        &&& logs(self.commitment.commitment@) == coefs
        &&& are_share_msgs(
            self.shares@,
            sent_positions(parties, retained),
            coefs,
            sid,
            dealer,
            parties,
            nonces,
        )
        &&& match self.self_share {
            Some(msg) => exists|k: int| #[trigger]
                last_at(parties, retained->0, k) && retained is Some && is_share_msg(
                    msg,
                    coefs,
                    sid,
                    dealer,
                    parties[k],
                    nonces[k],
                ),
            None => retained is None || !parties.contains(retained->0),
        }
    }
}

/// `shares[j]` is the message with the share of the new participant at position `at[j]`, and
/// nothing else is among `shares`.
pub open spec fn are_share_msgs<S: Group>(
    shares: Seq<(u16, MsgShareDistribution<S>)>,
    at: Seq<int>,
    coefs: Seq<int>,
    sid: Seq<u8>,
    dealer: u16,
    parties: Seq<u16>,
    nonces: Seq<int>,
) -> bool {
    &&& shares.len() == at.len()
    &&& forall|j: int|
        #![trigger shares[j]]
        #![trigger at[j]]
        0 <= j < at.len() ==> {
            &&& 0 <= at[j] < parties.len()
            &&& shares[j].0 == parties[at[j]]
            &&& is_share_msg(shares[j].1, coefs, sid, dealer, parties[at[j]], nonces[at[j]])
        }
}

/// The message with the share of one receiver.
fn share_message<S: Suite>(
    polynomial: &Polynomial<S>,
    sid: ExecutionId,
    dealer: u16,
    receiver: u16,
    nonce: &Scalar<S>,
) -> (res: MsgShareDistribution<S>)
    ensures
        is_share_msg(res, polynomial.coefs(), sid@, dealer, receiver, nonce.val()),
{
    let eval_point = share_coordinate(receiver);
    let share = polynomial.evaluate(&eval_point);
    let schnorr_commit = S::generator_mul(nonce);
    let challenge = S::share_proof_challenge(
        SHARE_PROOF_TAG,
        &ShareProof { sid, dealer, receiver, expected_public_share: S::generator_mul(&share) },
    );
    let schnorr_proof = S::schnorr_prove(nonce, &challenge, &share);
    MsgShareDistribution { share, schnorr_proof, schnorr_commit }
}

/// Deals `secret` to the new participants: draws the polynomial with the random coefficients,
/// commits to it, and makes a share for every new participant. The share of the dealer itself,
/// where it is retained, is not sent but kept.
pub fn perform_vss_distribution<S: Suite>(
    sid: ExecutionId,
    my_old_index: u16,
    config: &ReshareConfig<S>,
    secret: &Scalar<S>,
    my_new_index_if_retained: Option<u16>,
    random_coefficients: Vec<Scalar<S>>,
    nonces: &Vec<Scalar<S>>,
) -> (res: Distribution<S>)
    requires
        nonces@.len() == config.new_parties@.len(),
    ensures
        res.distributes(
            seq![secret.val()] + vals(random_coefficients@),
            sid@,
            my_old_index,
            config.new_parties@,
            my_new_index_if_retained,
            vals(nonces@),
        ),
        forall|j: int|
            0 <= j < res.shares@.len() ==> (#[trigger] res.shares@[j]).1.share.val() == eval(
                seq![secret.val()] + vals(random_coefficients@),
                res.shares@[j].0 + 1,
            ) % S::order(),
{
    let ghost coefs = seq![secret.val()] + vals(random_coefficients@);
    let ghost parties = config.new_parties@;
    let polynomial = Polynomial::new_with_secret(secret, random_coefficients);
    let commitment = MsgFeldmanCommitment { commitment: polynomial.feldman_commit() };
    let mut shares: Vec<(u16, MsgShareDistribution<S>)> = Vec::new();
    let mut self_share: Option<MsgShareDistribution<S>> = None;
    let mut k: usize = 0;
    let ghost drawn = vals(nonces@);
    let ghost mut at: Seq<int> = Seq::empty();
    proof {
        assert(parties.take(0) =~= Seq::empty());
    }
    while k < config.new_parties.len()
        invariant
            k <= config.new_parties@.len(),
            parties == config.new_parties@,
            nonces@.len() == parties.len(),
            drawn == vals(nonces@),
            polynomial.coefs() == coefs,
            at == sent_positions(parties.take(k as int), my_new_index_if_retained),
            are_share_msgs(shares@, at, coefs, sid@, my_old_index, parties, drawn),
            match self_share {
                Some(msg) => exists|i: int| #[trigger]
                    last_at(parties.take(k as int), my_new_index_if_retained->0, i)
                        && my_new_index_if_retained is Some && is_share_msg(
                        msg,
                        coefs,
                        sid@,
                        my_old_index,
                        parties[i],
                        drawn[i],
                    ),
                None => my_new_index_if_retained is None || !parties.take(k as int).contains(
                    my_new_index_if_retained->0,
                ),
            },
        decreases config.new_parties@.len() - k,
    {
        let receiver: u16 = config.new_parties[k];
        let msg = share_message(&polynomial, sid, my_old_index, receiver, &nonces[k]);
        let ghost before = parties.take(k as int);
        let ghost after = parties.take(k + 1);
        proof {
            assert(after.drop_last() =~= before);
            assert(after.last() == receiver);
            lemma_take_contains(parties, k as int);
            assert(drawn[k as int] == nonces@[k as int].val());
        }
        let mine: bool = match my_new_index_if_retained {
            Some(me) => me == receiver,
            None => false,
        };
        if mine {
            proof {
                assert(last_at(after, receiver, k as int));
            }
            self_share = Some(msg);
        } else {
            proof {
                if self_share is Some {
                    let me = my_new_index_if_retained->0;
                    let i = choose|i: int| #[trigger]
                        last_at(before, me, i) && my_new_index_if_retained is Some
                            && is_share_msg(
                            self_share->0,
                            coefs,
                            sid@,
                            my_old_index,
                            parties[i],
                            drawn[i],
                        );
                    assert(last_at(after, me, i)) by {
                        assert forall|j: int| i < j < after.len() implies after[j] != me by {
                            if j < k {
                                assert(before[j] == after[j]);
                            }
                        }
                    }
                }
                at = at.push(k as int);
            }
            shares.push((receiver, msg));
        }
        k = k + 1;
    }
    assert(parties.take(k as int) =~= parties);
    Distribution { commitment, shares, self_share }
}

/// What an old participant does: it sends the commitment to everyone and the shares to their
/// receivers, and then leaves, or goes on as a new participant.
pub struct DealerRun<'a, S: Group> {
    /// The commitment, for everyone.
    pub commitment: MsgFeldmanCommitment<S>,
    /// The shares that it sends, each with the index of its receiver.
    pub shares: Vec<(u16, MsgShareDistribution<S>)>,
    /// What comes after it has sent them: nothing for a participant that leaves; for a retained
    /// one the role of a receiver, which takes primes for a Paillier modulus.
    pub next: Result<Option<Receiver<'a, S>>, DynamicReshareError>,
}

/// `secret` is what the holder of the share deals: the share times its weight.
pub open spec fn is_dealt_secret<S: Group>(
    core: IncompleteKeyShare<S>,
    config: ReshareConfig<S>,
    secret: int,
) -> bool {
    exists|weight: int| #[trigger]
        is_weight(core.key_info.vss_setup, core.i, config, weight) && 0 <= weight < S::order()
            && secret == (weight * core.x.val()) % S::order()
}

impl<'a, S: Group> DealerRun<'a, S> {
    /// What is sent is the distribution of the polynomial with coefficients `coefs`.
    pub open spec fn sends(
        self,
        coefs: Seq<int>,
        sid: Seq<u8>,
        dealer: u16,
        config: ReshareConfig<S>,
        nonces: Seq<int>,
    ) -> bool {
        &&& logs(self.commitment.commitment@) == coefs
        &&& are_share_msgs(
            self.shares@,
            sent_positions(config.new_parties@, Some(dealer)),
            coefs,
            sid,
            dealer,
            config.new_parties@,
            nonces,
        )
    }

    /// A retained dealer goes on as a receiver, with the share that it dealt to itself and its
    /// own commitment at hand.
    pub open spec fn goes_on(
        self,
        receiver: Receiver<'a, S>,
        coefs: Seq<int>,
        sid: Seq<u8>,
        dealer: u16,
        config: ReshareConfig<S>,
        nonces: Seq<int>,
    ) -> bool {
        &&& receiver.sid@ == sid
        &&& receiver.my_new_index == dealer
        &&& receiver.config == config
        &&& match receiver.preloaded_share {
            Some((index, msg)) => index == dealer && exists|k: int| #[trigger]
                last_at(config.new_parties@, dealer, k) && is_share_msg(
                    msg,
                    coefs,
                    sid,
                    dealer,
                    dealer,
                    nonces[k],
                ),
            None => false,
        }
        &&& receiver.self_commitment is Some
        &&& logs(receiver.self_commitment->0.commitment@) == coefs
        &&& encodings(receiver.self_commitment->0.commitment@) == encodings(
            self.commitment.commitment@,
        )
    }
}

/// Run dynamic reshare as an old participant (dealer).
///
/// `i_local` is the index of the dealer in this run: it addresses messages and tells whether the
/// dealer is retained. The index that the stored share carries selects its coordinate in the
/// interpolation, and nothing else.
pub fn run_reshare_as_dealer<'a, S: Suite>(
    sid: ExecutionId<'a>,
    old_share: &IncompleteKeyShare<S>,
    i_local: u16,
    config: ReshareConfig<S>,
    pregenerated: Option<PregeneratedPrimes>,
    reliable_broadcast_enforced: bool,
    random_coefficients: Vec<Scalar<S>>,
    nonces: &Vec<Scalar<S>>,
) -> (res: Result<DealerRun<'a, S>, DynamicReshareError>)
    requires
        !no_weight(old_share.key_info.vss_setup, old_share.i, config) ==> {
            &&& random_coefficients@.len() + 1 == config.threshold()
            &&& nonces@.len() == config.new_parties@.len()
        },
    ensures
        match res {
            Err(err) => {
                &&& no_weight(old_share.key_info.vss_setup, old_share.i, config)
                &&& err == DynamicReshareError::InternalError(Bug::PartyIndexOutOfBounds)
            },
            Ok(run) => {
                &&& !no_weight(old_share.key_info.vss_setup, old_share.i, config)
                &&& run.commitment.commitment@.len() == config.threshold()
                &&& run.commitment.commitment@.len() == random_coefficients@.len() + 1
                &&& config.new_threshold matches Some(t) ==> run.commitment.commitment@.len() == t
                &&& exists|secret: int| #[trigger]
                    is_dealt_secret(*old_share, config, secret) && ({
                        let coefs = seq![secret] + vals(random_coefficients@);
                        &&& run.sends(coefs, sid@, i_local, config, vals(nonces@))
                        &&& match run.next {
                            Ok(None) => !config.new_parties@.contains(i_local),
                            Ok(Some(receiver)) => {
                                &&& config.new_parties@.contains(i_local)
                                &&& pregenerated == Some(receiver.primes)
                                &&& receiver.reliable_broadcast == reliable_broadcast_enforced
                                &&& run.goes_on(
                                    receiver,
                                    coefs,
                                    sid@,
                                    i_local,
                                    config,
                                    vals(nonces@),
                                )
                            },
                            Err(err) => {
                                &&& config.new_parties@.contains(i_local)
                                &&& pregenerated is None
                                &&& err == DynamicReshareError::InternalError(Bug::PaillierKeyError)
                            },
                        }
                    })
            },
        },
{
    let weight = match share_weight(&old_share.key_info.vss_setup, old_share.i, &config) {
        Ok(weight) => weight,
        Err(err) => {
            return Err(err);
        },
    };
    let secret = S::scalar_mul(&weight, &old_share.x);
    let ghost coefs = seq![secret.val()] + vals(random_coefficients@);
    assert(is_dealt_secret(*old_share, config, secret.val()));
    let is_retained: bool = config.is_new_party(i_local);
    let retained: Option<u16> = if is_retained {
        Some(i_local)
    } else {
        None
    };
    let dealt = perform_vss_distribution(
        sid,
        i_local,
        &config,
        &secret,
        retained,
        random_coefficients,
        nonces,
    );
    proof {
        assert(logs(dealt.commitment.commitment@).len() == coefs.len());
        if !is_retained {
            lemma_nobody_retained(config.new_parties@, i_local);
        }
    }
    if !is_retained {
        return Ok(
            DealerRun { commitment: dealt.commitment, shares: dealt.shares, next: Ok(None) },
        );
    }
    let self_commitment = dealt.commitment.clone();
    let preloaded_share = match dealt.self_share {
        Some(msg) => Some((i_local, msg)),
        None => None,
    };
    let next = match pregenerated {
        Some(primes) => Ok(
            Some(
                Receiver {
                    sid,
                    my_new_index: i_local,
                    config,
                    primes,
                    preloaded_share,
                    self_commitment: Some(self_commitment),
                    reliable_broadcast: reliable_broadcast_enforced,
                },
            ),
        ),
        None => Err(DynamicReshareError::InternalError(Bug::PaillierKeyError)),
    };
    Ok(DealerRun { commitment: dealt.commitment, shares: dealt.shares, next })
}

/// Where a party is not among the receivers, a share is sent to all of them.
proof fn lemma_nobody_retained(parties: Seq<u16>, party: u16)
    requires
        !parties.contains(party),
    ensures
        sent_positions(parties, Some(party)) == sent_positions(parties, None),
    decreases parties.len(),
{
    if parties.len() > 0 {
        let before = parties.drop_last();
        assert(!before.contains(party)) by {
            if before.contains(party) {
                let k = choose|k: int| 0 <= k < before.len() && before[k] == party;
                assert(parties[k] == party);
            }
        }
        assert(parties[parties.len() - 1] != party);
        lemma_nobody_retained(before, party);
    }
}

} // verus!
