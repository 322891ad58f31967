//! What each operation of the protocol does, in elementary terms: over the lists and maps that go
//! in, sums and products of all their elements, and the equations that a proof satisfies.
use crate::algebra::{eval, law_eval_is_a_sum_of_powers, law_sum_over_takes_every_key};
use crate::config::ReshareConfig;
use crate::dealer::{
    are_share_msgs, coordinates, is_dealt_secret, is_share_msg, is_weight, no_weight,
    sent_positions, DealerRun, Distribution,
};
use crate::interpolation::is_coefficient;
use crate::key_share::{IncompleteKeyShare, KeyShare, PartyAux, VssSetup};
use crate::messages::{
    MsgAuxInfo, MsgFeldmanCommitment, MsgFinalProofs, MsgReliabilityCheck, MsgShareDistribution,
    PaillierProofs,
};
use crate::order::law_ascending_is_the_sorted_list;
use crate::receiver::{
    aux_check, aux_of, commitments_hash, contributions, digested_commitments, with_own_commitment,
    with_own_share, AwaitProofs, AwaitShares, OwnAux, Receiver,
};
use crate::seqs::{first_at, last_at, law_positions};
use crate::suite::{encodings, logs, vals, Group};
use crate::sums::{
    committed_key, committed_share, committed_values, constant_term_check, constant_terms,
    dealt_share, dealt_values, have_constant_terms, nonzero_check, share_check, share_verifies,
};
use crate::unambiguous::{HASH_COMMITMENT_TAG, SCHNORR_CHALLENGE_TAG, SHARE_PROOF_TAG};
use vstd::arithmetic::power::pow;
use vstd::prelude::*;

verus! {

/// A threshold that was set is the threshold; without one it is the number of new participants,
/// counted in 16 bits.
pub proof fn law_threshold_is_what_was_set<S: Group>(config: ReshareConfig<S>)
    ensures
        config.new_threshold matches Some(t) ==> config.threshold() == t,
        config.new_threshold is None && config.new_parties@.len() <= u16::MAX
            ==> config.threshold() == config.new_parties@.len(),
        config.new_threshold is None ==> config.threshold() == config.new_parties@.len() % 0x1_0000,
{
}

/// Indices of stored shares, where any are given, are those that select the coordinates;
/// without any, the indices of the old parties are.
pub proof fn law_stored_indices_are_used<S: Group>(config: ReshareConfig<S>)
    ensures
        config.old_core_indices@.len() > 0 ==> config.core_indices() == config.old_core_indices@,
        config.old_core_indices@.len() == 0 ==> config.core_indices() == config.old_parties@,
{
}

/// The list that `indices` are: those of the stored shares, or else those of the old parties.
proof fn lemma_indices<S: Group>(config: ReshareConfig<S>, indices: Seq<u16>)
    requires
        config.old_core_indices@.len() > 0 ==> indices == config.old_core_indices@,
        config.old_core_indices@.len() == 0 ==> indices == config.old_parties@,
    ensures
        indices == config.core_indices(),
{
    assert(indices =~= config.core_indices());
}

/// The share with index `core_index` of a threshold key is weighted with the interpolation
/// coefficient of its place among the nodes of all shares that take part: `nodes[j]` is the
/// coordinate of the share with index `indices[j]`. A share that does not take part has weight
/// zero. There is no weight where another node is zero or equals the share's own.
pub proof fn law_weight_is_the_coefficient_of_the_share<S: Group>(
    setup: VssSetup<S>,
    core_index: u16,
    config: ReshareConfig<S>,
    weight: int,
    indices: Seq<u16>,
    nodes: Seq<int>,
)
    requires
        config.old_core_indices@.len() > 0 ==> indices == config.old_core_indices@,
        config.old_core_indices@.len() == 0 ==> indices == config.old_parties@,
        nodes.len() == indices.len(),
        forall|j: int|
            0 <= j < nodes.len() && indices[j] < setup.I@.len() ==> #[trigger] nodes[j]
                == setup.I@[indices[j] as int].val(),
        forall|j: int|
            0 <= j < nodes.len() && indices[j] >= setup.I@.len() ==> #[trigger] nodes[j]
                == indices[j] + 1,
    ensures
        match indices.index_of_first(core_index) {
            Some(k) => {
                &&& is_weight(Some(setup), core_index, config, weight) <==> is_coefficient(
                    nodes,
                    k,
                    weight,
                    S::order(),
                )
                &&& no_weight(Some(setup), core_index, config) <==> exists|m: int|
                    0 <= m < nodes.len() && m != k && (#[trigger] nodes[m] == nodes[k] || nodes[m]
                        == 0)
            },
            None => {
                &&& is_weight(Some(setup), core_index, config, weight) <==> weight == 0
                &&& !no_weight(Some(setup), core_index, config)
            },
        },
{
    lemma_indices(config, indices);
    assert(coordinates(setup, config) =~= nodes);
    indices.index_of_first_ensures(core_index);
    match indices.index_of_first(core_index) {
        Some(k) => {
            law_positions(indices, core_index, k);
            assert(first_at(config.core_indices(), core_index, k));
            assert forall|p: int| #[trigger] first_at(config.core_indices(), core_index, p) implies p
                == k by {
                law_positions(indices, core_index, p);
            }
        },
        None => {
            assert forall|p: int| !#[trigger] first_at(config.core_indices(), core_index, p) by {
                law_positions(indices, core_index, p);
            }
        },
    }
}

/// A share of an additively shared key is dealt as it is.
pub proof fn law_additive_share_is_dealt_as_it_is<S: Group>(
    core: IncompleteKeyShare<S>,
    config: ReshareConfig<S>,
    weight: int,
    secret: int,
)
    requires
        core.key_info.vss_setup is None,
    ensures
        is_weight(core.key_info.vss_setup, core.i, config, weight) <==> weight == 1,
        !no_weight(core.key_info.vss_setup, core.i, config),
        is_dealt_secret(core, config, secret) <==> secret == core.x.val() % S::order(),
{
    S::lemma_order();
    assert(1 * core.x.val() == core.x.val());
    assert(is_weight(core.key_info.vss_setup, core.i, config, 1));
}

/// What is dealt is the share times a weight of the share, reduced; and whatever is such a
/// product may be dealt.
pub proof fn law_dealt_secret_is_the_weighted_share<S: Group>(
    core: IncompleteKeyShare<S>,
    config: ReshareConfig<S>,
    secret: int,
)
    ensures
        is_dealt_secret(core, config, secret) <==> exists|weight: int|
            0 <= weight < S::order() && #[trigger] is_weight(
                core.key_info.vss_setup,
                core.i,
                config,
                weight,
            ) && secret == (weight * core.x.val()) % S::order(),
{
}

/// The message for a receiver holds the value of the polynomial at the receiver's index plus
/// one, the generator times the nonce, and the response of a Schnorr proof for that value, whose
/// challenge is bound to the execution, the dealer, the receiver and the generator times the
/// value.
pub proof fn law_share_message<S: Group>(
    msg: MsgShareDistribution<S>,
    coefs: Seq<int>,
    sid: Seq<u8>,
    dealer: u16,
    receiver: u16,
    nonce: int,
)
    ensures
        is_share_msg(msg, coefs, sid, dealer, receiver, nonce) <==> {
            &&& msg.share.val() == Seq::new(
                coefs.len(),
                |i: int| coefs[i] * pow(receiver + 1, i as nat),
            ).fold_left(0int, |acc: int, t: int| acc + t) % S::order()
            &&& msg.schnorr_commit.log() == nonce
            &&& msg.schnorr_proof.val() == (nonce + S::hash_share_proof(
                SHARE_PROOF_TAG@,
                sid,
                dealer,
                receiver,
                S::multiple(msg.share.val()),
            ) * msg.share.val()) % S::order()
        },
{
    law_eval_is_a_sum_of_powers(coefs, receiver + 1);
}

/// The addressees of the sent positions are all parties but the retained one, in order.
proof fn lemma_addressees(parties: Seq<u16>, retained: Option<u16>)
    ensures
        ({
            let at = sent_positions(parties, retained);
            &&& forall|j: int| 0 <= j < at.len() ==> 0 <= #[trigger] at[j] < parties.len()
            &&& Seq::new(at.len(), |j: int| parties[at[j]]) == parties.filter(
                |p: u16| retained != Some(p),
            )
        }),
    decreases parties.len(),
{
    reveal(Seq::filter);
    if parties.len() > 0 {
        let (before, last) = (parties.drop_last(), parties.last());
        lemma_addressees(before, retained);
        let (a, b) = (sent_positions(before, retained), sent_positions(parties, retained));
        let kept = before.filter(|p: u16| retained != Some(p));
        assert(Seq::new(a.len(), |j: int| parties[a[j]]) =~= Seq::new(
            a.len(),
            |j: int| before[a[j]],
        ));
        assert forall|j: int| 0 <= j < b.len() implies 0 <= #[trigger] b[j] < parties.len() by {
            if j < a.len() {
                assert(a[j] == b[j]);
            }
        }
        if retained != Some(last) {
            assert(Seq::new(b.len(), |j: int| parties[b[j]]) =~= kept.push(last));
        }
    } else {
        let at = sent_positions(parties, retained);
        assert(Seq::new(at.len(), |j: int| parties[at[j]]) =~= parties.filter(
            |p: u16| retained != Some(p),
        ));
    }
}

/// Messages that are sent go to all new participants but the retained one, in their order. Each
/// holds the value of the polynomial at the index of its own addressee plus one, and a Schnorr
/// proof of that value which verifies for this dealer and this addressee.
pub proof fn law_messages_suit_their_addressees<S: Group>(
    shares: Seq<(u16, MsgShareDistribution<S>)>,
    coefs: Seq<int>,
    sid: Seq<u8>,
    dealer: u16,
    parties: Seq<u16>,
    retained: Option<u16>,
    nonces: Seq<int>,
)
    requires
        are_share_msgs(
            shares,
            sent_positions(parties, retained),
            coefs,
            sid,
            dealer,
            parties,
            nonces,
        ),
    ensures
        Seq::new(shares.len(), |j: int| shares[j].0) == parties.filter(
            |p: u16| retained != Some(p),
        ),
        forall|j: int|
            #![trigger shares[j]]
            0 <= j < shares.len() ==> {
                let (to, msg) = shares[j];
                let k = sent_positions(parties, retained)[j];
                &&& 0 <= k < parties.len() && parties[k] == to
                &&& msg.share.val() == eval(coefs, to + 1) % S::order()
                &&& msg.schnorr_commit.log() == nonces[k]
                &&& msg.schnorr_proof.val() == (msg.schnorr_commit.log() + S::hash_share_proof(
                    SHARE_PROOF_TAG@,
                    sid,
                    dealer,
                    to,
                    S::multiple(msg.share.val()),
                ) * msg.share.val()) % S::order()
            },
{
    let at = sent_positions(parties, retained);
    lemma_addressees(parties, retained);
    assert forall|j: int| 0 <= j < shares.len() implies shares[j].0 == parties[#[trigger] at[j]] by {
        assert(shares[j].0 == parties[at[j]]);
    }
    assert(Seq::new(shares.len(), |j: int| shares[j].0) =~= Seq::new(
        at.len(),
        |j: int| parties[at[j]],
    ));
}

/// A distribution commits to all coefficients of the polynomial. Every message in it suits its
/// addressee, so that the share verifies against the commitment for whom it is addressed to. A
/// retained dealer keeps the share at its own index, and nobody else keeps one.
pub proof fn law_distribution_serves_every_receiver<S: Group>(
    dealt: Distribution<S>,
    coefs: Seq<int>,
    sid: Seq<u8>,
    dealer: u16,
    parties: Seq<u16>,
    retained: Option<u16>,
    nonces: Seq<int>,
)
    requires
        dealt.distributes(coefs, sid, dealer, parties, retained, nonces),
    ensures
        dealt.commitment.commitment@.len() == coefs.len(),
        forall|i: int|
            0 <= i < coefs.len() ==> (#[trigger] dealt.commitment.commitment@[i]).log() == coefs[i],
        Seq::new(dealt.shares@.len(), |j: int| dealt.shares@[j].0) == parties.filter(
            |p: u16| retained != Some(p),
        ),
        forall|j: int|
            #![trigger dealt.shares@[j]]
            0 <= j < dealt.shares@.len() ==> {
                let (to, msg) = dealt.shares@[j];
                &&& msg.share.val() == eval(logs(dealt.commitment.commitment@), to + 1)
                    % S::order()
                &&& msg.schnorr_proof.val() == (msg.schnorr_commit.log() + S::hash_share_proof(
                    SHARE_PROOF_TAG@,
                    sid,
                    dealer,
                    to,
                    S::multiple(msg.share.val()),
                ) * msg.share.val()) % S::order()
            },
        forall|map: Map<u16, MsgFeldmanCommitment<S>>, received: Map<u16, MsgShareDistribution<S>>,
            j: int|
            #![trigger map.contains_key(dealer), received[dealer], dealt.shares@[j]]
            0 <= j < dealt.shares@.len() && map.contains_key(dealer) && map[dealer]
                == dealt.commitment && received[dealer] == dealt.shares@[j].1 ==> share_verifies(
                map,
                received,
                dealt.shares@[j].0,
                dealer,
            ),
        dealt.self_share is Some <==> retained is Some && parties.contains(retained->0),
        dealt.self_share matches Some(msg) ==> {
            &&& msg.share.val() == eval(coefs, retained->0 + 1) % S::order()
            &&& msg.schnorr_commit.log() == nonces[parties.index_of_last(retained->0)->0]
            &&& msg.schnorr_proof.val() == (msg.schnorr_commit.log() + S::hash_share_proof(
                SHARE_PROOF_TAG@,
                sid,
                dealer,
                retained->0,
                S::multiple(msg.share.val()),
            ) * msg.share.val()) % S::order()
        },
{
    law_messages_suit_their_addressees(
        dealt.shares@,
        coefs,
        sid,
        dealer,
        parties,
        retained,
        nonces,
    );
    let points = dealt.commitment.commitment@;
    assert(logs(points).len() == points.len());
    assert forall|i: int| 0 <= i < coefs.len() implies (#[trigger] points[i]).log() == coefs[i] by {
        assert(logs(points)[i] == points[i].log());
    }
    if let Some(msg) = dealt.self_share {
        let me = retained->0;
        let k = choose|k: int| #[trigger]
            last_at(parties, me, k) && retained is Some && is_share_msg(
                msg,
                coefs,
                sid,
                dealer,
                parties[k],
                nonces[k],
            );
        law_positions(parties, me, k);
        parties.index_of_last_ensures(me);
    }
}

/// A dealer sends the commitment to all coefficients and messages that suit their addressees:
/// all new participants but itself. A share that it sends verifies against its own commitment for
/// the addressee.
pub proof fn law_dealer_run_serves_every_receiver<'a, S: Group>(
    run: DealerRun<'a, S>,
    coefs: Seq<int>,
    sid: Seq<u8>,
    dealer: u16,
    config: ReshareConfig<S>,
    nonces: Seq<int>,
)
    requires
        run.sends(coefs, sid, dealer, config, nonces),
    ensures
        run.commitment.commitment@.len() == coefs.len(),
        forall|i: int|
            0 <= i < coefs.len() ==> (#[trigger] run.commitment.commitment@[i]).log() == coefs[i],
        Seq::new(run.shares@.len(), |j: int| run.shares@[j].0) == config.new_parties@.filter(
            |p: u16| p != dealer,
        ),
        forall|j: int|
            #![trigger run.shares@[j]]
            0 <= j < run.shares@.len() ==> {
                let (to, msg) = run.shares@[j];
                &&& msg.share.val() == eval(logs(run.commitment.commitment@), to + 1) % S::order()
                &&& msg.schnorr_proof.val() == (msg.schnorr_commit.log() + S::hash_share_proof(
                    SHARE_PROOF_TAG@,
                    sid,
                    dealer,
                    to,
                    S::multiple(msg.share.val()),
                ) * msg.share.val()) % S::order()
                &&& msg.schnorr_commit.log() == nonces[sent_positions(
                    config.new_parties@,
                    Some(dealer),
                )[j]]
            },
{
    let parties = config.new_parties@;
    law_messages_suit_their_addressees(
        run.shares@,
        coefs,
        sid,
        dealer,
        parties,
        Some(dealer),
        nonces,
    );
    lemma_filter_agree(parties, dealer);
    let points = run.commitment.commitment@;
    assert(logs(points).len() == points.len());
    assert forall|i: int| 0 <= i < coefs.len() implies (#[trigger] points[i]).log() == coefs[i] by {
        assert(logs(points)[i] == points[i].log());
    }
}

proof fn lemma_filter_agree(parties: Seq<u16>, party: u16)
    ensures
        parties.filter(|p: u16| Some(party) != Some(p)) == parties.filter(|p: u16| p != party),
    decreases parties.len(),
{
    reveal(Seq::filter);
    if parties.len() > 0 {
        lemma_filter_agree(parties.drop_last(), party);
    }
}

/// A retained dealer goes on under its own index, in the same execution and configuration. The
/// share that it has at hand is the one that it dealt to itself, which verifies against the
/// commitment that it sent.
pub proof fn law_retained_dealer_goes_on_with_its_own<'a, S: Group>(
    run: DealerRun<'a, S>,
    receiver: Receiver<'a, S>,
    coefs: Seq<int>,
    sid: Seq<u8>,
    dealer: u16,
    config: ReshareConfig<S>,
    nonces: Seq<int>,
)
    requires
        run.sends(coefs, sid, dealer, config, nonces),
        run.goes_on(receiver, coefs, sid, dealer, config, nonces),
    ensures
        receiver.sid@ == sid,
        receiver.my_new_index == dealer,
        receiver.config == config,
        match (receiver.preloaded_share, receiver.self_commitment) {
            (Some((index, msg)), Some(own)) => {
                &&& index == dealer
                &&& own.commitment@.len() == run.commitment.commitment@.len()
                &&& forall|i: int|
                    #![trigger own.commitment@[i]]
                    0 <= i < own.commitment@.len() ==> own.commitment@[i].encoding()
                        == run.commitment.commitment@[i].encoding() && own.commitment@[i].log()
                        == run.commitment.commitment@[i].log()
                &&& msg.share.val() == eval(logs(run.commitment.commitment@), dealer + 1)
                    % S::order()
                &&& msg.schnorr_commit.log() == nonces[config.new_parties@.index_of_last(
                    dealer,
                )->0]
                &&& msg.schnorr_proof.val() == (msg.schnorr_commit.log() + S::hash_share_proof(
                    SHARE_PROOF_TAG@,
                    sid,
                    dealer,
                    dealer,
                    S::multiple(msg.share.val()),
                ) * msg.share.val()) % S::order()
            },
            _ => false,
        },
{
    let (a, b) = (receiver.self_commitment->0.commitment@, run.commitment.commitment@);
    assert(encodings(a).len() == a.len() && encodings(b).len() == b.len());
    assert forall|i: int| 0 <= i < a.len() implies (#[trigger] a[i]).encoding() == b[i].encoding()
        && a[i].log() == b[i].log() by {
        assert(encodings(a)[i] == encodings(b)[i]);
    }
    if let Some((index, msg)) = receiver.preloaded_share {
        let k = choose|k: int| #[trigger]
            last_at(config.new_parties@, dealer, k) && is_share_msg(
                msg,
                coefs,
                sid,
                dealer,
                dealer,
                nonces[k],
            );
        law_positions(config.new_parties@, dealer, k);
    }
}

/// Commitments are waited for from all old parties but the participant itself, and so are shares,
/// except that of a dealer whose share is at hand.
pub proof fn law_rounds_wait_for_the_dealers<'a, S: Group>(receiver: Receiver<'a, S>, d: u16)
    ensures
        receiver.commitment_senders().contains(d) <==> receiver.config.old_parties@.contains(d) && d
            != receiver.my_new_index,
        receiver.share_senders().contains(d) <==> {
            &&& receiver.config.old_parties@.contains(d)
            &&& d != receiver.my_new_index
            &&& match receiver.preloaded_share {
                Some((dealer, _)) => d != dealer,
                None => true,
            }
        },
{
}

/// Auxiliary data is accepted from the participant itself, and from anyone else who sent some
/// and whose proof verified. What is kept of a party is what it sent, and of the participant
/// itself what it drew.
pub proof fn law_auxiliary_data<Z: PaillierProofs>(
    own: OwnAux,
    me: u16,
    msgs: Map<u16, MsgAuxInfo<Z>>,
    prm_valid: Set<u16>,
    party: u16,
    kept: PartyAux,
)
    ensures
        aux_check(me, msgs, prm_valid)(party) <==> (party != me ==> msgs.contains_key(party)
            && prm_valid.contains(party)),
        kept.numbers() == aux_of(own, me, msgs, party) && party == me ==> kept.N@ == own.N@
            && kept.s@ == own.s@ && kept.t@ == own.t@,
        kept.numbers() == aux_of(own, me, msgs, party) && party != me ==> kept.N@ == msgs[party].N@
            && kept.s@ == msgs[party].s@ && kept.t@ == msgs[party].t@,
        contributions(msgs)(party) == msgs[party].rho_bytes@,
{
}

/// A participant that has its own commitment and share at hand adds both to what it received,
/// under its index as a dealer, and changes nothing else.
pub proof fn law_own_messages_join_those_received<S: Group>(
    commitments: Map<u16, MsgFeldmanCommitment<S>>,
    shares: Map<u16, MsgShareDistribution<S>>,
    own: Option<MsgFeldmanCommitment<S>>,
    preloaded: Option<(u16, MsgShareDistribution<S>)>,
    d: u16,
)
    ensures
        match (own, preloaded) {
            (Some(commitment), Some((dealer, _))) => {
                let all = with_own_commitment(commitments, own, preloaded);
                &&& all.contains_key(d) <==> commitments.contains_key(d) || d == dealer
                &&& all[dealer] == commitment
                &&& d != dealer ==> all[d] == commitments[d]
            },
            _ => with_own_commitment(commitments, own, preloaded) == commitments,
        },
        match preloaded {
            Some((dealer, share)) => {
                let all = with_own_share(shares, preloaded);
                &&& all.contains_key(d) <==> shares.contains_key(d) || d == dealer
                &&& all[dealer] == share
                &&& d != dealer ==> all[d] == shares[d]
            },
            None => with_own_share(shares, preloaded) == shares,
        },
{
}

/// The digest of a reliability check is taken over one entry for each dealer, in ascending
/// order: the execution, the dealer and the encodings of all points of its commitment.
pub proof fn law_digest_takes_every_commitment<S: Group>(
    sid: Seq<u8>,
    commitments: Map<u16, MsgFeldmanCommitment<S>>,
    dealers: Seq<u16>,
    entries: Seq<(Seq<u8>, u16, Seq<Seq<u8>>)>,
)
    requires
        forall|d: u16| #[trigger] dealers.contains(d) <==> commitments.contains_key(d),
        forall|i: int, j: int| 0 <= i < j < dealers.len() ==> dealers[i] < dealers[j],
        entries.len() == dealers.len(),
        forall|k: int|
            #![trigger entries[k]]
            0 <= k < entries.len() ==> {
                let points = commitments[dealers[k]].commitment@;
                &&& entries[k].0 == sid
                &&& entries[k].1 == dealers[k]
                &&& entries[k].2 == Seq::new(points.len(), |i: int| points[i].encoding())
            },
    ensures
        commitments_hash(sid, commitments) == S::hash_commitments(HASH_COMMITMENT_TAG@, entries),
{
    let dom = commitments.dom();
    assert forall|d: u16| #[trigger] dealers.contains(d) <==> dom.contains(d) by {
        assert(commitments.contains_key(d) <==> dom.contains(d));
    }
    law_ascending_is_the_sorted_list(dom, dealers);
    let digested = digested_commitments(sid, commitments);
    assert forall|k: int| 0 <= k < entries.len() implies #[trigger] digested[k] == entries[k] by {
        let points = commitments[dealers[k]].commitment@;
        assert(encodings(points) =~= Seq::new(points.len(), |i: int| points[i].encoding()));
    }
    assert(digested =~= entries);
}

/// `dealers` lists the keys of a map, each once.
proof fn lemma_listed_keys<V>(map: Map<u16, V>, dealers: Seq<u16>)
    requires
        forall|d: u16| #[trigger] dealers.contains(d) <==> map.contains_key(d),
    ensures
        dealers.to_set() == map.dom(),
{
    assert(dealers.to_set() =~= map.dom());
}

/// The public key that is accepted is the shared one, and no other: the constant terms of all
/// dealers, however many there are, add up to it.
pub proof fn law_accepted_key_is_the_shared_key<'a, S: Group>(
    state: AwaitShares<'a, S>,
    dealers: Seq<u16>,
)
    requires
        dealers.no_duplicates(),
        forall|d: u16| #[trigger] dealers.contains(d) <==> state.commitments@.contains_key(d),
    ensures
        state.key_kept() <==> state.session.config.shared_public_key.log() == Seq::new(
            dealers.len(),
            |k: int| state.commitments@[dealers[k]].commitment@[0].log(),
        ).fold_left(0int, |acc: int, x: int| acc + x) % S::order(),
        committed_key(state.commitments@) == Seq::new(
            dealers.len(),
            |k: int| state.commitments@[dealers[k]].commitment@[0].log(),
        ).fold_left(0int, |acc: int, x: int| acc + x) % S::order(),
{
    let f = constant_terms(state.commitments@);
    lemma_listed_keys(state.commitments@, dealers);
    law_sum_over_takes_every_key(dealers, f);
    assert(Seq::new(dealers.len(), |k: int| f(dealers[k])) =~= Seq::new(
        dealers.len(),
        |k: int| state.commitments@[dealers[k]].commitment@[0].log(),
    ));
}

/// The new share is the sum of the shares of all dealers, however many there are.
pub proof fn law_new_share_adds_up_all_shares<S: Group>(
    shares: Map<u16, MsgShareDistribution<S>>,
    dealers: Seq<u16>,
)
    requires
        dealers.no_duplicates(),
        forall|d: u16| #[trigger] dealers.contains(d) <==> shares.contains_key(d),
    ensures
        dealt_share(shares) == Seq::new(
            dealers.len(),
            |k: int| shares[dealers[k]].share.val(),
        ).fold_left(0int, |acc: int, x: int| acc + x) % S::order(),
{
    let f = dealt_values(shares);
    lemma_listed_keys(shares, dealers);
    law_sum_over_takes_every_key(dealers, f);
    assert(Seq::new(dealers.len(), |k: int| f(dealers[k])) =~= Seq::new(
        dealers.len(),
        |k: int| shares[dealers[k]].share.val(),
    ));
}

/// The public share of a party is the sum, over all dealers, of the values of the polynomials
/// that they committed to at the index of the party plus one; it is accepted unless it is zero.
pub proof fn law_public_share_adds_up_all_values<S: Group>(
    commitments: Map<u16, MsgFeldmanCommitment<S>>,
    dealers: Seq<u16>,
    party: u16,
)
    requires
        dealers.no_duplicates(),
        forall|d: u16| #[trigger] dealers.contains(d) <==> commitments.contains_key(d),
    ensures
        committed_share(commitments, party) == Seq::new(
            dealers.len(),
            |k: int| eval(logs(commitments[dealers[k]].commitment@), party + 1),
        ).fold_left(0int, |acc: int, x: int| acc + x) % S::order(),
        nonzero_check(commitments)(party) <==> committed_share(commitments, party) != 0,
{
    let f = committed_values(commitments, party + 1);
    lemma_listed_keys(commitments, dealers);
    law_sum_over_takes_every_key(dealers, f);
    assert(Seq::new(dealers.len(), |k: int| f(dealers[k])) =~= Seq::new(
        dealers.len(),
        |k: int| eval(logs(commitments[dealers[k]].commitment@), party + 1),
    ));
}

/// A share is accepted exactly when its dealer sent a commitment, and the share is the sum of
/// the committed coefficients, each times its power of the receiver's index plus one.
pub proof fn law_accepted_share_is_the_committed_one<S: Group>(
    commitments: Map<u16, MsgFeldmanCommitment<S>>,
    shares: Map<u16, MsgShareDistribution<S>>,
    me: u16,
    dealer: u16,
)
    ensures
        ({
            let points = commitments[dealer].commitment@;
            share_check(commitments, shares, me)(dealer) <==> {
                &&& commitments.contains_key(dealer)
                &&& shares[dealer].share.val() == Seq::new(
                    points.len(),
                    |i: int| points[i].log() * pow(me + 1, i as nat),
                ).fold_left(0int, |acc: int, t: int| acc + t) % S::order()
            }
        }),
        share_verifies(commitments, shares, me, dealer) <==> share_check(commitments, shares, me)(
            dealer,
        ),
{
    let points = commitments[dealer].commitment@;
    law_eval_is_a_sum_of_powers(logs(points), me + 1);
    assert(Seq::new(points.len(), |i: int| points[i].log() * pow(me + 1, i as nat)) =~= Seq::new(
        logs(points).len(),
        |i: int| logs(points)[i] * pow(me + 1, i as nat),
    ));
}

/// A commitment is accepted exactly when it is not empty.
pub proof fn law_commitments_may_not_be_empty<S: Group>(
    commitments: Map<u16, MsgFeldmanCommitment<S>>,
    dealer: u16,
)
    ensures
        constant_term_check(commitments)(dealer) <==> commitments[dealer].commitment@.len() > 0,
        have_constant_terms(commitments) <==> forall|d: u16| #[trigger]
            commitments.contains_key(d) ==> commitments[d].commitment@.len() > 0,
{
    if forall|d: u16| #[trigger]
        commitments.contains_key(d) ==> commitments[d].commitment@.len() > 0 {
        assert forall|d: u16| #[trigger] commitments.dom().contains(d) implies constant_term_check(
            commitments,
        )(d) by {
            assert(commitments.contains_key(d));
        }
    }
    if have_constant_terms(commitments) {
        assert forall|d: u16| #[trigger] commitments.contains_key(d) implies commitments[d].commitment@.len()
            > 0 by {
            assert(constant_term_check(commitments)(d));
        }
    }
}

/// A participant that waits for final proofs has a public share for each new participant, and
/// stands where it is first listed.
pub proof fn law_participant_knows_its_position<'a, S: Group>(state: AwaitProofs<'a, S>)
    ensures
        state.wf() <==> {
            &&& state.public_shares@.len() == state.session.config.new_parties@.len()
            &&& state.session.config.new_parties@.index_of_first(state.session.my_new_index)
                == Some(state.my_position as int)
        },
{
    law_positions(
        state.session.config.new_parties@,
        state.session.my_new_index,
        state.my_position as int,
    );
}

/// The final message of a participant holds its own public share, the generator times the
/// nonce, and the response of a Schnorr proof for its share, whose challenge is bound to the
/// execution, the collective randomness and the participant.
pub proof fn law_final_message<'a, S: Group, Z: PaillierProofs>(
    state: AwaitProofs<'a, S>,
    msg: MsgFinalProofs<S, Z>,
    nonce: int,
)
    ensures
        state.proves_share(msg, nonce) <==> {
            &&& msg.public_share.log() == state.public_shares@[state.my_position as int].log()
            &&& msg.schnorr_commit.log() == nonce
            &&& msg.schnorr_proof.val() == (nonce + S::hash_schnorr_challenge(
                SCHNORR_CHALLENGE_TAG@,
                state.session.sid@,
                state.session.rho@,
                state.session.my_new_index,
            ) * state.share.val()) % S::order()
        },
{
}

/// The final proofs of another new participant are accepted exactly when it sent some, both
/// proofs on its Paillier modulus verified, its public share is the one that was computed for it,
/// and its Schnorr proof satisfies the verification equation for that public share, however many
/// new participants there are. The participant itself is not checked.
pub proof fn law_accepted_final_proofs_hold<'a, S: Group, Z: PaillierProofs>(
    state: AwaitProofs<'a, S>,
    msgs: Map<u16, MsgFinalProofs<S, Z>>,
    mod_valid: Set<u16>,
    fac_valid: Set<u16>,
    party: u16,
)
    ensures
        ({
            let msg = msgs[party];
            let at = state.session.config.new_parties@.index_of_first(party);
            state.final_check(msgs, mod_valid, fac_valid)(party) <==> (party
                != state.session.my_new_index ==> {
                &&& msgs.contains_key(party)
                &&& mod_valid.contains(party)
                &&& fac_valid.contains(party)
                &&& at is Some
                &&& msg.public_share.log() == state.public_shares@[at->0].log()
                &&& msg.schnorr_proof.val() == (msg.schnorr_commit.log()
                    + S::hash_schnorr_challenge(
                    SCHNORR_CHALLENGE_TAG@,
                    state.session.sid@,
                    state.session.rho@,
                    party,
                ) * msg.public_share.log()) % S::order()
            })
        }),
{
    let parties = state.session.config.new_parties@;
    let at = parties.index_of_first(party);
    parties.index_of_first_ensures(party);
    assert forall|k: int| #[trigger] first_at(parties, party, k) <==> at == Some(k) by {
        law_positions(parties, party, k);
    }
    if at is Some {
        assert(first_at(parties, party, at->0));
    }
}

/// The new key share: the position of its holder as the index, the new share, the unchanged
/// public key, the public shares, the threshold that was set, the index plus one of each new
/// participant as its coordinate, and the primes and auxiliary data of the run.
pub proof fn law_assembled_key_share<'a, S: Group>(
    state: AwaitProofs<'a, S>,
    key_share: KeyShare<S>,
)
    requires
        state.assembles(key_share),
    ensures
        ({
            let config = state.session.config;
            let parties = config.new_parties@;
            let info = key_share.core.key_info;
            &&& state.my_position < 0x1_0000 ==> key_share.core.i == state.my_position
            &&& key_share.core.i == state.my_position % 0x1_0000
            &&& key_share.core.x.val() == state.share.val()
            &&& info.shared_public_key.encoding() == config.shared_public_key.encoding()
            &&& info.shared_public_key.log() == config.shared_public_key.log()
            &&& info.public_shares@ == state.public_shares@
            &&& info.vss_setup is Some
            &&& config.new_threshold matches Some(t) ==> info.vss_setup->0.min_signers == t
            &&& config.new_threshold is None ==> info.vss_setup->0.min_signers == parties.len()
                % 0x1_0000
            &&& info.vss_setup->0.I@.len() == parties.len()
            &&& forall|k: int|
                0 <= k < parties.len() ==> (#[trigger] info.vss_setup->0.I@[k]).val() == parties[k]
                    + 1
            &&& key_share.aux.p@ == state.session.primes.p@
            &&& key_share.aux.q@ == state.session.primes.q@
            &&& key_share.aux.parties@ == state.session.auxes@
        }),
{
    let parties = state.session.config.new_parties@;
    let nodes = key_share.core.key_info.vss_setup->0.I@;
    assert(vals(nodes).len() == nodes.len());
    assert forall|k: int| 0 <= k < parties.len() implies (#[trigger] nodes[k]).val() == parties[k]
        + 1 by {
        assert(vals(nodes)[k] == nodes[k].val());
    }
}

/// A copy of a message holds what the message holds.
pub proof fn law_copies_hold_the_same<S: Group>(
    commitment: MsgFeldmanCommitment<S>,
    commitment_copy: MsgFeldmanCommitment<S>,
    share: MsgShareDistribution<S>,
    share_copy: MsgShareDistribution<S>,
    hash: MsgReliabilityCheck,
    hash_copy: MsgReliabilityCheck,
)
    ensures
        commitment.copies(commitment_copy) ==> {
            let (a, b) = (commitment.commitment@, commitment_copy.commitment@);
            &&& a.len() == b.len()
            &&& forall|i: int|
                0 <= i < a.len() ==> (#[trigger] a[i]).encoding() == b[i].encoding() && a[i].log()
                    == b[i].log()
        },
        share.copies(share_copy) ==> share.share.val() == share_copy.share.val()
            && share.schnorr_proof.val() == share_copy.schnorr_proof.val()
            && share.schnorr_commit.encoding() == share_copy.schnorr_commit.encoding()
            && share.schnorr_commit.log() == share_copy.schnorr_commit.log(),
        hash.copies(hash_copy) ==> hash.0@ == hash_copy.0@,
{
    let (a, b) = (commitment.commitment@, commitment_copy.commitment@);
    if commitment.copies(commitment_copy) {
        assert(encodings(a).len() == a.len() && encodings(b).len() == b.len());
        assert forall|i: int| 0 <= i < a.len() implies (#[trigger] a[i]).encoding()
            == b[i].encoding() && a[i].log() == b[i].log() by {
            assert(encodings(a)[i] == encodings(b)[i]);
        }
    }
}

/// A copy of a message with proofs on a Paillier modulus holds what the message holds, and clones
/// of the proofs.
pub proof fn law_copies_of_proofs_hold_the_same<S: Group, Z: PaillierProofs>(
    aux: MsgAuxInfo<Z>,
    aux_copy: MsgAuxInfo<Z>,
    proofs: MsgFinalProofs<S, Z>,
    proofs_copy: MsgFinalProofs<S, Z>,
) where Z::Prm: Clone, Z::Mod: Clone, Z::Fac: Clone
    ensures
        aux.copies(aux_copy) ==> aux.N@ == aux_copy.N@ && aux.s@ == aux_copy.s@ && aux.t@
            == aux_copy.t@ && aux.rho_bytes@ == aux_copy.rho_bytes@ && cloned(
            aux.psi_prm,
            aux_copy.psi_prm,
        ),
        proofs.copies(proofs_copy) ==> proofs.public_share.encoding()
            == proofs_copy.public_share.encoding() && proofs.public_share.log()
            == proofs_copy.public_share.log() && proofs.schnorr_commit.encoding()
            == proofs_copy.schnorr_commit.encoding() && proofs.schnorr_commit.log()
            == proofs_copy.schnorr_commit.log() && proofs.schnorr_proof.val()
            == proofs_copy.schnorr_proof.val() && cloned(proofs.psi_mod, proofs_copy.psi_mod)
            && cloned(proofs.phi_fac, proofs_copy.phi_fac),
{
}

} // verus!
