//! What holds of a reshare as a whole.
use crate::algebra::{
    congruent, dot, eval, evals, lemma_congruent_mod, lemma_congruent_mul, lemma_dot_is_sum, lemma_dot_scaled,
    lemma_sum_of_polynomials, lemma_sum_over_agree, lemma_sum_over_congruent,
    lemma_sum_over_listed, sum, sum_of_coefs, sum_over,
};
use crate::config::ReshareConfig;
use crate::dealer::{
    coordinate, coordinates, is_dealt_secret, is_share_msg, is_weight, sent_positions,
};
use crate::interpolation::{are_coefficients, is_coefficient, law_interpolation_at_zero};
use crate::key_share::{IncompleteKeyShare, KeyShare, VssSetup};
use crate::messages::{
    MsgFeldmanCommitment, MsgFinalProofs, MsgReliabilityCheck, MsgShareDistribution,
    PaillierProofs,
};
use crate::order::{ascending, lemma_ascending};
use crate::receiver::{
    commitments_hash, digested_commitments, has_public_share, knows_share, with_own_commitment,
    with_own_share, AwaitHashes, AwaitProofs, AwaitShares, Receiver,
};
use crate::seqs::{all_ok, first_at};
use crate::suite::{encodings, logs, vals, Group};
use crate::sums::{
    committed_key, committed_share, committed_values, constant_terms, dealt_share, dealt_values,
    have_constant_terms, nonzero_check, share_check, share_verifies,
};
use crate::unambiguous::SHARE_PROOF_TAG;
use vstd::prelude::*;

verus! {

/// Each old party committed to the secret that it is to deal, as the constant term of its
/// polynomial; `cores[k]` is the old share of `old_parties[k]`.
pub open spec fn dealers_are_honest<S: Group>(
    cores: Seq<IncompleteKeyShare<S>>,
    config: ReshareConfig<S>,
    commitments: Map<u16, MsgFeldmanCommitment<S>>,
) -> bool {
    let dealers = config.old_parties@;
    &&& dealers.no_duplicates()
    &&& cores.len() == dealers.len()
    &&& commitments.dom() == dealers.to_set()
    &&& have_constant_terms(commitments)
    &&& forall|k: int|
        0 <= k < dealers.len() ==> is_dealt_secret(
            #[trigger] cores[k],
            config,
            constant_terms(commitments)(dealers[k]),
        )
}

/// The old shares are values of the polynomial `sharing`, each at the coordinate that the setup
/// of the key gives it; the indices of the shares are those that the configuration lists.
pub open spec fn threshold_shared<S: Group>(
    cores: Seq<IncompleteKeyShare<S>>,
    config: ReshareConfig<S>,
    xs: Seq<int>,
    sharing: Seq<int>,
) -> bool {
    let indices = config.core_indices();
    &&& indices.no_duplicates()
    &&& cores.len() == indices.len()
    &&& xs.len() == indices.len()
    &&& forall|k: int|
        #![trigger cores[k]]
        0 <= k < cores.len() ==> {
            &&& cores[k].i == indices[k]
            &&& cores[k].key_info.vss_setup is Some
            &&& coordinates(cores[k].key_info.vss_setup->0, config) == xs
            &&& cores[k].x.val() == eval(sharing, xs[k]) % S::order()
        }
}

/// The old shares add up to `secret`.
pub open spec fn additively_shared<S: Group>(
    cores: Seq<IncompleteKeyShare<S>>,
    secret: int,
) -> bool {
    &&& forall|k: int|
        0 <= k < cores.len() ==> (#[trigger] cores[k]).key_info.vss_setup is None
    &&& congruent(
        sum(Seq::new(cores.len(), |k: int| cores[k].x.val())),
        secret,
        S::order(),
    )
}

/// A threshold key keeps its public key: where at least as many dealers as the polynomial of
/// the old shares has coefficients deal what they are to deal, their commitments add up to the
/// value of that polynomial at zero.
pub proof fn law_threshold_key_is_kept<S: Group>(
    cores: Seq<IncompleteKeyShare<S>>,
    config: ReshareConfig<S>,
    commitments: Map<u16, MsgFeldmanCommitment<S>>,
    xs: Seq<int>,
    sharing: Seq<int>,
)
    requires
        dealers_are_honest(cores, config, commitments),
        threshold_shared(cores, config, xs, sharing),
        sharing.len() <= cores.len(),
    ensures
        committed_key(commitments) == eval(sharing, 0) % S::order(),
{
    let q = S::order();
    S::lemma_order();
    let dealers = config.old_parties@;
    let indices = config.core_indices();
    let n = cores.len();
    let f = constant_terms(commitments);
    let weighs = |k: int, w: int|
        is_coefficient(xs, k, w, q) && f(dealers[k]) == (w * cores[k].x.val()) % q;
    let ws = Seq::new(n, |k: int| choose|w: int| #[trigger] weighs(k, w));
    assert forall|k: int| 0 <= k < n implies weighs(k, #[trigger] ws[k]) by {
        let core = cores[k];
        let secret = f(dealers[k]);
        assert(is_dealt_secret(core, config, secret));
        let w = choose|w: int| #[trigger]
            is_weight(core.key_info.vss_setup, core.i, config, w) && 0 <= w < q && secret == (w
                * core.x.val()) % q;
        assert(indices[k] == core.i);
        assert(indices.contains(core.i));
        let vss = core.key_info.vss_setup->0;
        let pos = choose|pos: int| #[trigger]
            first_at(indices, core.i, pos) && is_coefficient(coordinates(vss, config), pos, w, q);
        assert(indices[pos] == indices[k]);
        assert(weighs(k, w));
    }
    assert(are_coefficients(xs, ws, q)) by {
        assert forall|k: int| 0 <= k < xs.len() implies is_coefficient(
            xs,
            k,
            #[trigger] ws[k],
            q,
        ) by {
            assert(weighs(k, ws[k]));
        }
    }
    let values = evals(sharing, xs);
    let terms = Seq::new(values.len(), |k: int| ws[k] * values[k]);
    assert forall|k: int| 0 <= k < dealers.len() implies congruent(
        f(#[trigger] dealers[k]),
        terms[k],
        q,
    ) by {
        assert(weighs(k, ws[k]));
        let x = cores[k].x.val();
        lemma_congruent_mod(values[k], q);
        assert(values[k] == eval(sharing, xs[k]));
        lemma_congruent_mod(ws[k] * x, q);
        lemma_congruent_mul(ws[k], ws[k], x, values[k], q);
    }
    lemma_sum_over_listed(dealers, f, terms, q);
    lemma_dot_is_sum(ws, values);
    if n == 0 {
        assert(values.len() == 0);
        assert(sum(terms) == 0);
        assert(eval(sharing, 0) == 0);
    } else {
        law_interpolation_at_zero(sharing, xs, ws, q);
    }
}

/// An additively shared key keeps its public key: where all holders deal what they are to deal,
/// their commitments add up to the sum of the old shares.
pub proof fn law_additive_key_is_kept<S: Group>(
    cores: Seq<IncompleteKeyShare<S>>,
    config: ReshareConfig<S>,
    commitments: Map<u16, MsgFeldmanCommitment<S>>,
    secret: int,
)
    requires
        dealers_are_honest(cores, config, commitments),
        additively_shared(cores, secret),
    ensures
        committed_key(commitments) == secret % S::order(),
{
    let q = S::order();
    S::lemma_order();
    let dealers = config.old_parties@;
    let f = constant_terms(commitments);
    let shares = Seq::new(cores.len(), |k: int| cores[k].x.val());
    assert forall|k: int| 0 <= k < dealers.len() implies congruent(
        f(#[trigger] dealers[k]),
        shares[k],
        q,
    ) by {
        assert(is_dealt_secret(cores[k], config, f(dealers[k])));
        let x = cores[k].x.val();
        assert(1 * x == x);
        lemma_congruent_mod(x, q);
    }
    lemma_sum_over_listed(dealers, f, shares, q);
}

/// The share that an honest dealer sends verifies against its commitment, and so does the
/// Schnorr proof that comes with it.
pub proof fn law_dealt_share_verifies<S: Group>(
    commitments: Map<u16, MsgFeldmanCommitment<S>>,
    shares: Map<u16, MsgShareDistribution<S>>,
    me: u16,
    dealer: u16,
    coefs: Seq<int>,
    sid: Seq<u8>,
    nonce: int,
)
    requires
        commitments.contains_key(dealer),
        logs(commitments[dealer].commitment@) == coefs,
        is_share_msg(shares[dealer], coefs, sid, dealer, me, nonce),
    ensures
        share_verifies(commitments, shares, me, dealer),
        ({
            let msg = shares[dealer];
            let challenge = S::hash_share_proof(
                SHARE_PROOF_TAG@,
                sid,
                dealer,
                me,
                S::multiple(msg.share.val()),
            );
            msg.schnorr_proof.val() == (msg.schnorr_commit.log() + challenge * msg.share.val())
                % S::order()
        }),
{
}

/// A commitment admits one share for each receiver.
pub proof fn law_committed_share_is_unique<S: Group>(
    commitments: Map<u16, MsgFeldmanCommitment<S>>,
    shares: Map<u16, MsgShareDistribution<S>>,
    others: Map<u16, MsgShareDistribution<S>>,
    me: u16,
    dealer: u16,
)
    requires
        share_verifies(commitments, shares, me, dealer),
        share_verifies(commitments, others, me, dealer),
    ensures
        shares[dealer].share.val() == others[dealer].share.val(),
{
}

/// A new participant whose dealers are all honest gets past the checks of the commitments, of
/// the public key and of the shares, for a threshold key.
pub proof fn law_honest_threshold_reshare_is_accepted<'a, S: Group>(
    state: AwaitShares<'a, S>,
    received: Map<u16, MsgShareDistribution<S>>,
    cores: Seq<IncompleteKeyShare<S>>,
    xs: Seq<int>,
    sharing: Seq<int>,
    sid: Seq<u8>,
    nonces: spec_fn(u16) -> int,
)
    requires
        dealers_are_honest(cores, state.session.config, state.commitments@),
        threshold_shared(cores, state.session.config, xs, sharing),
        sharing.len() <= cores.len(),
        state.session.config.shared_public_key.log() == eval(sharing, 0) % S::order(),
        ({
            let shares = with_own_share(received, state.preloaded_share);
            &&& shares.dom() == state.commitments@.dom()
            &&& forall|d: u16| #[trigger]
                shares.contains_key(d) ==> is_share_msg(
                    shares[d],
                    logs(state.commitments@[d].commitment@),
                    sid,
                    d,
                    state.session.my_new_index,
                    nonces(d),
                )
        }),
    ensures
        have_constant_terms(state.commitments@),
        state.key_kept(),
        ({
            let shares = with_own_share(received, state.preloaded_share);
            forall|d: u16| #[trigger]
                shares.dom().contains(d) ==> share_check(
                    state.commitments@,
                    shares,
                    state.session.my_new_index,
                )(d)
        }),
{
    law_threshold_key_is_kept(cores, state.session.config, state.commitments@, xs, sharing);
    let shares = with_own_share(received, state.preloaded_share);
    assert forall|d: u16| #[trigger] shares.dom().contains(d) implies share_check(
        state.commitments@,
        shares,
        state.session.my_new_index,
    )(d) by {
        assert(state.commitments@.dom().contains(d));
        law_dealt_share_verifies(
            state.commitments@,
            shares,
            state.session.my_new_index,
            d,
            logs(state.commitments@[d].commitment@),
            sid,
            nonces(d),
        );
    }
}

/// A new participant whose dealers are all honest gets past the checks of the commitments, of
/// the public key and of the shares, for an additively shared key.
pub proof fn law_honest_additive_reshare_is_accepted<'a, S: Group>(
    state: AwaitShares<'a, S>,
    received: Map<u16, MsgShareDistribution<S>>,
    cores: Seq<IncompleteKeyShare<S>>,
    secret: int,
    sid: Seq<u8>,
    nonces: spec_fn(u16) -> int,
)
    requires
        dealers_are_honest(cores, state.session.config, state.commitments@),
        additively_shared(cores, secret),
        state.session.config.shared_public_key.log() == secret % S::order(),
        ({
            let shares = with_own_share(received, state.preloaded_share);
            &&& shares.dom() == state.commitments@.dom()
            &&& forall|d: u16| #[trigger]
                shares.contains_key(d) ==> is_share_msg(
                    shares[d],
                    logs(state.commitments@[d].commitment@),
                    sid,
                    d,
                    state.session.my_new_index,
                    nonces(d),
                )
        }),
    ensures
        have_constant_terms(state.commitments@),
        state.key_kept(),
        ({
            let shares = with_own_share(received, state.preloaded_share);
            forall|d: u16| #[trigger]
                shares.dom().contains(d) ==> share_check(
                    state.commitments@,
                    shares,
                    state.session.my_new_index,
                )(d)
        }),
{
    law_additive_key_is_kept(cores, state.session.config, state.commitments@, secret);
    let shares = with_own_share(received, state.preloaded_share);
    assert forall|d: u16| #[trigger] shares.dom().contains(d) implies share_check(
        state.commitments@,
        shares,
        state.session.my_new_index,
    )(d) by {
        assert(state.commitments@.dom().contains(d));
        law_dealt_share_verifies(
            state.commitments@,
            shares,
            state.session.my_new_index,
            d,
            logs(state.commitments@[d].commitment@),
            sid,
            nonces(d),
        );
    }
}

/// Once the rounds of the commitments and of the shares are complete, a participant holds a
/// commitment and a share of the same dealers: of all old parties, its own among them where it
/// is retained. It is so for a participant that deals nothing, and for a retained one that has
/// both its commitment and its share at hand.
pub proof fn law_every_dealer_is_heard<'a, S: Group>(
    receiver: Receiver<'a, S>,
    commitments: Map<u16, MsgFeldmanCommitment<S>>,
    shares: Map<u16, MsgShareDistribution<S>>,
)
    requires
        commitments.dom() == receiver.commitment_senders(),
        shares.dom() == receiver.share_senders(),
        match receiver.preloaded_share {
            Some((dealer, _)) => {
                &&& receiver.self_commitment is Some
                &&& dealer == receiver.my_new_index
                &&& receiver.config.old_parties@.contains(dealer)
            },
            None => !receiver.config.old_parties@.contains(receiver.my_new_index),
        },
    ensures
        with_own_commitment(
            commitments,
            receiver.self_commitment,
            receiver.preloaded_share,
        ).dom() == receiver.config.old_parties@.to_set(),
        with_own_share(shares, receiver.preloaded_share).dom()
            == receiver.config.old_parties@.to_set(),
{
    let dealers = receiver.config.old_parties@.to_set();
    let all = with_own_commitment(commitments, receiver.self_commitment, receiver.preloaded_share);
    assert(all.dom() =~= dealers);
    assert(with_own_share(shares, receiver.preloaded_share).dom() =~= dealers);
}

/// A new share that was accepted is the discrete logarithm of the public share that everyone
/// computes for its holder.
pub proof fn law_share_matches_public_share<S: Group>(
    commitments: Map<u16, MsgFeldmanCommitment<S>>,
    shares: Map<u16, MsgShareDistribution<S>>,
    me: u16,
)
    requires
        shares.dom() == commitments.dom(),
        forall|d: u16| #[trigger]
            shares.dom().contains(d) ==> share_check(commitments, shares, me)(d),
    ensures
        dealt_share(shares) == committed_share(commitments, me),
{
    let q = S::order();
    S::lemma_order();
    let (f, g) = (dealt_values(shares), committed_values(commitments, me + 1));
    assert forall|d: u16| #[trigger] shares.dom().contains(d) implies congruent(f(d), g(d), q) by {
        assert(shares.contains_key(d));
        assert(share_check(commitments, shares, me)(d));
        lemma_congruent_mod(g(d), q);
    }
    lemma_sum_over_congruent(shares.dom(), f, g, q);
}

/// A new share that was accepted, of a participant that has a public share, is not zero: the
/// last round never stops at a share of zero.
pub proof fn law_accepted_share_is_not_zero<S: Group>(
    commitments: Map<u16, MsgFeldmanCommitment<S>>,
    shares: Map<u16, MsgShareDistribution<S>>,
    parties: Seq<u16>,
    me: u16,
)
    requires
        shares.dom() == commitments.dom(),
        forall|d: u16| #[trigger]
            shares.dom().contains(d) ==> share_check(commitments, shares, me)(d),
        all_ok(parties, nonzero_check(commitments)),
        parties.contains(me),
    ensures
        dealt_share(shares) != 0,
{
    law_share_matches_public_share(commitments, shares, me);
    let k = choose|k: int| 0 <= k < parties.len() && parties[k] == me;
    assert(nonzero_check(commitments)(parties[k]));
}

/// Two participants received commitments of the same dealers, and the same from each.
pub open spec fn same_commitments<S: Group>(
    one: Map<u16, MsgFeldmanCommitment<S>>,
    other: Map<u16, MsgFeldmanCommitment<S>>,
) -> bool {
    &&& one.dom() == other.dom()
    &&& forall|d: u16| #[trigger]
        one.contains_key(d) ==> encodings(one[d].commitment@) == encodings(other[d].commitment@)
}

/// Participants that received the same commitments compute the same public shares and the same
/// public key.
pub proof fn law_equal_commitments_give_equal_public_shares<S: Group>(
    one: Map<u16, MsgFeldmanCommitment<S>>,
    other: Map<u16, MsgFeldmanCommitment<S>>,
    j: u16,
)
    requires
        same_commitments(one, other),
        have_constant_terms(one),
    ensures
        committed_share(one, j) == committed_share(other, j),
        committed_key(one) == committed_key(other),
{
    assert forall|d: u16| #[trigger] one.dom().contains(d) implies logs(one[d].commitment@) == logs(
        other[d].commitment@,
    ) by {
        assert(one.contains_key(d));
        let (a, b) = (one[d].commitment@, other[d].commitment@);
        assert(encodings(a).len() == encodings(b).len());
        assert forall|i: int| 0 <= i < a.len() implies #[trigger] logs(a)[i] == logs(b)[i] by {
            assert(encodings(a)[i] == encodings(b)[i]);
        }
        assert(logs(a) =~= logs(b));
    }
    lemma_sum_over_agree(
        one.dom(),
        committed_values(one, j + 1),
        committed_values(other, j + 1),
    );
    assert forall|d: u16| #[trigger] one.dom().contains(d) implies constant_terms(one)(d)
        == constant_terms(other)(d) by {
        assert(one.contains_key(d));
        let (a, b) = (one[d].commitment@, other[d].commitment@);
        assert(logs(a).len() == a.len() && logs(b).len() == b.len());
        assert(logs(a)[0] == a[0].log() && logs(b)[0] == b[0].log());
    }
    lemma_sum_over_agree(one.dom(), constant_terms(one), constant_terms(other));
}

/// Each dealer committed to a polynomial with `t` coefficients.
pub open spec fn have_degree_below<S: Group>(
    commitments: Map<u16, MsgFeldmanCommitment<S>>,
    t: nat,
) -> bool {
    forall|d: u16| #[trigger] commitments.contains_key(d) ==> commitments[d].commitment@.len() == t
}

/// The discrete logarithms of what each dealer committed to.
pub open spec fn committed_coefs<S: Group>(
    commitments: Map<u16, MsgFeldmanCommitment<S>>,
) -> spec_fn(u16) -> Seq<int> {
    |d: u16| logs(commitments[d].commitment@)
}

/// The polynomial that the new shares lie on: the sum of those that the dealers committed to.
pub open spec fn new_sharing<S: Group>(
    commitments: Map<u16, MsgFeldmanCommitment<S>>,
    t: nat,
) -> Seq<int> {
    sum_of_coefs(commitments.dom(), committed_coefs(commitments), t)
}

/// The new public shares lie on one polynomial with as many coefficients as the new threshold,
/// and the public key is its value at zero.
pub proof fn law_new_shares_lie_on_one_polynomial<S: Group>(
    commitments: Map<u16, MsgFeldmanCommitment<S>>,
    t: nat,
    j: u16,
)
    requires
        t > 0,
        have_degree_below(commitments, t),
    ensures
        committed_share(commitments, j) == eval(new_sharing(commitments, t), j + 1) % S::order(),
        committed_key(commitments) == eval(new_sharing(commitments, t), 0) % S::order(),
{
    let dom = commitments.dom();
    let family = committed_coefs(commitments);
    assert forall|d: u16| #[trigger] dom.contains(d) implies family(d).len() == t by {
        assert(commitments.contains_key(d));
    }
    lemma_sum_of_polynomials(dom, family, t, j + 1);
    lemma_sum_over_agree(
        dom,
        committed_values(commitments, j + 1),
        |d: u16| eval(family(d), j + 1),
    );
    let total = new_sharing(commitments, t);
    let first = |d: u16| family(d)[0];
    assert(total[0] == sum_over(dom, first));
    lemma_sum_over_agree(dom, constant_terms(commitments), first);
    assert(eval(total, 0) == total[0]);
}

/// The coordinate of a key share: that which its own setup gives to its index.
pub open spec fn own_coordinate<S: Group>(key_share: KeyShare<S>) -> int {
    coordinate(key_share.core.key_info.vss_setup->0, key_share.core.i)
}

/// The new shares of any signers, at least as many as the new threshold, determine the key: the
/// shares, each weighted with the interpolation coefficient of its holder, add up to the
/// discrete logarithm of the public key.
pub proof fn law_enough_new_shares_determine_the_key<S: Group>(
    commitments: Map<u16, MsgFeldmanCommitment<S>>,
    t: nat,
    signers: Seq<u16>,
    weights: Seq<int>,
)
    requires
        0 < t <= signers.len(),
        have_degree_below(commitments, t),
        are_coefficients(
            Seq::new(signers.len(), |k: int| signers[k] + 1),
            weights,
            S::order(),
        ),
    ensures
        congruent(
            dot(weights, Seq::new(signers.len(), |k: int| committed_share(commitments, signers[k]))),
            committed_key(commitments),
            S::order(),
        ),
{
    let q = S::order();
    S::lemma_order();
    let xs = Seq::new(signers.len(), |k: int| signers[k] + 1);
    let total = new_sharing(commitments, t);
    let shares = Seq::new(signers.len(), |k: int| committed_share(commitments, signers[k]));
    let values = evals(total, xs);
    law_interpolation_at_zero(total, xs, weights, q);
    law_new_shares_lie_on_one_polynomial(commitments, t, 0);
    lemma_congruent_mod(eval(total, 0), q);
    assert forall|k: int| 0 <= k < shares.len() implies congruent(
        #[trigger] weights[k] * shares[k],
        1 * (weights[k] * values[k]),
        q,
    ) by {
        law_new_shares_lie_on_one_polynomial(commitments, t, signers[k]);
        assert(values[k] == eval(total, xs[k]));
        lemma_congruent_mod(values[k], q);
        lemma_congruent_mul(weights[k], weights[k], shares[k], values[k], q);
    }
    lemma_dot_scaled(weights, shares, weights, values, 1, q);
}

/// New key shares of one reshare, at least as many as the new threshold, hold the secret key:
/// the shares, each weighted with the interpolation coefficient of the coordinate that its own
/// setup gives it, add up to the discrete logarithm of the public key.
pub proof fn law_new_key_shares_hold_the_secret<'a, S: Group>(
    states: Seq<AwaitProofs<'a, S>>,
    key_shares: Seq<KeyShare<S>>,
    commitments: Map<u16, MsgFeldmanCommitment<S>>,
    t: nat,
    weights: Seq<int>,
)
    requires
        0 < t <= key_shares.len(),
        have_degree_below(commitments, t),
        states.len() == key_shares.len(),
        forall|k: int|
            #![trigger key_shares[k]]
            0 <= k < key_shares.len() ==> {
                &&& states[k].wf()
                &&& states[k].assembles(key_shares[k])
                &&& states[k].session.config.new_parties@.len() <= 0x1_0000
                &&& states[k].share.val() == committed_share(
                    commitments,
                    states[k].session.my_new_index,
                )
                &&& states[k].session.config.shared_public_key.log() == committed_key(commitments)
            },
        are_coefficients(
            Seq::new(key_shares.len(), |k: int| own_coordinate(key_shares[k])),
            weights,
            S::order(),
        ),
    ensures
        forall|k: int|
            0 <= k < key_shares.len() ==> congruent(
                dot(weights, Seq::new(key_shares.len(), |i: int| key_shares[i].core.x.val())),
                (#[trigger] key_shares[k]).core.key_info.shared_public_key.log(),
                S::order(),
            ),
{
    let n = key_shares.len();
    let signers = Seq::new(n, |k: int| states[k].session.my_new_index);
    assert forall|k: int| 0 <= k < n implies #[trigger] own_coordinate(key_shares[k]) == signers[k]
        + 1 by {
        let state = states[k];
        assert(state.assembles(key_shares[k]));
        let parties = state.session.config.new_parties@;
        let setup = key_shares[k].core.key_info.vss_setup->0;
        assert(vals(setup.I@).len() == parties.len());
        assert(vals(setup.I@)[state.my_position as int] == parties[state.my_position as int] + 1);
    }
    assert(Seq::new(n, |k: int| own_coordinate(key_shares[k])) =~= Seq::new(
        signers.len(),
        |k: int| signers[k] + 1,
    ));
    law_enough_new_shares_determine_the_key(commitments, t, signers, weights);
    assert(Seq::new(n, |i: int| key_shares[i].core.x.val()) =~= Seq::new(
        signers.len(),
        |k: int| committed_share(commitments, signers[k]),
    )) by {
        assert forall|k: int| 0 <= k < n implies #[trigger] key_shares[k].core.x.val()
            == committed_share(commitments, signers[k]) by {
            assert(states[k].assembles(key_shares[k]));
        }
    }
}

/// What an honest prover sends in the last round passes the check of every verifier that shares
/// with it the execution, the collective randomness, the new participants and their public
/// shares.
pub proof fn law_honest_final_proof_is_accepted<'a, S: Group, Z: PaillierProofs>(
    prover: AwaitProofs<'a, S>,
    verifier: AwaitProofs<'a, S>,
    msg: MsgFinalProofs<S, Z>,
    nonce: int,
)
    requires
        prover.wf(),
        prover.share.val() == prover.public_shares@[prover.my_position as int].log(),
        prover.proves_share(msg, nonce),
        verifier.session.sid@ == prover.session.sid@,
        verifier.session.rho@ == prover.session.rho@,
        verifier.session.config.new_parties@ == prover.session.config.new_parties@,
        logs(verifier.public_shares@) == logs(prover.public_shares@),
    ensures
        has_public_share(
            verifier.session.config.new_parties@,
            verifier.public_shares@,
            prover.session.my_new_index,
            msg.public_share,
        ),
        knows_share(
            msg,
            verifier.session.sid@,
            verifier.session.rho@,
            prover.session.my_new_index,
        ),
{
    let k = prover.my_position as int;
    assert(first_at(verifier.session.config.new_parties@, prover.session.my_new_index, k));
    let (ours, theirs) = (logs(verifier.public_shares@), logs(prover.public_shares@));
    assert(ours.len() == verifier.public_shares@.len());
    assert(theirs.len() == prover.public_shares@.len());
    assert(ours[k] == verifier.public_shares@[k].log());
    assert(theirs[k] == prover.public_shares@[k].log());
    assert(msg.public_share.log() == verifier.public_shares@[k].log());
}

/// A key share that a reshare ends with can be reshared again: its index is in the range of its
/// lists, all of which have one entry for each new participant, and the share is the value of
/// the new sharing polynomial at the coordinate that the index selects, while the public key
/// is the value of that polynomial at zero.
pub proof fn law_new_key_share_is_well_shared<'a, S: Group>(
    state: AwaitProofs<'a, S>,
    commitments: Map<u16, MsgFeldmanCommitment<S>>,
    t: nat,
    key_share: KeyShare<S>,
)
    requires
        state.wf(),
        state.assembles(key_share),
        state.session.config.new_parties@.len() <= 0x1_0000,
        state.session.auxes@.len() == state.session.config.new_parties@.len(),
        t > 0,
        have_degree_below(commitments, t),
        state.share.val() == committed_share(commitments, state.session.my_new_index),
        state.session.config.shared_public_key.log() == committed_key(commitments),
    ensures
        ({
            let n = state.session.config.new_parties@.len();
            let core = key_share.core;
            let sharing = new_sharing(commitments, t);
            let setup = core.key_info.vss_setup->0;
            &&& core.i < n
            &&& core.key_info.public_shares@.len() == n
            &&& setup.I@.len() == n
            &&& key_share.aux.parties@.len() == n
            &&& setup.min_signers == state.session.config.threshold()
            &&& coordinate(setup, core.i) == state.session.my_new_index + 1
            &&& core.x.val() == eval(sharing, coordinate(setup, core.i)) % S::order()
            &&& core.key_info.shared_public_key.log() == eval(sharing, 0) % S::order()
        }),
{
    let parties = state.session.config.new_parties@;
    let setup = key_share.core.key_info.vss_setup->0;
    law_new_shares_lie_on_one_polynomial(commitments, t, state.session.my_new_index);
    assert(vals(setup.I@).len() == parties.len());
    assert(vals(setup.I@)[state.my_position as int] == parties[state.my_position as int] + 1);
}

/// Where the new participants are numbered from zero, the index of a new key share is the index
/// of its holder.
pub proof fn law_index_is_kept<'a, S: Group>(state: AwaitProofs<'a, S>, key_share: KeyShare<S>)
    requires
        state.wf(),
        state.assembles(key_share),
        forall|k: int|
            0 <= k < state.session.config.new_parties@.len()
                ==> #[trigger] state.session.config.new_parties@[k] == k,
    ensures
        key_share.core.i == state.session.my_new_index,
{
    let parties = state.session.config.new_parties@;
    assert(parties[state.my_position as int] == state.my_position);
}

/// A dealer sends a share to the new participants at all positions but its own, in order, and
/// to none twice.
pub proof fn law_shares_are_sent_once(parties: Seq<u16>, retained: Option<u16>)
    ensures
        ({
            let at = sent_positions(parties, retained);
            &&& forall|i: int, j: int| 0 <= i < j < at.len() ==> #[trigger] at[i] < #[trigger] at[j]
            &&& forall|i: int|
                0 <= i < at.len() ==> 0 <= #[trigger] at[i] < parties.len() && retained != Some(
                    parties[at[i]],
                )
            &&& forall|k: int|
                0 <= k < parties.len() && retained != Some(#[trigger] parties[k])
                    ==> at.contains(k)
        }),
    decreases parties.len(),
{
    if parties.len() > 0 {
        let before = parties.drop_last();
        law_shares_are_sent_once(before, retained);
        let (a, b) = (sent_positions(before, retained), sent_positions(parties, retained));
        assert forall|k: int|
            0 <= k < parties.len() && retained != Some(#[trigger] parties[k]) implies b.contains(
            k,
        ) by {
            if k < before.len() {
                assert(before[k] == parties[k]);
                assert(a.contains(k));
                let i = choose|i: int| 0 <= i < a.len() && a[i] == k;
                assert(b[i] == k);
            } else {
                assert(b[b.len() - 1] == k);
            }
        }
        assert forall|i: int| 0 <= i < b.len() implies 0 <= #[trigger] b[i] < parties.len()
            && retained != Some(parties[b[i]]) by {
            if i < a.len() {
                assert(a[i] == b[i]);
                assert(before[a[i]] == parties[b[i]]);
            }
        }
        assert forall|i: int, j: int| 0 <= i < j < b.len() implies #[trigger] b[i]
            < #[trigger] b[j] by {
            assert(a[i] == b[i]);
            if j < a.len() {
                assert(a[j] == b[j]);
            }
        }
    }
}

/// Participants of one execution that received the same commitments have the same digest in a
/// reliability check, in whatever order the commitments arrived.
pub proof fn law_equal_commitments_have_equal_digests<S: Group>(
    sid: Seq<u8>,
    one: Map<u16, MsgFeldmanCommitment<S>>,
    other: Map<u16, MsgFeldmanCommitment<S>>,
)
    requires
        same_commitments(one, other),
    ensures
        commitments_hash(sid, one) == commitments_hash(sid, other),
{
    let dealers = ascending(one.dom());
    lemma_ascending(one.dom());
    assert forall|k: int| 0 <= k < dealers.len() implies encodings(
        one[#[trigger] dealers[k]].commitment@,
    ) == encodings(other[dealers[k]].commitment@) by {
        assert(dealers.to_set().contains(dealers[k]));
    }
    assert(digested_commitments(sid, one) =~= digested_commitments(sid, other));
}

/// A reliability check does not fail among honest participants: where everyone whose digest
/// arrives received the same commitments in the same execution, none of the digests differs
/// from the participant's own, which is what the check refuses.
pub proof fn law_equal_views_pass_the_reliability_check<'a, S: Group>(
    state: AwaitHashes<'a, S>,
    hashes: Map<u16, MsgReliabilityCheck>,
    views: Map<u16, Map<u16, MsgFeldmanCommitment<S>>>,
)
    requires
        state.hash@ == commitments_hash(state.next.session.sid@, state.next.commitments@),
        forall|p: u16| #[trigger]
            hashes.contains_key(p) ==> {
                &&& hashes[p].0@ == commitments_hash(state.next.session.sid@, views[p])
                &&& same_commitments(state.next.commitments@, views[p])
            },
    ensures
        forall|p: u16| #[trigger] hashes.contains_key(p) ==> hashes[p].0@ == state.hash@,
{
    assert forall|p: u16| #[trigger] hashes.contains_key(p) implies hashes[p].0@
        == state.hash@ by {
        law_equal_commitments_have_equal_digests(
            state.next.session.sid@,
            state.next.commitments@,
            views[p],
        );
    }
}

/// Without indices of the stored shares, those of the old parties take their place.
pub proof fn law_core_indices_fall_back<S: Group>(
    setup: Option<VssSetup<S>>,
    core_index: u16,
    without: ReshareConfig<S>,
    explicit: ReshareConfig<S>,
    weight: int,
)
    requires
        without.old_core_indices@.len() == 0,
        explicit.old_parties@ == without.old_parties@,
        explicit.old_core_indices@ == without.old_parties@,
    ensures
        is_weight(setup, core_index, without, weight) <==> is_weight(
            setup,
            core_index,
            explicit,
            weight,
        ),
{
    assert(without.core_indices() =~= explicit.core_indices());
    if let Some(vss) = setup {
        assert(coordinates(vss, without) =~= coordinates(vss, explicit));
    }
}

} // verus!
