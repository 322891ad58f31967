//! What a new participant does, round by round.
//!
//! Each round is a state that holds what is known so far; its method takes what the round
//! brought and gives the next state or the reason to stop. The messages travel outside of
//! these states, and so do the zero-knowledge proofs on Paillier moduli: a state is told which
//! of the parties sent a proof that verified.
use crate::config::ReshareConfig;
use crate::error::{Bug, DynamicReshareError};
use crate::key_share::{
    AuxInfo, IncompleteKeyShare, KeyInfo, KeyShare, PartyAux, PregeneratedPrimes, VssSetup,
};
use crate::messages::{
    MsgAuxInfo, MsgFeldmanCommitment, MsgFinalProofs, MsgReliabilityCheck, MsgShareDistribution,
    PaillierProofs,
};
use crate::order::{
    ascending, ascending_keys, lemma_all_listed, lemma_first_failing_is_lowest, lists,
    lowest_failing,
};
use crate::polynomial::share_coordinate;
use crate::randomness::{combined, xor_array};
use crate::round_input::SubsetRoundInput;
use crate::seqs::{all_ok, first_at, first_failing, lemma_take_contains};
use crate::suite::{encodings, same_bytes, vals, Group, Point, Scalar, Suite};
use crate::sums::{
    add_constant_terms, add_dealt_values, add_public_shares, committed_key, committed_share,
    constant_term_check, dealt_share, find_bad_share, find_empty_commitment, have_constant_terms,
    nonzero_check, share_check,
};
use crate::unambiguous::{
    ExecutionId, HashCommitment, ProofFac, ProofMod, ProofPrm, SchnorrChallenge,
    HASH_COMMITMENT_TAG, SCHNORR_CHALLENGE_TAG,
};
use std::collections::{HashMap, HashSet};
use vstd::prelude::*;

verus! {

broadcast use vstd::std_specs::hash::group_hash_axioms;

/// A new participant before the first round.
pub struct Receiver<'a, S: Group> {
    pub sid: ExecutionId<'a>,
    pub my_new_index: u16,
    pub config: ReshareConfig<S>,
    /// The primes of its Paillier modulus.
    pub primes: PregeneratedPrimes,
    /// The share that a retained participant dealt to itself, with its index as a dealer.
    pub preloaded_share: Option<(u16, MsgShareDistribution<S>)>,
    /// The commitment of a retained participant.
    pub self_commitment: Option<MsgFeldmanCommitment<S>>,
    pub reliable_broadcast: bool,
}

/// What a new participant draws in the first round, as big-endian bytes.
pub struct OwnAux {
    /// Paillier modulus.
    pub N: Vec<u8>,
    /// Ring-Pedersen parameter s.
    pub s: Vec<u8>,
    /// Ring-Pedersen parameter t.
    pub t: Vec<u8>,
    /// Contribution to the collective randomness.
    pub rho_bytes: Vec<u8>,
}

impl OwnAux {
    /// The message with the auxiliary data.
    pub fn message<Z: PaillierProofs>(&self, psi_prm: Z::Prm) -> (res: MsgAuxInfo<Z>)
        ensures
            res.N@ == self.N@,
            res.s@ == self.s@,
            res.t@ == self.t@,
            res.psi_prm == psi_prm,
            res.rho_bytes@ == self.rho_bytes@,
    {
        MsgAuxInfo {
            N: self.N.clone(),
            s: self.s.clone(),
            t: self.t.clone(),
            psi_prm,
            rho_bytes: self.rho_bytes.clone(),
        }
    }
}

/// What a new participant knows once the auxiliary data of all parties was accepted.
pub struct Session<'a, S: Group> {
    pub sid: ExecutionId<'a>,
    pub my_new_index: u16,
    pub config: ReshareConfig<S>,
    pub primes: PregeneratedPrimes,
    /// The auxiliary data of the new participants, in the order of `new_parties`.
    pub auxes: Vec<PartyAux>,
    /// The collective randomness.
    pub rho: Vec<u8>,
}

/// A new participant that waits for the commitments of the dealers.
pub struct AwaitCommitments<'a, S: Group> {
    pub session: Session<'a, S>,
    pub preloaded_share: Option<(u16, MsgShareDistribution<S>)>,
    pub self_commitment: Option<MsgFeldmanCommitment<S>>,
    pub reliable_broadcast: bool,
}

/// Run dynamic reshare as a new participant that deals nothing.
pub fn run_reshare_as_receiver<'a, S: Suite>(
    sid: ExecutionId<'a>,
    my_new_index: u16,
    config: ReshareConfig<S>,
    pregenerated: PregeneratedPrimes,
    reliable_broadcast_enforced: bool,
) -> (res: Receiver<'a, S>)
    ensures
        res.sid == sid,
        res.my_new_index == my_new_index,
        res.config == config,
        res.primes == pregenerated,
        res.preloaded_share is None,
        res.self_commitment is None,
        res.reliable_broadcast == reliable_broadcast_enforced,
{
    Receiver {
        sid,
        my_new_index,
        config,
        primes: pregenerated,
        preloaded_share: None,
        self_commitment: None,
        reliable_broadcast: reliable_broadcast_enforced,
    }
}

/// The modulus and the ring-Pedersen parameters that go into the key share for `party`.
pub open spec fn aux_of<Z: PaillierProofs>(
    own: OwnAux,
    me: u16,
    msgs: Map<u16, MsgAuxInfo<Z>>,
    party: u16,
) -> (Seq<u8>, Seq<u8>, Seq<u8>) {
    if party == me {
        (own.N@, own.s@, own.t@)
    } else {
        (msgs[party].N@, msgs[party].s@, msgs[party].t@)
    }
}

/// The check of the auxiliary data: each party but `me` sent some, and its proof verified.
pub open spec fn aux_check<Z: PaillierProofs>(
    me: u16,
    msgs: Map<u16, MsgAuxInfo<Z>>,
    prm_valid: Set<u16>,
) -> spec_fn(u16) -> bool {
    |party: u16| party == me || (msgs.contains_key(party) && prm_valid.contains(party))
}

/// The contributions of the other parties to the collective randomness.
pub open spec fn contributions<Z: PaillierProofs>(
    msgs: Map<u16, MsgAuxInfo<Z>>,
) -> spec_fn(u16) -> Seq<u8> {
    |party: u16| msgs[party].rho_bytes@
}

impl PartyAux {
    /// The modulus and the ring-Pedersen parameters.
    pub open spec fn numbers(self) -> (Seq<u8>, Seq<u8>, Seq<u8>) {
        (self.N@, self.s@, self.t@)
    }
}

impl<'a, S: Group> Receiver<'a, S> {
    /// The dealers whose commitment is waited for.
    pub open spec fn commitment_senders(self) -> Set<u16> {
        self.config.old_parties@.to_set().remove(self.my_new_index)
    }

    /// The dealers whose share is waited for.
    pub open spec fn share_senders(self) -> Set<u16> {
        match self.preloaded_share {
            Some((dealer, _)) => self.config.old_parties@.to_set().remove(dealer).remove(
                self.my_new_index,
            ),
            None => self.config.old_parties@.to_set().remove(self.my_new_index),
        }
    }
}

impl<'a, S: Suite> Receiver<'a, S> {
    /// The store of the round in which the dealers send their commitments.
    pub fn commitment_round<M>(&self) -> (store: SubsetRoundInput<M>)
        ensures
            store.wf(),
            store.expected() == self.commitment_senders(),
            store.received() == Map::<u16, (M, u64)>::empty(),
    {
        SubsetRoundInput::new(&self.config.old_parties, self.my_new_index)
    }

    /// The store of the round in which the dealers send their shares. A share that is already
    /// there is not waited for.
    pub fn share_round<M>(&self) -> (store: SubsetRoundInput<M>)
        ensures
            store.wf(),
            store.expected() == self.share_senders(),
            store.received() == Map::<u16, (M, u64)>::empty(),
    {
        match &self.preloaded_share {
            Some((dealer, _)) => {
                let expected = without(&self.config.old_parties, *dealer);
                SubsetRoundInput::new(&expected, self.my_new_index)
            },
            None => SubsetRoundInput::new(&self.config.old_parties, self.my_new_index),
        }
    }

    /// The store of a round in which the new participants send: their auxiliary data, their
    /// final proofs, or the digests of a reliability check.
    pub fn new_party_round<M>(&self) -> (store: SubsetRoundInput<M>)
        ensures
            store.wf(),
            store.expected() == self.config.new_parties@.to_set().remove(self.my_new_index),
            store.received() == Map::<u16, (M, u64)>::empty(),
    {
        SubsetRoundInput::new(&self.config.new_parties, self.my_new_index)
    }

    /// What the proof of `prover` on its ring-Pedersen parameters is bound to.
    pub fn prm_statement(&self, prover: u16) -> (res: ProofPrm<'a>)
        ensures
            res.sid == self.sid,
            res.prover == prover,
    {
        ProofPrm { sid: self.sid, prover }
    }

    /// Takes the auxiliary data of the other new participants. `prm_valid` are those whose proof
    /// on the ring-Pedersen parameters verified. The first party in the order of `new_parties`
    /// that sent nothing, or whose proof did not verify, is named in the error.
    pub fn on_aux<Z: PaillierProofs>(
        self,
        own: OwnAux,
        msgs: &HashMap<u16, MsgAuxInfo<Z>>,
        prm_valid: &HashSet<u16>,
    ) -> (res: Result<AwaitCommitments<'a, S>, DynamicReshareError>)
        ensures
            match res {
                Ok(next) => {
                    let session = next.session;
                    let parties = self.config.new_parties@;
                    &&& all_ok(parties, aux_check(self.my_new_index, msgs@, prm_valid@))
                    &&& session.sid == self.sid
                    &&& session.my_new_index == self.my_new_index
                    &&& session.config == self.config
                    &&& session.primes == self.primes
                    &&& session.auxes@.len() == parties.len()
                    &&& forall|k: int|
                        0 <= k < parties.len() ==> (#[trigger] session.auxes@[k]).numbers()
                            == aux_of(own, self.my_new_index, msgs@, parties[k])
                    &&& session.rho@ == combined(
                        own.rho_bytes@,
                        self.my_new_index,
                        parties,
                        contributions(msgs@),
                    )
                    &&& next.preloaded_share == self.preloaded_share
                    &&& next.self_commitment == self.self_commitment
                    &&& next.reliable_broadcast == self.reliable_broadcast
                },
                Err(err) => exists|k: int| #[trigger]
                    first_failing(
                        self.config.new_parties@,
                        aux_check(self.my_new_index, msgs@, prm_valid@),
                        k,
                    ) && err == DynamicReshareError::InvalidShare(self.config.new_parties@[k]),
            },
    {
        let ghost parties = self.config.new_parties@;
        let ghost me = self.my_new_index;
        let ghost ok = aux_check(me, msgs@, prm_valid@);
        let mut auxes: Vec<PartyAux> = Vec::new();
        let mut rho: Vec<u8> = own.rho_bytes.clone();
        let mut k: usize = 0;
        assert(parties.take(0) =~= Seq::empty());
        while k < self.config.new_parties.len()
            invariant
                k <= parties.len(),
                parties == self.config.new_parties@,
                me == self.my_new_index,
                ok == aux_check(me, msgs@, prm_valid@),
                auxes@.len() == k,
                forall|j: int| 0 <= j < k ==> ok(#[trigger] parties[j]),
                forall|j: int|
                    0 <= j < k ==> (#[trigger] auxes@[j]).numbers() == aux_of(
                        own,
                        me,
                        msgs@,
                        parties[j],
                    ),
                rho@ == combined(own.rho_bytes@, me, parties.take(k as int), contributions(msgs@)),
            decreases parties.len() - k,
        {
            let party: u16 = self.config.new_parties[k];
            proof {
                let after = parties.take(k + 1);
                assert(after.drop_last() =~= parties.take(k as int));
                assert(after.last() == party);
            }
            if party == self.my_new_index {
                auxes.push(PartyAux { N: own.N.clone(), s: own.s.clone(), t: own.t.clone() });
            } else {
                match msgs.get(&party) {
                    Some(msg) => {
                        if !prm_valid.contains(&party) {
                            assert(first_failing(parties, ok, k as int));
                            return Err(DynamicReshareError::InvalidShare(party));
                        }
                        rho = xor_array(rho, &msg.rho_bytes);
                        auxes.push(
                            PartyAux { N: msg.N.clone(), s: msg.s.clone(), t: msg.t.clone() },
                        );
                    },
                    None => {
                        assert(first_failing(parties, ok, k as int));
                        return Err(DynamicReshareError::InvalidShare(party));
                    },
                }
            }
            k = k + 1;
        }
        assert(parties.take(k as int) =~= parties);
        Ok(
            AwaitCommitments {
                session: Session {
                    sid: self.sid,
                    my_new_index: self.my_new_index,
                    config: self.config,
                    primes: self.primes,
                    auxes,
                    rho,
                },
                preloaded_share: self.preloaded_share,
                self_commitment: self.self_commitment,
                reliable_broadcast: self.reliable_broadcast,
            },
        )
    }
}

/// `parties` without `party`.
fn without(parties: &Vec<u16>, party: u16) -> (res: Vec<u16>)
    ensures
        res@.to_set() == parties@.to_set().remove(party),
{
    let mut res: Vec<u16> = Vec::new();
    let mut k: usize = 0;
    while k < parties.len()
        invariant
            k <= parties@.len(),
            forall|p: u16| #[trigger]
                res@.contains(p) <==> parties@.take(k as int).contains(p) && p != party,
        decreases parties@.len() - k,
    {
        let ghost before = res@;
        proof {
            lemma_take_contains(parties@, k as int);
        }
        if parties[k] != party {
            res.push(parties[k]);
            proof {
                assert(res@.take(before.len() as int) =~= before);
                assert(res@.take(before.len() as int + 1) =~= res@);
                lemma_take_contains(res@, before.len() as int);
            }
        }
        k = k + 1;
    }
    assert(parties@.take(k as int) =~= parties@);
    assert(res@.to_set() =~= parties@.to_set().remove(party));
    res
}

/// A new participant that waits for the shares of the dealers.
#[verifier::reject_recursive_types(S)]
pub struct AwaitShares<'a, S: Group> {
    pub session: Session<'a, S>,
    pub preloaded_share: Option<(u16, MsgShareDistribution<S>)>,
    /// The commitments of the dealers, its own among them where it is one.
    pub commitments: HashMap<u16, MsgFeldmanCommitment<S>>,
}

/// A new participant that waits for the digests of the others.
#[verifier::reject_recursive_types(S)]
pub struct AwaitHashes<'a, S: Group> {
    pub next: AwaitShares<'a, S>,
    /// The digest of the commitments that it received itself.
    pub hash: Vec<u8>,
}

/// What follows the commitments: the reliability check, where it is enforced, or the shares.
#[verifier::reject_recursive_types(S)]
pub enum Committed<'a, S: Group> {
    CheckReliability(AwaitHashes<'a, S>),
    Proceed(AwaitShares<'a, S>),
}

/// What the digest of the commitments is taken over: the commitments in the ascending order of
/// their dealers.
pub open spec fn digested_commitments<S: Group>(
    sid: Seq<u8>,
    commitments: Map<u16, MsgFeldmanCommitment<S>>,
) -> Seq<(Seq<u8>, u16, Seq<Seq<u8>>)> {
    let dealers = ascending(commitments.dom());
    Seq::new(
        dealers.len(),
        |k: int| (sid, dealers[k], encodings(commitments[dealers[k]].commitment@)),
    )
}

/// The digest by which participants compare the commitments that they received.
pub open spec fn commitments_hash<S: Group>(
    sid: Seq<u8>,
    commitments: Map<u16, MsgFeldmanCommitment<S>>,
) -> Seq<u8> {
    S::hash_commitments(HASH_COMMITMENT_TAG@, digested_commitments(sid, commitments))
}

/// The digest of the commitments, which does not depend on the order in which they arrived.
pub fn reliability_digest<S: Suite>(
    sid: ExecutionId,
    commitments: &HashMap<u16, MsgFeldmanCommitment<S>>,
) -> (res: Vec<u8>)
    ensures
        res@ == commitments_hash(sid@, commitments@),
{
    let keys = ascending_keys(commitments);
    let mut entries: Vec<HashCommitment<S>> = Vec::new();
    let mut k: usize = 0;
    while k < keys.len()
        invariant
            k <= keys@.len(),
            keys@ == ascending(commitments@.dom()),
            lists(keys@, commitments@.dom()),
            entries@.len() == k,
            forall|j: int|
                0 <= j < k ==> (#[trigger] entries@[j]).digested() == digested_commitments(
                    sid@,
                    commitments@,
                )[j],
        decreases keys@.len() - k,
    {
        let party_index: u16 = keys[k];
        proof {
            assert(keys@.to_set().contains(party_index)) by {
                assert(keys@[k as int] == party_index);
            }
        }
        if let Some(c) = commitments.get(&party_index) {
            entries.push(HashCommitment { sid, party_index, commitment: &c.commitment });
        }
        k = k + 1;
    }
    assert(Seq::new(entries@.len(), |i: int| entries@[i].digested()) =~= digested_commitments(
        sid@,
        commitments@,
    ));
    S::commitments_digest(HASH_COMMITMENT_TAG, &entries)
}

/// The commitments that a retained participant goes on with: those that it received and its
/// own.
pub open spec fn with_own_commitment<S: Group>(
    received: Map<u16, MsgFeldmanCommitment<S>>,
    own: Option<MsgFeldmanCommitment<S>>,
    preloaded: Option<(u16, MsgShareDistribution<S>)>,
) -> Map<u16, MsgFeldmanCommitment<S>> {
    match (own, preloaded) {
        (Some(commitment), Some((dealer, _))) => received.insert(dealer, commitment),
        _ => received,
    }
}

/// The shares that a retained participant goes on with: those that it received and its own.
pub open spec fn with_own_share<S: Group>(
    received: Map<u16, MsgShareDistribution<S>>,
    preloaded: Option<(u16, MsgShareDistribution<S>)>,
) -> Map<u16, MsgShareDistribution<S>> {
    match preloaded {
        Some((dealer, share)) => received.insert(dealer, share),
        None => received,
    }
}

impl<'a, S: Suite> AwaitCommitments<'a, S> {
    /// Takes the commitments of the dealers. Where reliable broadcast is enforced, their digest
    /// is to be compared with those of the others.
    pub fn on_commitments(self, received: HashMap<u16, MsgFeldmanCommitment<S>>) -> (res: Committed<
        'a,
        S,
    >)
        ensures
            res is CheckReliability <==> self.reliable_broadcast,
            ({
                let next = match res {
                    Committed::CheckReliability(check) => check.next,
                    Committed::Proceed(next) => next,
                };
                &&& next.session == self.session
                &&& next.preloaded_share == self.preloaded_share
                &&& next.commitments@ == with_own_commitment(
                    received@,
                    self.self_commitment,
                    self.preloaded_share,
                )
            }),
            res matches Committed::CheckReliability(check) ==> check.hash@ == commitments_hash(
                self.session.sid@,
                check.next.commitments@,
            ),
    {
        let mut commitments = received;
        if let (Some(commitment), Some((dealer, _))) = (
            self.self_commitment,
            &self.preloaded_share,
        ) {
            commitments.insert(*dealer, commitment);
        }
        let next = AwaitShares {
            session: self.session,
            preloaded_share: self.preloaded_share,
            commitments,
        };
        if self.reliable_broadcast {
            let hash = reliability_digest(next.session.sid, &next.commitments);
            Committed::CheckReliability(AwaitHashes { next, hash })
        } else {
            Committed::Proceed(next)
        }
    }
}

impl<'a, S: Suite> AwaitHashes<'a, S> {
    /// The message with the participant's own digest.
    pub fn message(&self) -> (res: MsgReliabilityCheck)
        ensures
            res.0@ == self.hash@,
    {
        MsgReliabilityCheck(self.hash.clone())
    }

    /// Takes the digests of the other new participants, each of which must equal its own.
    pub fn on_hashes(self, hashes: &HashMap<u16, MsgReliabilityCheck>) -> (res: Result<
        AwaitShares<'a, S>,
        DynamicReshareError,
    >)
        ensures
            match res {
                Ok(next) => next == self.next && forall|p: u16| #[trigger]
                    hashes@.contains_key(p) ==> hashes@[p].0@ == self.hash@,
                Err(err) => err == DynamicReshareError::ConfigurationMismatch && exists|p: u16|
                    #[trigger] hashes@.contains_key(p) && hashes@[p].0@ != self.hash@,
            },
    {
        let keys = ascending_keys(hashes);
        let mut k: usize = 0;
        while k < keys.len()
            invariant
                k <= keys@.len(),
                lists(keys@, hashes@.dom()),
                forall|j: int|
                    0 <= j < k ==> hashes@[#[trigger] keys@[j]].0@ == self.hash@,
            decreases keys@.len() - k,
        {
            let p: u16 = keys[k];
            proof {
                assert(keys@.to_set().contains(p)) by {
                    assert(keys@[k as int] == p);
                }
            }
            if let Some(msg) = hashes.get(&p) {
                if !same_bytes(&msg.0, &self.hash) {
                    assert(hashes@.contains_key(p));
                    return Err(DynamicReshareError::ConfigurationMismatch);
                }
            }
            k = k + 1;
        }
        proof {
            assert forall|p: u16| #[trigger] hashes@.contains_key(p) implies hashes@[p].0@
                == self.hash@ by {
                assert(keys@.to_set().contains(p));
                let j = choose|j: int| 0 <= j < keys@.len() && keys@[j] == p;
                assert(keys@[j] == p);
            }
        }
        Ok(self.next)
    }
}

/// A new participant that has its share, and waits for the final proofs of the others.
pub struct AwaitProofs<'a, S: Group> {
    pub session: Session<'a, S>,
    /// The new share.
    pub share: Scalar<S>,
    /// The public shares of the new participants, in the order of `new_parties`.
    pub public_shares: Vec<Point<S>>,
    /// Where the participant stands in `new_parties`.
    pub my_position: usize,
}

impl<'a, S: Group> AwaitProofs<'a, S> {
    /// There is a public share for each new participant, and the participant is one of them.
    pub open spec fn wf(self) -> bool {
        &&& self.public_shares@.len() == self.session.config.new_parties@.len()
        &&& first_at(
            self.session.config.new_parties@,
            self.session.my_new_index,
            self.my_position as int,
        )
    }
}

impl<'a, S: Group> AwaitShares<'a, S> {
    /// The commitments add up to the shared public key.
    pub open spec fn key_kept(self) -> bool {
        committed_key(self.commitments@) == self.session.config.shared_public_key.log()
    }
}

impl<'a, S: Suite> AwaitShares<'a, S> {
    /// Takes the shares of the dealers: no commitment may be empty, the commitments must add up to
    /// the shared public key, and each share must be the one that its dealer committed to. Of
    /// several dealers that fail, the lowest is named. The new share is the sum of the shares; a
    /// public share that is zero is refused.
    pub fn on_shares(self, received: HashMap<u16, MsgShareDistribution<S>>) -> (res: Result<
        AwaitProofs<'a, S>,
        DynamicReshareError,
    >)
        ensures
            ({
                let session = self.session;
                let parties = session.config.new_parties@;
                let commitments = self.commitments@;
                let shares = with_own_share(received@, self.preloaded_share);
                let ok = share_check(commitments, shares, session.my_new_index);
                match res {
                    Ok(next) => {
                        &&& have_constant_terms(commitments)
                        &&& self.key_kept()
                        &&& committed_key(commitments) == session.config.shared_public_key.log()
                        &&& forall|d: u16| #[trigger] shares.dom().contains(d) ==> ok(d)
                        &&& all_ok(parties, nonzero_check(commitments))
                        &&& next.session == session
                        &&& next.share.val() == dealt_share(shares)
                        &&& next.wf()
                        &&& forall|k: int|
                            0 <= k < parties.len() ==> (#[trigger] next.public_shares@[k]).log()
                                == committed_share(commitments, parties[k])
                    },
                    Err(DynamicReshareError::InvalidFeldmanCommitment(d)) => lowest_failing(
                        commitments.dom(),
                        constant_term_check(commitments),
                        d,
                    ),
                    Err(DynamicReshareError::PublicKeyMismatch) => {
                        &&& have_constant_terms(commitments)
                        &&& !self.key_kept()
                        &&& committed_key(commitments) != session.config.shared_public_key.log()
                    },
                    Err(DynamicReshareError::InvalidShare(d)) => {
                        &&& have_constant_terms(commitments)
                        &&& self.key_kept()
                        &&& lowest_failing(shares.dom(), ok, d)
                    },
                    Err(err) => {
                        &&& have_constant_terms(commitments)
                        &&& self.key_kept()
                        &&& forall|d: u16| #[trigger] shares.dom().contains(d) ==> ok(d)
                        &&& err == if all_ok(parties, nonzero_check(commitments)) {
                            DynamicReshareError::ConfigurationMismatch
                        } else {
                            DynamicReshareError::InternalError(Bug::ZeroShare)
                        }
                        &&& all_ok(parties, nonzero_check(commitments)) ==> !parties.contains(
                            session.my_new_index,
                        )
                    },
                }
            }),
    {
        let mut shares = received;
        if let Some((dealer, share)) = self.preloaded_share {
            shares.insert(dealer, share);
        }
        let session = self.session;
        let commitments = self.commitments;
        let dealers = ascending_keys(&commitments);
        let ghost nonempty = constant_term_check(commitments@);
        if let Some(dealer) = find_empty_commitment(&commitments, &dealers) {
            proof {
                let k = choose|k: int| #[trigger]
                    first_failing(dealers@, nonempty, k) && dealer == dealers@[k];
                lemma_first_failing_is_lowest(commitments@.dom(), nonempty, k);
            }
            return Err(DynamicReshareError::InvalidFeldmanCommitment(dealer));
        }
        proof {
            lemma_all_listed(dealers@, commitments@.dom(), nonempty);
        }
        let key = add_constant_terms(&commitments, &dealers);
        if !S::point_eq(&key, &session.config.shared_public_key) {
            return Err(DynamicReshareError::PublicKeyMismatch);
        }
        let senders = ascending_keys(&shares);
        let ghost ok = share_check(commitments@, shares@, session.my_new_index);
        if let Some(dealer) = find_bad_share(
            &commitments,
            &shares,
            &senders,
            session.my_new_index,
        ) {
            proof {
                let k = choose|k: int| #[trigger]
                    first_failing(senders@, ok, k) && dealer == senders@[k];
                lemma_first_failing_is_lowest(shares@.dom(), ok, k);
            }
            return Err(DynamicReshareError::InvalidShare(dealer));
        }
        proof {
            lemma_all_listed(senders@, shares@.dom(), ok);
        }
        let share = add_dealt_values(&shares, &senders);
        let public_shares = match add_public_shares(
            &commitments,
            &dealers,
            &session.config.new_parties,
        ) {
            Some(public_shares) => public_shares,
            None => {
                return Err(DynamicReshareError::InternalError(Bug::ZeroShare));
            },
        };
        match session.config.new_party_position(session.my_new_index) {
            Some(my_position) => Ok(AwaitProofs { session, share, public_shares, my_position }),
            None => Err(DynamicReshareError::ConfigurationMismatch),
        }
    }
}

/// The challenge of the final Schnorr proof of `prover`.
pub open spec fn final_challenge<S: Group>(sid: Seq<u8>, rho: Seq<u8>, prover: u16) -> int {
    S::hash_schnorr_challenge(SCHNORR_CHALLENGE_TAG@, sid, rho, prover)
}

/// The Schnorr proof of `prover` shows that it knows the discrete logarithm of its public share.
pub open spec fn knows_share<S: Group, Z: PaillierProofs>(
    msg: MsgFinalProofs<S, Z>,
    sid: Seq<u8>,
    rho: Seq<u8>,
    prover: u16,
) -> bool {
    msg.schnorr_proof.val() == (msg.schnorr_commit.log() + final_challenge::<S>(sid, rho, prover)
        * msg.public_share.log()) % S::order()
}

/// The public share of `party`: that at the first position of the party.
pub open spec fn has_public_share<S: Group>(
    parties: Seq<u16>,
    public_shares: Seq<Point<S>>,
    party: u16,
    public_share: Point<S>,
) -> bool {
    exists|k: int| #[trigger]
        first_at(parties, party, k) && public_share.log() == public_shares[k].log()
}

impl<'a, S: Group> AwaitProofs<'a, S> {
    /// The message holds the public share of the participant, and a Schnorr proof with this
    /// nonce that it knows its share.
    pub open spec fn proves_share<Z: PaillierProofs>(
        self,
        msg: MsgFinalProofs<S, Z>,
        nonce: int,
    ) -> bool {
        &&& msg.public_share.log() == self.public_shares@[self.my_position as int].log()
        &&& msg.schnorr_commit.log() == nonce
        &&& msg.schnorr_proof.val() == (nonce + final_challenge::<S>(
            self.session.sid@,
            self.session.rho@,
            self.session.my_new_index,
        ) * self.share.val()) % S::order()
    }

    /// The check of the final proofs: each party but the participant itself sent some, its
    /// proofs on the Paillier modulus verified, its public share is the one that follows from
    /// the commitments, and it knows the share.
    pub open spec fn final_check<Z: PaillierProofs>(
        self,
        msgs: Map<u16, MsgFinalProofs<S, Z>>,
        mod_valid: Set<u16>,
        fac_valid: Set<u16>,
    ) -> spec_fn(u16) -> bool {
        |party: u16|
            {
                ||| party == self.session.my_new_index
                ||| {
                    &&& msgs.contains_key(party)
                    &&& mod_valid.contains(party)
                    &&& fac_valid.contains(party)
                    &&& has_public_share(
                        self.session.config.new_parties@,
                        self.public_shares@,
                        party,
                        msgs[party].public_share,
                    )
                    &&& knows_share(msgs[party], self.session.sid@, self.session.rho@, party)
                }
            }
    }
}

impl<'a, S: Suite> AwaitProofs<'a, S> {
    /// What the proof of `prover` on its Paillier-Blum modulus is bound to.
    pub fn mod_statement(&self, prover: u16) -> (res: ProofMod<'_>)
        ensures
            res.sid == self.session.sid,
            res.rho@ == self.session.rho@,
            res.prover == prover,
    {
        ProofMod { sid: self.session.sid, rho: self.session.rho.as_slice(), prover }
    }

    /// What the proof of `prover` that its modulus has no small factor is bound to.
    pub fn fac_statement(&self, prover: u16) -> (res: ProofFac<'_>)
        ensures
            res.sid == self.session.sid,
            res.rho@ == self.session.rho@,
            res.prover == prover,
    {
        ProofFac { sid: self.session.sid, rho: self.session.rho.as_slice(), prover }
    }

    /// The message with the participant's own final proofs. The Schnorr proof is made with
    /// `nonce`.
    pub fn message<Z: PaillierProofs>(
        &self,
        psi_mod: Z::Mod,
        phi_fac: Z::Fac,
        nonce: &Scalar<S>,
    ) -> (res: MsgFinalProofs<S, Z>)
        requires
            self.wf(),
        ensures
            res.psi_mod == psi_mod,
            res.phi_fac == phi_fac,
            self.proves_share(res, nonce.val()),
    {
        let public_share = self.public_shares[self.my_position].clone();
        let schnorr_commit = S::generator_mul(nonce);
        let challenge = S::schnorr_challenge(
            SCHNORR_CHALLENGE_TAG,
            &SchnorrChallenge {
                sid: self.session.sid,
                rho: self.session.rho.as_slice(),
                prover: self.session.my_new_index,
            },
        );
        let schnorr_proof = S::schnorr_prove(nonce, &challenge, &self.share);
        MsgFinalProofs { psi_mod, phi_fac, public_share, schnorr_commit, schnorr_proof }
    }

    /// Whether what `party` sent passes the check of the final proofs.
    fn accepts<Z: PaillierProofs>(
        &self,
        party: u16,
        msgs: &HashMap<u16, MsgFinalProofs<S, Z>>,
        mod_valid: &HashSet<u16>,
        fac_valid: &HashSet<u16>,
    ) -> (res: bool)
        requires
            self.wf(),
        ensures
            res == self.final_check(msgs@, mod_valid@, fac_valid@)(party),
    {
        if party == self.session.my_new_index {
            return true;
        }
        let msg = match msgs.get(&party) {
            Some(msg) => msg,
            None => {
                return false;
            },
        };
        if !mod_valid.contains(&party) || !fac_valid.contains(&party) {
            return false;
        }
        let same: bool = match self.session.config.new_party_position(party) {
            Some(at) => {
                let same: bool = S::point_eq(&msg.public_share, &self.public_shares[at]);
                proof {
                    let parties = self.session.config.new_parties@;
                    assert forall|k: int| #[trigger] first_at(parties, party, k) implies k
                        == at by {
                        if k < at {
                            assert(parties[k] != party);
                        }
                        if at < k {
                            assert(parties[at as int] != party);
                        }
                    }
                }
                same
            },
            None => {
                proof {
                    let parties = self.session.config.new_parties@;
                    assert forall|k: int| !first_at(parties, party, k) by {
                        if 0 <= k < parties.len() {
                            assert(parties.contains(parties[k]));
                        }
                    }
                }
                false
            },
        };
        if !same {
            return false;
        }
        let challenge = S::schnorr_challenge(
            SCHNORR_CHALLENGE_TAG,
            &SchnorrChallenge {
                sid: self.session.sid,
                rho: self.session.rho.as_slice(),
                prover: party,
            },
        );
        S::schnorr_verify(&msg.schnorr_proof, &msg.schnorr_commit, &challenge, &msg.public_share)
    }

    /// The coordinates at which the new shares are values of the sharing polynomial.
    fn coordinates(&self) -> (res: Vec<Scalar<S>>)
        requires
            self.wf(),
        ensures
            vals(res@) == Seq::new(
                self.session.config.new_parties@.len(),
                |k: int| self.session.config.new_parties@[k] + 1,
            ),
    {
        let parties: &Vec<u16> = &self.session.config.new_parties;
        let mut res: Vec<Scalar<S>> = Vec::new();
        let mut k: usize = 0;
        while k < parties.len()
            invariant
                k <= parties@.len(),
                parties@ == self.session.config.new_parties@,
                self.wf(),
                res@.len() == k,
                forall|j: int| 0 <= j < k ==> (#[trigger] res@[j]).val() == parties@[j] + 1,
            decreases parties@.len() - k,
        {
            res.push(share_coordinate(parties[k]));
            k = k + 1;
        }
        assert(vals(res@) =~= Seq::new(
            self.session.config.new_parties@.len(),
            |k: int| self.session.config.new_parties@[k] + 1,
        ));
        res
    }

    /// Takes the final proofs of the other new participants, and assembles the key share.
    /// `mod_valid` and `fac_valid` are those whose proofs on the Paillier modulus verified. The
    /// first party in the order of `new_parties` that does not pass is named in the error; then
    /// a share that is zero is refused.
    pub fn on_final_proofs<Z: PaillierProofs>(
        self,
        msgs: &HashMap<u16, MsgFinalProofs<S, Z>>,
        mod_valid: &HashSet<u16>,
        fac_valid: &HashSet<u16>,
    ) -> (res: Result<KeyShare<S>, DynamicReshareError>)
        requires
            self.wf(),
        ensures
            ({
                let parties = self.session.config.new_parties@;
                let ok = self.final_check(msgs@, mod_valid@, fac_valid@);
                match res {
                    Ok(key_share) => {
                        &&& all_ok(parties, ok)
                        &&& forall|k: int|
                            0 <= k < parties.len() && #[trigger] parties[k]
                                != self.session.my_new_index ==> {
                                &&& msgs@.contains_key(parties[k])
                                &&& mod_valid@.contains(parties[k])
                                &&& fac_valid@.contains(parties[k])
                                &&& has_public_share(
                                    parties,
                                    self.public_shares@,
                                    parties[k],
                                    msgs@[parties[k]].public_share,
                                )
                                &&& knows_share(
                                    msgs@[parties[k]],
                                    self.session.sid@,
                                    self.session.rho@,
                                    parties[k],
                                )
                            }
                        &&& self.share.val() != 0
                        &&& self.assembles(key_share)
                        &&& self.session.config.new_threshold matches Some(t)
                            ==> key_share.core.key_info.vss_setup->0.min_signers == t
                    },
                    Err(DynamicReshareError::InvalidShare(party)) => exists|k: int| #[trigger]
                        first_failing(parties, ok, k) && party == parties[k],
                    Err(err) => {
                        &&& all_ok(parties, ok)
                        &&& self.share.val() == 0
                        &&& err == DynamicReshareError::InternalError(Bug::ZeroShare)
                    },
                }
            }),
    {
        let ghost ok = self.final_check(msgs@, mod_valid@, fac_valid@);
        let mut k: usize = 0;
        while k < self.session.config.new_parties.len()
            invariant
                k <= self.session.config.new_parties@.len(),
                self.wf(),
                ok == self.final_check(msgs@, mod_valid@, fac_valid@),
                forall|j: int| 0 <= j < k ==> ok(#[trigger] self.session.config.new_parties@[j]),
            decreases self.session.config.new_parties@.len() - k,
        {
            let party: u16 = self.session.config.new_parties[k];
            if !self.accepts(party, msgs, mod_valid, fac_valid) {
                assert(first_failing(self.session.config.new_parties@, ok, k as int));
                return Err(DynamicReshareError::InvalidShare(party));
            }
            k = k + 1;
        }
        if !S::scalar_is_nonzero(&self.share) {
            return Err(DynamicReshareError::InternalError(Bug::ZeroShare));
        }
        let coordinates = self.coordinates();
        let position: usize = self.my_position;
        assert(position as u16 == position % 0x1_0000) by (bit_vector);
        let min_signers: u16 = self.session.config.effective_new_threshold();
        Ok(
            KeyShare {
                core: IncompleteKeyShare {
                    i: position as u16,
                    key_info: KeyInfo {
                        shared_public_key: self.session.config.shared_public_key,
                        public_shares: self.public_shares,
                        vss_setup: Some(VssSetup { min_signers, I: coordinates }),
                    },
                    x: self.share,
                },
                aux: AuxInfo {
                    p: self.session.primes.p,
                    q: self.session.primes.q,
                    parties: self.session.auxes,
                },
            },
        )
    }
}

impl<'a, S: Group> AwaitProofs<'a, S> {
    /// The key share that the participant ends with. Its index is the position in `new_parties`,
    /// which is held in 16 bits, and its lists are in the order of `new_parties`.
    pub open spec fn assembles(self, key_share: KeyShare<S>) -> bool {
        let config = self.session.config;
        &&& key_share.core.i == self.my_position % 0x1_0000
        &&& key_share.core.x == self.share
        &&& key_share.core.key_info.shared_public_key == config.shared_public_key
        &&& key_share.core.key_info.public_shares == self.public_shares
        &&& key_share.core.key_info.vss_setup is Some
        &&& key_share.core.key_info.vss_setup->0.min_signers == config.threshold()
        &&& vals(key_share.core.key_info.vss_setup->0.I@) == Seq::new(
            config.new_parties@.len(),
            |k: int| config.new_parties@[k] + 1,
        )
        &&& key_share.aux.p == self.session.primes.p
        &&& key_share.aux.q == self.session.primes.q
        &&& key_share.aux.parties == self.session.auxes
    }
}

} // verus!
