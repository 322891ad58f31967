//! A message store for one round that waits for a chosen subset of the parties.
use crate::seqs::lemma_take_contains;
use std::collections::{HashMap, HashSet};
use vstd::prelude::*;
use vstd::std_specs::hash::{spec_hash_keys_iter, spec_keys_iter};
use vstd::std_specs::iter::IteratorSpec;

verus! {

broadcast use vstd::std_specs::hash::group_hash_axioms;

/// Index of a party of the protocol.
pub type PartyIndex = u16;

/// Identifier that the delivery layer gives to a received message.
pub type MsgId = u64;

/// A message received from `sender`.
pub struct Incoming<M> {
    pub id: MsgId,
    pub sender: PartyIndex,
    pub msg: M,
}

/// Why a message was not taken into the store.
#[derive(Debug)]
pub enum RoundInputError {
    /// The sender has already sent a message in this round.
    AttemptToOverwriteReceivedMsg { msgs_ids: [MsgId; 2], sender: PartyIndex },
    /// Nothing is expected from the sender in this round.
    SenderIndexOutOfRange { msg_id: MsgId, sender: PartyIndex, n: u16 },
}

/// A message store that expects messages from a specific subset of parties.
///
/// It does not assume that everyone in `0..n` sends: it only waits for the expected senders.
#[verifier::reject_recursive_types(M)]
pub struct SubsetRoundInput<M> {
    expected_senders: HashSet<PartyIndex>,
    received: HashMap<PartyIndex, (M, MsgId)>,
}

/// The keys of `map`, in the order in which the map is walked: each key once, in an order that
/// may differ from one process to the next.
pub fn walked_keys<V>(map: &HashMap<PartyIndex, V>) -> (keys: Vec<PartyIndex>)
    ensures
        keys@.no_duplicates(),
        keys@.to_set() == map@.dom(),
{
    let mut keys: Vec<PartyIndex> = Vec::new();
    for k in it: map.keys()
        invariant
            it.seq() == spec_keys_iter(map).remaining(),
            keys@.len() == it.index(),
            forall|j: int| 0 <= j < keys@.len() ==> keys@[j] == *it.seq()[j],
    {
        keys.push(*k);
    }
    assert(keys@ =~= spec_keys_iter(map).remaining().unref());
    keys
}

/// The members of `set`, each once, in the order in which the set is walked.
fn walked_members(set: &HashSet<PartyIndex>) -> (members: Vec<PartyIndex>)
    ensures
        members@.no_duplicates(),
        members@.to_set() == set@,
{
    let mut members: Vec<PartyIndex> = Vec::new();
    for k in it: set.iter()
        invariant
            it.seq() == spec_hash_keys_iter(set).remaining(),
            members@.len() == it.index(),
            forall|j: int| 0 <= j < members@.len() ==> members@[j] == *it.seq()[j],
    {
        members.push(*k);
    }
    assert(members@ =~= spec_hash_keys_iter(set).remaining().unref());
    members
}

impl<M> SubsetRoundInput<M> {
    /// The parties from which a message is expected.
    pub closed spec fn expected(self) -> Set<PartyIndex> {
        self.expected_senders@
    }

    /// What was received so far: the message of each sender and its identifier.
    pub closed spec fn received(self) -> Map<PartyIndex, (M, MsgId)> {
        self.received@
    }

    /// Nothing was taken in from a party from which nothing is expected.
    pub open spec fn wf(self) -> bool {
        self.received().dom().subset_of(self.expected())
    }

    /// A store that expects messages from the parties `expected`, without `my_index` where it
    /// is among them.
    pub fn new(expected: &Vec<PartyIndex>, my_index: PartyIndex) -> (store: Self)
        ensures
            store.wf(),
            store.expected() == expected@.to_set().remove(my_index),
            store.received() == Map::<PartyIndex, (M, MsgId)>::empty(),
    {
        let mut expected_senders: HashSet<PartyIndex> = HashSet::new();
        let mut k: usize = 0;
        while k < expected.len()
            invariant
                k <= expected@.len(),
                expected_senders@ == expected@.take(k as int).to_set(),
            decreases expected@.len() - k,
        {
            expected_senders.insert(expected[k]);
            proof {
                lemma_take_contains(expected@, k as int);
            }
            k = k + 1;
        }
        assert(expected@.take(k as int) =~= expected@);
        expected_senders.remove(&my_index);
        let received: HashMap<PartyIndex, (M, MsgId)> = HashMap::new();
        let store = SubsetRoundInput { expected_senders, received };
        assert(store.expected() =~= expected@.to_set().remove(my_index));
        store
    }

    /// Takes in a message. A message from a party that is not expected, and a second message
    /// from the same party, are refused, and the store stays as it is.
    pub fn add_message(&mut self, msg: Incoming<M>) -> (res: Result<(), RoundInputError>)
        requires
            old(self).wf(),
        ensures
            final(self).wf(),
            final(self).expected() == old(self).expected(),
            match res {
                Ok(()) => {
                    &&& old(self).expected().contains(msg.sender)
                    &&& !old(self).received().contains_key(msg.sender)
                    &&& final(self).received() == old(self).received().insert(
                        msg.sender,
                        (msg.msg, msg.id),
                    )
                },
                Err(RoundInputError::AttemptToOverwriteReceivedMsg { msgs_ids, sender }) => {
                    &&& old(self).expected().contains(msg.sender)
                    &&& old(self).received().contains_key(msg.sender)
                    &&& msgs_ids@ == seq![old(self).received()[msg.sender].1, msg.id]
                    &&& sender == msg.sender
                    &&& final(self).received() == old(self).received()
                },
                Err(RoundInputError::SenderIndexOutOfRange { msg_id, sender, n }) => {
                    &&& !old(self).expected().contains(msg.sender)
                    &&& msg_id == msg.id
                    &&& sender == msg.sender
                    &&& n == 0
                    &&& final(self).received() == old(self).received()
                },
            },
    {
        if self.expected_senders.contains(&msg.sender) {
            if let Some((_, old_id)) = self.received.get(&msg.sender) {
                return Err(
                    RoundInputError::AttemptToOverwriteReceivedMsg {
                        msgs_ids: [*old_id, msg.id],
                        sender: msg.sender,
                    },
                );
            }
            self.received.insert(msg.sender, (msg.msg, msg.id));
            Ok(())
        } else {
            Err(
                RoundInputError::SenderIndexOutOfRange {
                    msg_id: msg.id,
                    sender: msg.sender,
                    n: 0,
                },
            )
        }
    }

    /// Whether a message is still awaited: so long as some expected party has not sent one.
    pub fn wants_more(&self) -> (res: bool)
        requires
            self.wf(),
        ensures
            res == (self.received().dom() != self.expected()),
    {
        proof {
            broadcast use vstd::seq_lib::seq_to_set_is_finite;

            let members = spec_hash_keys_iter(&self.expected_senders).remaining().unref();
            assert(members.to_set() == self.expected());
            if self.received().dom().len() >= self.expected().len() {
                vstd::set_lib::lemma_len_subset(self.received().dom(), self.expected());
                vstd::set_lib::lemma_subset_equality(self.received().dom(), self.expected());
            }
        }
        self.received.len() < self.expected_senders.len()
    }

    /// The messages by sender, once every expected party has sent one; before that, the store
    /// unchanged.
    pub fn output(self) -> (res: Result<HashMap<PartyIndex, M>, Self>)
        requires
            self.wf(),
        ensures
            match res {
                Ok(msgs) => {
                    &&& self.received().dom() == self.expected()
                    &&& msgs@ == self.received().map_values(|entry: (M, MsgId)| entry.0)
                },
                Err(store) => self.received().dom() != self.expected() && store == self,
            },
    {
        if self.wants_more() {
            return Err(self);
        }
        let members = walked_members(&self.expected_senders);
        let mut received = self.received;
        let mut msgs: HashMap<PartyIndex, M> = HashMap::new();
        let mut k: usize = 0;
        while k < members.len()
            invariant
                k <= members@.len(),
                members@.no_duplicates(),
                members@.to_set() == self.received().dom(),
                forall|p: PartyIndex| #[trigger]
                    received@.contains_key(p) <==> self.received().contains_key(p)
                        && !members@.take(k as int).contains(p),
                forall|p: PartyIndex| #[trigger]
                    received@.contains_key(p) ==> received@[p] == self.received()[p],
                forall|p: PartyIndex| #[trigger]
                    msgs@.contains_key(p) <==> members@.take(k as int).contains(p),
                forall|p: PartyIndex| #[trigger]
                    msgs@.contains_key(p) ==> msgs@[p] == self.received()[p].0,
            decreases members@.len() - k,
        {
            let p = members[k];
            proof {
                assert(members@.to_set().contains(p)) by {
                    assert(members@[k as int] == p);
                }
                assert(!members@.take(k as int).contains(p));
                lemma_take_contains(members@, k as int);
            }
            if let Some((msg, _)) = received.remove(&p) {
                msgs.insert(p, msg);
            }
            k = k + 1;
        }
        proof {
            assert(members@.take(k as int) =~= members@);
            let goal = self.received().map_values(|entry: (M, MsgId)| entry.0);
            assert forall|p: PartyIndex| #[trigger] msgs@.contains_key(p) <==> goal.contains_key(
                p,
            ) by {
                assert(members@.to_set().contains(p) <==> self.received().contains_key(p));
            }
            assert(msgs@ =~= goal);
        }
        Ok(msgs)
    }
}

} // verus!
