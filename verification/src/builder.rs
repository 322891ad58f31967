//! The entry point: collects what a party brings, and finds the role that it plays.
use crate::config::ReshareConfig;
use crate::error::DynamicReshareError;
use crate::key_share::{KeyShare, PregeneratedPrimes};
use crate::receiver::{run_reshare_as_receiver, Receiver};
use crate::suite::{Group, Suite};
use crate::unambiguous::ExecutionId;
use vstd::prelude::*;

verus! {

/// Builder for the dynamic reshare protocol.
pub struct ReshareBuilder<'a, S: Group> {
    pub eid: ExecutionId<'a>,
    pub i: u16,
    pub config: ReshareConfig<S>,
    pub reliable_broadcast: bool,
    pub old_share: Option<&'a KeyShare<S>>,
    pub primes: Option<PregeneratedPrimes>,
}

/// An old participant, with all that it deals from.
pub struct Dealer<'a, S: Group> {
    pub sid: ExecutionId<'a>,
    pub old_share: &'a KeyShare<S>,
    pub i_local: u16,
    pub config: ReshareConfig<S>,
    pub pregenerated: Option<PregeneratedPrimes>,
    pub reliable_broadcast: bool,
}

/// The role of a party in a reshare. A retained participant is a dealer first.
pub enum Role<'a, S: Group> {
    Dealer(Dealer<'a, S>),
    Receiver(Receiver<'a, S>),
}

/// Entry point for the dynamic reshare protocol.
pub fn reshare<'a, S: Suite>(eid: ExecutionId<'a>, i: u16, config: ReshareConfig<S>) -> (res:
    ReshareBuilder<'a, S>)
    ensures
        res.eid == eid,
        res.i == i,
        res.config == config,
        res.reliable_broadcast,
        res.old_share is None,
        res.primes is None,
{
    ReshareBuilder::new(eid, i, config)
}

impl<'a, S: Suite> ReshareBuilder<'a, S> {
    /// A builder that enforces reliable broadcast, with neither an old share nor primes.
    pub fn new(eid: ExecutionId<'a>, i: u16, config: ReshareConfig<S>) -> (res: Self)
        ensures
            res.eid == eid,
            res.i == i,
            res.config == config,
            res.reliable_broadcast,
            res.old_share is None,
            res.primes is None,
    {
        ReshareBuilder { eid, i, config, reliable_broadcast: true, old_share: None, primes: None }
    }

    /// Sets the old key share, which an old participant needs.
    pub fn set_old_share(self, share: &'a KeyShare<S>) -> (res: Self)
        ensures
            res == (ReshareBuilder { old_share: Some(share), ..self }),
    {
        let mut res = self;
        res.old_share = Some(share);
        res
    }

    /// Sets the pregenerated primes, which a new participant needs.
    pub fn set_pregenerated_primes(self, primes: PregeneratedPrimes) -> (res: Self)
        ensures
            res == (ReshareBuilder { primes: Some(primes), ..self }),
    {
        let mut res = self;
        res.primes = Some(primes);
        res
    }

    /// Enforces reliable broadcast, or does without it.
    pub fn enforce_reliable_broadcast(self, enforce: bool) -> (res: Self)
        ensures
            res == (ReshareBuilder { reliable_broadcast: enforce, ..self }),
    {
        let mut res = self;
        res.reliable_broadcast = enforce;
        res
    }

    /// Starts the protocol: an old participant deals, and needs its old share; a new participant
    /// receives, and needs primes, also where it is an old one and deals first; a party that is
    /// neither is refused.
    pub fn start(self) -> (res: Result<Role<'a, S>, DynamicReshareError>)
        ensures
            ({
                let is_dealer = self.config.old_parties@.contains(self.i);
                let is_receiver = self.config.new_parties@.contains(self.i);
                match res {
                    Ok(Role::Dealer(dealer)) => {
                        &&& is_dealer
                        &&& is_receiver ==> self.primes is Some
                        &&& dealer.sid == self.eid
                        &&& self.old_share == Some(dealer.old_share)
                        &&& dealer.i_local == self.i
                        &&& dealer.config == self.config
                        &&& dealer.pregenerated == self.primes
                        &&& dealer.reliable_broadcast == self.reliable_broadcast
                    },
                    Ok(Role::Receiver(receiver)) => {
                        &&& !is_dealer && is_receiver
                        &&& receiver.sid == self.eid
                        &&& receiver.my_new_index == self.i
                        &&& receiver.config == self.config
                        &&& self.primes == Some(receiver.primes)
                        &&& receiver.preloaded_share is None
                        &&& receiver.self_commitment is None
                        &&& receiver.reliable_broadcast == self.reliable_broadcast
                    },
                    Err(DynamicReshareError::MissingOldShare(i)) => {
                        &&& is_dealer && self.old_share is None
                        &&& i == self.i
                    },
                    Err(DynamicReshareError::MissingPrimes(i)) => {
                        &&& is_receiver && self.primes is None
                        &&& is_dealer ==> self.old_share is Some
                        &&& i == self.i
                    },
                    Err(err) => {
                        &&& !is_dealer && !is_receiver
                        &&& err == DynamicReshareError::InvalidParticipantIndex(self.i)
                    },
                }
            }),
    {
        let is_dealer: bool = self.config.is_old_party(self.i);
        let is_receiver: bool = self.config.is_new_party(self.i);
        if is_dealer {
            match self.old_share {
                Some(old_share) => {
                    if is_receiver && self.primes.is_none() {
                        return Err(DynamicReshareError::MissingPrimes(self.i));
                    }
                    Ok(
                        Role::Dealer(
                            Dealer {
                                sid: self.eid,
                                old_share,
                                i_local: self.i,
                                config: self.config,
                                pregenerated: self.primes,
                                reliable_broadcast: self.reliable_broadcast,
                            },
                        ),
                    )
                },
                None => Err(DynamicReshareError::MissingOldShare(self.i)),
            }
        } else if is_receiver {
            match self.primes {
                Some(primes) => Ok(
                    Role::Receiver(
                        run_reshare_as_receiver(
                            self.eid,
                            self.i,
                            self.config,
                            primes,
                            self.reliable_broadcast,
                        ),
                    ),
                ),
                None => Err(DynamicReshareError::MissingPrimes(self.i)),
            }
        } else {
            Err(DynamicReshareError::InvalidParticipantIndex(self.i))
        }
    }
}

} // verus!
