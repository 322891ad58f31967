//! Why a reshare fails.
use vstd::prelude::*;

verus! {

/// A failure that no message of another party can cause by itself.
#[derive(Debug, PartialEq, Eq, Structural)]
pub enum Bug {
    /// No interpolation coefficient exists for the party.
    PartyIndexOutOfBounds,
    /// The party needs a Paillier key, and has no primes for one.
    PaillierKeyError,
    /// A modular power could not be computed.
    PowMod,
    /// The proof on the ring-Pedersen parameters could not be made.
    PiPrm,
    /// The proof on the Paillier-Blum modulus could not be made.
    PiMod,
    /// The proof that the modulus has no small factor could not be made.
    PiFac,
    /// A new share, or a new public share, is zero.
    ZeroShare,
    /// The new key share does not pass validation.
    InvalidShareGenerated,
}

/// A failure of the network.
#[derive(Debug)]
pub enum IoError {
    SendMessage(String),
    ReceiveMessage(String),
}

/// A failure of the key refresh that a reshare builds on.
#[derive(Debug)]
pub struct KeyRefreshError {
    pub reason: String,
}

/// Error type for the dynamic reshare protocol.
#[derive(Debug)]
pub enum DynamicReshareError {
    /// Configuration mismatch between parties.
    ConfigurationMismatch,
    /// Invalid Feldman commitment from a party.
    InvalidFeldmanCommitment(u16),
    /// Invalid share from a dealer, or an invalid message from a party.
    InvalidShare(u16),
    /// Public key changed after the reshare.
    PublicKeyMismatch,
    /// Key refresh error.
    KeyRefreshError(KeyRefreshError),
    /// I/o error.
    IoError(IoError),
    /// Internal bug.
    InternalError(Bug),
    /// Missing old share for a dealer.
    MissingOldShare(u16),
    /// Missing pregenerated primes for a receiver.
    MissingPrimes(u16),
    /// Invalid participant index.
    InvalidParticipantIndex(u16),
}

impl From<KeyRefreshError> for DynamicReshareError {
    fn from(err: KeyRefreshError) -> (res: Self)
        ensures
            res == DynamicReshareError::KeyRefreshError(err),
    {
        DynamicReshareError::KeyRefreshError(err)
    }
}

impl vstd::std_specs::convert::FromSpecImpl<KeyRefreshError> for DynamicReshareError {
    open spec fn obeys_from_spec() -> bool {
        true
    }

    open spec fn from_spec(err: KeyRefreshError) -> Self {
        DynamicReshareError::KeyRefreshError(err)
    }
}

impl From<IoError> for DynamicReshareError {
    fn from(err: IoError) -> (res: Self)
        ensures
            res == DynamicReshareError::IoError(err),
    {
        DynamicReshareError::IoError(err)
    }
}

impl vstd::std_specs::convert::FromSpecImpl<IoError> for DynamicReshareError {
    open spec fn obeys_from_spec() -> bool {
        true
    }

    open spec fn from_spec(err: IoError) -> Self {
        DynamicReshareError::IoError(err)
    }
}

impl From<Bug> for DynamicReshareError {
    fn from(err: Bug) -> (res: Self)
        ensures
            res == DynamicReshareError::InternalError(err),
    {
        DynamicReshareError::InternalError(err)
    }
}

impl vstd::std_specs::convert::FromSpecImpl<Bug> for DynamicReshareError {
    open spec fn obeys_from_spec() -> bool {
        true
    }

    open spec fn from_spec(err: Bug) -> Self {
        DynamicReshareError::InternalError(err)
    }
}

} // verus!
