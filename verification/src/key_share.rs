//! The key shares that a reshare starts from and ends with.
use crate::suite::{Group, Point, Scalar};
use vstd::prelude::*;

verus! {

/// How the secret of a threshold key is shared.
pub struct VssSetup<S: Group> {
    /// Threshold of the key.
    pub min_signers: u16,
    /// The coordinate at which each share is a value of the sharing polynomial.
    pub I: Vec<Scalar<S>>,
}

/// What all holders of a key know of it.
pub struct KeyInfo<S: Group> {
    pub shared_public_key: Point<S>,
    /// The public share of each holder.
    pub public_shares: Vec<Point<S>>,
    /// How the secret is shared; an additively shared key has no setup.
    pub vss_setup: Option<VssSetup<S>>,
}

/// The secret share of one holder.
pub struct IncompleteKeyShare<S: Group> {
    /// Index of the holder.
    pub i: u16,
    pub key_info: KeyInfo<S>,
    /// The secret share.
    pub x: Scalar<S>,
}

/// The Paillier modulus and the ring-Pedersen parameters of a party, as big-endian bytes.
pub struct PartyAux {
    pub N: Vec<u8>,
    pub s: Vec<u8>,
    pub t: Vec<u8>,
}

/// The auxiliary data of one holder: the primes of its modulus and the data of all parties.
pub struct AuxInfo {
    pub p: Vec<u8>,
    pub q: Vec<u8>,
    pub parties: Vec<PartyAux>,
}

/// A complete key share.
pub struct KeyShare<S: Group> {
    pub core: IncompleteKeyShare<S>,
    pub aux: AuxInfo,
}

/// The primes of a Paillier modulus, as big-endian bytes.
pub struct PregeneratedPrimes {
    pub p: Vec<u8>,
    pub q: Vec<u8>,
}

} // verus!
