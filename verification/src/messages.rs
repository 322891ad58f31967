//! The messages of the protocol.
use crate::suite::{encodings, logs, Group, Point, Scalar};
use vstd::prelude::*;

verus! {

/// The zero-knowledge proofs on Paillier moduli, which the protocol carries from their maker
/// to their verifiers.
pub trait PaillierProofs {
    /// A proof that ring-Pedersen parameters are well formed.
    type Prm;

    /// A proof that a modulus is a Paillier-Blum modulus.
    type Mod;

    /// A proof that a modulus has no small factor.
    type Fac;
}

/// Message of the dynamic reshare protocol.
pub enum Msg<S: Group, Z: PaillierProofs> {
    /// Feldman commitment of an old party.
    FeldmanCommitment(MsgFeldmanCommitment<S>),
    /// Share distribution, from an old party to a new one.
    ShareDistribution(MsgShareDistribution<S>),
    /// Auxiliary data of a new party.
    AuxInfo(MsgAuxInfo<Z>),
    /// Final proofs of a new party.
    FinalProofs(MsgFinalProofs<S, Z>),
    /// Reliability check.
    ReliabilityCheck(MsgReliabilityCheck),
}

/// Feldman commitment of an old party.
pub struct MsgFeldmanCommitment<S: Group> {
    /// The generator times each coefficient of the dealer's polynomial, the constant term first.
    pub commitment: Vec<Point<S>>,
}

impl<S: Group> MsgFeldmanCommitment<S> {
    /// `other` holds the same points.
    pub open spec fn copies(self, other: Self) -> bool {
        &&& logs(self.commitment@) == logs(other.commitment@)
        &&& encodings(self.commitment@) == encodings(other.commitment@)
    }
}

impl<S: Group> Clone for MsgFeldmanCommitment<S> {
    fn clone(&self) -> (res: Self)
        ensures
            self.copies(res),
    {
        let mut commitment: Vec<Point<S>> = Vec::new();
        let mut i: usize = 0;
        while i < self.commitment.len()
            invariant
                i <= self.commitment@.len(),
                commitment@.len() == i,
                forall|j: int|
                    #![trigger commitment@[j]]
                    0 <= j < i ==> commitment@[j].log() == self.commitment@[j].log()
                        && commitment@[j].encoding() == self.commitment@[j].encoding(),
            decreases self.commitment@.len() - i,
        {
            commitment.push(self.commitment[i].clone());
            i = i + 1;
        }
        assert(logs(commitment@) =~= logs(self.commitment@));
        assert(encodings(commitment@) =~= encodings(self.commitment@));
        MsgFeldmanCommitment { commitment }
    }
}

/// Share distribution, from an old party to a new one.
pub struct MsgShareDistribution<S: Group> {
    /// The value of the dealer's polynomial at the index of the receiver plus one.
    pub share: Scalar<S>,
    /// Schnorr proof of knowledge of the share.
    pub schnorr_proof: Scalar<S>,
    /// Commitment of the Schnorr proof.
    pub schnorr_commit: Point<S>,
}

impl<S: Group> MsgShareDistribution<S> {
    /// `other` holds the same share and the same proof.
    pub open spec fn copies(self, other: Self) -> bool {
        &&& self.share.val() == other.share.val()
        &&& self.schnorr_proof.val() == other.schnorr_proof.val()
        &&& self.schnorr_commit.log() == other.schnorr_commit.log()
        &&& self.schnorr_commit.encoding() == other.schnorr_commit.encoding()
    }
}

impl<S: Group> Clone for MsgShareDistribution<S> {
    fn clone(&self) -> (res: Self)
        ensures
            self.copies(res),
    {
        MsgShareDistribution {
            share: self.share.clone(),
            schnorr_proof: self.schnorr_proof.clone(),
            schnorr_commit: self.schnorr_commit.clone(),
        }
    }
}

/// Auxiliary data of a new party. Numbers are big-endian bytes.
pub struct MsgAuxInfo<Z: PaillierProofs> {
    /// Paillier modulus.
    pub N: Vec<u8>,
    /// Ring-Pedersen parameter s.
    pub s: Vec<u8>,
    /// Ring-Pedersen parameter t.
    pub t: Vec<u8>,
    /// Proof on the ring-Pedersen parameters.
    pub psi_prm: Z::Prm,
    /// Contribution to the collective randomness.
    pub rho_bytes: Vec<u8>,
}

impl<Z: PaillierProofs> MsgAuxInfo<Z> where Z::Prm: Clone {
    /// `other` holds the same numbers and a clone of the proof.
    pub open spec fn copies(self, other: Self) -> bool {
        &&& self.N@ == other.N@
        &&& self.s@ == other.s@
        &&& self.t@ == other.t@
        &&& cloned(self.psi_prm, other.psi_prm)
        &&& self.rho_bytes@ == other.rho_bytes@
    }
}

impl<Z: PaillierProofs> Clone for MsgAuxInfo<Z> where Z::Prm: Clone {
    fn clone(&self) -> (res: Self)
        ensures
            self.copies(res),
    {
        MsgAuxInfo {
            N: self.N.clone(),
            s: self.s.clone(),
            t: self.t.clone(),
            psi_prm: self.psi_prm.clone(),
            rho_bytes: self.rho_bytes.clone(),
        }
    }
}

/// Final proofs of a new party.
pub struct MsgFinalProofs<S: Group, Z: PaillierProofs> {
    /// Proof on the Paillier-Blum modulus.
    pub psi_mod: Z::Mod,
    /// Proof that the modulus has no small factor.
    pub phi_fac: Z::Fac,
    /// The new public share.
    pub public_share: Point<S>,
    /// Commitment of the Schnorr proof.
    pub schnorr_commit: Point<S>,
    /// Schnorr proof of knowledge of the new share.
    pub schnorr_proof: Scalar<S>,
}

impl<S: Group, Z: PaillierProofs> MsgFinalProofs<S, Z> where Z::Mod: Clone, Z::Fac: Clone {
    /// `other` holds the same public share and Schnorr proof, and clones of the other proofs.
    pub open spec fn copies(self, other: Self) -> bool {
        &&& cloned(self.psi_mod, other.psi_mod)
        &&& cloned(self.phi_fac, other.phi_fac)
        &&& self.public_share.log() == other.public_share.log()
        &&& self.public_share.encoding() == other.public_share.encoding()
        &&& self.schnorr_commit.log() == other.schnorr_commit.log()
        &&& self.schnorr_commit.encoding() == other.schnorr_commit.encoding()
        &&& self.schnorr_proof.val() == other.schnorr_proof.val()
    }
}

impl<S: Group, Z: PaillierProofs> Clone for MsgFinalProofs<S, Z> where
    Z::Mod: Clone,
    Z::Fac: Clone,
 {
    fn clone(&self) -> (res: Self)
        ensures
            self.copies(res),
    {
        MsgFinalProofs {
            psi_mod: self.psi_mod.clone(),
            phi_fac: self.phi_fac.clone(),
            public_share: self.public_share.clone(),
            schnorr_commit: self.schnorr_commit.clone(),
            schnorr_proof: self.schnorr_proof.clone(),
        }
    }
}

/// Reliability check: the digest of the commitments that the sender received.
pub struct MsgReliabilityCheck(pub Vec<u8>);

impl MsgReliabilityCheck {
    /// `other` holds the same digest.
    pub open spec fn copies(self, other: Self) -> bool {
        self.0@ == other.0@
    }
}

impl Clone for MsgReliabilityCheck {
    fn clone(&self) -> (res: Self)
        ensures
            self.copies(res),
    {
        MsgReliabilityCheck(self.0.clone())
    }
}

impl<S: Group, Z: PaillierProofs> Clone for Msg<S, Z> where
    Z::Prm: Clone,
    Z::Mod: Clone,
    Z::Fac: Clone,
 {
    fn clone(&self) -> (res: Self)
        ensures
            match (*self, res) {
                (Msg::FeldmanCommitment(a), Msg::FeldmanCommitment(b)) => a.copies(b),
                (Msg::ShareDistribution(a), Msg::ShareDistribution(b)) => a.copies(b),
                (Msg::AuxInfo(a), Msg::AuxInfo(b)) => a.copies(b),
                (Msg::FinalProofs(a), Msg::FinalProofs(b)) => a.copies(b),
                (Msg::ReliabilityCheck(a), Msg::ReliabilityCheck(b)) => a.copies(b),
                _ => false,
            },
    {
        match self {
            Msg::FeldmanCommitment(msg) => Msg::FeldmanCommitment(msg.clone()),
            Msg::ShareDistribution(msg) => Msg::ShareDistribution(msg.clone()),
            Msg::AuxInfo(msg) => Msg::AuxInfo(msg.clone()),
            Msg::FinalProofs(msg) => Msg::FinalProofs(msg.clone()),
            Msg::ReliabilityCheck(msg) => Msg::ReliabilityCheck(msg.clone()),
        }
    }
}

} // verus!
