//! Dynamic reshare protocol for participant replacement.
//!
//! Reshares a key to a new set of participants while the shared public key stays the same. Old
//! participants (dealers) deal their shares to new participants (receivers) with Feldman's
//! verifiable secret sharing; new participants agree on auxiliary data and prove that they know
//! their new shares.
//!
//! Everything that a participant computes and decides is here and is verified: [`dealer`] is the
//! part of the old participants, [`receiver`] that of the new ones, round by round, and
//! [`builder`] finds the role of a party. [`laws`] states what holds of a reshare as a whole, and
//! [`operations`] what each operation does, in elementary terms.
//! Sending and receiving messages, drawing randomness, and the zero-knowledge proofs on Paillier
//! moduli are left to the caller.
pub mod algebra;
pub mod builder;
pub mod config;
pub mod dealer;
pub mod error;
pub mod interpolation;
pub mod key_share;
pub mod laws;
pub mod messages;
pub mod operations;
pub mod order;
pub mod polynomial;
pub mod randomness;
pub mod receiver;
pub mod round_input;
pub mod secp256k1;
pub mod seqs;
pub mod suite;
pub mod sums;
pub mod unambiguous;
