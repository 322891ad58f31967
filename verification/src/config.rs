//! Who deals and who receives in a reshare.
use crate::seqs::first_at;
use crate::suite::{Group, Point};
use vstd::prelude::*;

verus! {

/// Configuration of a reshare.
#[derive(Debug)]
pub struct ReshareConfig<S: Group> {
    /// Indices of the old participants (dealers): positions in the union of all parties.
    pub old_parties: Vec<u16>,
    /// Indices of the new participants (receivers): positions in the union of all parties.
    pub new_parties: Vec<u16>,
    /// The shared public key, which the reshare keeps.
    pub shared_public_key: Point<S>,
    /// Threshold of the new shares. Without one, all new participants must sign.
    pub new_threshold: Option<u16>,
    /// The index that the stored key share of each old party carries, in the order of
    /// `old_parties`. It selects the coordinate of the share in the interpolation, where it
    /// differs from the index that the party has in this run. If empty, the values of
    /// `old_parties` are used.
    pub old_core_indices: Vec<u16>,
}

impl<S: Group> Clone for ReshareConfig<S> {
    fn clone(&self) -> (res: Self)
        ensures
            res.old_parties@ == self.old_parties@,
            res.new_parties@ == self.new_parties@,
            res.shared_public_key.encoding() == self.shared_public_key.encoding(),
            res.shared_public_key.log() == self.shared_public_key.log(),
            res.new_threshold == self.new_threshold,
            res.old_core_indices@ == self.old_core_indices@,
    {
        ReshareConfig {
            old_parties: self.old_parties.clone(),
            new_parties: self.new_parties.clone(),
            shared_public_key: self.shared_public_key.clone(),
            new_threshold: self.new_threshold,
            old_core_indices: self.old_core_indices.clone(),
        }
    }
}

/// Where `index` first occurs in `parties`.
fn position(parties: &Vec<u16>, index: u16) -> (res: Option<usize>)
    ensures
        match res {
            Some(i) => first_at(parties@, index, i as int),
            None => !parties@.contains(index),
        },
{
    let mut i: usize = 0;
    while i < parties.len()
        invariant
            i <= parties@.len(),
            forall|j: int| 0 <= j < i ==> parties@[j] != index,
        decreases parties@.len() - i,
    {
        if parties[i] == index {
            return Some(i);
        }
        i = i + 1;
    }
    None
}

impl<S: Group> ReshareConfig<S> {
    /// A configuration under which all new participants must sign.
    pub fn new(
        old_parties: Vec<u16>,
        new_parties: Vec<u16>,
        shared_public_key: Point<S>,
    ) -> (res: Self)
        ensures
            res.old_parties == old_parties,
            res.new_parties == new_parties,
            res.shared_public_key == shared_public_key,
            res.new_threshold is None,
            res.old_core_indices@.len() == 0,
    {
        ReshareConfig {
            old_parties,
            new_parties,
            shared_public_key,
            new_threshold: None,
            old_core_indices: Vec::new(),
        }
    }

    /// A configuration with a new threshold of at least 2 and at most the number of new
    /// participants.
    pub fn with_new_threshold(
        old_parties: Vec<u16>,
        new_parties: Vec<u16>,
        shared_public_key: Point<S>,
        new_threshold: u16,
    ) -> (res: Self)
        requires
            2 <= new_threshold <= new_parties@.len(),
        ensures
            res.old_parties == old_parties,
            res.new_parties == new_parties,
            res.shared_public_key == shared_public_key,
            res.new_threshold == Some(new_threshold),
            res.old_core_indices@.len() == 0,
    {
        ReshareConfig {
            old_parties,
            new_parties,
            shared_public_key,
            new_threshold: Some(new_threshold),
            old_core_indices: Vec::new(),
        }
    }

    /// The number of new participants that must sign.
    pub open spec fn threshold(self) -> int {
        match self.new_threshold {
            Some(t) => t as int,
            None => (self.new_parties@.len() % 0x1_0000) as int,
        }
    }

    /// The threshold if one is set, else the number of new participants.
    pub fn effective_new_threshold(&self) -> (res: u16)
        ensures
            res == self.threshold(),
            self.new_threshold matches Some(t) ==> res == t,
            self.new_threshold is None ==> res == self.new_parties@.len() % 0x1_0000,
    {
        match self.new_threshold {
            Some(t) => t,
            None => self.n_new(),
        }
    }

    /// Number of old participants, which is counted in 16 bits.
    pub fn n_old(&self) -> (res: u16)
        ensures
            res == self.old_parties@.len() % 0x1_0000,
    {
        let n: usize = self.old_parties.len();
        assert(n as u16 == n % 0x1_0000) by (bit_vector);
        n as u16
    }

    /// Number of new participants, which is counted in 16 bits.
    pub fn n_new(&self) -> (res: u16)
        ensures
            res == self.new_parties@.len() % 0x1_0000,
    {
        let n: usize = self.new_parties.len();
        assert(n as u16 == n % 0x1_0000) by (bit_vector);
        n as u16
    }

    /// Whether a party is an old participant.
    pub fn is_old_party(&self, index: u16) -> (res: bool)
        ensures
            res == self.old_parties@.contains(index),
    {
        position(&self.old_parties, index).is_some()
    }

    /// Whether a party is a new participant.
    pub fn is_new_party(&self, index: u16) -> (res: bool)
        ensures
            res == self.new_parties@.contains(index),
    {
        position(&self.new_parties, index).is_some()
    }

    /// Where an old party first stands in `old_parties`.
    pub fn old_party_position(&self, index: u16) -> (res: Option<usize>)
        ensures
            match res {
                Some(i) => first_at(self.old_parties@, index, i as int),
                None => !self.old_parties@.contains(index),
            },
    {
        position(&self.old_parties, index)
    }

    /// Where a new party first stands in `new_parties`.
    pub fn new_party_position(&self, index: u16) -> (res: Option<usize>)
        ensures
            match res {
                Some(i) => first_at(self.new_parties@, index, i as int),
                None => !self.new_parties@.contains(index),
            },
    {
        position(&self.new_parties, index)
    }

    /// The indices that select the coordinates of the old shares.
    pub open spec fn core_indices(self) -> Seq<u16> {
        if self.old_core_indices@.len() > 0 {
            self.old_core_indices@
        } else {
            self.old_parties@
        }
    }

    /// Where the share with index `core_index` stands among the old shares.
    pub fn core_position(&self, core_index: u16) -> (res: Option<usize>)
        ensures
            match res {
                Some(i) => first_at(self.core_indices(), core_index, i as int),
                None => !self.core_indices().contains(core_index),
            },
            match res {
                Some(i) => if self.old_core_indices@.len() > 0 {
                    i < self.old_core_indices@.len() && self.old_core_indices@[i as int]
                        == core_index
                } else {
                    i < self.old_parties@.len() && self.old_parties@[i as int] == core_index
                },
                None => if self.old_core_indices@.len() > 0 {
                    !self.old_core_indices@.contains(core_index)
                } else {
                    !self.old_parties@.contains(core_index)
                },
            },
    {
        if self.old_core_indices.len() > 0 {
            position(&self.old_core_indices, core_index)
        } else {
            position(&self.old_parties, core_index)
        }
    }
}

} // verus!
