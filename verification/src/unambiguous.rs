//! The data that challenges and digests are taken over, each kind with a tag of its own.
use crate::suite::{encodings, Group, Point};
use vstd::prelude::*;

verus! {

/// Identifier of one execution of the protocol, which every challenge is bound to.
#[derive(Clone, Copy)]
pub struct ExecutionId<'a> {
    id: &'a [u8],
}

impl<'a> ExecutionId<'a> {
    pub closed spec fn view(self) -> Seq<u8> {
        self.id@
    }

    pub fn new(id: &'a [u8]) -> (sid: Self)
        ensures
            sid@ == id@,
    {
        ExecutionId { id }
    }

    pub fn as_bytes(&self) -> (id: &'a [u8])
        ensures
            id@ == self@,
    {
        self.id
    }
}

/// The tag of [`ProofPrm`].
pub const PROOF_PRM_TAG: &'static str = "dfns.cggmp21.dynamic_reshare.proof_prm";

/// The tag of [`ProofMod`].
pub const PROOF_MOD_TAG: &'static str = "dfns.cggmp21.dynamic_reshare.proof_mod";

/// The tag of [`SchnorrChallenge`].
pub const SCHNORR_CHALLENGE_TAG: &'static str = "dfns.cggmp21.dynamic_reshare.schnorr_challenge";

/// The tag of [`ProofFac`].
pub const PROOF_FAC_TAG: &'static str = "dfns.cggmp21.dynamic_reshare.proof_fac";

/// The tag of [`ShareProof`].
pub const SHARE_PROOF_TAG: &'static str = "dfns.cggmp21.dynamic_reshare.share_proof";

/// The tag of [`HashCommitment`].
pub const HASH_COMMITMENT_TAG: &'static str = "dfns.cggmp21.dynamic_reshare.hash_commitment";

/// What a proof on ring-Pedersen parameters is bound to.
pub struct ProofPrm<'a> {
    pub sid: ExecutionId<'a>,
    pub prover: u16,
}

/// What a proof on a Paillier-Blum modulus is bound to.
pub struct ProofMod<'a> {
    pub sid: ExecutionId<'a>,
    pub rho: &'a [u8],
    pub prover: u16,
}

/// What a proof of knowledge of a new share is bound to.
pub struct SchnorrChallenge<'a> {
    pub sid: ExecutionId<'a>,
    pub rho: &'a [u8],
    pub prover: u16,
}

/// What a proof that a modulus has no small factor is bound to.
pub struct ProofFac<'a> {
    pub sid: ExecutionId<'a>,
    pub rho: &'a [u8],
    pub prover: u16,
}

/// What a proof of knowledge of a dealt share is bound to.
pub struct ShareProof<'a, S: Group> {
    pub sid: ExecutionId<'a>,
    pub dealer: u16,
    pub receiver: u16,
    pub expected_public_share: Point<S>,
}

/// One commitment as it enters the digest of a reliability check.
pub struct HashCommitment<'a, S: Group> {
    pub sid: ExecutionId<'a>,
    pub party_index: u16,
    pub commitment: &'a Vec<Point<S>>,
}

impl<'a, S: Group> HashCommitment<'a, S> {
    /// What the digest is taken over.
    pub open spec fn digested(self) -> (Seq<u8>, u16, Seq<Seq<u8>>) {
        (self.sid@, self.party_index, encodings(self.commitment@))
    }
}

/// Each kind of data has a tag that is made of the name of the protocol and of the data.
pub proof fn law_tags_name_the_data()
    ensures
        PROOF_PRM_TAG@ == "dfns.cggmp21.dynamic_reshare."@ + "proof_prm"@,
        PROOF_MOD_TAG@ == "dfns.cggmp21.dynamic_reshare."@ + "proof_mod"@,
        SCHNORR_CHALLENGE_TAG@ == "dfns.cggmp21.dynamic_reshare."@ + "schnorr_challenge"@,
        PROOF_FAC_TAG@ == "dfns.cggmp21.dynamic_reshare."@ + "proof_fac"@,
        SHARE_PROOF_TAG@ == "dfns.cggmp21.dynamic_reshare."@ + "share_proof"@,
        HASH_COMMITMENT_TAG@ == "dfns.cggmp21.dynamic_reshare."@ + "hash_commitment"@,
{
    reveal_strlit("dfns.cggmp21.dynamic_reshare.");
    reveal_strlit("proof_prm");
    reveal_strlit("proof_mod");
    reveal_strlit("schnorr_challenge");
    reveal_strlit("proof_fac");
    reveal_strlit("share_proof");
    reveal_strlit("hash_commitment");
    reveal_strlit("dfns.cggmp21.dynamic_reshare.proof_prm");
    reveal_strlit("dfns.cggmp21.dynamic_reshare.proof_mod");
    reveal_strlit("dfns.cggmp21.dynamic_reshare.schnorr_challenge");
    reveal_strlit("dfns.cggmp21.dynamic_reshare.proof_fac");
    reveal_strlit("dfns.cggmp21.dynamic_reshare.share_proof");
    reveal_strlit("dfns.cggmp21.dynamic_reshare.hash_commitment");
    let prefix = "dfns.cggmp21.dynamic_reshare."@;
    assert(PROOF_PRM_TAG@ =~= prefix + "proof_prm"@);
    assert(PROOF_MOD_TAG@ =~= prefix + "proof_mod"@);
    assert(SCHNORR_CHALLENGE_TAG@ =~= prefix + "schnorr_challenge"@);
    assert(PROOF_FAC_TAG@ =~= prefix + "proof_fac"@);
    assert(SHARE_PROOF_TAG@ =~= prefix + "share_proof"@);
    assert(HASH_COMMITMENT_TAG@ =~= prefix + "hash_commitment"@);
}

/// A commitment enters a digest with its execution, its dealer and the encodings of all its
/// points: commitments that enter alike agree in each of these.
pub proof fn law_digested_commitment_binds_every_part<'a, 'b, S: Group>(
    one: HashCommitment<'a, S>,
    other: HashCommitment<'b, S>,
)
    ensures
        one.digested() == other.digested() <==> {
            &&& one.sid@ == other.sid@
            &&& one.party_index == other.party_index
            &&& one.commitment@.len() == other.commitment@.len()
            &&& forall|i: int|
                0 <= i < one.commitment@.len() ==> (#[trigger] one.commitment@[i]).encoding()
                    == other.commitment@[i].encoding()
        },
{
    let (a, b) = (one.commitment@, other.commitment@);
    if encodings(a) == encodings(b) {
        assert(encodings(a).len() == a.len() && encodings(b).len() == b.len());
        assert forall|i: int| 0 <= i < a.len() implies (#[trigger] a[i]).encoding()
            == b[i].encoding() by {
            assert(encodings(a)[i] == encodings(b)[i]);
        }
    }
    if a.len() == b.len() && (forall|i: int|
        0 <= i < a.len() ==> (#[trigger] a[i]).encoding() == b[i].encoding()) {
        assert(encodings(a) =~= encodings(b));
    }
}

} // verus!
