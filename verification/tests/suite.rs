use dynamic_reshare::secp256k1::Secp256k1Sha256;
use dynamic_reshare::suite::{Point, Scalar, Suite};
use dynamic_reshare::unambiguous::{
    ExecutionId, HashCommitment, SchnorrChallenge, ShareProof, HASH_COMMITMENT_TAG,
    SCHNORR_CHALLENGE_TAG, SHARE_PROOF_TAG,
};
use generic_ec::curves::Secp256k1;
use udigest::encoding::EncodeValue;
use udigest::{Buffer, Digestable};

type C = Secp256k1Sha256;

const ORDER: &str = "fffffffffffffffffffffffffffffffebaaedce6af48a03bbfd25e8cd0364141";

fn unhex(text: &str) -> Vec<u8> {
    hex::decode(text).unwrap()
}

fn num(value: u64) -> Scalar<C> {
    C::decode_scalar(&value.to_be_bytes().to_vec()).unwrap()
}

/// The order of the group minus `value`.
fn minus(value: u8) -> Vec<u8> {
    let mut bytes = unhex(ORDER);
    let last = bytes.len() - 1;
    bytes[last] -= value;
    bytes
}

fn number(s: &Scalar<C>) -> u64 {
    let bytes = s.to_bytes();
    let mut value: u64 = 0;
    for b in bytes {
        assert!(value < 1 << 56);
        value = value * 256 + b as u64;
    }
    value
}

fn times(k: u64) -> Point<C> {
    C::generator_mul(&num(k))
}

#[test]
fn scalars_decode_below_the_order() {
    assert_eq!(number(&num(0x0102030405)), 0x0102030405);
    assert!(C::decode_scalar(&unhex(ORDER)).is_none());
    let largest = C::decode_scalar(&minus(1)).unwrap();
    assert_eq!(largest.to_bytes(), minus(1));
    assert!(C::decode_scalar(&vec![0; 33]).is_none());
    assert_eq!(number(&C::decode_scalar(&vec![0; 32]).unwrap()), 0);
    assert_eq!(number(&C::decode_scalar(&vec![]).unwrap()), 0);
    assert_eq!(number(&C::scalar_from(65535)), 65535);
}

#[test]
fn scalars_add_and_multiply_modulo_the_order() {
    assert_eq!(number(&C::scalar_add(&num(40), &num(2))), 42);
    assert_eq!(number(&C::scalar_mul(&num(6), &num(7))), 42);
    let largest = C::decode_scalar(&minus(1)).unwrap();
    assert_eq!(number(&C::scalar_add(&largest, &num(5))), 4);
    assert_eq!(number(&C::scalar_mul(&largest, &largest)), 1);
    assert!(C::scalar_is_nonzero(&largest));
    assert!(!C::scalar_is_nonzero(&C::scalar_add(&largest, &num(1))));
}

#[test]
fn multiples_of_the_generator() {
    assert_eq!(
        times(1).to_bytes(),
        unhex("0279be667ef9dcbbac55a06295ce870b07029bfcdb2dce28d959f2815b16f81798")
    );
    assert_eq!(
        times(2).to_bytes(),
        unhex("02c6047f9441ed7d6d3045406e95c07cd85c778e4b8cef3ca7abac09b95c709ee5")
    );
    assert_eq!(C::point_zero().to_bytes(), times(0).to_bytes());
}

#[test]
fn points_form_the_group() {
    assert!(C::point_eq(&C::point_add(&times(3), &times(4)), &times(7)));
    assert!(C::point_eq(&C::point_mul(&times(3), &num(4)), &times(12)));
    assert!(!C::point_eq(&times(3), &times(4)));
    assert!(C::point_is_nonzero(&times(3)));
    assert!(!C::point_is_nonzero(&C::point_zero()));
    let opposite = C::generator_mul(&C::decode_scalar(&minus(3)).unwrap());
    assert!(!C::point_is_nonzero(&C::point_add(&times(3), &opposite)));
}

#[test]
fn points_decode_from_their_compressed_encoding() {
    let point = C::decode_point(&times(5).to_bytes()).unwrap();
    assert!(C::point_eq(&point, &times(5)));
    let zero = C::decode_point(&C::point_zero().to_bytes()).unwrap();
    assert!(!C::point_is_nonzero(&zero));
    assert!(C::decode_point(&vec![1, 2, 3]).is_none());
    let uncompressed = generic_ec::Point::<Secp256k1>::generator().to_point().to_bytes(false);
    assert!(C::decode_point(&uncompressed.as_bytes().to_vec()).is_none());
}

#[test]
fn interpolation_coefficients_at_zero() {
    let nodes = vec![num(1), num(2), num(3)];
    assert_eq!(number(&C::lagrange_coefficient_at_zero(0, &nodes).unwrap()), 3);
    assert_eq!(C::lagrange_coefficient_at_zero(1, &nodes).unwrap().to_bytes(), minus(3));
    assert_eq!(number(&C::lagrange_coefficient_at_zero(2, &nodes).unwrap()), 1);
    assert!(C::lagrange_coefficient_at_zero(3, &nodes).is_none());
    assert_eq!(number(&C::lagrange_coefficient_at_zero(0, &vec![num(9)]).unwrap()), 1);
}

#[test]
fn some_nodes_have_no_coefficient() {
    let twice = vec![num(1), num(2), num(2)];
    assert!(C::lagrange_coefficient_at_zero(1, &twice).is_none());
    assert!(C::lagrange_coefficient_at_zero(0, &twice).is_some());
    let zero = vec![num(4), num(0)];
    assert!(C::lagrange_coefficient_at_zero(0, &zero).is_none());
    assert_eq!(number(&C::lagrange_coefficient_at_zero(1, &zero).unwrap()), 1);
}

#[test]
fn schnorr_proofs() {
    let proof = C::schnorr_prove(&num(7), &num(3), &num(5));
    assert_eq!(number(&proof), 22);
    assert!(C::schnorr_verify(&proof, &times(7), &num(3), &times(5)));
    assert!(!C::schnorr_verify(&proof, &times(7), &num(3), &times(6)));
    assert!(!C::schnorr_verify(&proof, &times(8), &num(3), &times(5)));
    assert!(!C::schnorr_verify(&num(23), &times(7), &num(3), &times(5)));
}

struct ShareProofData {
    sid: Vec<u8>,
    dealer: u16,
    receiver: u16,
    expected_public_share: generic_ec::Point<Secp256k1>,
}

impl Digestable for ShareProofData {
    fn unambiguously_encode<B: Buffer>(&self, encoder: EncodeValue<B>) {
        let mut fields = encoder.encode_struct();
        fields.set_tag(b"dfns.cggmp21.dynamic_reshare.share_proof");
        udigest::Bytes(&self.sid).unambiguously_encode(fields.add_field("sid"));
        self.dealer.unambiguously_encode(fields.add_field("dealer"));
        self.receiver.unambiguously_encode(fields.add_field("receiver"));
        self.expected_public_share.unambiguously_encode(fields.add_field("expected_public_share"));
        fields.finish();
    }
}

#[test]
fn challenge_of_a_dealt_share() {
    let sid = b"execution".to_vec();
    let expected = generic_ec::Scalar::<Secp256k1>::from_hash::<sha2::Sha256>(&ShareProofData {
        sid: sid.clone(),
        dealer: 300,
        receiver: 2,
        expected_public_share: generic_ec::Point::generator() * generic_ec::Scalar::from(9),
    });
    let challenge = C::share_proof_challenge(
        SHARE_PROOF_TAG,
        &ShareProof {
            sid: ExecutionId::new(&sid),
            dealer: 300,
            receiver: 2,
            expected_public_share: times(9),
        },
    );
    assert_eq!(challenge.to_bytes(), expected.to_be_bytes().as_bytes().to_vec());
}

struct SchnorrData {
    sid: Vec<u8>,
    rho: Vec<u8>,
    prover: u16,
}

impl Digestable for SchnorrData {
    fn unambiguously_encode<B: Buffer>(&self, encoder: EncodeValue<B>) {
        let mut fields = encoder.encode_struct();
        fields.set_tag(b"dfns.cggmp21.dynamic_reshare.schnorr_challenge");
        udigest::Bytes(&self.sid).unambiguously_encode(fields.add_field("sid"));
        self.rho.as_slice().unambiguously_encode(fields.add_field("rho"));
        self.prover.unambiguously_encode(fields.add_field("prover"));
        fields.finish();
    }
}

#[test]
fn challenge_of_a_new_share() {
    let sid = b"execution".to_vec();
    let rho = vec![0, 1, 2, 255];
    let expected = generic_ec::Scalar::<Secp256k1>::from_hash::<sha2::Sha256>(&SchnorrData {
        sid: sid.clone(),
        rho: rho.clone(),
        prover: 3,
    });
    let challenge = C::schnorr_challenge(
        SCHNORR_CHALLENGE_TAG,
        &SchnorrChallenge { sid: ExecutionId::new(&sid), rho: &rho, prover: 3 },
    );
    assert_eq!(challenge.to_bytes(), expected.to_be_bytes().as_bytes().to_vec());
    let other = C::schnorr_challenge(
        SCHNORR_CHALLENGE_TAG,
        &SchnorrChallenge { sid: ExecutionId::new(&sid), rho: &rho, prover: 4 },
    );
    assert_ne!(challenge.to_bytes(), other.to_bytes());
}

struct CommitmentData {
    sid: Vec<u8>,
    party_index: u16,
    commitment: Vec<generic_ec::Point<Secp256k1>>,
}

impl Digestable for CommitmentData {
    fn unambiguously_encode<B: Buffer>(&self, encoder: EncodeValue<B>) {
        let mut fields = encoder.encode_struct();
        fields.set_tag(b"dfns.cggmp21.dynamic_reshare.hash_commitment");
        udigest::Bytes(&self.sid).unambiguously_encode(fields.add_field("sid"));
        self.party_index.unambiguously_encode(fields.add_field("party_index"));
        self.commitment.as_slice().unambiguously_encode(fields.add_field("commitment"));
        fields.finish();
    }
}

#[test]
fn digest_of_commitments() {
    let sid = b"execution".to_vec();
    let generator = generic_ec::Point::<Secp256k1>::generator().to_point();
    let expected = udigest::hash_iter::<sha2::Sha256>(
        vec![
            CommitmentData {
                sid: sid.clone(),
                party_index: 1,
                commitment: vec![generator, generator + generator],
            },
            CommitmentData { sid: sid.clone(), party_index: 0, commitment: vec![] },
        ]
        .into_iter(),
    );
    let first = vec![times(1), times(2)];
    let second: Vec<Point<C>> = vec![];
    let eid = ExecutionId::new(&sid);
    let digest = C::commitments_digest(
        HASH_COMMITMENT_TAG,
        &vec![
            HashCommitment { sid: eid, party_index: 1, commitment: &first },
            HashCommitment { sid: eid, party_index: 0, commitment: &second },
        ],
    );
    assert_eq!(digest, expected.to_vec());
    let swapped = C::commitments_digest(
        HASH_COMMITMENT_TAG,
        &vec![
            HashCommitment { sid: eid, party_index: 0, commitment: &second },
            HashCommitment { sid: eid, party_index: 1, commitment: &first },
        ],
    );
    assert_ne!(digest, swapped);
}
