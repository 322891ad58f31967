//! The suite of the curve secp256k1 and the digest SHA-256.
//!
//! The functions that are not methods of the suite are the boundary of this crate's proofs:
//! their bodies call the crates `generic-ec`, `generic-ec-zkp` and `udigest`, and their
//! contracts are taken from what those crates document.
use crate::interpolation::is_coefficient;
use crate::suite::{be_value, is_encoding, same_bytes, vals, Group, Point, Scalar, Suite};
use crate::unambiguous::{HashCommitment, SchnorrChallenge, ShareProof};
use core::marker::PhantomData;
use generic_ec::curves::Secp256k1;
use vstd::arithmetic::power2::{lemma2_to64, lemma_pow2_adds, pow2};
use vstd::prelude::*;

verus! {

/// The curve secp256k1 with the digest SHA-256.
#[derive(Debug)]
pub struct Secp256k1Sha256 {}

/// The compressed encoding of `k` times the generator of secp256k1.
pub uninterp spec fn secp256k1_multiple(k: int) -> Seq<u8>;

/// The scalar that the data of a proof on a dealt share hashes to.
pub uninterp spec fn secp256k1_share_proof_hash(
    tag: Seq<char>,
    sid: Seq<u8>,
    dealer: u16,
    receiver: u16,
    public_share: Seq<u8>,
) -> int;

/// The scalar that the data of a proof on a new share hashes to.
pub uninterp spec fn secp256k1_schnorr_hash(
    tag: Seq<char>,
    sid: Seq<u8>,
    rho: Seq<u8>,
    prover: u16,
) -> int;

/// The digest of a list of commitments.
pub uninterp spec fn secp256k1_commitments_hash(
    tag: Seq<char>,
    entries: Seq<(Seq<u8>, u16, Seq<Seq<u8>>)>,
) -> Seq<u8>;

impl Group for Secp256k1Sha256 {
    open spec fn order() -> int {
        0xFFFFFFFFFFFFFFFFFFFFFFFFFFFFFFFEBAAEDCE6AF48A03BBFD25E8CD0364141int
    }

    open spec fn scalar_len() -> nat {
        32
    }

    open spec fn multiple(k: int) -> Seq<u8> {
        secp256k1_multiple(k)
    }

    open spec fn hash_share_proof(
        tag: Seq<char>,
        sid: Seq<u8>,
        dealer: u16,
        receiver: u16,
        public_share: Seq<u8>,
    ) -> int {
        secp256k1_share_proof_hash(tag, sid, dealer, receiver, public_share)
    }

    open spec fn hash_schnorr_challenge(
        tag: Seq<char>,
        sid: Seq<u8>,
        rho: Seq<u8>,
        prover: u16,
    ) -> int {
        secp256k1_schnorr_hash(tag, sid, rho, prover)
    }

    open spec fn hash_commitments(
        tag: Seq<char>,
        entries: Seq<(Seq<u8>, u16, Seq<Seq<u8>>)>,
    ) -> Seq<u8> {
        secp256k1_commitments_hash(tag, entries)
    }

    proof fn lemma_order() {
    }
}

impl Suite for Secp256k1Sha256 {
    fn decode_scalar(bytes: &Vec<u8>) -> (res: Option<Scalar<Self>>) {
        decode_scalar(bytes)
    }

    fn scalar_from(value: u16) -> (res: Scalar<Self>) {
        scalar_from(value)
    }

    fn scalar_add(a: &Scalar<Self>, b: &Scalar<Self>) -> (res: Scalar<Self>) {
        scalar_add(a, b)
    }

    fn scalar_mul(a: &Scalar<Self>, b: &Scalar<Self>) -> (res: Scalar<Self>) {
        scalar_mul(a, b)
    }

    fn scalar_is_nonzero(a: &Scalar<Self>) -> (res: bool) {
        scalar_is_nonzero(a)
    }

    fn decode_point(bytes: &Vec<u8>) -> (res: Option<Point<Self>>) {
        match decode_point(bytes) {
            Some(p) => {
                if same_bytes(&p.to_bytes(), bytes) {
                    Some(p)
                } else {
                    None
                }
            },
            None => None,
        }
    }

    fn point_zero() -> (res: Point<Self>) {
        point_zero()
    }

    fn generator_mul(k: &Scalar<Self>) -> (res: Point<Self>) {
        generator_mul(k)
    }

    fn point_add(a: &Point<Self>, b: &Point<Self>) -> (res: Point<Self>) {
        point_add(a, b)
    }

    fn point_mul(a: &Point<Self>, k: &Scalar<Self>) -> (res: Point<Self>) {
        point_mul(a, k)
    }

    fn point_eq(a: &Point<Self>, b: &Point<Self>) -> (res: bool) {
        point_eq(a, b)
    }

    fn point_is_nonzero(a: &Point<Self>) -> (res: bool) {
        point_is_nonzero(a)
    }

    fn lagrange_coefficient_at_zero(j: usize, xs: &Vec<Scalar<Self>>) -> (res: Option<
        Scalar<Self>,
    >) {
        lagrange_coefficient_at_zero(j, xs)
    }

    fn schnorr_prove(
        nonce: &Scalar<Self>,
        challenge: &Scalar<Self>,
        secret: &Scalar<Self>,
    ) -> (res: Scalar<Self>) {
        schnorr_prove(nonce, challenge, secret)
    }

    fn schnorr_verify(
        proof_scalar: &Scalar<Self>,
        commit: &Point<Self>,
        challenge: &Scalar<Self>,
        public: &Point<Self>,
    ) -> (res: bool) {
        schnorr_verify(proof_scalar, commit, challenge, public)
    }

    fn share_proof_challenge(tag: &str, data: &ShareProof<Self>) -> (res: Scalar<Self>) {
        share_proof_challenge(tag, data)
    }

    fn schnorr_challenge(tag: &str, data: &SchnorrChallenge) -> (res: Scalar<Self>) {
        schnorr_challenge(tag, data)
    }

    fn commitments_digest(tag: &str, entries: &Vec<HashCommitment<Self>>) -> (res: Vec<u8>) {
        commitments_digest(tag, entries)
    }
}

/// `generic_ec::Scalar::from_be_bytes`: decodes at most 32 bytes, the most significant first,
/// and refuses a number that is not below the order.
#[verifier::external_body]
fn decode_scalar(bytes: &Vec<u8>) -> (res: Option<Scalar<Secp256k1Sha256>>)
    ensures
        match res {
            Some(s) => bytes@.len() <= 32 && Secp256k1Sha256::order() > be_value(bytes@) && s.val()
                == be_value(bytes@),
            None => bytes@.len() > 32 || be_value(bytes@) >= Secp256k1Sha256::order(),
        },
{
    let scalar = generic_ec::Scalar::<Secp256k1>::from_be_bytes(bytes).ok()?;
    Some(Scalar { bytes: scalar.to_be_bytes().as_bytes().to_vec(), suite: PhantomData })
}

/// `generic_ec::Scalar::from` on an integer: the scalar of that value.
#[verifier::external_body]
fn scalar_from(value: u16) -> (res: Scalar<Secp256k1Sha256>)
    ensures
        res.val() == value,
{
    let scalar = generic_ec::Scalar::<Secp256k1>::from(value);
    Scalar { bytes: scalar.to_be_bytes().as_bytes().to_vec(), suite: PhantomData }
}

/// `+` on `generic_ec::Scalar`: addition modulo the order.
#[verifier::external_body]
fn scalar_add(a: &Scalar<Secp256k1Sha256>, b: &Scalar<Secp256k1Sha256>) -> (res: Scalar<
    Secp256k1Sha256,
>)
    ensures
        res.val() == (a.val() + b.val()) % Secp256k1Sha256::order(),
{
    let x = generic_ec::Scalar::<Secp256k1>::from_be_bytes(&a.bytes).expect("canonical scalar");
    let y = generic_ec::Scalar::<Secp256k1>::from_be_bytes(&b.bytes).expect("canonical scalar");
    Scalar { bytes: (x + y).to_be_bytes().as_bytes().to_vec(), suite: PhantomData }
}

/// `*` on `generic_ec::Scalar`: multiplication modulo the order.
#[verifier::external_body]
fn scalar_mul(a: &Scalar<Secp256k1Sha256>, b: &Scalar<Secp256k1Sha256>) -> (res: Scalar<
    Secp256k1Sha256,
>)
    ensures
        res.val() == (a.val() * b.val()) % Secp256k1Sha256::order(),
{
    let x = generic_ec::Scalar::<Secp256k1>::from_be_bytes(&a.bytes).expect("canonical scalar");
    let y = generic_ec::Scalar::<Secp256k1>::from_be_bytes(&b.bytes).expect("canonical scalar");
    Scalar { bytes: (x * y).to_be_bytes().as_bytes().to_vec(), suite: PhantomData }
}

/// `generic_ec::NonZero::from_scalar`: succeeds unless the scalar is zero.
#[verifier::external_body]
fn scalar_is_nonzero(a: &Scalar<Secp256k1Sha256>) -> (res: bool)
    ensures
        res == (a.val() != 0),
{
    let x = generic_ec::Scalar::<Secp256k1>::from_be_bytes(&a.bytes).expect("canonical scalar");
    generic_ec::NonZero::from_scalar(x).is_some()
}

/// `generic_ec::Point::from_bytes`: decodes every encoding that `to_bytes` gives. Other
/// encodings of a point are decoded too; they encode differently again. A point of the group
/// is a multiple of the generator, and so is what is returned.
#[verifier::external_body]
fn decode_point(bytes: &Vec<u8>) -> (res: Option<Point<Secp256k1Sha256>>)
    ensures
        is_encoding::<Secp256k1Sha256>(bytes@) ==> res is Some && res->0.encoding() == bytes@,
{
    let point = generic_ec::Point::<Secp256k1>::from_bytes(bytes).ok()?;
    Some(Point { bytes: point.to_bytes(true).as_bytes().to_vec(), suite: PhantomData })
}

/// `generic_ec::Point::zero`: the neutral element.
#[verifier::external_body]
fn point_zero() -> (res: Point<Secp256k1Sha256>)
    ensures
        res.encoding() == secp256k1_multiple(0),
        res.log() == 0,
{
    let point = generic_ec::Point::<Secp256k1>::zero();
    Point { bytes: point.to_bytes(true).as_bytes().to_vec(), suite: PhantomData }
}

/// `*` on `generic_ec::Generator`: a multiple of the generator. Different scalars give
/// different points.
#[verifier::external_body]
fn generator_mul(k: &Scalar<Secp256k1Sha256>) -> (res: Point<Secp256k1Sha256>)
    ensures
        res.encoding() == secp256k1_multiple(k.val()),
        res.log() == k.val(),
{
    let x = generic_ec::Scalar::<Secp256k1>::from_be_bytes(&k.bytes).expect("canonical scalar");
    let point = generic_ec::Point::<Secp256k1>::generator() * x;
    Point { bytes: point.to_bytes(true).as_bytes().to_vec(), suite: PhantomData }
}

/// `+` on `generic_ec::Point`: the group operation, which adds the multiples of the generator.
#[verifier::external_body]
fn point_add(a: &Point<Secp256k1Sha256>, b: &Point<Secp256k1Sha256>) -> (res: Point<
    Secp256k1Sha256,
>)
    ensures
        res.log() == (a.log() + b.log()) % Secp256k1Sha256::order(),
{
    let x = generic_ec::Point::<Secp256k1>::from_bytes(&a.bytes).expect("valid point");
    let y = generic_ec::Point::<Secp256k1>::from_bytes(&b.bytes).expect("valid point");
    Point { bytes: (x + y).to_bytes(true).as_bytes().to_vec(), suite: PhantomData }
}

/// `*` of `generic_ec::Point` with a scalar: scales the multiple of the generator.
#[verifier::external_body]
fn point_mul(a: &Point<Secp256k1Sha256>, k: &Scalar<Secp256k1Sha256>) -> (res: Point<
    Secp256k1Sha256,
>)
    ensures
        res.log() == (a.log() * k.val()) % Secp256k1Sha256::order(),
{
    let x = generic_ec::Point::<Secp256k1>::from_bytes(&a.bytes).expect("valid point");
    let y = generic_ec::Scalar::<Secp256k1>::from_be_bytes(&k.bytes).expect("canonical scalar");
    Point { bytes: (x * y).to_bytes(true).as_bytes().to_vec(), suite: PhantomData }
}

/// `==` on `generic_ec::Point`: equality of group elements.
#[verifier::external_body]
fn point_eq(a: &Point<Secp256k1Sha256>, b: &Point<Secp256k1Sha256>) -> (res: bool)
    ensures
        res == (a.log() == b.log()),
{
    let x = generic_ec::Point::<Secp256k1>::from_bytes(&a.bytes).expect("valid point");
    let y = generic_ec::Point::<Secp256k1>::from_bytes(&b.bytes).expect("valid point");
    x == y
}

/// `generic_ec::NonZero::from_point`: succeeds unless the point is the neutral element.
#[verifier::external_body]
fn point_is_nonzero(a: &Point<Secp256k1Sha256>) -> (res: bool)
    ensures
        res == (a.log() != 0),
{
    let x = generic_ec::Point::<Secp256k1>::from_bytes(&a.bytes).expect("valid point");
    generic_ec::NonZero::from_point(x).is_some()
}

/// `generic_ec_zkp::polynomial::lagrange_coefficient_at_zero`: the product of the other nodes
/// times the inverse of the product of their distances to node `j`. There is none where node
/// `j` does not exist, where the distances multiply to zero, or where the result is zero: the
/// scalars form a field, so where another node equals node `j` or is zero.
#[verifier::external_body]
fn lagrange_coefficient_at_zero(j: usize, xs: &Vec<Scalar<Secp256k1Sha256>>) -> (res: Option<
    Scalar<Secp256k1Sha256>,
>)
    ensures
        res is Some <==> j < xs@.len() && forall|m: int|
            0 <= m < xs@.len() && m != j ==> (#[trigger] xs@[m]).val() != xs@[j as int].val()
                && xs@[m].val() != 0,
        res matches Some(l) ==> is_coefficient(
            vals(xs@),
            j as int,
            l.val(),
            Secp256k1Sha256::order(),
        ),
{
    let nodes: Vec<generic_ec::Scalar<Secp256k1>> = xs.iter().map(
        |x| generic_ec::Scalar::from_be_bytes(&x.bytes).expect("canonical scalar"),
    ).collect();
    let l = generic_ec_zkp::polynomial::lagrange_coefficient_at_zero(j, &nodes)?;
    Some(Scalar { bytes: l.to_be_bytes().as_bytes().to_vec(), suite: PhantomData })
}

/// `generic_ec_zkp::schnorr_pok::prove`: the nonce plus the challenge times the secret.
#[verifier::external_body]
fn schnorr_prove(
    nonce: &Scalar<Secp256k1Sha256>,
    challenge: &Scalar<Secp256k1Sha256>,
    secret: &Scalar<Secp256k1Sha256>,
) -> (res: Scalar<Secp256k1Sha256>)
    ensures
        res.val() == (nonce.val() + challenge.val() * secret.val()) % Secp256k1Sha256::order(),
{
    let mut n = generic_ec::Scalar::from_be_bytes(&nonce.bytes).expect("canonical scalar");
    let c = generic_ec::Scalar::from_be_bytes(&challenge.bytes).expect("canonical scalar");
    let x = generic_ec::Scalar::<Secp256k1>::from_be_bytes(&secret.bytes).expect("canonical scalar");
    let committed = generic_ec_zkp::schnorr_pok::ProverSecret {
        nonce: generic_ec::SecretScalar::new(&mut n),
    };
    let challenged = generic_ec_zkp::schnorr_pok::Challenge { nonce: c };
    let p = generic_ec_zkp::schnorr_pok::prove(&committed, &challenged, x);
    Scalar { bytes: p.0.to_be_bytes().as_bytes().to_vec(), suite: PhantomData }
}

/// `generic_ec_zkp::schnorr_pok::Proof::verify`: whether the generator times the proof equals
/// the commitment plus the challenge times the public point.
#[verifier::external_body]
fn schnorr_verify(
    proof_scalar: &Scalar<Secp256k1Sha256>,
    commit: &Point<Secp256k1Sha256>,
    challenge: &Scalar<Secp256k1Sha256>,
    public: &Point<Secp256k1Sha256>,
) -> (res: bool)
    ensures
        res == (proof_scalar.val() == (commit.log() + challenge.val() * public.log())
            % Secp256k1Sha256::order()),
{
    let s = generic_ec::Scalar::from_be_bytes(&proof_scalar.bytes).expect("canonical scalar");
    let r = generic_ec::Point::from_bytes(&commit.bytes).expect("valid point");
    let c = generic_ec::Scalar::from_be_bytes(&challenge.bytes).expect("canonical scalar");
    let y = generic_ec::Point::<Secp256k1>::from_bytes(&public.bytes).expect("valid point");
    generic_ec_zkp::schnorr_pok::Proof(s).verify(
        &generic_ec_zkp::schnorr_pok::Commit(r),
        &generic_ec_zkp::schnorr_pok::Challenge { nonce: c },
        &y,
    ).is_ok()
}

/// `generic_ec::Scalar::from_hash` with SHA-256 on the fields of `data` under `tag`. The
/// scalar is a function of these alone.
#[verifier::external_body]
fn share_proof_challenge(tag: &str, data: &ShareProof<Secp256k1Sha256>) -> (res: Scalar<
    Secp256k1Sha256,
>)
    ensures
        res.val() == secp256k1_share_proof_hash(
            tag@,
            data.sid@,
            data.dealer,
            data.receiver,
            data.expected_public_share.encoding(),
        ),
{
    let share = generic_ec::Point::<Secp256k1>::from_bytes(&data.expected_public_share.bytes).expect(
        "valid point",
    );
    let fields = udigest::inline_struct::InlineStruct::new().add_field(
        "sid",
        udigest::Bytes(data.sid.as_bytes()),
    ).add_field("dealer", data.dealer).add_field("receiver", data.receiver).add_field(
        "expected_public_share",
        share,
    );
    let c = generic_ec::Scalar::<Secp256k1>::from_hash::<sha2::Sha256>(&fields.set_tag(tag));
    Scalar { bytes: c.to_be_bytes().as_bytes().to_vec(), suite: PhantomData }
}

/// `generic_ec::Scalar::from_hash` with SHA-256 on the fields of `data` under `tag`. The
/// scalar is a function of these alone.
#[verifier::external_body]
fn schnorr_challenge(tag: &str, data: &SchnorrChallenge) -> (res: Scalar<Secp256k1Sha256>)
    ensures
        res.val() == secp256k1_schnorr_hash(tag@, data.sid@, data.rho@, data.prover),
{
    let fields = udigest::inline_struct::InlineStruct::new().add_field(
        "sid",
        udigest::Bytes(data.sid.as_bytes()),
    ).add_field("rho", data.rho).add_field("prover", data.prover);
    let c = generic_ec::Scalar::<Secp256k1>::from_hash::<sha2::Sha256>(&fields.set_tag(tag));
    Scalar { bytes: c.to_be_bytes().as_bytes().to_vec(), suite: PhantomData }
}

/// `udigest::hash_iter` with SHA-256 on the entries, in their order, each under `tag`. The
/// digest is a function of these alone.
#[verifier::external_body]
fn commitments_digest(tag: &str, entries: &Vec<HashCommitment<Secp256k1Sha256>>) -> (res: Vec<u8>)
    ensures
        res@ == secp256k1_commitments_hash(
            tag@,
            Seq::new(entries@.len(), |i: int| entries@[i].digested()),
        ),
{
    udigest::hash_iter::<sha2::Sha256>(
        entries.iter().map(|e| {
            let points: Vec<_> = e.commitment.iter().map(
                |p| generic_ec::Point::<Secp256k1>::from_bytes(&p.bytes).expect("valid point"),
            ).collect();
            udigest::inline_struct::InlineStruct::new().add_field(
                "sid",
                udigest::Bytes(e.sid.as_bytes()),
            ).add_field("party_index", e.party_index).add_field("commitment", points).set_tag(tag)
        }),
    ).to_vec()
}

/// The challenges and digests of the suite are those of the whole data: of the tag and of every
/// field.
pub proof fn law_hashes_take_every_field(
    tag: Seq<char>,
    sid: Seq<u8>,
    dealer: u16,
    receiver: u16,
    public_share: Seq<u8>,
    rho: Seq<u8>,
    entries: Seq<(Seq<u8>, u16, Seq<Seq<u8>>)>,
    k: int,
)
    ensures
        Secp256k1Sha256::hash_share_proof(tag, sid, dealer, receiver, public_share)
            == secp256k1_share_proof_hash(tag, sid, dealer, receiver, public_share),
        Secp256k1Sha256::hash_schnorr_challenge(tag, sid, rho, dealer) == secp256k1_schnorr_hash(
            tag,
            sid,
            rho,
            dealer,
        ),
        Secp256k1Sha256::hash_commitments(tag, entries) == secp256k1_commitments_hash(tag, entries),
        Secp256k1Sha256::multiple(k) == secp256k1_multiple(k),
{
}

/// The order of the group, as the difference to a power of two.
pub proof fn law_order_of_the_group()
    ensures
        Secp256k1Sha256::order() == pow2(256) - 0x14551231950B75FC4402DA1732FC9BEBF,
        pow2((8 * Secp256k1Sha256::scalar_len()) as nat) > Secp256k1Sha256::order(),
{
    lemma2_to64();
    lemma_pow2_adds(64, 64);
    lemma_pow2_adds(128, 128);
    let (a, b) = (pow2(64) as int, pow2(128) as int);
    assert(a * a == 0x1_0000_0000_0000_0000_0000_0000_0000_0000int) by (nonlinear_arith)
        requires
            a == 0x1_0000_0000_0000_0000int,
    ;
    assert(b * b
        == 0x1_0000_0000_0000_0000_0000_0000_0000_0000_0000_0000_0000_0000_0000_0000_0000_0000int)
        by (nonlinear_arith)
        requires
            b == 0x1_0000_0000_0000_0000_0000_0000_0000_0000int,
    ;
}

} // verus!
