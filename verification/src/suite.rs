//! The group in which keys are shared, and the operations on it that the protocol needs.
//!
//! A scalar is held as the big-endian bytes of its value, a point as its compressed encoding.
//! The proofs speak of a scalar by its value and of a point by its discrete logarithm to the
//! base of the generator.
use crate::interpolation::is_coefficient;
use crate::unambiguous::{HashCommitment, SchnorrChallenge, ShareProof};
use core::marker::PhantomData;
use vstd::arithmetic::power::{lemma_pow0, pow};
use vstd::prelude::*;

verus! {

/// The number that `bytes` stand for, the most significant byte first.
pub open spec fn be_value(bytes: Seq<u8>) -> int
    decreases bytes.len(),
{
    if bytes.len() == 0 {
        0
    } else {
        be_value(bytes.drop_last()) * 256 + bytes.last() as int
    }
}

/// A cyclic group of known order with a generator, and the hash functions on it.
pub trait Group: Sized {
    /// The order of the group, and the modulus of its scalars.
    spec fn order() -> int;

    /// The number of bytes that hold a scalar.
    spec fn scalar_len() -> nat;

    /// The compressed encoding of `k` times the generator.
    spec fn multiple(k: int) -> Seq<u8>;

    /// The scalar that a proof on a dealt share is challenged with.
    spec fn hash_share_proof(
        tag: Seq<char>,
        sid: Seq<u8>,
        dealer: u16,
        receiver: u16,
        public_share: Seq<u8>,
    ) -> int;

    /// The scalar that a proof on a new share is challenged with.
    spec fn hash_schnorr_challenge(
        tag: Seq<char>,
        sid: Seq<u8>,
        rho: Seq<u8>,
        prover: u16,
    ) -> int;

    /// The digest of a list of commitments.
    spec fn hash_commitments(
        tag: Seq<char>,
        entries: Seq<(Seq<u8>, u16, Seq<Seq<u8>>)>,
    ) -> Seq<u8>;

    /// Every party index plus one is a scalar of its own.
    proof fn lemma_order()
        ensures
            Self::order() > 0x1_0000,
    ;
}

/// The bytes encode some multiple of the generator.
pub open spec fn is_encoding<S: Group>(bytes: Seq<u8>) -> bool {
    exists|k: int| 0 <= k < S::order() && #[trigger] S::multiple(k) == bytes
}

/// The multiple of the generator that the bytes encode.
pub open spec fn discrete_log<S: Group>(bytes: Seq<u8>) -> int {
    choose|k: int| 0 <= k < S::order() && #[trigger] S::multiple(k) == bytes
}

/// An integer modulo the order of the group.
pub struct Scalar<S: Group> {
    pub(crate) bytes: Vec<u8>,
    pub(crate) suite: PhantomData<S>,
}

impl<S: Group> Scalar<S> {
    /// The value of the scalar.
    pub closed spec fn val(self) -> int {
        be_value(self.bytes@)
    }

    /// The number of bytes that the scalar is held in.
    pub closed spec fn width(self) -> nat {
        self.bytes@.len()
    }

    /// The value is reduced, and held in no more bytes than a scalar needs.
    #[verifier::type_invariant]
    pub open spec fn canonical(self) -> bool {
        &&& 0 <= self.val() < S::order()
        &&& self.width() <= S::scalar_len()
    }

    /// The bytes of the scalar, the most significant first.
    pub fn to_bytes(&self) -> (bytes: Vec<u8>)
        ensures
            be_value(bytes@) == self.val(),
            0 <= be_value(bytes@) < S::order(),
            bytes@.len() <= S::scalar_len(),
    {
        proof {
            use_type_invariant(self);
        }
        self.bytes.clone()
    }
}

impl<S: Group> Clone for Scalar<S> {
    fn clone(&self) -> (res: Self)
        ensures
            res.val() == self.val(),
    {
        proof {
            use_type_invariant(self);
        }
        Scalar { bytes: self.bytes.clone(), suite: PhantomData }
    }
}

/// The values of a list of scalars.
pub open spec fn vals<S: Group>(s: Seq<Scalar<S>>) -> Seq<int> {
    Seq::new(s.len(), |i: int| s[i].val())
}

/// An element of the group.
#[derive(Debug)]
pub struct Point<S: Group> {
    pub(crate) bytes: Vec<u8>,
    pub(crate) suite: PhantomData<S>,
}

impl<S: Group> Point<S> {
    /// The compressed encoding of the point.
    pub closed spec fn encoding(self) -> Seq<u8> {
        self.bytes@
    }

    /// The discrete logarithm of the point.
    pub open spec fn log(self) -> int {
        discrete_log::<S>(self.encoding())
    }

    /// The point is a multiple of the generator.
    #[verifier::type_invariant]
    pub open spec fn valid(self) -> bool {
        is_encoding::<S>(self.encoding())
    }

    /// The compressed encoding of the point.
    pub fn to_bytes(&self) -> (bytes: Vec<u8>)
        ensures
            bytes@ == self.encoding(),
            is_encoding::<S>(bytes@),
    {
        proof {
            use_type_invariant(self);
        }
        self.bytes.clone()
    }
}

impl<S: Group> Clone for Point<S> {
    fn clone(&self) -> (res: Self)
        ensures
            res.encoding() == self.encoding(),
            res.log() == self.log(),
    {
        proof {
            use_type_invariant(self);
        }
        Point { bytes: self.bytes.clone(), suite: PhantomData }
    }
}

/// The discrete logarithms of a list of points.
pub open spec fn logs<S: Group>(s: Seq<Point<S>>) -> Seq<int> {
    Seq::new(s.len(), |i: int| s[i].log())
}

/// The encodings of a list of points.
pub open spec fn encodings<S: Group>(s: Seq<Point<S>>) -> Seq<Seq<u8>> {
    Seq::new(s.len(), |i: int| s[i].encoding())
}

/// Whether two byte strings are equal.
pub(crate) fn same_bytes(a: &Vec<u8>, b: &Vec<u8>) -> (res: bool)
    ensures
        res == (a@ == b@),
{
    if a.len() != b.len() {
        return false;
    }
    let mut i: usize = 0;
    while i < a.len()
        invariant
            i <= a@.len(),
            a@.len() == b@.len(),
            forall|j: int| 0 <= j < i ==> a@[j] == b@[j],
        decreases a@.len() - i,
    {
        if a[i] != b[i] {
            return false;
        }
        i = i + 1;
    }
    assert(a@ =~= b@);
    true
}

/// The operations of a group and of the digest that goes with it.
pub trait Suite: Group {
    /// The scalar with these big-endian bytes, unless they are too many or not below the order.
    fn decode_scalar(bytes: &Vec<u8>) -> (res: Option<Scalar<Self>>)
        ensures
            res is Some <==> bytes@.len() <= Self::scalar_len() && be_value(bytes@) < Self::order(),
            res matches Some(s) ==> s.val() == be_value(bytes@),
    ;

    /// The scalar of a small number.
    fn scalar_from(value: u16) -> (res: Scalar<Self>)
        ensures
            res.val() == value,
    ;

    /// The sum of two scalars.
    fn scalar_add(a: &Scalar<Self>, b: &Scalar<Self>) -> (res: Scalar<Self>)
        ensures
            res.val() == (a.val() + b.val()) % Self::order(),
    ;

    /// The product of two scalars.
    fn scalar_mul(a: &Scalar<Self>, b: &Scalar<Self>) -> (res: Scalar<Self>)
        ensures
            res.val() == (a.val() * b.val()) % Self::order(),
    ;

    /// Whether a scalar is not zero.
    fn scalar_is_nonzero(a: &Scalar<Self>) -> (res: bool)
        ensures
            res == (a.val() != 0),
    ;

    /// The point with this compressed encoding.
    fn decode_point(bytes: &Vec<u8>) -> (res: Option<Point<Self>>)
        ensures
            res is Some <==> is_encoding::<Self>(bytes@),
            res matches Some(p) ==> p.encoding() == bytes@,
    ;

    /// The neutral element.
    fn point_zero() -> (res: Point<Self>)
        ensures
            res.encoding() == Self::multiple(0),
            res.log() == 0,
    ;

    /// A multiple of the generator.
    fn generator_mul(k: &Scalar<Self>) -> (res: Point<Self>)
        ensures
            res.encoding() == Self::multiple(k.val()),
            res.log() == k.val(),
    ;

    /// The sum of two points.
    fn point_add(a: &Point<Self>, b: &Point<Self>) -> (res: Point<Self>)
        ensures
            res.log() == (a.log() + b.log()) % Self::order(),
    ;

    /// A multiple of a point.
    fn point_mul(a: &Point<Self>, k: &Scalar<Self>) -> (res: Point<Self>)
        ensures
            res.log() == (a.log() * k.val()) % Self::order(),
    ;

    /// Whether two points are equal.
    fn point_eq(a: &Point<Self>, b: &Point<Self>) -> (res: bool)
        ensures
            res == (a.log() == b.log()),
    ;

    /// Whether a point is not the neutral element.
    fn point_is_nonzero(a: &Point<Self>) -> (res: bool)
        ensures
            res == (a.log() != 0),
    ;

    /// The coefficient of node `j` in the interpolation at zero. There is one where node `j`
    /// exists and every other node differs both from it and from zero.
    fn lagrange_coefficient_at_zero(j: usize, xs: &Vec<Scalar<Self>>) -> (res: Option<Scalar<Self>>)
        ensures
            res is Some <==> j < xs@.len() && forall|m: int|
                0 <= m < xs@.len() && m != j ==> (#[trigger] xs@[m]).val() != xs@[j as int].val()
                    && xs@[m].val() != 0,
            res matches Some(l) ==> is_coefficient(vals(xs@), j as int, l.val(), Self::order()),
    ;

    /// The response of a Schnorr proof of knowledge of `secret`.
    fn schnorr_prove(
        nonce: &Scalar<Self>,
        challenge: &Scalar<Self>,
        secret: &Scalar<Self>,
    ) -> (res: Scalar<Self>)
        ensures
            res.val() == (nonce.val() + challenge.val() * secret.val()) % Self::order(),
    ;

    /// Whether a Schnorr proof shows knowledge of the discrete logarithm of `public`.
    fn schnorr_verify(
        proof_scalar: &Scalar<Self>,
        commit: &Point<Self>,
        challenge: &Scalar<Self>,
        public: &Point<Self>,
    ) -> (res: bool)
        ensures
            res == (proof_scalar.val() == (commit.log() + challenge.val() * public.log())
                % Self::order()),
    ;

    /// The challenge of a proof on a dealt share.
    fn share_proof_challenge(tag: &str, data: &ShareProof<Self>) -> (res: Scalar<Self>)
        ensures
            res.val() == Self::hash_share_proof(
                tag@,
                data.sid@,
                data.dealer,
                data.receiver,
                data.expected_public_share.encoding(),
            ),
    ;

    /// The challenge of a proof on a new share.
    fn schnorr_challenge(tag: &str, data: &SchnorrChallenge) -> (res: Scalar<Self>)
        ensures
            res.val() == Self::hash_schnorr_challenge(tag@, data.sid@, data.rho@, data.prover),
    ;

    /// The digest of a list of commitments.
    fn commitments_digest(tag: &str, entries: &Vec<HashCommitment<Self>>) -> (res: Vec<u8>)
        ensures
            res@ == Self::hash_commitments(
                tag@,
                Seq::new(entries@.len(), |i: int| entries@[i].digested()),
            ),
    ;
}

/// Bytes stand for a number in base 256, and those in front count for more.
pub proof fn law_bytes_are_digits(front: Seq<u8>, back: Seq<u8>)
    ensures
        be_value(front + back) == be_value(front) * pow(256, back.len()) + be_value(back),
        be_value(seq![]) == 0,
        forall|b: u8| #[trigger] be_value(seq![b]) == b,
        0 <= be_value(back) < pow(256, back.len()),
    decreases back.len(),
{
    assert forall|b: u8| #[trigger] be_value(seq![b]) == b by {
        assert(seq![b].drop_last() =~= Seq::empty());
        assert(be_value(seq![b]) == be_value(seq![b].drop_last()) * 256 + b as int);
    }
    if back.len() == 0 {
        lemma_pow0(256);
        assert(front + back =~= front);
        let f = be_value(front);
        assert(f * 1 == f);
    } else {
        let rest = back.drop_last();
        law_bytes_are_digits(front, rest);
        assert((front + back).drop_last() =~= front + rest);
        assert(pow(256, back.len()) == 256 * pow(256, rest.len())) by {
            reveal(pow);
        }
        let (f, p, r) = (be_value(front), pow(256, rest.len()), be_value(rest));
        assert((f * p + r) * 256 == f * (256 * p) + r * 256) by (nonlinear_arith);
    }
}

/// A point is the multiple of the generator that its discrete logarithm says, and points with
/// the same encoding have the same discrete logarithm.
pub proof fn law_point_is_the_multiple_of_its_log<S: Group>(p: Point<S>, other: Point<S>)
    requires
        exists|k: int| 0 <= k < S::order() && #[trigger] S::multiple(k) == p.encoding(),
    ensures
        p.valid(),
        0 <= p.log() < S::order(),
        S::multiple(p.log()) == p.encoding(),
        other.encoding() == p.encoding() ==> other.log() == p.log(),
{
}

/// What is valid is a multiple of the generator, and what is canonical is a reduced number.
pub proof fn law_values_are_reduced<S: Group>(p: Point<S>, s: Scalar<S>)
    ensures
        p.valid() <==> exists|k: int|
            0 <= k < S::order() && #[trigger] S::multiple(k) == p.encoding(),
        s.canonical() <==> 0 <= s.val() < S::order() && s.width() <= S::scalar_len(),
{
}

/// The values of scalars, and the discrete logarithms and encodings of points, are taken
/// element by element.
pub proof fn law_lists_are_taken_element_by_element<S: Group>(
    scalars: Seq<Scalar<S>>,
    points: Seq<Point<S>>,
)
    ensures
        vals(scalars).len() == scalars.len(),
        logs(points).len() == points.len(),
        encodings(points).len() == points.len(),
        forall|i: int| 0 <= i < scalars.len() ==> #[trigger] vals(scalars)[i] == scalars[i].val(),
        forall|i: int| 0 <= i < points.len() ==> #[trigger] logs(points)[i] == points[i].log(),
        forall|i: int|
            0 <= i < points.len() ==> #[trigger] encodings(points)[i] == points[i].encoding(),
{
}

} // verus!
