use dynamic_reshare::messages::{MsgFeldmanCommitment, MsgShareDistribution};
use dynamic_reshare::polynomial::{
    evaluate_commitment, share_coordinate, verify_share_against_commitment, Polynomial,
};
use dynamic_reshare::randomness::xor_array;
use dynamic_reshare::secp256k1::Secp256k1Sha256;
use dynamic_reshare::suite::{Point, Scalar, Suite};
use dynamic_reshare::sums::{
    add_constant_terms, add_dealt_values, add_public_shares, find_bad_share, find_empty_commitment,
};
use std::collections::HashMap;

type C = Secp256k1Sha256;

fn num(value: u16) -> Scalar<C> {
    C::scalar_from(value)
}

fn times(k: u16) -> Point<C> {
    C::generator_mul(&num(k))
}

fn is(s: &Scalar<C>, value: u16) -> bool {
    s.to_bytes() == num(value).to_bytes()
}

fn minus_one() -> Scalar<C> {
    C::decode_scalar(
        &hex::decode("fffffffffffffffffffffffffffffffebaaedce6af48a03bbfd25e8cd0364140").unwrap(),
    )
    .unwrap()
}

/// The commitment to the polynomial with these coefficients.
fn commitment(coefs: &[u16]) -> MsgFeldmanCommitment<C> {
    MsgFeldmanCommitment { commitment: coefs.iter().map(|c| times(*c)).collect() }
}

fn share(value: u16) -> MsgShareDistribution<C> {
    MsgShareDistribution {
        share: num(value),
        schnorr_proof: num(0),
        schnorr_commit: C::point_zero(),
    }
}

#[test]
fn polynomial_is_evaluated_with_the_secret_as_constant_term() {
    let polynomial = Polynomial::new_with_secret(&num(5), vec![num(3), num(2)]);
    assert!(is(&polynomial.evaluate(&num(0)), 5));
    assert!(is(&polynomial.evaluate(&num(1)), 10));
    assert!(is(&polynomial.evaluate(&num(4)), 49));
    // 5 - 3 + 2
    assert!(is(&polynomial.evaluate(&minus_one()), 4));
}

#[test]
fn polynomial_of_degree_zero_is_the_secret() {
    let polynomial = Polynomial::new_with_secret(&num(8), vec![]);
    assert!(is(&polynomial.evaluate(&num(1000)), 8));
    assert_eq!(polynomial.feldman_commit().len(), 1);
}

#[test]
fn feldman_commitment_commits_to_each_coefficient() {
    let polynomial = Polynomial::new_with_secret(&num(5), vec![num(3), num(2)]);
    let points = polynomial.feldman_commit();
    assert_eq!(points.len(), 3);
    assert!(C::point_eq(&points[0], &times(5)));
    assert!(C::point_eq(&points[1], &times(3)));
    assert!(C::point_eq(&points[2], &times(2)));
}

#[test]
fn commitment_is_evaluated_in_the_exponent() {
    let c = commitment(&[5, 3, 2]);
    assert!(C::point_eq(&evaluate_commitment(&c.commitment, &num(4)), &times(49)));
    let none: Vec<Point<C>> = vec![];
    assert!(!C::point_is_nonzero(&evaluate_commitment(&none, &num(4))));
}

#[test]
fn share_verifies_at_the_receiver_index_plus_one() {
    let c = commitment(&[5, 3, 2]);
    assert!(verify_share_against_commitment(&num(49), &c.commitment, 3));
    assert!(!verify_share_against_commitment(&num(49), &c.commitment, 4));
    assert!(!verify_share_against_commitment(&num(50), &c.commitment, 3));
}

#[test]
fn constant_terms_add_up() {
    let mut commitments = HashMap::new();
    commitments.insert(3, commitment(&[5, 3]));
    commitments.insert(8, commitment(&[7]));
    let key = add_constant_terms(&commitments, &vec![8, 3]);
    assert!(C::point_eq(&key, &times(12)));
    let none: HashMap<u16, MsgFeldmanCommitment<C>> = HashMap::new();
    assert!(!C::point_is_nonzero(&add_constant_terms(&none, &vec![])));
}

#[test]
fn public_shares_add_up() {
    let mut commitments = HashMap::new();
    commitments.insert(3, commitment(&[5, 3]));
    commitments.insert(8, commitment(&[7, 1]));
    // 12 + 4 x at x = 1 and x = 5
    let shares = add_public_shares(&commitments, &vec![3, 8], &vec![0, 4]).unwrap();
    assert_eq!(shares.len(), 2);
    assert!(C::point_eq(&shares[0], &times(16)));
    assert!(C::point_eq(&shares[1], &times(32)));
}

#[test]
fn public_share_of_zero_is_refused() {
    let mut commitments = HashMap::new();
    // 2 - x
    let points = vec![times(2), C::generator_mul(&minus_one())];
    commitments.insert(0, MsgFeldmanCommitment { commitment: points });
    assert!(add_public_shares(&commitments, &vec![0], &vec![0]).is_some());
    assert!(add_public_shares(&commitments, &vec![0], &vec![0, 1]).is_none());
}

#[test]
fn shares_add_up() {
    let mut shares = HashMap::new();
    shares.insert(1, share(30));
    shares.insert(2, share(12));
    assert!(is(&add_dealt_values(&shares, &vec![1, 2]), 42));
}

#[test]
fn bad_share_is_found_in_the_given_order() {
    let mut commitments = HashMap::new();
    let mut shares = HashMap::new();
    for d in 0..4u16 {
        commitments.insert(d, commitment(&[d, 10]));
        shares.insert(d, share(d + 20));
    }
    assert_eq!(find_bad_share(&commitments, &shares, &vec![2, 1, 0, 3], 1), None);
    shares.insert(2, share(99));
    assert_eq!(find_bad_share(&commitments, &shares, &vec![3, 2, 1, 0], 1), Some(2));
    commitments.remove(&0);
    assert_eq!(find_bad_share(&commitments, &shares, &vec![0, 1, 2, 3], 1), Some(0));
    assert_eq!(find_bad_share(&commitments, &shares, &vec![3, 2, 1, 0], 1), Some(2));
}

#[test]
fn bytes_are_combined_bit_by_bit() {
    assert_eq!(xor_array(vec![0b1100, 0xff, 7], &vec![0b1010, 0xff, 0]), vec![0b0110, 0, 7]);
    assert_eq!(xor_array(vec![1, 2, 3], &vec![1]), vec![0, 2, 3]);
    assert_eq!(xor_array(vec![1], &vec![1, 9]), vec![0]);
}

#[test]
fn last_index_has_a_coordinate() {
    assert!(is(&share_coordinate(0), 1));
    assert_eq!(share_coordinate::<C>(65535).to_bytes()[29..], [1, 0, 0]);
    let c = commitment(&[5, 1]);
    let share = C::scalar_add(&num(65535), &num(6));
    assert!(verify_share_against_commitment(&share, &c.commitment, 65535));
    assert!(!verify_share_against_commitment(&num(5), &c.commitment, 65535));
}

#[test]
fn empty_commitment_is_found_in_the_given_order() {
    let mut commitments = HashMap::new();
    commitments.insert(1, commitment(&[3]));
    commitments.insert(4, commitment(&[4, 5]));
    assert_eq!(find_empty_commitment(&commitments, &vec![1, 4]), None);
    commitments.insert(2, commitment(&[]));
    commitments.insert(7, commitment(&[]));
    assert_eq!(find_empty_commitment(&commitments, &vec![4, 7, 1, 2]), Some(7));
    assert_eq!(find_empty_commitment(&commitments, &vec![1, 2, 4, 7]), Some(2));
}
