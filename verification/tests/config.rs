use dynamic_reshare::config::ReshareConfig;
use dynamic_reshare::secp256k1::Secp256k1Sha256;
use dynamic_reshare::suite::{Point, Suite};

type C = Secp256k1Sha256;

fn key() -> Point<C> {
    C::generator_mul(&C::scalar_from(11))
}

#[test]
fn new_config_lets_all_new_parties_sign() {
    let config = ReshareConfig::new(vec![0, 1, 2], vec![3, 4, 5, 6], key());
    assert_eq!(config.n_old(), 3);
    assert_eq!(config.n_new(), 4);
    assert_eq!(config.new_threshold, None);
    assert_eq!(config.effective_new_threshold(), 4);
    assert!(config.old_core_indices.is_empty());
    assert!(C::point_eq(&config.shared_public_key, &key()));
}

#[test]
fn threshold_is_kept() {
    let config = ReshareConfig::with_new_threshold(vec![0, 1], vec![0, 1, 2], key(), 2);
    assert_eq!(config.new_threshold, Some(2));
    assert_eq!(config.effective_new_threshold(), 2);
    assert_eq!(config.n_new(), 3);
    let config = ReshareConfig::with_new_threshold(vec![0, 1], vec![0, 1, 2], key(), 3);
    assert_eq!(config.effective_new_threshold(), 3);
}

#[test]
fn roles_and_positions() {
    let config = ReshareConfig::new(vec![4, 2, 7], vec![7, 9, 2, 9], key());
    assert!(config.is_old_party(2));
    assert!(!config.is_old_party(9));
    assert!(config.is_new_party(9));
    assert!(!config.is_new_party(4));
    assert_eq!(config.old_party_position(4), Some(0));
    assert_eq!(config.old_party_position(7), Some(2));
    assert_eq!(config.old_party_position(9), None);
    assert_eq!(config.new_party_position(9), Some(1));
    assert_eq!(config.new_party_position(2), Some(2));
    assert_eq!(config.new_party_position(0), None);
}

#[test]
fn core_indices_take_precedence_over_old_parties() {
    let mut config = ReshareConfig::new(vec![0, 1, 2], vec![3], key());
    assert_eq!(config.core_position(2), Some(2));
    config.old_core_indices = vec![8, 2, 5];
    assert_eq!(config.core_position(2), Some(1));
    assert_eq!(config.core_position(0), None);
}

#[test]
fn parties_are_counted_in_sixteen_bits() {
    let config = ReshareConfig::new(vec![0; 65537], vec![1; 65538], key());
    assert_eq!(config.n_old(), 1);
    assert_eq!(config.n_new(), 2);
    assert_eq!(config.effective_new_threshold(), 2);
}

#[test]
fn threshold_is_compared_with_the_number_of_parties() {
    let new_parties: Vec<u16> = (0..=65535).collect();
    let config = ReshareConfig::with_new_threshold(vec![0, 1], new_parties, key(), 2);
    assert_eq!(config.new_threshold, Some(2));
    assert_eq!(config.effective_new_threshold(), 2);
    assert_eq!(config.new_party_position(65535), Some(65535));
}
