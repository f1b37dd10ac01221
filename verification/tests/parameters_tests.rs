use lelantus::parameters::{LelantusParameters, PrivacyLevel};

#[test]
fn test_default_parameters() {
    let params = LelantusParameters::default();
    assert_eq!(params.privacy_level, PrivacyLevel::Standard);
    assert!(params.validate().is_ok());
}

#[test]
fn test_privacy_levels() {
    assert_eq!(PrivacyLevel::Standard.anonymity_set_size(), 64);
    assert_eq!(PrivacyLevel::Enhanced.anonymity_set_size(), 256);
    assert_eq!(PrivacyLevel::Maximum.anonymity_set_size(), 1024);
}

#[test]
fn test_parameter_validation() {
    let mut params = LelantusParameters::default();
    assert!(params.validate().is_ok());

    params.accumulator_modulus_bits = 512;
    assert!(params.validate().is_err());
}

#[test]
fn test_proof_sizes() {
    assert_eq!(PrivacyLevel::Standard.proof_size(), 2048);
    assert_eq!(PrivacyLevel::Enhanced.proof_size(), 4096);
    assert_eq!(PrivacyLevel::Maximum.proof_size(), 8192);
}

#[test]
fn test_with_privacy_level() {
    let params = LelantusParameters::with_privacy_level(PrivacyLevel::Maximum);
    assert_eq!(params.privacy_level, PrivacyLevel::Maximum);
    assert!(params.validate().is_ok());
    assert_eq!(params.anonymity_set_size(), 1024);
    assert_eq!(params.proof_size(), 8192);
}

#[test]
fn test_validation_rejects_each_floor() {
    let mut p = LelantusParameters::default();
    p.randomness_bits = 256;
    assert!(p.validate().is_err());

    let mut p = LelantusParameters::default();
    p.range_proof_bits = 16;
    assert!(p.validate().is_err());

    let mut p = LelantusParameters::default();
    p.min_coin_value = p.max_coin_value;
    assert!(p.validate().is_err());

    let mut p = LelantusParameters::default();
    p.accumulator_base = Vec::new();
    assert!(p.validate().is_err());

    let mut p = LelantusParameters::default();
    p.generator = Vec::new();
    assert!(p.validate().is_err());
}
