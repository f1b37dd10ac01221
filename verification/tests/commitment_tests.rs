use lelantus::commitment::CommitmentScheme;
use lelantus::errors::LelantusError;
use lelantus::parameters::LelantusParameters;
use sha2::{Digest, Sha512};

#[test]
fn test_commitment_creation() -> Result<(), LelantusError> {
    let params = LelantusParameters::default();
    let scheme = CommitmentScheme::new(&params)?;
    let commitment = scheme.commit(1000)?;
    assert!(!commitment.value.is_empty());
    assert!(!commitment.randomness.is_empty());
    Ok(())
}

#[test]
fn test_commitment_verification() -> Result<(), LelantusError> {
    let params = LelantusParameters::default();
    let scheme = CommitmentScheme::new(&params)?;
    let commitment = scheme.commit(1000)?;

    let valid = scheme.verify(&commitment, 1000)?;
    assert!(valid);

    let invalid = scheme.verify(&commitment, 2000)?;
    assert!(!invalid);
    Ok(())
}

#[test]
fn test_commitment_with_randomness() -> Result<(), LelantusError> {
    let params = LelantusParameters::default();
    let scheme = CommitmentScheme::new(&params)?;
    let randomness = vec![42; params.randomness_bits / 8];
    let commitment = scheme.commit_with_randomness(1000, randomness)?;

    let valid = scheme.verify(&commitment, 1000)?;
    assert!(valid);
    Ok(())
}

#[test]
fn test_invalid_commitment_value() -> Result<(), LelantusError> {
    let params = LelantusParameters::default();
    let scheme = CommitmentScheme::new(&params)?;
    let result = scheme.commit(params.max_coin_value + 1);
    assert!(result.is_err());
    Ok(())
}

// The commitment digest is exactly the lowercase hexadecimal SHA-512 of
// generator, little-endian amount and randomness; a scheme that handed
// its input through unchanged would fail this.
#[test]
fn test_commitment_value_formula() {
    let params = LelantusParameters::default();
    let scheme = CommitmentScheme::new(&params).unwrap();
    let randomness = vec![7u8; params.randomness_bits / 8];
    let commitment = scheme.commit_with_randomness(5000, randomness.clone()).unwrap();

    let mut hasher = Sha512::new();
    hasher.update(&params.generator);
    hasher.update(5000u64.to_le_bytes());
    hasher.update(&randomness);
    let expected: String = hasher
        .finalize()
        .iter()
        .map(|b| format!("{:02x}", b))
        .collect();
    assert_eq!(commitment.value, expected.into_bytes());
}

// Commitments are checked against both value bounds.
#[test]
fn test_commitment_bounds() {
    let mut params = LelantusParameters::default();
    params.min_coin_value = 10;
    let scheme = CommitmentScheme::new(&params).unwrap();
    assert!(matches!(
        scheme.commit(9),
        Err(LelantusError::InvalidCommitment)
    ));
    assert!(scheme.commit(10).is_ok());
    assert!(scheme.commit(params.max_coin_value).is_ok());
    assert!(matches!(
        scheme.commit(params.max_coin_value + 1),
        Err(LelantusError::InvalidCommitment)
    ));
}

// Fresh randomness has exactly `randomness_bits / 8` bytes.
#[test]
fn test_commit_randomness_length() {
    let params = LelantusParameters::default();
    let scheme = CommitmentScheme::new(&params).unwrap();
    let commitment = scheme.commit(1000).unwrap();
    assert_eq!(commitment.randomness.len(), params.randomness_bits / 8);
}

// Wrong-length randomness is rejected.
#[test]
fn test_commitment_randomness_length() {
    let params = LelantusParameters::default();
    let scheme = CommitmentScheme::new(&params).unwrap();
    let result = scheme.commit_with_randomness(1000, vec![1u8; 3]);
    assert!(matches!(result, Err(LelantusError::InvalidCommitment)));
}

// An invalid parameter set is refused at scheme construction.
#[test]
fn test_scheme_rejects_invalid_parameters() {
    let mut params = LelantusParameters::default();
    params.accumulator_modulus_bits = 100;
    assert!(matches!(
        CommitmentScheme::new(&params),
        Err(LelantusError::InvalidParameter)
    ));
}
