use lelantus::commitment::Commitment;
use lelantus::parameters::LelantusParameters;
use lelantus::proofs::{RangeProof, ZKProof};
use lelantus::witness::Witness;
use sha2::{Digest, Sha512};

#[test]
fn test_range_proof_creation() -> Result<(), lelantus::errors::LelantusError> {
    let params = LelantusParameters::default();
    let commitment = Commitment {
        value: vec![1; 32],
        randomness: vec![2; 32],
    };

    let _proof = RangeProof::create(&commitment, &params)?;
    Ok(())
}

#[test]
fn test_range_proof_verification() -> Result<(), lelantus::errors::LelantusError> {
    let params = LelantusParameters::default();
    let commitment = Commitment {
        value: vec![1; 32],
        randomness: vec![2; 32],
    };

    let proof = RangeProof::create(&commitment, &params)?;
    let valid = proof.verify(&params)?;
    assert!(valid);
    Ok(())
}

#[test]
fn test_zk_proof_creation() {
    let params = LelantusParameters::default();
    let commitment = Commitment {
        value: vec![1; 32],
        randomness: vec![2; 32],
    };
    let witness = Witness::new(commitment.clone(), 0, vec![3; 32], vec![4; 32], vec![5; 32]);

    let output = Commitment {
        value: vec![6; 32],
        randomness: vec![7; 32],
    };

    let proof = ZKProof::create(&[(commitment, witness)], &[output], 100, &params);

    assert!(proof.is_ok());
}

// The range-proof data is exactly the hexadecimal SHA-512 of the
// commitment value and the little-endian bit length.
#[test]
fn test_range_proof_formula() {
    let params = LelantusParameters::default();
    let commitment = Commitment {
        value: vec![9; 16],
        randomness: vec![2; 32],
    };
    let proof = RangeProof::create(&commitment, &params).unwrap();
    assert_eq!(proof.commitment, commitment.value);
    assert_eq!(proof.bit_length, params.range_proof_bits);

    let mut hasher = Sha512::new();
    hasher.update(&commitment.value);
    hasher.update((params.range_proof_bits as u64).to_le_bytes());
    let expected: String = hasher
        .finalize()
        .iter()
        .map(|b| format!("{:02x}", b))
        .collect();
    assert_eq!(proof.proof_data, expected.into_bytes());
}

// A tampered range proof does not verify.
#[test]
fn test_range_proof_tampered() {
    let params = LelantusParameters::default();
    let commitment = Commitment {
        value: vec![1; 32],
        randomness: vec![2; 32],
    };
    let mut proof = RangeProof::create(&commitment, &params).unwrap();
    proof.proof_data[0] ^= 1;
    assert!(!proof.verify(&params).unwrap());
}

// The knowledge proof chains its digests: proof data is the digest of
// challenge and response.
#[test]
fn test_zk_proof_chained_digests() {
    let params = LelantusParameters::default();
    let commitment = Commitment {
        value: vec![1; 32],
        randomness: vec![2; 32],
    };
    let witness = Witness::new(commitment.clone(), 0, vec![3; 32], vec![4; 32], vec![5; 32]);
    let output = Commitment {
        value: vec![6; 32],
        randomness: vec![7; 32],
    };
    let proof = ZKProof::create(&[(commitment, witness)], &[output], 100, &params).unwrap();

    let mut hasher = Sha512::new();
    hasher.update(&proof.challenge);
    hasher.update(&proof.response);
    let expected: String = hasher
        .finalize()
        .iter()
        .map(|b| format!("{:02x}", b))
        .collect();
    assert_eq!(proof.proof_data, expected.into_bytes());
}

// Verification recomputes the challenge over the accumulator snapshot in
// place of the fee: it accepts exactly when the snapshot stands where the
// fee stood at creation.
#[test]
fn test_zk_proof_verification_substitutes_snapshot() {
    let params = LelantusParameters::default();
    let input = Commitment {
        value: vec![1; 32],
        randomness: vec![2; 32],
    };
    let witness = Witness::new(input.clone(), 0, vec![3; 32], vec![4; 32], vec![5; 32]);
    let output = Commitment {
        value: vec![6; 32],
        randomness: vec![7; 32],
    };
    let fee: u64 = 100;
    let proof = ZKProof::create(
        &[(input.clone(), witness)],
        &[output.clone()],
        fee,
        &params,
    )
    .unwrap();

    // Against the fee bytes as "snapshot", the challenge matches and the
    // proof is accepted.
    let accepted = proof
        .verify(
            &[input.clone()],
            &[output.clone()],
            &fee.to_le_bytes(),
            &params,
        )
        .unwrap();
    assert!(accepted);

    // Against any other snapshot it is not.
    let rejected = proof
        .verify(&[input], &[output], b"some other snapshot", &params)
        .unwrap();
    assert!(!rejected);
}
