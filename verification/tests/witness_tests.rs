use hmac::{Hmac, KeyInit, Mac};
use lelantus::commitment::Commitment;
use lelantus::errors::LelantusError;
use lelantus::witness::Witness;
use sha2::Sha512;

type HmacSha512 = Hmac<Sha512>;

fn hmac512(key: &[u8], parts: &[&[u8]]) -> Vec<u8> {
    let mut mac = <HmacSha512 as KeyInit>::new_from_slice(key).unwrap();
    for part in parts {
        mac.update(part);
    }
    mac.finalize().into_bytes().to_vec()
}

// Builds the encrypted payload of a witness for the given commitment,
// index and amount: an 8-byte keystream-encrypted amount, a 32-byte
// truncated HMAC-SHA-512 tag, then the metadata.
fn encrypt_amount(commitment: &Commitment, index: usize, amount: u64, metadata: &[u8]) -> Vec<u8> {
    let index_le = (index as u64).to_le_bytes();
    let prk = hmac512(&commitment.randomness, &[&commitment.value]);
    let dec_key = hmac512(
        &prk,
        &[b"lelantus_amount_decryption_key", &index_le, metadata],
    );
    let auth_key = hmac512(&prk, &[b"lelantus_hmac_verification_key", &index_le]);

    let amount_le = amount.to_le_bytes();
    let mut ciphertext = [0u8; 8];
    for i in 0..8 {
        ciphertext[i] = amount_le[i] ^ dec_key[i];
    }
    let tag = hmac512(&auth_key, &[&ciphertext, &index_le, metadata]);

    let mut payload = ciphertext.to_vec();
    payload.extend_from_slice(&tag[..32]);
    payload.extend_from_slice(metadata);
    payload
}

fn make_witness(commitment: &Commitment, index: usize, amount: u64, metadata: &[u8]) -> Witness {
    let payload = encrypt_amount(commitment, index, amount, metadata);
    Witness::new(
        commitment.clone(),
        index,
        vec![3; 32],
        vec![4; 32],
        payload,
    )
}

#[test]
fn test_witness_creation() -> Result<(), LelantusError> {
    let commitment = Commitment {
        value: vec![1; 32],
        randomness: vec![2; 32],
    };

    let witness = Witness::new(commitment, 0, vec![3; 32], vec![4; 32], vec![5; 32]);

    assert_eq!(witness.index(), 0);
    let valid = witness.verify()?;
    assert!(valid);
    Ok(())
}

#[test]
fn test_witness_serialization() -> Result<(), LelantusError> {
    let commitment = Commitment {
        value: vec![1; 32],
        randomness: vec![2; 32],
    };

    let witness = Witness::new(commitment, 0, vec![3; 32], vec![4; 32], vec![5; 32]);

    let serialized = witness.serialize()?;
    let deserialized = Witness::deserialize(&serialized)?;
    assert_eq!(witness.index(), deserialized.index());
    Ok(())
}

// A well-formed payload decrypts to exactly the amount it was built for.
#[test]
fn test_get_amount_round_trip() {
    let commitment = Commitment {
        value: vec![11; 64],
        randomness: vec![22; 64],
    };
    let witness = make_witness(&commitment, 7, 123_456, b"meta");
    assert_eq!(witness.get_amount().unwrap(), 123_456);
}

// Flipping any single authentication-tag byte makes recovery fail with
// `InvalidWitness`; no substitute amount is ever returned.
#[test]
fn test_flipped_tag_byte_rejected() {
    let commitment = Commitment {
        value: vec![11; 64],
        randomness: vec![22; 64],
    };
    for position in 8..40 {
        let mut witness = make_witness(&commitment, 3, 900, b"");
        witness.encrypted_value[position] ^= 0x01;
        assert!(matches!(
            witness.get_amount(),
            Err(LelantusError::InvalidWitness)
        ));
    }
}

// A payload under 40 bytes is rejected.
#[test]
fn test_short_payload_rejected() {
    let commitment = Commitment {
        value: vec![1; 32],
        randomness: vec![2; 32],
    };
    let witness = Witness::new(commitment, 0, vec![3; 32], vec![4; 32], vec![5; 39]);
    assert!(matches!(
        witness.get_amount(),
        Err(LelantusError::InvalidWitness)
    ));
}

// A zero amount is rejected even under a valid tag.
#[test]
fn test_zero_amount_rejected() {
    let commitment = Commitment {
        value: vec![11; 64],
        randomness: vec![22; 64],
    };
    let witness = make_witness(&commitment, 0, 0, b"");
    assert!(matches!(
        witness.get_amount(),
        Err(LelantusError::InvalidWitness)
    ));
}

// The structural check rejects exactly the empty fields.
#[test]
fn test_structural_verify_rejects_empty_fields() {
    let commitment = Commitment {
        value: vec![],
        randomness: vec![2; 32],
    };
    let witness = Witness::new(commitment, 0, vec![3; 32], vec![4; 32], vec![5; 32]);
    assert!(matches!(
        witness.verify(),
        Err(LelantusError::InvalidWitness)
    ));

    let commitment = Commitment {
        value: vec![1; 32],
        randomness: vec![2; 32],
    };
    let witness = Witness::new(commitment.clone(), 0, vec![], vec![4; 32], vec![5; 32]);
    assert!(witness.verify().is_err());
    let witness = Witness::new(commitment, 0, vec![3; 32], vec![], vec![5; 32]);
    assert!(witness.verify().is_err());
}

// Metadata past the tag participates in the key derivation: moving the
// amount to a payload with different metadata breaks the tag.
#[test]
fn test_metadata_bound_to_tag() {
    let commitment = Commitment {
        value: vec![11; 64],
        randomness: vec![22; 64],
    };
    let witness = make_witness(&commitment, 1, 500, b"alpha");
    assert_eq!(witness.get_amount().unwrap(), 500);

    let mut tampered = witness.clone();
    tampered.encrypted_value[40] ^= 0xff;
    assert!(tampered.get_amount().is_err());
}
