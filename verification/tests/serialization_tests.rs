use lelantus::commitment::Commitment;
use lelantus::errors::LelantusError;
use lelantus::hex_util;
use lelantus::joinsplit::{JoinSplit, JoinSplitProof};
use lelantus::parameters::LelantusParameters;
use lelantus::proofs::{RangeProof, ZKProof};
use lelantus::witness::Witness;

#[test]
fn test_hex_encoding() {
    let data = vec![1, 2, 3, 4, 5];
    let encoded = hex_util::encode(&data);
    let decoded = hex_util::decode(&encoded).unwrap();
    assert_eq!(data, decoded);
}

// Encoding writes exactly two lowercase digits per byte.
#[test]
fn test_hex_exact_spelling() {
    assert_eq!(hex_util::encode(&[0x00, 0xff, 0xa5]), "00ffa5");
    assert_eq!(hex_util::encode(&[]), "");
}

// Decoding accepts either case and rejects odd lengths and non-digits.
#[test]
fn test_hex_decode_cases() {
    assert_eq!(hex_util::decode("00FFa5").unwrap(), vec![0x00, 0xff, 0xa5]);
    assert!(matches!(
        hex_util::decode("abc"),
        Err(LelantusError::SerializationError(_))
    ));
    assert!(matches!(
        hex_util::decode("zz"),
        Err(LelantusError::SerializationError(_))
    ));
    assert_eq!(hex_util::decode("").unwrap(), Vec::<u8>::new());
}

// A serialized commitment deserializes to an equal commitment; trailing
// or truncated bytes are rejected.
#[test]
fn test_commitment_round_trip() {
    let commitment = Commitment {
        value: vec![10; 64],
        randomness: vec![20; 64],
    };
    let bytes = commitment.serialize().unwrap();
    let back = Commitment::deserialize(&bytes).unwrap();
    assert_eq!(back, commitment);

    let mut extended = bytes.clone();
    extended.push(0);
    assert!(Commitment::deserialize(&extended).is_err());
    assert!(Commitment::deserialize(&bytes[..bytes.len() - 1]).is_err());
}

// A serialized witness deserializes field for field.
#[test]
fn test_witness_full_round_trip() {
    let witness = Witness::new(
        Commitment {
            value: vec![1; 16],
            randomness: vec![2; 16],
        },
        42,
        vec![3; 16],
        vec![4; 16],
        vec![5; 40],
    );
    let bytes = witness.serialize().unwrap();
    let back = Witness::deserialize(&bytes).unwrap();
    assert_eq!(back.index, 42);
    assert_eq!(back.commitment, witness.commitment);
    assert_eq!(back.accumulator_value, witness.accumulator_value);
    assert_eq!(back.membership_proof, witness.membership_proof);
    assert_eq!(back.encrypted_value, witness.encrypted_value);
}

// A JoinSplit carrying real range proofs round-trips whole.
#[test]
fn test_joinsplit_full_round_trip() {
    let params = LelantusParameters::default();
    let out_a = Commitment {
        value: vec![6; 16],
        randomness: vec![7; 16],
    };
    let out_b = Commitment {
        value: vec![8; 16],
        randomness: vec![9; 16],
    };
    let joinsplit = JoinSplit {
        inputs: vec![Commitment {
            value: vec![1; 16],
            randomness: vec![2; 16],
        }],
        outputs: vec![out_a.clone(), out_b.clone()],
        proof: JoinSplitProof {
            range_proofs: vec![
                RangeProof::create(&out_a, &params).unwrap(),
                RangeProof::create(&out_b, &params).unwrap(),
            ],
            zk_proof: ZKProof {
                proof_data: vec![5; 32],
                challenge: vec![6; 32],
                response: vec![7; 32],
            },
        },
        fee: 250,
    };
    let bytes = joinsplit.serialize().unwrap();
    let back = JoinSplit::deserialize(&bytes).unwrap();
    assert_eq!(back.input_count(), 1);
    assert_eq!(back.output_count(), 2);
    assert_eq!(back.fee, 250);
    assert_eq!(back.inputs, joinsplit.inputs);
    assert_eq!(back.outputs, joinsplit.outputs);
    assert_eq!(back.proof.range_proofs.len(), 2);
    assert_eq!(
        back.proof.range_proofs[0].proof_data,
        joinsplit.proof.range_proofs[0].proof_data
    );
    assert_eq!(back.proof.zk_proof.challenge, joinsplit.proof.zk_proof.challenge);
}

// A serialized parameter set survives inside the accumulator encoding,
// its text fields included.
#[test]
fn test_accumulator_parameters_round_trip() {
    let params = LelantusParameters::default();
    let accumulator = lelantus::Accumulator::new(&params).unwrap();
    let bytes = accumulator.serialize().unwrap();
    let back = lelantus::Accumulator::deserialize(&bytes).unwrap();
    assert_eq!(back.parameters().hash_function, params.hash_function);
    assert_eq!(back.parameters().proof_system, params.proof_system);
    assert_eq!(back.parameters().max_coin_value, params.max_coin_value);
    assert_eq!(back.value(), accumulator.value());
}
