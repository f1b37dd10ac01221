use lelantus::accumulator::Accumulator;
use lelantus::commitment::AccumulatorElement;
use lelantus::errors::LelantusError;
use lelantus::parameters::LelantusParameters;

#[test]
fn test_accumulator_creation() -> Result<(), LelantusError> {
    let params = LelantusParameters::default();
    let _accumulator = Accumulator::new(&params)?;
    Ok(())
}

#[test]
fn test_add_element() -> Result<(), LelantusError> {
    let params = LelantusParameters::default();
    let mut accumulator = Accumulator::new(&params)?;
    let element = AccumulatorElement { value: vec![1; 32] };

    accumulator.add_element(element)?;
    assert_eq!(accumulator.element_count(), 1);
    Ok(())
}

#[test]
fn test_multiple_elements() -> Result<(), LelantusError> {
    let params = LelantusParameters::default();
    let mut accumulator = Accumulator::new(&params)?;

    for i in 0..10 {
        let element = AccumulatorElement {
            value: vec![i as u8; 32],
        };
        accumulator.add_element(element)?;
    }

    assert_eq!(accumulator.element_count(), 10);
    Ok(())
}

#[test]
fn test_serialization() -> Result<(), LelantusError> {
    let params = LelantusParameters::default();
    let mut accumulator = Accumulator::new(&params)?;
    let element = AccumulatorElement {
        value: vec![42; 32],
    };
    accumulator.add_element(element)?;

    let serialized = accumulator.serialize()?;
    let deserialized = Accumulator::deserialize(&serialized)?;
    assert_eq!(accumulator.element_count(), deserialized.element_count());
    Ok(())
}

#[test]
fn test_membership_proof() -> Result<(), LelantusError> {
    let params = LelantusParameters::default();
    let mut accumulator = Accumulator::new(&params)?;

    for i in 0..5 {
        let element = AccumulatorElement {
            value: vec![i as u8; 32],
        };
        accumulator.add_element(element)?;
    }

    let proof = accumulator.create_membership_proof(2)?;
    // Verify proof structure is valid
    assert_eq!(proof.element_index, 2);
    assert_eq!(proof.path.len(), 5);
    assert!(!proof.accumulator_value.is_empty());
    Ok(())
}

// A freshly created membership proof verifies at once, for every index.
#[test]
fn test_membership_proof_verifies() {
    let params = LelantusParameters::default();
    let mut accumulator = Accumulator::new(&params).unwrap();
    for i in 0..5 {
        accumulator
            .add_element(AccumulatorElement {
                value: vec![i as u8; 32],
            })
            .unwrap();
    }
    for i in 0..5 {
        let proof = accumulator.create_membership_proof(i).unwrap();
        assert_eq!(proof.path.len(), 5);
        assert!(accumulator.verify_membership_proof(&proof).unwrap());
    }
}

// An index one past the end is rejected with `InvalidParameter`.
#[test]
fn test_membership_proof_out_of_range() {
    let params = LelantusParameters::default();
    let mut accumulator = Accumulator::new(&params).unwrap();
    for i in 0..3 {
        accumulator
            .add_element(AccumulatorElement {
                value: vec![i as u8; 32],
            })
            .unwrap();
    }
    assert!(matches!(
        accumulator.create_membership_proof(3),
        Err(LelantusError::InvalidParameter)
    ));
}

// A proof with a tampered snapshot is rejected, fail-open as `false`.
#[test]
fn test_membership_proof_tampered_snapshot() {
    let params = LelantusParameters::default();
    let mut accumulator = Accumulator::new(&params).unwrap();
    for i in 0..4 {
        accumulator
            .add_element(AccumulatorElement {
                value: vec![i as u8; 16],
            })
            .unwrap();
    }
    let mut proof = accumulator.create_membership_proof(1).unwrap();
    proof.accumulator_value[0] ^= 1;
    assert!(!accumulator.verify_membership_proof(&proof).unwrap());

    let mut proof = accumulator.create_membership_proof(1).unwrap();
    proof.element_index = 100;
    assert!(!accumulator.verify_membership_proof(&proof).unwrap());
}

// The accumulator value changes with each append and stays non-empty.
#[test]
fn test_accumulator_value_evolves() {
    let params = LelantusParameters::default();
    let mut accumulator = Accumulator::new(&params).unwrap();
    let before = accumulator.value().to_vec();
    assert!(!before.is_empty());
    accumulator
        .add_element(AccumulatorElement { value: vec![9; 8] })
        .unwrap();
    let after = accumulator.value().to_vec();
    assert!(!after.is_empty());
    assert_ne!(before, after);
}

// Malformed bytes are rejected with `SerializationError`.
#[test]
fn test_accumulator_deserialize_malformed() {
    let garbage = vec![1u8, 2, 3];
    assert!(matches!(
        Accumulator::deserialize(&garbage),
        Err(LelantusError::SerializationError(_))
    ));
}
