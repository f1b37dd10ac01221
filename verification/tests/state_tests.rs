use lelantus::commitment::Commitment;
use lelantus::errors::LelantusError;
use lelantus::parameters::LelantusParameters;
use lelantus::witness::Witness;
use lelantus::LelantusState;

#[test]
fn test_lelantus_state_creation() -> Result<(), LelantusError> {
    let params = LelantusParameters::default();
    let _state = LelantusState::new(params)?;
    Ok(())
}

#[test]
fn test_add_coin() -> Result<(), LelantusError> {
    let params = LelantusParameters::default();
    let mut state = LelantusState::new(params)?;
    let commitment = state.commitment_scheme().commit(1000)?;
    state.add_coin(&commitment)?;
    Ok(())
}

#[test]
fn test_accumulator_serialization() -> Result<(), LelantusError> {
    let params = LelantusParameters::default();
    let mut state = LelantusState::new(params)?;
    let commitment = state.commitment_scheme().commit(1000)?;
    state.add_coin(&commitment)?;
    let _accumulator = state.get_accumulator()?;
    Ok(())
}

// Adding a coin changes the serialized accumulator; both snapshots are
// non-empty.
#[test]
fn test_accumulator_snapshot_changes() {
    let mut state = LelantusState::new(LelantusParameters::default()).unwrap();
    let commitment = state.commitment_scheme().commit(1000).unwrap();
    let before = state.get_accumulator().unwrap();
    state.add_coin(&commitment).unwrap();
    let after = state.get_accumulator().unwrap();
    assert!(!before.is_empty());
    assert!(!after.is_empty());
    assert_ne!(before, after);
}

// An invalid parameter set is refused at construction.
#[test]
fn test_state_rejects_invalid_parameters() {
    let mut params = LelantusParameters::default();
    params.randomness_bits = 0;
    assert!(matches!(
        LelantusState::new(params),
        Err(LelantusError::InvalidParameter)
    ));
}

// The witness cache hands back what was stored under a key, and misses
// on unknown keys.
#[test]
fn test_witness_cache_round_trip() {
    let mut state = LelantusState::new(LelantusParameters::default()).unwrap();
    let commitment = Commitment {
        value: vec![1; 32],
        randomness: vec![2; 32],
    };
    let witness = Witness::new(commitment, 5, vec![3; 32], vec![4; 32], vec![5; 40]);
    state.cache_witness(vec![9, 9, 9], witness).unwrap();

    let hit = state.get_cached_witness(&[9, 9, 9]).unwrap();
    assert_eq!(hit.index(), 5);
    assert_eq!(hit.encrypted_value, vec![5; 40]);
    assert!(state.get_cached_witness(&[1, 2, 3]).is_none());
}

// The cache is bounded: past its capacity the least-recently-used entry
// leaves, the newest stays.
#[test]
fn test_witness_cache_eviction() {
    let mut state = LelantusState::new(LelantusParameters::default()).unwrap();
    let commitment = Commitment {
        value: vec![1; 8],
        randomness: vec![2; 8],
    };
    for i in 0..1001u64 {
        let witness = Witness::new(
            commitment.clone(),
            i as usize,
            vec![3; 8],
            vec![4; 8],
            vec![5; 40],
        );
        state.cache_witness(i.to_le_bytes().to_vec(), witness).unwrap();
    }
    assert!(state.get_cached_witness(&0u64.to_le_bytes()).is_none());
    let newest = state.get_cached_witness(&1000u64.to_le_bytes()).unwrap();
    assert_eq!(newest.index(), 1000);
}
