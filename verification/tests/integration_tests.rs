use lelantus::parameters::{LelantusParameters, PrivacyLevel};
use lelantus::LelantusState;

#[test]
fn test_lelantus_full_workflow() {
    let params = LelantusParameters::default();
    let mut state = LelantusState::new(params).expect("Failed to create state");

    let commitment = state
        .commitment_scheme()
        .commit(1000)
        .expect("Failed to create commitment");

    state.add_coin(&commitment).expect("Failed to add coin");

    let accumulator = state.get_accumulator().expect("Failed to get accumulator");
    assert!(!accumulator.is_empty());
}

#[test]
fn test_lelantus_multiple_coins() {
    let params = LelantusParameters::default();
    let mut state = LelantusState::new(params).expect("Failed to create state");

    for i in 0..10 {
        let commitment = state
            .commitment_scheme()
            .commit(1000 + i * 100)
            .expect("Failed to create commitment");
        state.add_coin(&commitment).expect("Failed to add coin");
    }

    let accumulator = state.get_accumulator().expect("Failed to get accumulator");
    assert!(!accumulator.is_empty());
}

#[test]
fn test_lelantus_privacy_levels() {
    for privacy_level in [
        PrivacyLevel::Standard,
        PrivacyLevel::Enhanced,
        PrivacyLevel::Maximum,
    ] {
        let params = LelantusParameters::with_privacy_level(privacy_level);
        let mut state = LelantusState::new(params).expect("Failed to create state");

        let commitment = state
            .commitment_scheme()
            .commit(1000)
            .expect("Failed to create commitment");
        state.add_coin(&commitment).expect("Failed to add coin");
    }
}
