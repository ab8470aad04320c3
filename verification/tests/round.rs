use phase1_coordinator::environment::{CurveKind, ProvingSystem};
use phase1_coordinator::testing::{coordinator_drop_contributor_test, execute_round_test};

#[test]
fn test_round_on_groth16_bls12_377() {
    execute_round_test(ProvingSystem::Groth16, CurveKind::Bls12_377).unwrap();
}

#[test]
fn test_round_on_groth16_bw6_761() {
    execute_round_test(ProvingSystem::Groth16, CurveKind::BW6).unwrap();
}

#[test]
fn test_round_on_marlin_bls12_377() {
    execute_round_test(ProvingSystem::Marlin, CurveKind::Bls12_377).unwrap();
}

#[test]
fn test_coordinator_drop_contributor() {
    coordinator_drop_contributor_test().unwrap();
}
