use zkp_rust_prover::{CircuitAdapter, CircuitType};

#[test]
fn test_adapter_creation() {
    let adapter = CircuitAdapter::new();
    let circuits = adapter.list_circuits();
    assert_eq!(circuits.len(), 6);
}

#[test]
fn test_get_circuit_info() {
    let adapter = CircuitAdapter::new();
    let info = adapter.get_circuit_info(CircuitType::Square);
    assert_eq!(info.name, "Square");
    assert_eq!(info.status, "Production");
}

#[test]
fn test_all_circuit_info() {
    let adapter = CircuitAdapter::new();
    for circuit_type in adapter.list_circuits() {
        let info = adapter.get_circuit_info(circuit_type);
        assert!(!info.name.is_empty());
        assert!(!info.description.is_empty());
    }
}

#[test]
fn catalogue_lists_each_kind_once_in_order() {
    let adapter = CircuitAdapter::default();
    let circuits = adapter.list_circuits();
    assert_eq!(
        circuits,
        vec![
            CircuitType::Square,
            CircuitType::AgeVerification,
            CircuitType::BalanceProof,
            CircuitType::RangeProof,
            CircuitType::MerkleProof,
            CircuitType::Voting,
        ]
    );
}

#[test]
fn catalogue_describes_inputs_outputs_and_status() {
    let adapter = CircuitAdapter::new();
    let age = adapter.get_circuit_info(CircuitType::AgeVerification);
    assert_eq!(age.inputs, vec!["age", "minAge", "maxAge"]);
    assert_eq!(age.outputs, vec!["valid"]);
    assert_eq!(age.status, "Basic Framework");
    let range = adapter.get_circuit_info(CircuitType::RangeProof);
    assert_eq!(range.inputs, vec!["value", "bits"]);
    assert_eq!(range.status, "Production");
    let voting = adapter.get_circuit_info(CircuitType::Voting);
    assert_eq!(voting.name, "Voting");
    assert_eq!(voting.outputs, vec!["voteHash"]);
}
