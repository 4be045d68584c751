use zkp_rust_prover::constraint::is_satisfied;
use zkp_rust_prover::pipeline::{
    prepare_age, prepare_age_basic, prepare_balance, prepare_merkle, prepare_range, prepare_square,
    prepare_voting,
};
use zkp_rust_prover::placeholder::{balance_commitment, balance_sufficient};
use zkp_rust_prover::{
    AgeVerificationCircuit, AgeVerificationCircuitV2, BalanceProofCircuit, FieldElement,
    MerkleProofCircuit, ProofError, ProvingInput, RangeProofCircuit, SquareCircuit,
    SynthesisError, VotingCircuit,
};

fn fe(v: u64) -> FieldElement {
    FieldElement::from_u64(v)
}

fn same(a: &FieldElement, b: &FieldElement) -> bool {
    a.to_repr() == b.to_repr()
}

fn accepts(p: &ProvingInput, public: Vec<FieldElement>) -> bool {
    is_satisfied(&p.shape, &p.layout, &p.grid, &public)
}

fn age_circuit(age: u64, min: u64, max: u64) -> AgeVerificationCircuitV2 {
    AgeVerificationCircuitV2 {
        age: Some(age),
        salt: Some(fe(12345)),
        age_commitment: None,
        min_age: Some(min),
        max_age: Some(max),
    }
}

#[test]
fn test_square_circuit() {
    let circuit = SquareCircuit { x: Some(fe(3)) };
    let p = prepare_square(&circuit).unwrap();
    assert!(accepts(&p, vec![fe(9)]));
}

#[test]
fn test_without_witnesses() {
    let circuit = SquareCircuit { x: Some(fe(5)) };
    let no_witness = circuit.without_witnesses();
    assert!(no_witness.x.is_none());
}

#[test]
fn test_square_real_proof() {
    let p = prepare_square(&SquareCircuit { x: Some(fe(5)) }).unwrap();
    assert!(same(&p.public[0], &fe(25)));
    assert!(accepts(&p, vec![fe(25)]), "Proof verification should succeed");
}

#[test]
fn test_square_zero_real_proof() {
    let p = prepare_square(&SquareCircuit { x: Some(FieldElement::zero()) }).unwrap();
    assert!(accepts(&p, vec![FieldElement::zero()]));
}

#[test]
fn test_square_large_value_real_proof() {
    let p = prepare_square(&SquareCircuit { x: Some(fe(100)) }).unwrap();
    assert!(same(&p.public[0], &fe(10000)));
    assert!(accepts(&p, vec![fe(10000)]));
}

#[test]
fn square_rejects_a_wrong_public_value() {
    let p = prepare_square(&SquareCircuit { x: Some(fe(5)) }).unwrap();
    assert!(!accepts(&p, vec![fe(24)]));
    assert!(!accepts(&p, vec![]));
    assert!(!accepts(&p, vec![fe(25), fe(25)]));
}

#[test]
fn square_needs_a_witness() {
    let r = prepare_square(&SquareCircuit { x: None });
    assert_eq!(r.err(), Some(ProofError::Synthesis(SynthesisError::MissingWitness)));
}

#[test]
fn square_of_the_largest_field_value() {
    // p - 1 squares to 1.
    let x = FieldElement::zero().sub(&FieldElement::one());
    let p = prepare_square(&SquareCircuit { x: Some(x) }).unwrap();
    assert!(accepts(&p, vec![FieldElement::one()]));
}

#[test]
fn test_range_proof_8bit_real() {
    let p = prepare_range(&RangeProofCircuit::<8> { value: Some(100) }).unwrap();
    assert!(same(&p.public[0], &FieldElement::one()));
    assert!(accepts(&p, vec![FieldElement::one()]));
}

#[test]
fn test_range_proof_8bit_boundary_real() {
    let p = prepare_range(&RangeProofCircuit::<8> { value: Some(255) }).unwrap();
    assert!(accepts(&p, vec![FieldElement::one()]));
}

#[test]
fn test_range_proof_16bit_real() {
    let p = prepare_range(&RangeProofCircuit::<16> { value: Some(30000) }).unwrap();
    assert!(accepts(&p, vec![FieldElement::one()]));
}

#[test]
fn range_rejects_values_too_wide() {
    let r = prepare_range(&RangeProofCircuit::<8> { value: Some(256) });
    assert_eq!(r.err(), Some(ProofError::Synthesis(SynthesisError::OutOfRange)));
    let r = prepare_range(&RangeProofCircuit::<16> { value: Some(65536) });
    assert_eq!(r.err(), Some(ProofError::Synthesis(SynthesisError::OutOfRange)));
    let r = prepare_range(&RangeProofCircuit::<8> { value: None });
    assert_eq!(r.err(), Some(ProofError::Synthesis(SynthesisError::MissingWitness)));
}

#[test]
fn range_edges() {
    assert!(prepare_range(&RangeProofCircuit::<8> { value: Some(0) }).is_ok());
    assert!(prepare_range(&RangeProofCircuit::<64> { value: Some(u64::MAX) }).is_ok());
    assert!(prepare_range(&RangeProofCircuit::<1> { value: Some(1) }).is_ok());
    assert!(prepare_range(&RangeProofCircuit::<1> { value: Some(2) }).is_err());
    let p = prepare_range(&RangeProofCircuit::<8> { value: Some(7) }).unwrap();
    assert!(!accepts(&p, vec![FieldElement::zero()]));
}

#[test]
fn test_age_verification_v2_valid_age() {
    let p = prepare_age(&age_circuit(25, 18, 65)).unwrap();
    assert!(same(&p.public[0], &fe(152399650)));
    assert!(same(&p.public[3], &FieldElement::one()));
    assert!(accepts(&p, vec![fe(152399650), fe(18), fe(65), fe(1)]));
}

#[test]
fn test_age_verification_v2_invalid_too_young() {
    let p = prepare_age(&age_circuit(17, 18, 65)).unwrap();
    assert!(same(&p.public[0], &fe(152399314)));
    assert!(p.public[3].is_zero());
    assert!(accepts(&p, vec![fe(152399314), fe(18), fe(65), fe(0)]));
    assert!(!accepts(&p, vec![fe(152399314), fe(18), fe(65), fe(1)]));
}

#[test]
fn test_age_verification_v2_invalid_too_old() {
    let p = prepare_age(&age_circuit(70, 18, 65)).unwrap();
    assert!(p.public[3].is_zero());
    assert!(!accepts(&p, vec![p.public[0], fe(18), fe(65), fe(1)]));
}

#[test]
fn test_age_verification_v2_boundary_min() {
    let p = prepare_age(&age_circuit(18, 18, 65)).unwrap();
    assert!(same(&p.public[3], &FieldElement::one()));
}

#[test]
fn test_age_verification_v2_boundary_max() {
    let p = prepare_age(&age_circuit(65, 18, 65)).unwrap();
    assert!(same(&p.public[3], &FieldElement::one()));
}

#[test]
fn age_one_step_beyond_either_bound_is_invalid() {
    assert!(prepare_age(&age_circuit(66, 18, 65)).unwrap().public[3].is_zero());
    assert!(prepare_age(&age_circuit(17, 18, 65)).unwrap().public[3].is_zero());
    assert!(same(&prepare_age(&age_circuit(0, 0, 255)).unwrap().public[3], &FieldElement::one()));
}

#[test]
fn age_rejects_a_forged_commitment() {
    let p = prepare_age(&age_circuit(25, 18, 40)).unwrap();
    assert!(accepts(&p, vec![p.public[0], fe(18), fe(40), fe(1)]));
    assert!(!accepts(&p, vec![fe(1), fe(18), fe(40), fe(1)]));
    assert!(!accepts(&p, vec![p.public[0], fe(18), fe(40), fe(0)]));
    assert!(!accepts(&p, vec![p.public[0], fe(17), fe(40), fe(1)]));
}

#[test]
fn age_synthesis_errors() {
    let r = prepare_age(&age_circuit(256, 18, 65));
    assert_eq!(r.err(), Some(ProofError::Synthesis(SynthesisError::OutOfRange)));
    let p = prepare_age(&age_circuit(25, 18, 300)).unwrap();
    assert!(same(&p.public[3], &FieldElement::one()));
    let mut c = age_circuit(25, 18, 65);
    c.salt = None;
    assert_eq!(prepare_age(&c).err(), Some(ProofError::Synthesis(SynthesisError::MissingWitness)));
    let empty = c.without_witnesses();
    assert!(empty.age.is_none() && empty.min_age.is_none());
}

#[test]
fn age_bounds_take_their_full_width() {
    let p = prepare_age(&age_circuit(25, 18, 1000)).unwrap();
    assert!(same(&p.public[3], &FieldElement::one()));
    assert!(accepts(&p, vec![p.public[0], fe(18), fe(1000), fe(1)]));
    let p = prepare_age(&age_circuit(255, 0, u64::MAX)).unwrap();
    assert!(same(&p.public[3], &FieldElement::one()));
    let p = prepare_age(&age_circuit(25, 300, u64::MAX)).unwrap();
    assert!(p.public[3].is_zero());
    assert!(!accepts(&p, vec![p.public[0], fe(300), fe(u64::MAX), fe(1)]));
    let p = prepare_age(&age_circuit(0, 1, 1)).unwrap();
    assert!(p.public[3].is_zero());
}

#[test]
fn test_age_verification_real_proof() {
    let circuit = AgeVerificationCircuit { age: Some(25), min_age: Some(18), max_age: Some(65) };
    let p = prepare_age_basic(&circuit).unwrap();
    assert!(accepts(&p, vec![FieldElement::one()]));
}

#[test]
fn test_balance_proof_real() {
    let circuit = BalanceProofCircuit { balance: Some(5000), required_amount: Some(1000) };
    let p = prepare_balance(&circuit).unwrap();
    assert!(accepts(&p, vec![FieldElement::one()]));
}

#[test]
fn test_merkle_proof_real() {
    let circuit = MerkleProofCircuit { leaf: Some(fe(100)), root: Some(fe(12345)) };
    let p = prepare_merkle(&circuit).unwrap();
    assert!(accepts(&p, vec![fe(12345)]));
    assert!(!accepts(&p, vec![fe(12346)]));
}

#[test]
fn test_voting_real_proof() {
    let circuit = VotingCircuit {
        voter_secret: Some(fe(12345)),
        vote: Some(1),
        merkle_root: Some(fe(99999)),
    };
    let p = prepare_voting(&circuit).unwrap();
    assert!(accepts(&p, vec![FieldElement::one()]));
}

#[test]
fn balance_record_values() {
    let c = balance_commitment(5000, &fe(67890), &fe(12345));
    let mut expected = [0u8; 32];
    expected[..9].copy_from_slice(&[0xc1, 0x9c, 0xe9, 0x32, 0x5f, 0x88, 0x04, 0x2a, 0x01]);
    assert_eq!(c.to_repr(), expected);
    assert!(balance_sufficient(5000, 1000));
    assert!(balance_sufficient(1000, 1000));
    assert!(!balance_sufficient(400, 1000));
}

#[test]
fn tampered_assignments_are_rejected() {
    let mut p = prepare_range(&RangeProofCircuit::<8> { value: Some(200) }).unwrap();
    p.grid.set(0, 0, fe(300));
    assert!(!accepts(&p, vec![FieldElement::one()]));
    let mut a = prepare_age(&age_circuit(17, 18, 65)).unwrap();
    let public = vec![a.public[0], fe(18), fe(65), fe(1)];
    a.grid.set(7, 0, FieldElement::one());
    assert!(!accepts(&a, public));
}
