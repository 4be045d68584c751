use zkp_rust_prover::encoding::{encode_flagged_record, parse_hex};
use zkp_rust_prover::pipeline::prepare_age;
use zkp_rust_prover::requests::{
    age_circuit_from_request, age_public_from_decimals, balance_public_from_record,
    balance_public_from_request,
};
use zkp_rust_prover::{EncodingError, FieldElement};

fn same(a: &FieldElement, b: &FieldElement) -> bool {
    a.to_repr() == b.to_repr()
}

#[test]
fn age_request_reads_salt_and_commits() {
    let c = age_circuit_from_request(25, "0x3039", 18, 65).unwrap();
    assert_eq!(c.age, Some(25));
    assert_eq!(c.min_age, Some(18));
    assert_eq!(c.max_age, Some(65));
    assert!(same(&c.salt.unwrap(), &FieldElement::from_u64(0x3930)));
    assert!(same(&c.age_commitment.unwrap(), &FieldElement::from_u64(214330225)));
    let p = prepare_age(&c).unwrap();
    assert!(same(&p.public[0], &FieldElement::from_u64(214330225)));
    assert!(same(&p.public[3], &FieldElement::one()));
    assert_eq!(age_circuit_from_request(25, "0xzz", 18, 65).err(), Some(EncodingError::InvalidHex));
}

#[test]
fn age_public_signals_from_decimal_text() {
    let v = age_public_from_decimals("214330225", "18", "65", "1").unwrap();
    assert_eq!(v.len(), 4);
    assert!(same(&v[0], &FieldElement::from_u64(214330225)));
    assert!(same(&v[3], &FieldElement::one()));
    assert_eq!(
        age_public_from_decimals("1", "18", "x", "1").err(),
        Some(EncodingError::InvalidDecimal)
    );
}

#[test]
fn balance_request_values() {
    let (c, sufficient) = balance_public_from_request(5000, "0x3039", "0x0109d2", 1000).unwrap();
    let bytes = parse_hex("818d5487d42f8b4ac656ff73").unwrap();
    let mut expected = [0u8; 32];
    expected[..bytes.len()].copy_from_slice(&bytes);
    assert_eq!(c.to_repr(), expected);
    assert!(sufficient);
    let (_, insufficient) = balance_public_from_request(400, "0x3039", "0x0109d2", 1000).unwrap();
    assert!(!insufficient);
    assert_eq!(
        balance_public_from_request(5000, "0x3039", "0x123", 1000).err(),
        Some(EncodingError::InvalidHex)
    );
}

#[test]
fn balance_record_is_checked_before_the_proof() {
    let c = FieldElement::from_u64(77);
    let record = encode_flagged_record(&c, true, &[5, 6]);
    let (public, proof) = balance_public_from_record(&record).unwrap();
    assert!(same(&public[0], &c));
    assert!(same(&public[1], &FieldElement::one()));
    assert_eq!(proof, vec![5, 6]);
    let mut forged = record.clone();
    forged[32] = 7;
    assert_eq!(balance_public_from_record(&forged).err(), Some(EncodingError::InvalidFlag));
    assert_eq!(balance_public_from_record(&record[..20]).err(), Some(EncodingError::TooShort));
}
