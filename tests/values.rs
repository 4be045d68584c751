use zkp_rust_prover::value::parse_u64;
use zkp_rust_prover::SimpleValue;

#[test]
fn simple_value_reads_numbers() {
    assert_eq!(SimpleValue::Number("25".to_string()).as_u64(), Some(25));
    assert_eq!(SimpleValue::String("+7".to_string()).as_u64(), Some(7));
    assert_eq!(SimpleValue::Boolean(true).as_u64(), None);
    assert_eq!(SimpleValue::Number("abc".to_string()).as_u64(), None);
}

#[test]
fn parse_u64_edges() {
    assert_eq!(parse_u64("0"), Some(0));
    assert_eq!(parse_u64("18446744073709551615"), Some(u64::MAX));
    assert_eq!(parse_u64("18446744073709551616"), None);
    assert_eq!(parse_u64(""), None);
    assert_eq!(parse_u64("+"), None);
    assert_eq!(parse_u64("-1"), None);
    assert_eq!(parse_u64("12a"), None);
    assert_eq!(parse_u64("007"), Some(7));
}
