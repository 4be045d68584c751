use zkp_rust_prover::decimal::{decimal_to_field, field_to_decimal};
use zkp_rust_prover::encoding::{
    decode_flagged_record, decode_value_record, encode_flagged_record,
    encode_value_record, parse_hex, parse_hex_to_field,
};
use zkp_rust_prover::{EncodingError, FieldElement};

const MODULUS_LE: [u8; 32] = [
    0x01, 0x00, 0x00, 0x00, 0xed, 0x30, 0x2d, 0x99, 0x1b, 0xf9, 0x4c, 0x09, 0xfc, 0x98, 0x46, 0x22,
    0x00, 0x00, 0x00, 0x00, 0x00, 0x00, 0x00, 0x00, 0x00, 0x00, 0x00, 0x00, 0x00, 0x00, 0x00, 0x40,
];

fn same(a: &FieldElement, b: &FieldElement) -> bool {
    a.to_repr() == b.to_repr()
}

#[test]
fn field_arithmetic_is_modular() {
    let three = FieldElement::from_u64(3);
    let five = FieldElement::from_u64(5);
    assert!(same(&three.mul(&five), &FieldElement::from_u64(15)));
    assert!(same(&three.add(&five), &FieldElement::from_u64(8)));
    assert!(same(&five.sub(&three), &FieldElement::from_u64(2)));
    assert!(FieldElement::zero().is_zero());
    assert!(!FieldElement::one().is_zero());
    // 3 - 5 wraps to p - 2; adding 2 back gives zero.
    assert!(three.sub(&five).add(&FieldElement::from_u64(2)).is_zero());
    let mut p_minus_one = MODULUS_LE;
    p_minus_one[0] = 0;
    let m1 = FieldElement::from_repr(p_minus_one).unwrap();
    assert!(m1.add(&FieldElement::one()).is_zero());
    assert!(same(&m1.mul(&m1), &FieldElement::one()));
}

#[test]
fn field_repr_is_canonical_little_endian() {
    let e = FieldElement::from_u64(0x0102);
    let r = e.to_repr();
    assert_eq!(r[0], 0x02);
    assert_eq!(r[1], 0x01);
    assert!(r[2..].iter().all(|b| *b == 0));
    assert!(FieldElement::from_repr(MODULUS_LE).is_none());
    assert!(FieldElement::from_repr([0xff; 32]).is_none());
    let mut below = MODULUS_LE;
    below[0] = 0;
    assert!(FieldElement::from_repr(below).is_some());
}

#[test]
fn hex_text_decodes() {
    assert_eq!(parse_hex("0x0a0B").unwrap(), vec![10, 11]);
    assert_eq!(parse_hex("ff00").unwrap(), vec![255, 0]);
    assert_eq!(parse_hex("0x0x12").unwrap(), vec![0x12]);
    assert_eq!(parse_hex("").unwrap(), Vec::<u8>::new());
    assert_eq!(parse_hex("0x123"), Err(EncodingError::InvalidHex));
    assert_eq!(parse_hex("zz"), Err(EncodingError::InvalidHex));
}

#[test]
fn hex_text_names_little_endian_field_elements() {
    let salt = parse_hex_to_field("0x3039").unwrap();
    assert!(same(&salt, &FieldElement::from_u64(0x3930)));
    let id = parse_hex_to_field("0x0109d2").unwrap();
    assert!(same(&id, &FieldElement::from_u64(0xd20901)));
    let long = format!("0x{}", "00".repeat(33));
    assert_eq!(parse_hex_to_field(&long).err(), Some(EncodingError::TooLong));
    let modulus_hex: String = MODULUS_LE.iter().map(|b| format!("{:02x}", b)).collect();
    assert_eq!(parse_hex_to_field(&modulus_hex).err(), Some(EncodingError::NonCanonicalField));
    assert_eq!(parse_hex_to_field("0xg0").err(), Some(EncodingError::InvalidHex));
}

const MODULUS_DECIMAL: &str =
    "28948022309329048855892746252171976963363056481941560715954676764349967630337";

#[test]
fn decimal_text_names_field_elements() {
    assert!(same(&decimal_to_field("152399650").unwrap(), &FieldElement::from_u64(152399650)));
    assert!(same(&decimal_to_field("0").unwrap(), &FieldElement::zero()));
    assert_eq!(decimal_to_field("1.5").err(), Some(EncodingError::InvalidDecimal));
    assert_eq!(decimal_to_field("").err(), Some(EncodingError::InvalidDecimal));
    assert_eq!(decimal_to_field(MODULUS_DECIMAL).err(), Some(EncodingError::InvalidDecimal));
    let big = "1".repeat(100);
    assert_eq!(decimal_to_field(&big).err(), Some(EncodingError::InvalidDecimal));
    let below = "28948022309329048855892746252171976963363056481941560715954676764349967630336";
    let m1 = decimal_to_field(below).unwrap();
    assert!(m1.add(&FieldElement::one()).is_zero());
    assert!(same(
        &decimal_to_field("18446744073709551616").unwrap(),
        &FieldElement::from_u128(1u128 << 64)
    ));
}

#[test]
fn field_elements_print_as_decimal() {
    let text = |e: &FieldElement| field_to_decimal(e).into_iter().collect::<String>();
    assert_eq!(text(&FieldElement::zero()), "0");
    assert_eq!(text(&FieldElement::from_u64(152399650)), "152399650");
    assert_eq!(text(&FieldElement::from_u64(10)), "10");
    let m1 = FieldElement::zero().sub(&FieldElement::one());
    assert_eq!(
        text(&m1),
        "28948022309329048855892746252171976963363056481941560715954676764349967630336"
    );
    assert!(same(&decimal_to_field(&text(&m1)).unwrap(), &m1));
}

#[test]
fn flagged_record_round_trip() {
    let value = FieldElement::from_u64(0xabcdef);
    let proof = vec![9u8, 8, 7];
    let record = encode_flagged_record(&value, true, &proof);
    assert_eq!(record.len(), 36);
    assert_eq!(record[32], 1);
    assert_eq!(&record[..32], &value.to_repr()[..]);
    let (v, flag, p) = decode_flagged_record(&record).unwrap();
    assert!(same(&v, &value));
    assert!(flag);
    assert_eq!(p, proof);
    let (_, flag0, _) = decode_flagged_record(&encode_flagged_record(&value, false, &[])).unwrap();
    assert!(!flag0);
}

#[test]
fn flagged_record_rejections() {
    assert_eq!(decode_flagged_record(&[0u8; 32]).err(), Some(EncodingError::TooShort));
    let mut bad_flag = vec![0u8; 40];
    bad_flag[32] = 2;
    assert_eq!(decode_flagged_record(&bad_flag).err(), Some(EncodingError::InvalidFlag));
    let mut bad_value = MODULUS_LE.to_vec();
    bad_value.push(1);
    assert_eq!(decode_flagged_record(&bad_value).err(), Some(EncodingError::NonCanonicalField));
}

#[test]
fn value_record_round_trip_and_rejections() {
    let y = FieldElement::from_u64(25);
    let record = encode_value_record(&y, &[1, 2, 3]);
    assert_eq!(record.len(), 35);
    let (v, p) = decode_value_record(&record).unwrap();
    assert!(same(&v, &y));
    assert_eq!(p, vec![1, 2, 3]);
    assert_eq!(decode_value_record(&[0u8; 31]).err(), Some(EncodingError::TooShort));
    assert_eq!(decode_value_record(&MODULUS_LE).err(), Some(EncodingError::NonCanonicalField));
}
