//! The checks and computations that stand between a caller's raw request and
//! the proving backend: hex and decimal inputs read into field elements,
//! public values assembled in binding order, and records checked before any
//! proof bytes are looked at.

use crate::age::{age_public_values, commitment_of, AgeVerificationCircuitV2};
use crate::encoding::{
    decode_flagged_record, hex_bytes, is_hex_text, parse_hex_to_field,
    strip_hex_prefix, EncodingError,
};
use crate::field::{le_value, modulus, FieldElement};
use crate::placeholder::{balance_commitment, balance_commitment_of};
use crate::decimal::{decimal_to_field, is_field_decimal};
use crate::value::decimal_value;
use vstd::prelude::*;
use vstd::string::StringSliceAdditionalSpecFns;

verus! {

/// The element that hex text names, when it names one.
pub open spec fn hex_field_value(text: &str) -> Option<nat> {
    let digits = strip_hex_prefix(text.spec_bytes());
    let bytes = hex_bytes(digits);
    if is_hex_text(digits) && bytes.len() <= 32 && le_value(bytes) < modulus() {
        Some(le_value(bytes))
    } else {
        None
    }
}

/// The age circuit for a request whose salt is given as hex text.
pub fn age_circuit_from_request(age: u32, salt_hex: &str, min_age: u32, max_age: u32) -> (r: Result<
    AgeVerificationCircuitV2,
    EncodingError,
>)
    ensures
        match r {
            Ok(c) => {
                &&& hex_field_value(salt_hex) is Some
                &&& c.age == Some(age as u64)
                &&& c.salt is Some
                &&& c.salt.unwrap()@ == hex_field_value(salt_hex).unwrap()
                &&& c.min_age == Some(min_age as u64)
                &&& c.max_age == Some(max_age as u64)
                &&& c.age_commitment is Some
                &&& c.age_commitment.unwrap()@ == commitment_of(
                    age as nat,
                    hex_field_value(salt_hex).unwrap(),
                )
            },
            Err(_) => hex_field_value(salt_hex) is None,
        },
{
    let salt = parse_hex_to_field(salt_hex)?;
    let commitment = crate::age::commit(&FieldElement::from_u64(age as u64), &salt);
    Ok(AgeVerificationCircuitV2 {
        age: Some(age as u64),
        salt: Some(salt),
        age_commitment: Some(commitment),
        min_age: Some(min_age as u64),
        max_age: Some(max_age as u64),
    })
}

/// The public values of an age proof, read from decimal text in binding order:
/// commitment, lower bound, upper bound, `valid`.
pub fn age_public_from_decimals(commitment: &str, min_age: &str, max_age: &str, valid: &str) -> (r: Result<
    Vec<FieldElement>,
    EncodingError,
>)
    ensures
        match r {
            Ok(v) => {
                &&& is_field_decimal(commitment@) && is_field_decimal(min_age@)
                &&& is_field_decimal(max_age@) && is_field_decimal(valid@)
                &&& v@.len() == 4
                &&& v@[0]@ == decimal_value(commitment@)
                &&& v@[1]@ == decimal_value(min_age@)
                &&& v@[2]@ == decimal_value(max_age@)
                &&& v@[3]@ == decimal_value(valid@)
            },
            Err(e) => e == EncodingError::InvalidDecimal && !(is_field_decimal(commitment@)
                && is_field_decimal(min_age@) && is_field_decimal(max_age@) && is_field_decimal(valid@)),
        },
{
    let c = decimal_to_field(commitment)?;
    let lo = decimal_to_field(min_age)?;
    let hi = decimal_to_field(max_age)?;
    let ok = decimal_to_field(valid)?;
    Ok(vec![c, lo, hi, ok])
}

/// The public values of a balance record: the commitment to balance, account
/// and salt (the latter two given as hex text), and whether the balance covers
/// the required amount.
pub fn balance_public_from_request(
    balance: u64,
    salt_hex: &str,
    account_id_hex: &str,
    required_amount: u64,
) -> (r: Result<(FieldElement, bool), EncodingError>)
    ensures
        match r {
            Ok((c, sufficient)) => {
                &&& hex_field_value(salt_hex) is Some
                &&& hex_field_value(account_id_hex) is Some
                &&& c@ == balance_commitment_of(
                    balance as nat,
                    hex_field_value(account_id_hex).unwrap(),
                    hex_field_value(salt_hex).unwrap(),
                )
                &&& sufficient == (balance >= required_amount)
            },
            Err(_) => hex_field_value(salt_hex) is None || hex_field_value(account_id_hex) is None,
        },
{
    let salt = parse_hex_to_field(salt_hex)?;
    let account_id = parse_hex_to_field(account_id_hex)?;
    Ok((balance_commitment(balance, &account_id, &salt), balance >= required_amount))
}

/// The public values a balance record claims, `[commitment, sufficient]`, and
/// its proof bytes; malformed records are refused before the proof is read.
pub fn balance_public_from_record(record: &[u8]) -> (r: Result<(Vec<FieldElement>, Vec<u8>), EncodingError>)
    ensures
        match r {
            Ok((public, proof)) => record@.len() >= 33 && public@.len() == 2 && record@
                == crate::encoding::flagged_record(public@[0].repr(), public@[1]@ == 1, proof@)
                && (public@[1]@ == 0 || public@[1]@ == 1),
            Err(EncodingError::TooShort) => record@.len() < 33,
            Err(EncodingError::NonCanonicalField) => record@.len() >= 33 && le_value(
                record@.subrange(0, 32),
            ) >= modulus(),
            Err(EncodingError::InvalidFlag) => record@.len() >= 33 && le_value(record@.subrange(0, 32))
                < modulus() && record@[32] > 1,
            Err(_) => false,
        },
{
    let (value, flag, proof) = decode_flagged_record(record)?;
    let flag_fe = if flag { FieldElement::one() } else { FieldElement::zero() };
    Ok((vec![value, flag_fe], proof))
}

} // verus!
