//! Byte encodings at the boundary with callers: hex text, field elements,
//! and the wire records that carry a public value, a flag and proof bytes.

use crate::field::{le_value, modulus, FieldElement};
use vstd::prelude::*;
use vstd::string::StringSliceAdditionalSpecFns;

verus! {

/// Why a byte string or text was refused before any cryptographic work.
#[derive(Debug, Clone, Copy, PartialEq, Eq, Structural)]
pub enum EncodingError {
    /// The record is shorter than its fixed prefix.
    TooShort,
    /// Thirty-two bytes that do not encode an integer below the field modulus.
    NonCanonicalField,
    /// A flag byte other than 0 or 1.
    InvalidFlag,
    /// Text that is not an even number of hexadecimal digits.
    InvalidHex,
    /// Hex text naming more than 32 bytes.
    TooLong,
    /// Text that is not the decimal digits of a value below the field modulus.
    InvalidDecimal,
}

/// Width of an encoded field element.
pub const FIELD_BYTES: usize = 32;

/// Width of a field element followed by a flag byte.
pub const FLAGGED_PREFIX_BYTES: usize = 33;

pub open spec fn is_hex_digit(c: u8) -> bool {
    (48 <= c <= 57) || (65 <= c <= 70) || (97 <= c <= 102)
}

pub open spec fn hex_digit_value(c: u8) -> int {
    if 48 <= c <= 57 {
        c - 48
    } else if 65 <= c <= 70 {
        c - 55
    } else {
        c - 87
    }
}

/// An even number of hexadecimal digits, either case.
pub open spec fn is_hex_text(s: Seq<u8>) -> bool {
    s.len() % 2 == 0 && forall|i: int| 0 <= i < s.len() ==> is_hex_digit(#[trigger] s[i])
}

/// The bytes that hex text stands for, most significant digit first in each pair.
pub open spec fn hex_bytes(s: Seq<u8>) -> Seq<u8> {
    Seq::new(
        s.len() / 2,
        |i: int| (hex_digit_value(s[2 * i]) * 16 + hex_digit_value(s[2 * i + 1])) as u8,
    )
}

/// Relies on `hex::decode`: it accepts exactly even-length text of hex digits
/// of either case, and turns each pair into one byte.
#[verifier::external_body]
fn hex_decode(text: &[u8]) -> (r: Option<Vec<u8>>)
    ensures
        r is Some <==> is_hex_text(text@),
        r matches Some(v) ==> v@ == hex_bytes(text@),
{
    hex::decode(text).ok()
}

/// The text with every leading `0x` removed.
pub open spec fn strip_hex_prefix(s: Seq<u8>) -> Seq<u8>
    decreases s.len(),
{
    if s.len() >= 2 && s[0] == 48 && s[1] == 120 {
        strip_hex_prefix(s.subrange(2, s.len() as int))
    } else {
        s
    }
}

fn copy_range(b: &[u8], from: usize, to: usize) -> (r: Vec<u8>)
    requires
        from <= to <= b@.len(),
    ensures
        r@ == b@.subrange(from as int, to as int),
{
    let mut r: Vec<u8> = Vec::new();
    let mut i: usize = from;
    while i < to
        invariant
            from <= i <= to <= b@.len(),
            r@ == b@.subrange(from as int, i as int),
        decreases to - i,
    {
        r.push(b[i]);
        i = i + 1;
        assert(r@ =~= b@.subrange(from as int, i as int));
    }
    r
}

/// Decodes hex text, optionally prefixed by `0x`.
pub fn parse_hex(text: &str) -> (r: Result<Vec<u8>, EncodingError>)
    ensures
        ({
            let digits = strip_hex_prefix(text.spec_bytes());
            match r {
                Ok(v) => is_hex_text(digits) && v@ == hex_bytes(digits),
                Err(e) => !is_hex_text(digits) && e == EncodingError::InvalidHex,
            }
        }),
{
    let b = text.as_bytes();
    let n = b.len();
    let mut start: usize = 0;
    assert(b@.subrange(0, n as int) =~= b@);
    while start < n && n - start >= 2 && b[start] == 48u8 && b[start + 1] == 120u8
        invariant
            start <= n == b@.len(),
            strip_hex_prefix(b@) == strip_hex_prefix(b@.subrange(start as int, n as int)),
        decreases n - start,
    {
        let ghost rest = b@.subrange(start as int, n as int);
        assert(rest.subrange(2, rest.len() as int) =~= b@.subrange(start + 2, n as int));
        start = start + 2;
    }
    proof {
        let rest = b@.subrange(start as int, n as int);
        assert(strip_hex_prefix(rest) == rest);
    }
    let digits = copy_range(b, start, n);
    match hex_decode(digits.as_slice()) {
        Some(v) => Ok(v),
        None => Err(EncodingError::InvalidHex),
    }
}

proof fn lemma_le_value_zero_extend(s: Seq<u8>, k: nat)
    ensures
        le_value(s + Seq::new(k, |i: int| 0u8)) == le_value(s),
    decreases s.len(),
{
    let z = Seq::new(k, |i: int| 0u8);
    if s.len() == 0 {
        assert(s + z =~= z);
        lemma_le_value_zeros(k);
    } else {
        assert((s + z).drop_first() =~= s.drop_first() + z);
        lemma_le_value_zero_extend(s.drop_first(), k);
    }
}

proof fn lemma_le_value_zeros(k: nat)
    ensures
        le_value(Seq::new(k, |i: int| 0u8)) == 0,
    decreases k,
{
    if k > 0 {
        assert(Seq::new(k, |i: int| 0u8).drop_first() =~= Seq::new((k - 1) as nat, |i: int| 0u8));
        lemma_le_value_zeros((k - 1) as nat);
    }
}

/// The element that hex text names, read as a little-endian integer of at
/// most 32 bytes.
pub fn parse_hex_to_field(text: &str) -> (r: Result<FieldElement, EncodingError>)
    ensures
        ({
            let digits = strip_hex_prefix(text.spec_bytes());
            let bytes = hex_bytes(digits);
            match r {
                Ok(e) => is_hex_text(digits) && bytes.len() <= 32 && le_value(bytes) < modulus()
                    && e@ == le_value(bytes),
                Err(EncodingError::InvalidHex) => !is_hex_text(digits),
                Err(EncodingError::TooLong) => is_hex_text(digits) && bytes.len() > 32,
                Err(EncodingError::NonCanonicalField) => is_hex_text(digits) && bytes.len() <= 32
                    && le_value(bytes) >= modulus(),
                Err(_) => false,
            }
        }),
{
    let bytes = parse_hex(text)?;
    if bytes.len() > FIELD_BYTES {
        return Err(EncodingError::TooLong);
    }
    let mut repr: [u8; 32] = [0u8; 32];
    let mut i: usize = 0;
    while i < bytes.len()
        invariant
            i <= bytes@.len() <= 32,
            repr@.len() == 32,
            forall|j: int| 0 <= j < i ==> repr@[j] == bytes@[j],
            forall|j: int| i <= j < 32 ==> repr@[j] == 0u8,
        decreases bytes.len() - i,
    {
        repr[i] = bytes[i];
        i = i + 1;
    }
    proof {
        let k = (32 - bytes@.len()) as nat;
        assert(repr@ =~= bytes@ + Seq::new(k, |j: int| 0u8));
        lemma_le_value_zero_extend(bytes@, k);
    }
    match FieldElement::from_repr(repr) {
        Some(e) => Ok(e),
        None => Err(EncodingError::NonCanonicalField),
    }
}

/// Reads a field element from the first 32 bytes of `b`.
fn read_field(b: &[u8]) -> (r: Result<FieldElement, EncodingError>)
    requires
        b@.len() >= 32,
    ensures
        match r {
            Ok(e) => le_value(b@.subrange(0, 32)) < modulus() && e.repr() == b@.subrange(0, 32),
            Err(e) => le_value(b@.subrange(0, 32)) >= modulus() && e
                == EncodingError::NonCanonicalField,
        },
{
    let mut repr: [u8; 32] = [0u8; 32];
    let mut i: usize = 0;
    while i < FIELD_BYTES
        invariant
            i <= 32 <= b@.len(),
            repr@.len() == 32,
            forall|j: int| 0 <= j < i ==> repr@[j] == b@[j],
        decreases 32 - i,
    {
        repr[i] = b[i];
        i = i + 1;
    }
    assert(repr@ =~= b@.subrange(0, 32));
    match FieldElement::from_repr(repr) {
        Some(e) => Ok(e),
        None => Err(EncodingError::NonCanonicalField),
    }
}

/// The record `[value: 32 bytes][proof bytes]`.
pub open spec fn value_record(value: Seq<u8>, proof: Seq<u8>) -> Seq<u8> {
    value + proof
}

/// The record `[value: 32 bytes][flag: 1 byte][proof bytes]`.
pub open spec fn flagged_record(value: Seq<u8>, flag: bool, proof: Seq<u8>) -> Seq<u8> {
    value + seq![if flag { 1u8 } else { 0u8 }] + proof
}

/// Lays out a public value followed by proof bytes.
pub fn encode_value_record(value: &FieldElement, proof: &[u8]) -> (r: Vec<u8>)
    requires
        proof@.len() + 32 <= usize::MAX,
    ensures
        r@ == value_record(value.repr(), proof@),
{
    let repr = value.to_repr();
    let mut r: Vec<u8> = Vec::new();
    r.extend_from_slice(&repr);
    r.extend_from_slice(proof);
    assert(r@ =~= value_record(value.repr(), proof@));
    r
}

/// Splits a record into its public value and its proof bytes.
pub fn decode_value_record(record: &[u8]) -> (r: Result<(FieldElement, Vec<u8>), EncodingError>)
    ensures
        match r {
            Ok((v, p)) => record@.len() >= 32 && record@ == value_record(v.repr(), p@),
            Err(EncodingError::TooShort) => record@.len() < 32,
            Err(EncodingError::NonCanonicalField) => record@.len() >= 32 && le_value(
                record@.subrange(0, 32),
            ) >= modulus(),
            Err(_) => false,
        },
{
    if record.len() < FIELD_BYTES {
        return Err(EncodingError::TooShort);
    }
    let value = read_field(record)?;
    let proof = copy_range(record, FIELD_BYTES, record.len());
    assert(record@ =~= value_record(value.repr(), proof@));
    Ok((value, proof))
}

/// Lays out a public value, a boolean flag and proof bytes.
pub fn encode_flagged_record(value: &FieldElement, flag: bool, proof: &[u8]) -> (r: Vec<u8>)
    requires
        proof@.len() + 33 <= usize::MAX,
    ensures
        r@ == flagged_record(value.repr(), flag, proof@),
{
    let repr = value.to_repr();
    let mut r: Vec<u8> = Vec::new();
    r.extend_from_slice(&repr);
    r.push(if flag { 1u8 } else { 0u8 });
    r.extend_from_slice(proof);
    assert(r@ =~= flagged_record(value.repr(), flag, proof@));
    r
}

/// Splits a record into its public value, its flag and its proof bytes.
/// A record shorter than the value and flag is refused before anything is read.
pub fn decode_flagged_record(record: &[u8]) -> (r: Result<
    (FieldElement, bool, Vec<u8>),
    EncodingError,
>)
    ensures
        match r {
            Ok((v, f, p)) => record@.len() >= 33 && record@ == flagged_record(v.repr(), f, p@),
            Err(EncodingError::TooShort) => record@.len() < 33,
            Err(EncodingError::NonCanonicalField) => record@.len() >= 33 && le_value(
                record@.subrange(0, 32),
            ) >= modulus(),
            Err(EncodingError::InvalidFlag) => record@.len() >= 33 && le_value(
                record@.subrange(0, 32),
            ) < modulus() && record@[32] > 1,
            Err(_) => false,
        },
{
    if record.len() < FLAGGED_PREFIX_BYTES {
        return Err(EncodingError::TooShort);
    }
    let value = read_field(record)?;
    let flag_byte = record[FIELD_BYTES];
    if flag_byte > 1 {
        return Err(EncodingError::InvalidFlag);
    }
    let proof = copy_range(record, FLAGGED_PREFIX_BYTES, record.len());
    let flag = flag_byte == 1;
    assert(record@ =~= flagged_record(value.repr(), flag, proof@));
    Ok((value, flag, proof))
}

/// A flagged record is unambiguous: its value, flag and proof bytes are
/// recovered from it, so decoding an encoded record gives back what was encoded.
pub proof fn lemma_flagged_record_unique(
    v1: Seq<u8>,
    f1: bool,
    p1: Seq<u8>,
    v2: Seq<u8>,
    f2: bool,
    p2: Seq<u8>,
)
    requires
        v1.len() == 32,
        v2.len() == 32,
        flagged_record(v1, f1, p1) == flagged_record(v2, f2, p2),
    ensures
        v1 == v2,
        f1 == f2,
        p1 == p2,
{
    let r = flagged_record(v1, f1, p1);
    assert(v1 =~= r.subrange(0, 32));
    assert(v2 =~= r.subrange(0, 32));
    assert(r[32] == if f1 { 1u8 } else { 0u8 });
    assert(r[32] == if f2 { 1u8 } else { 0u8 });
    assert(p1 =~= r.subrange(33, r.len() as int));
    assert(p2 =~= r.subrange(33, r.len() as int));
}

/// A value record is unambiguous in the same way.
pub proof fn lemma_value_record_unique(v1: Seq<u8>, p1: Seq<u8>, v2: Seq<u8>, p2: Seq<u8>)
    requires
        v1.len() == 32,
        v2.len() == 32,
        value_record(v1, p1) == value_record(v2, p2),
    ensures
        v1 == v2,
        p1 == p2,
{
    let r = value_record(v1, p1);
    assert(v1 =~= r.subrange(0, 32));
    assert(v2 =~= r.subrange(0, 32));
    assert(p1 =~= r.subrange(32, r.len() as int));
    assert(p2 =~= r.subrange(32, r.len() as int));
}

} // verus!
