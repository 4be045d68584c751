//! Loosely typed input values as they arrive from callers.

use vstd::prelude::*;

verus! {

/// A value handed over by a caller: a number written as text, a string, or a flag.
#[derive(Clone, Debug)]
pub enum SimpleValue {
    Number(String),
    String(String),
    Boolean(bool),
}

pub open spec fn is_digit(c: char) -> bool {
    '0' <= c <= '9'
}

pub open spec fn digit_value(c: char) -> int {
    c as int - '0' as int
}

/// The number written by a string of decimal digits.
pub open spec fn decimal_value(s: Seq<char>) -> int
    decreases s.len(),
{
    if s.len() == 0 {
        0
    } else {
        decimal_value(s.drop_last()) * 10 + digit_value(s.last())
    }
}

/// The digits of an unsigned decimal literal: an optional leading `+` dropped.
pub open spec fn unsigned_digits(s: Seq<char>) -> Seq<char> {
    if s.len() > 0 && s[0] == '+' {
        s.drop_first()
    } else {
        s
    }
}

/// `s` is the decimal text of a `u64`: an optional `+`, then one or more digits,
/// naming a value that fits in 64 bits.
pub open spec fn is_u64_text(s: Seq<char>) -> bool {
    let d = unsigned_digits(s);
    &&& d.len() > 0
    &&& forall|i: int| 0 <= i < d.len() ==> is_digit(#[trigger] d[i])
    &&& decimal_value(d) <= u64::MAX
}

pub(crate) proof fn lemma_decimal_value_nonneg(s: Seq<char>)
    requires
        forall|i: int| 0 <= i < s.len() ==> is_digit(#[trigger] s[i]),
    ensures
        decimal_value(s) >= 0,
    decreases s.len(),
{
    if s.len() > 0 {
        lemma_decimal_value_nonneg(s.drop_last());
    }
}

pub(crate) proof fn lemma_decimal_value_grows(s: Seq<char>, k: int)
    requires
        0 <= k <= s.len(),
        forall|i: int| 0 <= i < s.len() ==> is_digit(#[trigger] s[i]),
    ensures
        decimal_value(s.subrange(0, k)) <= decimal_value(s),
    decreases s.len() - k,
{
    if k < s.len() {
        lemma_decimal_value_grows(s, k + 1);
        let p = s.subrange(0, k + 1);
        assert(p.drop_last() =~= s.subrange(0, k));
        assert(is_digit(s[k]));
        lemma_decimal_value_nonneg(s.subrange(0, k));
    } else {
        assert(s.subrange(0, k) =~= s);
    }
}

/// Reads an unsigned 64-bit decimal number, as `str::parse::<u64>` does.
pub fn parse_u64(s: &str) -> (r: Option<u64>)
    ensures
        r == (if is_u64_text(s@) {
            Some(decimal_value(unsigned_digits(s@)) as u64)
        } else {
            None::<u64>
        }),
        r matches Some(v) ==> v as int == decimal_value(unsigned_digits(s@)),
{
    let n = s.unicode_len();
    let mut start: usize = 0;
    if n > 0 && s.get_char(0) == '+' {
        start = 1;
    }
    let ghost d = unsigned_digits(s@);
    assert(d =~= s@.subrange(start as int, n as int));
    if start == n {
        return None;
    }
    let mut acc: u64 = 0;
    let mut i: usize = start;
    while i < n
        invariant
            start <= i <= n,
            n == s@.len(),
            d == unsigned_digits(s@),
            d =~= s@.subrange(start as int, n as int),
            forall|j: int| 0 <= j < i - start ==> is_digit(#[trigger] d[j]),
            acc == decimal_value(d.subrange(0, i - start)),
        decreases n - i,
    {
        let c = s.get_char(i);
        assert(d[i - start] == c);
        let ghost p = d.subrange(0, i - start + 1);
        assert(p.drop_last() =~= d.subrange(0, i - start));
        if c < '0' || c > '9' {
            assert(!is_digit(d[i - start]));
            assert(!is_u64_text(s@)) by {
                assert(unsigned_digits(s@) == d);
                assert(!is_digit(unsigned_digits(s@)[i - start]));
            }
            return None;
        }
        let digit: u64 = (c as u32 - '0' as u32) as u64;
        if acc > (u64::MAX - digit) / 10 {
            proof {
                assert(decimal_value(p) == acc * 10 + digit);
                assert(decimal_value(p) > u64::MAX) by (nonlinear_arith)
                    requires
                        acc > (u64::MAX - digit) / 10,
                        decimal_value(p) == acc * 10 + digit,
                        digit <= 9,
                ;
                assert(d.subrange(0, i - start + 1) == p);
                if forall|j: int| 0 <= j < d.len() ==> is_digit(#[trigger] d[j]) {
                    lemma_decimal_value_grows(d, i - start + 1);
                    assert(decimal_value(d) > u64::MAX);
                }
                assert(unsigned_digits(s@) == d);
                assert(!is_u64_text(s@));
            }
            return None;
        }
        proof {
            assert(acc * 10 + digit <= u64::MAX) by (nonlinear_arith)
                requires
                    acc <= (u64::MAX - digit) / 10,
                    digit <= 9,
            ;
        }
        acc = acc * 10 + digit;
        i = i + 1;
    }
    assert(d.subrange(0, d.len() as int) =~= d);
    proof {
        lemma_decimal_value_nonneg(d);
    }
    Some(acc)
}

impl SimpleValue {
    /// The value as an unsigned integer, where it is written as one.
    pub fn as_u64(&self) -> (r: Option<u64>)
        ensures
            r == match self {
                SimpleValue::Number(s) | SimpleValue::String(s) => if is_u64_text(s@) {
                    Some(decimal_value(unsigned_digits(s@)) as u64)
                } else {
                    None::<u64>
                },
                SimpleValue::Boolean(_) => None::<u64>,
            },
    {
        match self {
            SimpleValue::Number(s) => parse_u64(s.as_str()),
            SimpleValue::String(s) => parse_u64(s.as_str()),
            SimpleValue::Boolean(_) => None,
        }
    }
}

/// Entry point for proving and checking the square relation.
pub struct SimpleProofSystem;

impl SimpleProofSystem {
    pub fn new() -> (r: Self) {
        SimpleProofSystem
    }
}

impl Default for SimpleProofSystem {
    fn default() -> (r: Self) {
        SimpleProofSystem::new()
    }
}

} // verus!
