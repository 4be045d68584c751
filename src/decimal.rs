//! Field elements written as decimal text, over their full width.

use crate::encoding::EncodingError;
use crate::field::{le_value, modulus, FieldElement};
use crate::value::{decimal_value, digit_value, is_digit, lemma_decimal_value_grows, lemma_decimal_value_nonneg};
use vstd::arithmetic::power::pow;
use vstd::prelude::*;

verus! {

/// `s` is one or more decimal digits naming a value below the field modulus.
pub open spec fn is_field_decimal(s: Seq<char>) -> bool {
    &&& s.len() > 0
    &&& forall|i: int| 0 <= i < s.len() ==> is_digit(#[trigger] s[i])
    &&& decimal_value(s) < modulus()
}

proof fn lemma_le_value_push(s: Seq<u8>, x: u8)
    ensures
        le_value(s.push(x)) == le_value(s) + pow(256, s.len()) * x,
    decreases s.len(),
{
    reveal(pow);
    if s.len() == 0 {
        assert(s.push(x).drop_first() =~= Seq::<u8>::empty());
        assert(le_value(Seq::<u8>::empty()) == 0);
        assert(le_value(s.push(x)) == x + 256 * le_value(s.push(x).drop_first()));
    } else {
        assert(s.push(x).drop_first() =~= s.drop_first().push(x));
        assert(s.push(x)[0] == s[0]);
        lemma_le_value_push(s.drop_first(), x);
        let pp = pow(256, (s.len() - 1) as nat);
        let r = le_value(s.drop_first());
        assert(pow(256, s.len()) == 256 * pp);
        assert(le_value(s.push(x)) == s[0] + 256 * le_value(s.drop_first().push(x)));
        assert(le_value(s.drop_first().push(x)) == r + pp * x);
        assert(s[0] + 256 * (r + pp * x) == (s[0] + 256 * r) + (256 * pp) * x) by (nonlinear_arith);
        assert(le_value(s) == s[0] + 256 * r);
    }
}

proof fn lemma_le_value_bound(s: Seq<u8>)
    ensures
        le_value(s) < pow(256, s.len()),
    decreases s.len(),
{
    reveal(pow);
    if s.len() > 0 {
        lemma_le_value_bound(s.drop_first());
        let r = le_value(s.drop_first());
        let p = pow(256, (s.len() - 1) as nat);
        assert(s[0] + 256 * r < 256 * p) by (nonlinear_arith)
            requires
                r < p,
                s[0] < 256,
                r >= 0,
        ;
    }
}

proof fn lemma_pow256_32_above_modulus()
    ensures
        pow(256, 32) > modulus(),
{
    vstd::arithmetic::power2::lemma_pow2_strictly_increases(254, 256);
    vstd::arithmetic::power2::lemma_pow2(256);
    assert(pow(2, 256) == pow(256, 32)) by {
        vstd::arithmetic::power::lemma_pow_multiplies(2, 8, 32);
        vstd::arithmetic::power2::lemma_pow2(8);
        vstd::arithmetic::power2::lemma2_to64();
    }
    assert(vstd::arithmetic::power2::pow2(254) + 0x224698fc094cf91b992d30ed00000001nat < vstd::arithmetic::power2::pow2(256)) by {
        vstd::arithmetic::power2::lemma_pow2_adds(254, 2);
        vstd::arithmetic::power2::lemma2_to64();
        vstd::arithmetic::power2::lemma_pow2_adds(128, 126);
        vstd::arithmetic::power2::lemma_pow2_strictly_increases(128, 254);
        vstd::arithmetic::power2::lemma_pow2_adds(64, 64);
    }
}

/// Multiplies a 32-byte little-endian number by ten and adds a digit; the
/// returned carry is what does not fit in 32 bytes.
fn times_ten_plus(b: &[u8; 32], d: u8) -> (r: ([u8; 32], u32))
    requires
        d < 10,
    ensures
        le_value(r.0@) + pow(256, 32) * r.1 == 10 * le_value(b@) + d,
{
    let mut out: [u8; 32] = [0u8; 32];
    let mut carry: u32 = d as u32;
    proof {
        reveal(pow);
        assert(out@.subrange(0, 0) =~= Seq::<u8>::empty());
        assert(b@.subrange(0, 0) =~= Seq::<u8>::empty());
    }
    let mut i: usize = 0;
    while i < 32
        invariant
            i <= 32,
            out@.len() == 32,
            carry < 10,
            le_value(out@.subrange(0, i as int)) + pow(256, i as nat) * carry == 10 * le_value(
                b@.subrange(0, i as int),
            ) + d,
        decreases 32 - i,
    {
        let t: u32 = b[i] as u32 * 10 + carry;
        let ghost old_out = out@;
        let ghost old_carry = carry;
        out[i] = (t % 256) as u8;
        carry = t / 256;
        proof {
            reveal(pow);
            assert(out@.subrange(0, i as int) =~= old_out.subrange(0, i as int));
            assert(out@.subrange(0, i + 1) =~= out@.subrange(0, i as int).push(out@[i as int]));
            assert(b@.subrange(0, i + 1) =~= b@.subrange(0, i as int).push(b@[i as int]));
            lemma_le_value_push(out@.subrange(0, i as int), out@[i as int]);
            lemma_le_value_push(b@.subrange(0, i as int), b@[i as int]);
            let pw = pow(256, i as nat);
            assert(pow(256, (i + 1) as nat) == 256 * pw);
            assert(pw * (t % 256) + 256 * pw * (t / 256) == pw * t) by (nonlinear_arith)
                requires
                    t == 256 * (t / 256) + t % 256,
            ;
            assert(pw * t == 10 * pw * b@[i as int] + pw * old_carry) by (nonlinear_arith)
                requires
                    t == b@[i as int] * 10 + old_carry,
            ;
            assert(out@[i as int] == t % 256);
            let lo = le_value(out@.subrange(0, i as int));
            let lb = le_value(b@.subrange(0, i as int));
            assert(lo + pw * (t % 256) + (256 * pw) * (t / 256) == 10 * (lb + pw * b@[i as int]) + d)
                by (nonlinear_arith)
                requires
                    lo + pw * old_carry == 10 * lb + d,
                    pw * (t % 256) + 256 * pw * (t / 256) == pw * t,
                    pw * t == 10 * pw * b@[i as int] + pw * old_carry,
            ;
        }
        i = i + 1;
    }
    assert(out@.subrange(0, 32) =~= out@);
    assert(b@.subrange(0, 32) =~= b@);
    (out, carry)
}

/// The element that decimal text names: one or more digits whose value lies
/// below the field modulus.
pub fn decimal_to_field(text: &str) -> (r: Result<FieldElement, EncodingError>)
    ensures
        match r {
            Ok(e) => is_field_decimal(text@) && e@ == decimal_value(text@),
            Err(e) => !is_field_decimal(text@) && e == EncodingError::InvalidDecimal,
        },
{
    let n = text.unicode_len();
    if n == 0 {
        return Err(EncodingError::InvalidDecimal);
    }
    let ghost s = text@;
    let mut acc: [u8; 32] = [0u8; 32];
    proof {
        assert(le_value(acc@) == 0) by {
            lemma_le_value_zero(acc@);
        }
        assert(s.subrange(0, 0) =~= Seq::<char>::empty());
    }
    let mut i: usize = 0;
    while i < n
        invariant
            i <= n,
            n == s.len(),
            s == text@,
            forall|j: int| 0 <= j < i ==> is_digit(#[trigger] s[j]),
            le_value(acc@) == decimal_value(s.subrange(0, i as int)),
        decreases n - i,
    {
        let c = text.get_char(i);
        let ghost p = s.subrange(0, i + 1);
        assert(p.drop_last() =~= s.subrange(0, i as int));
        if c < '0' || c > '9' {
            assert(!is_digit(s[i as int]));
            return Err(EncodingError::InvalidDecimal);
        }
        let d: u8 = (c as u32 - '0' as u32) as u8;
        assert(d == digit_value(c));
        assert(decimal_value(p) == decimal_value(s.subrange(0, i as int)) * 10 + d);
        let (next, carry) = times_ten_plus(&acc, d);
        if carry != 0 {
            proof {
                lemma_pow256_32_above_modulus();
                assert(decimal_value(p) >= pow(256, 32)) by (nonlinear_arith)
                    requires
                        le_value(next@) + pow(256, 32) * carry == decimal_value(p),
                        carry >= 1,
                        le_value(next@) >= 0,
                        pow(256, 32) > 0,
                ;
                if forall|j: int| 0 <= j < s.len() ==> is_digit(#[trigger] s[j]) {
                    lemma_decimal_value_grows(s, i + 1);
                    assert(s.subrange(0, i + 1) == p);
                }
            }
            return Err(EncodingError::InvalidDecimal);
        }
        assert(le_value(next@) == 10 * le_value(acc@) + d) by {
            assert(pow(256, 32) * carry == 0) by (nonlinear_arith)
                requires
                    carry == 0,
            ;
        }
        assert(le_value(next@) == decimal_value(p));
        acc = next;
        i = i + 1;
        assert(s.subrange(0, i as int) == p);
    }
    assert(s.subrange(0, n as int) =~= s);
    match FieldElement::from_repr(acc) {
        Some(e) => Ok(e),
        None => Err(EncodingError::InvalidDecimal),
    }
}


/// Divides a 32-byte little-endian number by ten.
fn div_ten(b: &[u8; 32]) -> (r: ([u8; 32], u8))
    ensures
        le_value(b@) == 10 * le_value(r.0@) + r.1,
        r.1 < 10,
{
    let mut q: [u8; 32] = [0u8; 32];
    let mut rem: u32 = 0;
    let mut i: usize = 32;
    proof {
        assert(b@.subrange(32, 32) =~= Seq::<u8>::empty());
        assert(q@.subrange(32, 32) =~= Seq::<u8>::empty());
    }
    while i > 0
        invariant
            i <= 32,
            q@.len() == 32,
            rem < 10,
            le_value(b@.subrange(i as int, 32)) == 10 * le_value(q@.subrange(i as int, 32)) + rem,
        decreases i,
    {
        i = i - 1;
        let cur: u32 = rem * 256 + b[i] as u32;
        let ghost old_q = q@;
        let ghost old_rem = rem;
        q[i] = (cur / 10) as u8;
        rem = cur % 10;
        proof {
            assert(q@.subrange(i + 1, 32) =~= old_q.subrange(i + 1, 32));
            assert(b@.subrange(i as int, 32).drop_first() =~= b@.subrange(i + 1, 32));
            assert(q@.subrange(i as int, 32).drop_first() =~= q@.subrange(i + 1, 32));
            let lb = le_value(b@.subrange(i + 1, 32));
            let lq = le_value(q@.subrange(i + 1, 32));
            assert(le_value(b@.subrange(i as int, 32)) == b@[i as int] + 256 * lb);
            assert(le_value(q@.subrange(i as int, 32)) == q@[i as int] + 256 * lq);
            assert(q@[i as int] == cur / 10);
            assert(b@[i as int] + 256 * lb == 10 * (cur / 10 + 256 * lq) + cur % 10) by (nonlinear_arith)
                requires
                    lb == 10 * lq + old_rem,
                    cur == old_rem * 256 + b@[i as int],
                    cur == 10 * (cur / 10) + cur % 10,
            ;
        }
    }
    assert(b@.subrange(0, 32) =~= b@);
    assert(q@.subrange(0, 32) =~= q@);
    (q, rem as u8)
}

/// The value of digits given least significant first.
pub open spec fn lsb_digits_value(d: Seq<u8>) -> int
    decreases d.len(),
{
    if d.len() == 0 {
        0
    } else {
        d[0] + 10 * lsb_digits_value(d.drop_first())
    }
}

/// The decimal characters of digits given least significant first, most
/// significant first.
pub open spec fn digit_chars(d: Seq<u8>) -> Seq<char>
    decreases d.len(),
{
    if d.len() == 0 {
        Seq::empty()
    } else {
        digit_chars(d.drop_first()).push(((d[0] + 48) as u8) as char)
    }
}

proof fn lemma_lsb_push(d: Seq<u8>, x: u8)
    ensures
        lsb_digits_value(d.push(x)) == lsb_digits_value(d) + pow(10, d.len()) * x,
    decreases d.len(),
{
    reveal(pow);
    if d.len() == 0 {
        assert(d.push(x).drop_first() =~= Seq::<u8>::empty());
        assert(lsb_digits_value(Seq::<u8>::empty()) == 0);
        assert(lsb_digits_value(d.push(x)) == x + 10 * lsb_digits_value(d.push(x).drop_first()));
    } else {
        assert(d.push(x).drop_first() =~= d.drop_first().push(x));
        assert(d.push(x)[0] == d[0]);
        lemma_lsb_push(d.drop_first(), x);
        let pp = pow(10, (d.len() - 1) as nat);
        let r = lsb_digits_value(d.drop_first());
        assert(pow(10, d.len()) == 10 * pp);
        assert(lsb_digits_value(d.push(x)) == d[0] + 10 * lsb_digits_value(d.drop_first().push(x)));
        assert(d[0] + 10 * (r + pp * x) == (d[0] + 10 * r) + (10 * pp) * x) by (nonlinear_arith);
        assert(lsb_digits_value(d) == d[0] + 10 * r);
    }
}

proof fn lemma_digit_chars(d: Seq<u8>)
    requires
        forall|i: int| 0 <= i < d.len() ==> #[trigger] d[i] < 10,
    ensures
        digit_chars(d).len() == d.len(),
        forall|i: int| 0 <= i < d.len() ==> is_digit(#[trigger] digit_chars(d)[i]),
        decimal_value(digit_chars(d)) == lsb_digits_value(d),
        d.len() > 0 ==> digit_chars(d)[0] == ((d.last() + 48) as u8) as char,
    decreases d.len(),
{
    if d.len() > 0 {
        let rest = d.drop_first();
        lemma_digit_chars(rest);
        let c = digit_chars(d);
        assert(c.drop_last() =~= digit_chars(rest));
        if rest.len() > 0 {
            assert(rest.last() == d.last());
        }
    }
}

/// The decimal text of an element: its value, with no leading zero.
pub fn field_to_decimal(e: &FieldElement) -> (r: Vec<char>)
    ensures
        r@.len() > 0,
        forall|i: int| 0 <= i < r@.len() ==> is_digit(#[trigger] r@[i]),
        decimal_value(r@) == e@,
        r@.len() > 1 ==> r@[0] != '0',
{
    let mut cur = *e;
    let mut rev: Vec<u8> = Vec::new();
    let mut done = false;
    proof {
        reveal(pow);
    }
    while !done
        invariant
            e@ == cur@ * pow(10, rev@.len()) + lsb_digits_value(rev@),
            forall|i: int| 0 <= i < rev@.len() ==> #[trigger] rev@[i] < 10,
            done ==> cur@ == 0 && rev@.len() > 0,
            !done ==> rev@.len() == 0 || cur@ != 0,
            rev@.len() > 1 && cur@ == 0 ==> rev@.last() != 0,
        decreases cur@ + (if done { 0int } else { 1int }),
    {
        let repr = cur.to_repr();
        let (q, d) = div_ten(&repr);
        proof {
            FieldElement::lemma_in_range(cur);
            assert(le_value(q@) <= le_value(repr@));
        }
        let next = FieldElement::from_repr(q).unwrap();
        proof {
            lemma_lsb_push(rev@, d);
            reveal(pow);
            let n = rev@.len();
            assert(pow(10, (n + 1) as nat) == 10 * pow(10, n));
            assert(cur@ * pow(10, n) == next@ * pow(10, (n + 1) as nat) + pow(10, n) * d) by (nonlinear_arith)
                requires
                    cur@ == 10 * next@ + d,
                    pow(10, (n + 1) as nat) == 10 * pow(10, n),
            ;
        }
        rev.push(d);
        cur = next;
        if cur.is_zero() {
            done = true;
        }
    }
    let mut out: Vec<char> = Vec::new();
    let mut i: usize = rev.len();
    proof {
        assert(rev@.subrange(rev@.len() as int, rev@.len() as int) =~= Seq::<u8>::empty());
    }
    while i > 0
        invariant
            i <= rev@.len(),
            out@ == digit_chars(rev@.subrange(i as int, rev@.len() as int)),
            forall|j: int| 0 <= j < rev@.len() ==> #[trigger] rev@[j] < 10,
        decreases i,
    {
        i = i - 1;
        let c = ((rev[i] + 48) as u8) as char;
        proof {
            assert(rev@.subrange(i as int, rev@.len() as int).drop_first() =~= rev@.subrange(i + 1, rev@.len() as int));
        }
        out.push(c);
    }
    proof {
        assert(rev@.subrange(0, rev@.len() as int) =~= rev@);
        lemma_digit_chars(rev@);
    }
    out
}

proof fn lemma_le_value_zero(s: Seq<u8>)
    requires
        forall|i: int| 0 <= i < s.len() ==> s[i] == 0u8,
    ensures
        le_value(s) == 0,
    decreases s.len(),
{
    if s.len() > 0 {
        lemma_le_value_zero(s.drop_first());
    }
}

} // verus!
