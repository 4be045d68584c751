//! Reusable sub-circuits: a bit-decomposition range check, an ordered
//! comparator built on it, a boolean AND, and an algebraic commitment.
//!
//! The range check of a value `v` over `n` bits lays out, on consecutive rows
//! of two columns, the bits of `v` from the most significant down and the
//! running prefixes `acc[0] = 0`, `acc[r + 1] = 2 * acc[r] + bit[r]`, so that
//! `acc[n]` equals `v` exactly when `v < 2^n`.

use crate::constraint::{cell_value, eval, lemma_difference_zero, lemma_small, Expr, Gate, Grid};
use crate::field::{modulus, FieldElement};
use vstd::arithmetic::power2::pow2;
use vstd::prelude::*;

verus! {

/// Bit `r` of `v` counted from the most significant of `n` bits.
pub open spec fn bit_at(v: nat, n: nat, r: nat) -> nat {
    (v / pow2((n - 1 - r) as nat)) % 2
}

/// The number formed by the `r` most significant of the `n` bits of `v`.
pub open spec fn prefix_at(v: nat, n: nat, r: nat) -> nat {
    v / pow2((n - r) as nat)
}

/// `bit * (1 - bit)`: zero exactly for a boolean cell.
pub open spec fn bool_poly(col: usize) -> Expr {
    Expr::Product(
        Box::new(Expr::Advice(col, 0)),
        Box::new(Expr::Difference(Box::new(Expr::Constant(1)), Box::new(Expr::Advice(col, 0)))),
    )
}

/// `acc[next] - (2 * acc[cur] + bit[cur])`.
pub open spec fn horner_poly(bit_col: usize, acc_col: usize) -> Expr {
    Expr::Difference(
        Box::new(Expr::Advice(acc_col, 1)),
        Box::new(
            Expr::Sum(
                Box::new(Expr::Product(Box::new(Expr::Constant(2)), Box::new(Expr::Advice(acc_col, 0)))),
                Box::new(Expr::Advice(bit_col, 0)),
            ),
        ),
    )
}

/// `acc[cur]`: the running prefix starts at zero.
pub open spec fn start_poly(acc_col: usize) -> Expr {
    Expr::Advice(acc_col, 0)
}

pub fn make_bool_poly(col: usize) -> (r: Expr)
    ensures
        r == bool_poly(col),
{
    Expr::Product(
        Box::new(Expr::Advice(col, 0)),
        Box::new(Expr::Difference(Box::new(Expr::Constant(1)), Box::new(Expr::Advice(col, 0)))),
    )
}

pub fn make_horner_poly(bit_col: usize, acc_col: usize) -> (r: Expr)
    ensures
        r == horner_poly(bit_col, acc_col),
{
    Expr::Difference(
        Box::new(Expr::Advice(acc_col, 1)),
        Box::new(
            Expr::Sum(
                Box::new(Expr::Product(Box::new(Expr::Constant(2)), Box::new(Expr::Advice(acc_col, 0)))),
                Box::new(Expr::Advice(bit_col, 0)),
            ),
        ),
    )
}

/// The two gates of a range check: on `bit_selector` rows the bit is boolean
/// and the prefix grows by it; on the `start_selector` row the prefix is zero.
pub fn range_check_gates(bit_selector: usize, start_selector: usize, bit_col: usize, acc_col: usize) -> (r: (
    Gate,
    Gate,
))
    ensures
        r.0.selector == bit_selector,
        r.0.polys@ == seq![bool_poly(bit_col), horner_poly(bit_col, acc_col)],
        r.1.selector == start_selector,
        r.1.polys@ == seq![start_poly(acc_col)],
{
    let mut p0: Vec<Expr> = Vec::new();
    p0.push(make_bool_poly(bit_col));
    p0.push(make_horner_poly(bit_col, acc_col));
    let mut p1: Vec<Expr> = Vec::new();
    p1.push(Expr::Advice(acc_col, 0));
    assert(p0@ =~= seq![bool_poly(bit_col), horner_poly(bit_col, acc_col)]);
    assert(p1@ =~= seq![start_poly(acc_col)]);
    (Gate { selector: bit_selector, polys: p0 }, Gate { selector: start_selector, polys: p1 })
}

proof fn lemma_prefix_step(v: nat, n: nat, r: nat)
    requires
        r < n,
    ensures
        prefix_at(v, n, r + 1) == 2 * prefix_at(v, n, r) + bit_at(v, n, r),
        bit_at(v, n, r) < 2,
{
    let k = (n - 1 - r) as nat;
    let x = v / pow2(k);
    vstd::arithmetic::power2::lemma_pow2_pos(k);
    vstd::arithmetic::power2::lemma_pow2_adds(k, 1);
    vstd::arithmetic::power2::lemma2_to64();
    assert((n - r) as nat == k + 1);
    vstd::arithmetic::div_mod::lemma_div_denominator(v as int, pow2(k) as int, 2);
    assert(prefix_at(v, n, r) == x / 2);
    vstd::arithmetic::div_mod::lemma_fundamental_div_mod(x as int, 2);
    assert(prefix_at(v, n, r + 1) == x) by {
        assert((n - (r + 1)) as nat == k);
    }
}

/// The full prefix is `v` itself.
proof fn lemma_prefix_end(v: nat, n: nat)
    ensures
        prefix_at(v, n, n) == v,
{
    vstd::arithmetic::power2::lemma2_to64();
    assert((n - n) as nat == 0nat);
    vstd::arithmetic::div_mod::lemma_div_basics_2(v as int);
}

/// The empty prefix is zero exactly when `v` fits in `n` bits.
pub proof fn lemma_prefix_start(v: nat, n: nat)
    ensures
        (prefix_at(v, n, 0) == 0) <==> v < pow2(n),
{
    vstd::arithmetic::power2::lemma_pow2_pos(n);
    if v < pow2(n) {
        vstd::arithmetic::div_mod::lemma_basic_div(v as int, pow2(n) as int);
    } else {
        vstd::arithmetic::div_mod::lemma_div_non_zero(v as int, pow2(n) as int);
    }
}

/// Cells `base .. base + n` of `bit_col` hold the bits of `v`, and cells
/// `base .. base + n + 1` of `acc_col` hold its prefixes.
pub open spec fn range_block(g: Grid, bit_col: int, acc_col: int, base: int, n: nat, v: nat) -> bool {
    &&& forall|r: int| 0 <= r < n ==> #[trigger] cell_value(g, bit_col, base + r) == bit_at(v, n, r as nat)
    &&& forall|r: int| 0 <= r <= n ==> #[trigger] cell_value(g, acc_col, base + r) == prefix_at(v, n, r as nat)
}

/// Within a laid-out range block of a value that fits, every row's gates vanish
/// and the final prefix equals the value.
pub proof fn lemma_range_block_gates(g: Grid, bit_col: usize, acc_col: usize, base: int, n: nat, v: nat)
    requires
        range_block(g, bit_col as int, acc_col as int, base, n, v),
        v < pow2(n),
        pow2(n) < modulus(),
    ensures
        forall|r: int| 0 <= r < n ==> #[trigger] eval(bool_poly(bit_col), g, base + r) == 0,
        forall|r: int| 0 <= r < n ==> #[trigger] eval(horner_poly(bit_col, acc_col), g, base + r) == 0,
        eval(start_poly(acc_col), g, base) == 0,
        cell_value(g, acc_col as int, base + n) == v,
{
    lemma_prefix_end(v, n);
    lemma_prefix_start(v, n);
    assert(cell_value(g, acc_col as int, base + 0) == prefix_at(v, n, 0));
    assert forall|r: int| 0 <= r < n implies #[trigger] eval(bool_poly(bit_col), g, base + r) == 0 by {
        lemma_prefix_step(v, n, r as nat);
        let b = cell_value(g, bit_col as int, base + r);
        assert(b == bit_at(v, n, r as nat));
        lemma_small(1);
        lemma_small(b);
        lemma_small(0);
        let one_minus = ((1 + modulus() - b) % (modulus() as int)) as nat;
        assert(eval(Expr::Constant(1), g, base + r) == 1);
        assert(eval(Expr::Advice(bit_col, 0), g, base + r) == b);
        assert(eval(
            Expr::Difference(Box::new(Expr::Constant(1)), Box::new(Expr::Advice(bit_col, 0))),
            g,
            base + r,
        ) == one_minus);
        if b == 0 {
            assert(eval(bool_poly(bit_col), g, base + r) == (0 * one_minus) % modulus());
        } else {
            lemma_difference_zero(1, 1);
            assert(one_minus == 0);
            assert(eval(bool_poly(bit_col), g, base + r) == (b * 0) % modulus());
        }
    }
    assert forall|r: int| 0 <= r < n implies #[trigger] eval(horner_poly(bit_col, acc_col), g, base + r) == 0 by {
        lemma_prefix_step(v, n, r as nat);
        let b = cell_value(g, bit_col as int, base + r);
        let a0 = cell_value(g, acc_col as int, base + r);
        let a1 = cell_value(g, acc_col as int, base + (r + 1));
        assert(a0 == prefix_at(v, n, r as nat));
        assert(a1 == prefix_at(v, n, (r + 1) as nat));
        assert(base + r + 1 == base + (r + 1));
        assert(b == bit_at(v, n, r as nat));
        vstd::arithmetic::power2::lemma_pow2_pos((n - (r + 1)) as nat);
        vstd::arithmetic::div_mod::lemma_div_basics_5(v as int, pow2((n - (r + 1)) as nat) as int);
        assert(a1 <= v);
        lemma_small(2);
        lemma_small(a0);
        lemma_small(2 * a0);
        lemma_small(2 * a0 + b);
        let inner = Expr::Product(Box::new(Expr::Constant(2)), Box::new(Expr::Advice(acc_col, 0)));
        assert(eval(Expr::Constant(2), g, base + r) == 2);
        assert(eval(Expr::Advice(acc_col, 0), g, base + r) == a0);
        assert(eval(inner, g, base + r) == (2 * a0) % modulus());
        let sum = Expr::Sum(Box::new(inner), Box::new(Expr::Advice(bit_col, 0)));
        assert(eval(Expr::Advice(bit_col, 0), g, base + r) == b);
        assert(eval(sum, g, base + r) == (2 * a0 + b) % modulus());
        assert(eval(Expr::Advice(acc_col, 1), g, base + r) == a1);
        lemma_difference_zero(a1, 2 * a0 + b);
    }
}


/// The field has no zero divisors: a product vanishes only when a factor does.
/// This is what the modulus being prime gives; soundness of boolean gates
/// rests on it.
pub open spec fn no_zero_divisors() -> bool {
    forall|a: nat, b: nat|
        a < modulus() && b < modulus() && #[trigger] ((a * b) % modulus()) == 0 ==> a == 0 || b == 0
}

/// A vanishing boolean gate makes its cell 0 or 1.
pub proof fn lemma_bool_gate_sound(g: Grid, col: usize, row: int)
    requires
        no_zero_divisors(),
        eval(bool_poly(col), g, row) == 0,
    ensures
        cell_value(g, col as int, row) <= 1,
{
    crate::field::lemma_modulus_large();
    let b = cell_value(g, col as int, row);
    crate::constraint::lemma_cell_in_range(g, col as int, row);
    lemma_small(1);
    let om = ((1 + modulus() - b) % (modulus() as int)) as nat;
    assert(eval(Expr::Constant(1), g, row) == 1);
    assert(eval(Expr::Advice(col, 0), g, row) == b);
    assert(eval(Expr::Difference(Box::new(Expr::Constant(1)), Box::new(Expr::Advice(col, 0))), g, row) == om);
    vstd::arithmetic::div_mod::lemma_mod_bound((1 + modulus() - b) as int, modulus() as int);
    assert((b * om) % modulus() == 0);
    if b != 0 {
        assert(om == 0);
        lemma_difference_zero(1, b);
    }
}

/// A vanishing prefix gate over a boolean bit and a small prefix makes the
/// next prefix exactly twice the current one plus the bit.
pub proof fn lemma_horner_gate_sound(g: Grid, bit_col: usize, acc_col: usize, row: int)
    requires
        eval(horner_poly(bit_col, acc_col), g, row) == 0,
        cell_value(g, bit_col as int, row) <= 1,
        cell_value(g, acc_col as int, row) < pow2(65),
    ensures
        cell_value(g, acc_col as int, row + 1) == 2 * cell_value(g, acc_col as int, row) + cell_value(
            g,
            bit_col as int,
            row,
        ),
{
    crate::field::lemma_modulus_large();
    vstd::arithmetic::power2::lemma_pow2_adds(65, 1);
    vstd::arithmetic::power2::lemma_pow2_strictly_increases(66, 254);
    vstd::arithmetic::power2::lemma2_to64();
    let b = cell_value(g, bit_col as int, row);
    let a0 = cell_value(g, acc_col as int, row);
    let a1 = cell_value(g, acc_col as int, row + 1);
    crate::constraint::lemma_cell_in_range(g, acc_col as int, row + 1);
    lemma_small(2);
    lemma_small(2 * a0);
    lemma_small(2 * a0 + b);
    let inner = Expr::Product(Box::new(Expr::Constant(2)), Box::new(Expr::Advice(acc_col, 0)));
    assert(eval(Expr::Constant(2), g, row) == 2);
    assert(eval(Expr::Advice(acc_col, 0), g, row) == a0);
    assert(eval(inner, g, row) == 2 * a0);
    let sum = Expr::Sum(Box::new(inner), Box::new(Expr::Advice(bit_col, 0)));
    assert(eval(Expr::Advice(bit_col, 0), g, row) == b);
    assert(eval(sum, g, row) == 2 * a0 + b);
    assert(eval(Expr::Advice(acc_col, 1), g, row) == a1);
    lemma_difference_zero(a1, 2 * a0 + b);
}

/// The gates of a range block, wherever they hold, bound every prefix and
/// make the first bit the top bit of the final prefix.
pub open spec fn block_gates_hold(g: Grid, bit_col: usize, acc_col: usize, base: int, n: nat) -> bool {
    &&& forall|r: int| 0 <= r < n ==> #[trigger] eval(bool_poly(bit_col), g, base + r) == 0
    &&& forall|r: int| 0 <= r < n ==> #[trigger] eval(horner_poly(bit_col, acc_col), g, base + r) == 0
    &&& eval(start_poly(acc_col), g, base) == 0
}

/// Whatever was assigned: in a range block whose gates hold, the `r`-th
/// prefix is below `2^r`, and from the first row on it is the first bit
/// times `2^(r - 1)` plus something below `2^(r - 1)`.
pub proof fn lemma_block_sound(g: Grid, bit_col: usize, acc_col: usize, base: int, n: nat, r: nat)
    requires
        no_zero_divisors(),
        block_gates_hold(g, bit_col, acc_col, base, n),
        n <= 65,
        r <= n,
    ensures
        cell_value(g, acc_col as int, base + r) < pow2(r),
        r >= 1 ==> cell_value(g, bit_col as int, base) <= 1,
        r >= 1 ==> cell_value(g, acc_col as int, base + r) >= cell_value(g, bit_col as int, base) * pow2(
            (r - 1) as nat,
        ),
        r >= 1 ==> cell_value(g, acc_col as int, base + r) - cell_value(g, bit_col as int, base) * pow2(
            (r - 1) as nat,
        ) < pow2((r - 1) as nat),
    decreases r,
{
    vstd::arithmetic::power2::lemma2_to64();
    if r == 0 {
        assert(eval(start_poly(acc_col), g, base) == cell_value(g, acc_col as int, base));
        assert(base + 0 == base);
    } else {
        let q = (r - 1) as nat;
        lemma_block_sound(g, bit_col, acc_col, base, n, q);
        assert(eval(bool_poly(bit_col), g, base + q) == 0);
        assert(eval(horner_poly(bit_col, acc_col), g, base + q) == 0);
        lemma_bool_gate_sound(g, bit_col, base + q);
        if q < 65 {
            vstd::arithmetic::power2::lemma_pow2_strictly_increases(q, 65);
        }
        lemma_horner_gate_sound(g, bit_col, acc_col, base + q);
        assert(base + q + 1 == base + r);
        let a0 = cell_value(g, acc_col as int, base + q);
        let a1 = cell_value(g, acc_col as int, base + r);
        let b = cell_value(g, bit_col as int, base + q);
        vstd::arithmetic::power2::lemma_pow2_adds(q, 1);
        assert(pow2(r) == 2 * pow2(q));
        if q == 0 {
            assert(a0 == 0);
            assert(a1 == b);
        } else {
            vstd::arithmetic::power2::lemma_pow2_adds((q - 1) as nat, 1);
            let b0 = cell_value(g, bit_col as int, base);
            let pq = pow2((q - 1) as nat);
            assert(pow2(q) == 2 * pq);
            assert(a1 - b0 * pow2(q) == 2 * (a0 - b0 * pq) + b) by (nonlinear_arith)
                requires
                    a1 == 2 * a0 + b,
                    pow2(q) == 2 * pq,
            ;
        }
    }
}

/// Fills a range block for `v`, leaving every other cell unchanged.
pub fn assign_range_block(g: &mut Grid, bit_col: usize, acc_col: usize, base: usize, n: usize, v: u128)
    requires
        n <= 127,
        base + n < usize::MAX,
        bit_col != acc_col,
        bit_col < old(g).columns@.len(),
        acc_col < old(g).columns@.len(),
        base + n < old(g).columns@[bit_col as int]@.len(),
        base + n < old(g).columns@[acc_col as int]@.len(),
    ensures
        range_block(*final(g), bit_col as int, acc_col as int, base as int, n as nat, v as nat),
        final(g).columns@.len() == old(g).columns@.len(),
        forall|c: int|
            0 <= c < final(g).columns@.len() ==> (#[trigger] final(g).columns@[c])@.len()
                == old(g).columns@[c]@.len(),
        forall|c: int, w: int|
            !((c == bit_col || c == acc_col) && base <= w <= base + n) ==> cell_value(*final(g), c, w)
                == cell_value(*old(g), c, w),
{
    let first: u128 = v >> (n as u128);
    proof {
        vstd::bits::lemma_u128_shr_is_div(v, n as u128);
        assert((n - 0) as nat == n as nat);
    }
    g.set(acc_col, base, FieldElement::from_u128(first));
    let ghost g0 = *old(g);
    let mut r: usize = 0;
    while r < n
        invariant
            r <= n <= 127,
            base + n < usize::MAX,
            bit_col != acc_col,
            bit_col < g.columns@.len(),
            acc_col < g.columns@.len(),
            base + n < g.columns@[bit_col as int]@.len(),
            base + n < g.columns@[acc_col as int]@.len(),
            g.columns@.len() == g0.columns@.len(),
            forall|c: int| 0 <= c < g.columns@.len() ==> (#[trigger] g.columns@[c])@.len() == g0.columns@[c]@.len(),
            forall|i: int| 0 <= i < r ==> #[trigger] cell_value(*g, bit_col as int, base + i) == bit_at(v as nat, n as nat, i as nat),
            forall|i: int| 0 <= i <= r ==> #[trigger] cell_value(*g, acc_col as int, base + i) == prefix_at(v as nat, n as nat, i as nat),
            forall|c: int, w: int|
                !((c == bit_col && base <= w < base + r) || (c == acc_col && base <= w <= base + r)) ==> cell_value(*g, c, w)
                    == cell_value(g0, c, w),
        decreases n - r,
    {
        let k: u128 = (n - 1 - r) as u128;
        let x: u128 = v >> k;
        let bit: u128 = x & 1;
        proof {
            vstd::bits::lemma_u128_shr_is_div(v, k);
            assert(x & 1 == x % 2) by (bit_vector);
            assert(((n - 1 - r) as nat) == k as nat);
            assert((n - (r + 1)) as nat == k as nat);
        }
        g.set(bit_col, base + r, FieldElement::from_u128(bit));
        g.set(acc_col, base + r + 1, FieldElement::from_u128(x));
        r = r + 1;
    }
}

} // verus!
