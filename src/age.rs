//! Age within bounds: a private age and salt, public commitment, bounds and
//! `valid` flag.
//!
//! The circuit binds `commitment = age^2 + salt^2`, range-checks the age to 8 bits
//! and both bounds to 64 bits, compares the age with each bound through a 9-bit
//! decomposition of `age + 2^64 - min` and `max + 2^64 - age` (whose top bit
//! is the comparison), and ANDs the two comparisons into `valid`.

use crate::constraint::{
    bindings_hold, cell_value, copies_hold, eval, gates_hold, layout_fits, lemma_cell_in_range,
    lemma_difference_zero, lemma_small, satisfied, CellRef, CircuitShape, Expr, Gate, Grid, Layout,
    SynthesisError,
};
use crate::field::{lemma_modulus_large, modulus, FieldElement};
use crate::gadgets::{
    assign_range_block, bit_at, block_gates_hold, bool_poly, horner_poly, lemma_block_sound,
    lemma_range_block_gates, make_bool_poly, no_zero_divisors,
    range_block, range_check_gates, start_poly,
};
use vstd::prelude::*;

verus! {

/// Proves that a committed age lies within public bounds.
#[derive(Clone, Copy, Debug)]
pub struct AgeVerificationCircuitV2 {
    pub age: Option<u64>,
    pub salt: Option<FieldElement>,
    pub age_commitment: Option<FieldElement>,
    pub min_age: Option<u64>,
    pub max_age: Option<u64>,
}

/// The commitment to two private values: `a^2 + b^2` in the field.
pub open spec fn commitment_of(a: nat, b: nat) -> nat {
    ((a * a) % modulus() + (b * b) % modulus()) % modulus()
}

/// Whether an age lies within its bounds, both ends included.
pub open spec fn age_in_bounds(age: nat, min: nat, max: nat) -> bool {
    min <= age <= max
}

/// The public values, in binding order: commitment, lower bound, upper bound, `valid`.
pub open spec fn age_public_values(age: nat, salt: nat, min: nat, max: nat) -> Seq<nat> {
    seq![commitment_of(age, salt), min, max, if age_in_bounds(age, min, max) { 1nat } else { 0nat }]
}

/// The public cells of an assignment hold the public values for this witness.
pub open spec fn is_age_grid(g: Grid, age: nat, salt: nat, min: nat, max: nat) -> bool {
    &&& age < 256 && min < 0x1_0000_0000_0000_0000nat && max < 0x1_0000_0000_0000_0000nat
    &&& g.columns@.len() == 12
    &&& forall|c: int| 0 <= c < 12 ==> (#[trigger] g.columns@[c])@.len() == AGE_ROWS
    &&& cell_value(g, COMMITMENT as int, 0) == age_public_values(age, salt, min, max)[0]
    &&& cell_value(g, MIN_AGE as int, 0) == min
    &&& cell_value(g, MAX_AGE as int, 0) == max
    &&& cell_value(g, VALID as int, 0) == age_public_values(age, salt, min, max)[3]
}

/// The age layout: its enabled rows, its copies, and the bindings of
/// commitment, bounds and `valid`, in that order.
pub open spec fn is_age_layout(l: Layout) -> bool {
    &&& l.rows == AGE_ROWS
    &&& l.enabled@ == age_enabled()
    &&& l.copies@ == age_copies()
    &&& l.bindings@ == seq![
        CellRef { column: COMMITMENT, row: 0 },
        CellRef { column: MIN_AGE, row: 0 },
        CellRef { column: MAX_AGE, row: 0 },
        CellRef { column: VALID, row: 0 },
    ]
}

/// `commitment - (age * age + salt * salt)`.
pub open spec fn commit_poly() -> Expr {
    Expr::Difference(
        Box::new(Expr::Advice(2, 0)),
        Box::new(
            Expr::Sum(
                Box::new(Expr::Product(Box::new(Expr::Advice(0, 0)), Box::new(Expr::Advice(0, 0)))),
                Box::new(Expr::Product(Box::new(Expr::Advice(1, 0)), Box::new(Expr::Advice(1, 0)))),
            ),
        ),
    )
}

/// `d - ((a + 2^64) - b)`: `d` is the offset difference of `a` and `b`.
pub open spec fn offset_diff_poly(d: usize, a: usize, b: usize) -> Expr {
    Expr::Difference(
        Box::new(Expr::Advice(d, 0)),
        Box::new(
            Expr::Difference(
                Box::new(Expr::Sum(Box::new(Expr::Advice(a, 0)), Box::new(Expr::Constant(0x1_0000_0000_0000_0000)))),
                Box::new(Expr::Advice(b, 0)),
            ),
        ),
    )
}

/// `valid - ge * le`.
pub open spec fn and_poly() -> Expr {
    Expr::Difference(
        Box::new(Expr::Advice(7, 0)),
        Box::new(Expr::Product(Box::new(Expr::Advice(5, 0)), Box::new(Expr::Advice(6, 0)))),
    )
}

pub open spec fn is_age_shape(s: CircuitShape) -> bool {
    &&& s.num_advice == 12
    &&& s.num_selectors == 5
    &&& s.num_public == 4
    &&& s.gates@.len() == 5
    &&& forall|j: int| 0 <= j < 5 ==> (#[trigger] s.gates@[j]).selector == j
    &&& s.gates@[0].polys@ == seq![commit_poly()]
    &&& s.gates@[1].polys@ == seq![bool_poly(8), horner_poly(8, 9)]
    &&& s.gates@[2].polys@ == seq![start_poly(9)]
    &&& s.gates@[3].polys@ == seq![offset_diff_poly(10, 0, 3), offset_diff_poly(11, 4, 0)]
    &&& s.gates@[4].polys@ == seq![and_poly(), bool_poly(5), bool_poly(6)]
    &&& s.equality@ == Seq::new(12, |i: int| i as usize)
}

/// The rows of one range-check block: its bit rows, then its first row again
/// for the start gate.
pub open spec fn block_rows(base: nat, n: nat) -> Seq<(usize, usize)> {
    Seq::new(n, |r: int| (1usize, (base + r) as usize)) + seq![(2usize, base as usize)]
}

pub open spec fn age_enabled() -> Seq<(usize, usize)> {
    seq![(0usize, 0usize), (3usize, 0usize), (4usize, 0usize)] + block_rows(0, 8) + block_rows(9, 65)
        + block_rows(75, 65) + block_rows(141, 64) + block_rows(206, 64)
}

pub open spec fn age_copies() -> Seq<(CellRef, CellRef)> {
    seq![
        (CellRef { column: 9, row: 8 }, CellRef { column: 0, row: 0 }),
        (CellRef { column: 9, row: 74 }, CellRef { column: 10, row: 0 }),
        (CellRef { column: 8, row: 9 }, CellRef { column: 5, row: 0 }),
        (CellRef { column: 9, row: 140 }, CellRef { column: 11, row: 0 }),
        (CellRef { column: 8, row: 75 }, CellRef { column: 6, row: 0 }),
        (CellRef { column: 9, row: 205 }, CellRef { column: 3, row: 0 }),
        (CellRef { column: 9, row: 270 }, CellRef { column: 4, row: 0 }),
    ]
}

pub open spec fn ge_flag(age: nat, min: nat) -> nat {
    if age >= min { 1 } else { 0 }
}

pub open spec fn le_flag(age: nat, max: nat) -> nat {
    if age <= max { 1 } else { 0 }
}

/// The full assignment for a witness: the row-0 values and the five range
/// blocks for the age, the two offset differences and the two bounds.
pub open spec fn is_age_assignment(g: Grid, age: nat, salt: nat, min: nat, max: nat) -> bool {
    let dmin = age + 0x1_0000_0000_0000_0000 - min;
    let dmax = max + 0x1_0000_0000_0000_0000 - age;
    &&& is_age_grid(g, age, salt, min, max)
    &&& cell_value(g, 0, 0) == age
    &&& cell_value(g, 1, 0) == salt
    &&& cell_value(g, 5, 0) == ge_flag(age, min)
    &&& cell_value(g, 6, 0) == le_flag(age, max)
    &&& cell_value(g, 10, 0) == dmin
    &&& cell_value(g, 11, 0) == dmax
    &&& range_block(g, 8, 9, 0, 8, age)
    &&& range_block(g, 8, 9, 9, 65, dmin as nat)
    &&& range_block(g, 8, 9, 75, 65, dmax as nat)
    &&& range_block(g, 8, 9, 141, 64, min)
    &&& range_block(g, 8, 9, 206, 64, max)
}

/// Columns of the age circuit.
pub const AGE: usize = 0;
pub const SALT: usize = 1;
pub const COMMITMENT: usize = 2;
pub const MIN_AGE: usize = 3;
pub const MAX_AGE: usize = 4;
pub const AGE_GE_MIN: usize = 5;
pub const AGE_LE_MAX: usize = 6;
pub const VALID: usize = 7;
pub const BITS: usize = 8;
pub const PREFIX: usize = 9;
pub const DIFF_MIN: usize = 10;
pub const DIFF_MAX: usize = 11;

/// First rows of the five range-check blocks.
pub const AGE_BLOCK: usize = 0;
pub const GE_BLOCK: usize = 9;
pub const LE_BLOCK: usize = 75;
pub const MIN_BLOCK: usize = 141;
pub const MAX_BLOCK: usize = 206;
pub const AGE_ROWS: usize = 271;

/// Offset that keeps the difference of the age and a 64-bit bound
/// non-negative; bit 64 of the offset difference is the comparison.
pub const COMPARE_OFFSET: u128 = 0x1_0000_0000_0000_0000;

/// The commitment to `a` and `b`, computed with the field's own arithmetic.
pub fn commit(a: &FieldElement, b: &FieldElement) -> (r: FieldElement)
    ensures
        r@ == commitment_of(a@, b@),
{
    a.mul(a).add(&b.mul(b))
}

fn cell(column: usize, row: usize) -> (r: CellRef)
    ensures
        r == (CellRef { column, row }),
{
    CellRef { column, row }
}

fn adv(column: usize) -> (r: Box<Expr>)
    ensures
        *r == Expr::Advice(column, 0),
{
    Box::new(Expr::Advice(column, 0))
}

fn make_commit_poly() -> (r: Expr)
    ensures
        r == commit_poly(),
{
    Expr::Difference(
        adv(COMMITMENT),
        Box::new(Expr::Sum(Box::new(Expr::Product(adv(AGE), adv(AGE))), Box::new(Expr::Product(adv(SALT), adv(SALT))))),
    )
}

fn make_offset_diff_poly(d: usize, a: usize, b: usize) -> (r: Expr)
    ensures
        r == offset_diff_poly(d, a, b),
{
    Expr::Difference(
        adv(d),
        Box::new(Expr::Difference(Box::new(Expr::Sum(adv(a), Box::new(Expr::Constant(COMPARE_OFFSET)))), adv(b))),
    )
}

fn make_and_poly() -> (r: Expr)
    ensures
        r == and_poly(),
{
    Expr::Difference(adv(VALID), Box::new(Expr::Product(adv(AGE_GE_MIN), adv(AGE_LE_MAX))))
}

fn push_range_block_rows(enabled: &mut Vec<(usize, usize)>, base: usize, n: usize)
    requires
        base + n < usize::MAX,
    ensures
        final(enabled)@ == old(enabled)@ + block_rows(base as nat, n as nat),
{
    let ghost start = old(enabled)@;
    let mut r: usize = 0;
    while r < n
        invariant
            r <= n,
            base + n < usize::MAX,
            enabled@ == start + Seq::new(r as nat, |i: int| (1usize, (base + i) as usize)),
        decreases n - r,
    {
        enabled.push((1usize, base + r));
        r = r + 1;
        assert(enabled@ =~= start + Seq::new(r as nat, |i: int| (1usize, (base + i) as usize)));
    }
    enabled.push((2usize, base));
    assert(enabled@ =~= start + block_rows(base as nat, n as nat));
}

impl AgeVerificationCircuitV2 {
    /// The same circuit with its witness removed, as used for key generation.
    pub fn without_witnesses(&self) -> (r: Self)
        ensures
            r.age is None && r.salt is None && r.age_commitment is None && r.min_age is None
                && r.max_age is None,
    {
        AgeVerificationCircuitV2 { age: None, salt: None, age_commitment: None, min_age: None, max_age: None }
    }

    /// Declares twelve advice columns, all equality-enabled, and the gates for
    /// the commitment, the range checks, the comparisons and the AND.
    pub fn configure() -> (r: CircuitShape)
        ensures
            is_age_shape(r),
    {
        let mut commit_polys: Vec<Expr> = Vec::new();
        commit_polys.push(make_commit_poly());
        let (bit_gate, start_gate) = range_check_gates(1, 2, BITS, PREFIX);
        let mut diff_polys: Vec<Expr> = Vec::new();
        diff_polys.push(make_offset_diff_poly(DIFF_MIN, AGE, MIN_AGE));
        diff_polys.push(make_offset_diff_poly(DIFF_MAX, MAX_AGE, AGE));
        let mut and_polys: Vec<Expr> = Vec::new();
        and_polys.push(make_and_poly());
        and_polys.push(make_bool_poly(AGE_GE_MIN));
        and_polys.push(make_bool_poly(AGE_LE_MAX));
        let mut gates: Vec<Gate> = Vec::new();
        gates.push(Gate { selector: 0, polys: commit_polys });
        gates.push(bit_gate);
        gates.push(start_gate);
        gates.push(Gate { selector: 3, polys: diff_polys });
        gates.push(Gate { selector: 4, polys: and_polys });
        let mut equality: Vec<usize> = Vec::new();
        let mut c: usize = 0;
        while c < 12
            invariant
                c <= 12,
                equality@ == Seq::new(c as nat, |i: int| i as usize),
            decreases 12 - c,
        {
            equality.push(c);
            c = c + 1;
            assert(equality@ =~= Seq::new(c as nat, |i: int| i as usize));
        }
        let r = CircuitShape { num_advice: 12, num_selectors: 5, num_public: 4, gates, equality };
        assert(r.gates@[0].polys@ =~= seq![commit_poly()]);
        assert(r.gates@[3].polys@ =~= seq![offset_diff_poly(10, 0, 3), offset_diff_poly(11, 4, 0)]);
        assert(r.gates@[4].polys@ =~= seq![and_poly(), bool_poly(5), bool_poly(6)]);
        r
    }

    /// Enables the gates and wires the blocks to the values they check; the
    /// witness plays no part in it.
    pub fn layout(&self) -> (r: Layout)
        ensures
            is_age_layout(r),
    {
        let mut enabled: Vec<(usize, usize)> = Vec::new();
        enabled.push((0usize, 0usize));
        enabled.push((3usize, 0usize));
        enabled.push((4usize, 0usize));
        assert(enabled@ =~= seq![(0usize, 0usize), (3usize, 0usize), (4usize, 0usize)]);
        push_range_block_rows(&mut enabled, AGE_BLOCK, 8);
        push_range_block_rows(&mut enabled, GE_BLOCK, 65);
        push_range_block_rows(&mut enabled, LE_BLOCK, 65);
        push_range_block_rows(&mut enabled, MIN_BLOCK, 64);
        push_range_block_rows(&mut enabled, MAX_BLOCK, 64);
        let mut copies: Vec<(CellRef, CellRef)> = Vec::new();
        copies.push((cell(PREFIX, AGE_BLOCK + 8), cell(AGE, 0)));
        copies.push((cell(PREFIX, GE_BLOCK + 65), cell(DIFF_MIN, 0)));
        copies.push((cell(BITS, GE_BLOCK), cell(AGE_GE_MIN, 0)));
        copies.push((cell(PREFIX, LE_BLOCK + 65), cell(DIFF_MAX, 0)));
        copies.push((cell(BITS, LE_BLOCK), cell(AGE_LE_MAX, 0)));
        copies.push((cell(PREFIX, MIN_BLOCK + 64), cell(MIN_AGE, 0)));
        copies.push((cell(PREFIX, MAX_BLOCK + 64), cell(MAX_AGE, 0)));
        assert(copies@ =~= age_copies());
        let mut bindings: Vec<CellRef> = Vec::new();
        bindings.push(cell(COMMITMENT, 0));
        bindings.push(cell(MIN_AGE, 0));
        bindings.push(cell(MAX_AGE, 0));
        bindings.push(cell(VALID, 0));
        assert(bindings@ =~= seq![
            CellRef { column: COMMITMENT, row: 0 },
            CellRef { column: MIN_AGE, row: 0 },
            CellRef { column: MAX_AGE, row: 0 },
            CellRef { column: VALID, row: 0 },
        ]);
        Layout { rows: AGE_ROWS, enabled, copies, bindings }
    }

    /// Assigns the witness. Fails when a value is missing, or when the age or a
    /// bound does not fit in 8 bits.
    pub fn synthesize(&self) -> (r: Result<Grid, SynthesisError>)
        ensures
            match (self.age, self.salt, self.min_age, self.max_age) {
                (Some(age), Some(salt), Some(min), Some(max)) => match r {
                    Ok(g) => is_age_assignment(g, age as nat, salt@, min as nat, max as nat),
                    Err(e) => e == SynthesisError::OutOfRange && age >= 256,
                },
                _ => r == Err::<Grid, SynthesisError>(SynthesisError::MissingWitness),
            },
    {
        let (age, salt, min, max) = match (self.age, self.salt, self.min_age, self.max_age) {
            (Some(age), Some(salt), Some(min), Some(max)) => (age, salt, min, max),
            _ => {
                return Err(SynthesisError::MissingWitness);
            },
        };
        if age >= 256 {
            return Err(SynthesisError::OutOfRange);
        }
        let ge: u64 = if age >= min { 1 } else { 0 };
        let le: u64 = if age <= max { 1 } else { 0 };
        let diff_min: u128 = age as u128 + COMPARE_OFFSET - min as u128;
        let diff_max: u128 = max as u128 + COMPARE_OFFSET - age as u128;
        let age_fe = FieldElement::from_u64(age);
        let mut g = Grid::zeros(12, AGE_ROWS);
        g.set(AGE, 0, age_fe);
        g.set(SALT, 0, salt);
        g.set(COMMITMENT, 0, commit(&age_fe, &salt));
        g.set(MIN_AGE, 0, FieldElement::from_u64(min));
        g.set(MAX_AGE, 0, FieldElement::from_u64(max));
        g.set(AGE_GE_MIN, 0, FieldElement::from_u64(ge));
        g.set(AGE_LE_MAX, 0, FieldElement::from_u64(le));
        g.set(VALID, 0, FieldElement::from_u64(ge * le));
        g.set(DIFF_MIN, 0, FieldElement::from_u128(diff_min));
        g.set(DIFF_MAX, 0, FieldElement::from_u128(diff_max));
        assign_range_block(&mut g, BITS, PREFIX, AGE_BLOCK, 8, age as u128);
        assign_range_block(&mut g, BITS, PREFIX, GE_BLOCK, 65, diff_min);
        assign_range_block(&mut g, BITS, PREFIX, LE_BLOCK, 65, diff_max);
        assign_range_block(&mut g, BITS, PREFIX, MIN_BLOCK, 64, min as u128);
        assign_range_block(&mut g, BITS, PREFIX, MAX_BLOCK, 64, max as u128);
        Ok(g)
    }

    /// The public values for the witness: commitment, bounds and `valid`.
    pub fn public_inputs(&self) -> (r: Vec<FieldElement>)
        requires
            self.age is Some && self.salt is Some && self.min_age is Some && self.max_age is Some,
        ensures
            r@.len() == 4,
            forall|i: int|
                0 <= i < 4 ==> (#[trigger] r@[i])@ == age_public_values(
                    self.age.unwrap() as nat,
                    self.salt.unwrap()@,
                    self.min_age.unwrap() as nat,
                    self.max_age.unwrap() as nat,
                )[i],
    {
        let age = self.age.unwrap();
        let min = self.min_age.unwrap();
        let max = self.max_age.unwrap();
        let valid: u64 = if age >= min && age <= max { 1 } else { 0 };
        let r = vec![
            commit(&FieldElement::from_u64(age), &self.salt.unwrap()),
            FieldElement::from_u64(min),
            FieldElement::from_u64(max),
            FieldElement::from_u64(valid),
        ];
        r
    }
}

/// The comparison is inclusive at both ends: an age equal to either bound is
/// valid, and one step beyond either bound is not.
pub proof fn lemma_bounds_inclusive(salt: nat, min: nat, max: nat)
    requires
        min <= max,
    ensures
        age_public_values(min, salt, min, max)[3] == 1,
        age_public_values(max, salt, min, max)[3] == 1,
        min > 0 ==> age_public_values((min - 1) as nat, salt, min, max)[3] == 0,
        age_public_values(max + 1, salt, min, max)[3] == 0,
{
}

/// An assignment made for one witness satisfies the age circuit only with that
/// witness's public values: any other commitment, or the other `valid` flag,
/// is rejected.
pub proof fn lemma_age_public_values_bound(
    shape: CircuitShape,
    layout: Layout,
    g: Grid,
    age: nat,
    salt: nat,
    min: nat,
    max: nat,
    public: Seq<FieldElement>,
)
    requires
        is_age_layout(layout),
        is_age_grid(g, age, salt, min, max),
        satisfied(shape, layout, g, public),
    ensures
        public.len() == 4,
        forall|i: int| 0 <= i < 4 ==> (#[trigger] public[i])@ == age_public_values(age, salt, min, max)[i],
{
    assert forall|i: int| 0 <= i < 4 implies (#[trigger] public[i])@ == age_public_values(age, salt, min, max)[i] by {
        let c = layout.bindings@[i];
        assert(cell_value(g, c.column as int, c.row as int) == public[i]@);
    }
}


proof fn lemma_block_rows_index(base: nat, n: nat, i: int)
    requires
        0 <= i <= n,
    ensures
        block_rows(base, n).len() == n + 1,
        i < n ==> block_rows(base, n)[i] == (1usize, (base + i) as usize),
        i == n ==> block_rows(base, n)[i] == (2usize, base as usize),
{
}

/// The selector and row of every enabled entry of the age layout.
proof fn lemma_age_enabled(k: int)
    requires
        0 <= k < age_enabled().len(),
    ensures
        age_enabled().len() == 274,
        ({
            let (s, r) = age_enabled()[k];
            ||| s == 0 && r == 0
            ||| s == 3 && r == 0
            ||| s == 4 && r == 0
            ||| s == 1 && (r < 8 || (9 <= r < 74) || (75 <= r < 140) || (141 <= r < 205) || (206 <= r < 270))
            ||| s == 2 && (r == 0 || r == 9 || r == 75 || r == 141 || r == 206)
        }),
{
    let h = seq![(0usize, 0usize), (3usize, 0usize), (4usize, 0usize)];
    let a = block_rows(0, 8);
    let b = block_rows(9, 65);
    let c = block_rows(75, 65);
    let d = block_rows(141, 64);
    let e = block_rows(206, 64);
    let s1 = h + a;
    let s2 = s1 + b;
    let s3 = s2 + c;
    let s4 = s3 + d;
    let s5 = s4 + e;
    assert(s5 == age_enabled());
    assert(a.len() == 9 && b.len() == 66 && c.len() == 66 && d.len() == 65 && e.len() == 65);
    if k < 3 {
        assert(s5[k] == h[k]);
    } else if k < 12 {
        lemma_block_rows_index(0, 8, k - 3);
        assert(s5[k] == a[k - 3]);
    } else if k < 78 {
        lemma_block_rows_index(9, 65, k - 12);
        assert(s5[k] == b[k - 12]);
    } else if k < 144 {
        lemma_block_rows_index(75, 65, k - 78);
        assert(s5[k] == c[k - 78]);
    } else if k < 209 {
        lemma_block_rows_index(141, 64, k - 144);
        assert(s5[k] == d[k - 144]);
    } else {
        lemma_block_rows_index(206, 64, k - 209);
        assert(s5[k] == e[k - 209]);
    }
}

proof fn lemma_add_modulus(x: int)
    requires
        0 <= x < modulus(),
    ensures
        (x + modulus()) % (modulus() as int) == x,
{
    vstd::arithmetic::div_mod::lemma_mod_add_multiples_vanish(x, modulus() as int);
    vstd::arithmetic::div_mod::lemma_small_mod(x as nat, modulus());
}

proof fn lemma_row_zero_gates(g: Grid, age: nat, salt: nat, min: nat, max: nat)
    requires
        is_age_assignment(g, age, salt, min, max),
    ensures
        eval(commit_poly(), g, 0) == 0,
        eval(offset_diff_poly(10, 0, 3), g, 0) == 0,
        eval(offset_diff_poly(11, 4, 0), g, 0) == 0,
        eval(and_poly(), g, 0) == 0,
        eval(bool_poly(5), g, 0) == 0,
        eval(bool_poly(6), g, 0) == 0,
{
    lemma_modulus_large();
    let m = modulus();
    // commitment
    lemma_cell_in_range(g, 1, 0);
    lemma_small(age);
    let aa = Expr::Product(Box::new(Expr::Advice(0, 0)), Box::new(Expr::Advice(0, 0)));
    let ss = Expr::Product(Box::new(Expr::Advice(1, 0)), Box::new(Expr::Advice(1, 0)));
    assert(eval(Expr::Advice(0, 0), g, 0) == age);
    assert(eval(Expr::Advice(1, 0), g, 0) == salt);
    assert(eval(aa, g, 0) == (age * age) % m);
    assert(eval(ss, g, 0) == (salt * salt) % m);
    let sum = Expr::Sum(Box::new(aa), Box::new(ss));
    assert(eval(sum, g, 0) == commitment_of(age, salt));
    assert(eval(Expr::Advice(2, 0), g, 0) == commitment_of(age, salt));
    vstd::arithmetic::div_mod::lemma_mod_bound(((age * age) % m + (salt * salt) % m) as int, m as int);
    lemma_difference_zero(commitment_of(age, salt), commitment_of(age, salt));
    // offset differences
    let dmin = (age + 0x1_0000_0000_0000_0000 - min) as nat;
    let dmax = (max + 0x1_0000_0000_0000_0000 - age) as nat;
    lemma_small(0x1_0000_0000_0000_0000nat);
    lemma_small(age + 0x1_0000_0000_0000_0000);
    lemma_small(max + 0x1_0000_0000_0000_0000);
    lemma_small(min);
    lemma_small(dmin);
    lemma_small(dmax);
    let sa = Expr::Sum(Box::new(Expr::Advice(0, 0)), Box::new(Expr::Constant(0x1_0000_0000_0000_0000)));
    assert(eval(Expr::Constant(0x1_0000_0000_0000_0000), g, 0) == 0x1_0000_0000_0000_0000);
    assert(eval(sa, g, 0) == age + 0x1_0000_0000_0000_0000);
    assert(eval(Expr::Advice(3, 0), g, 0) == min);
    let da = Expr::Difference(Box::new(sa), Box::new(Expr::Advice(3, 0)));
    lemma_add_modulus(dmin as int);
    assert(eval(da, g, 0) == dmin);
    assert(eval(Expr::Advice(10, 0), g, 0) == dmin);
    lemma_difference_zero(dmin, dmin);
    let sm = Expr::Sum(Box::new(Expr::Advice(4, 0)), Box::new(Expr::Constant(0x1_0000_0000_0000_0000)));
    assert(eval(Expr::Advice(4, 0), g, 0) == max);
    assert(eval(sm, g, 0) == max + 0x1_0000_0000_0000_0000);
    let dm = Expr::Difference(Box::new(sm), Box::new(Expr::Advice(0, 0)));
    lemma_add_modulus(dmax as int);
    assert(eval(dm, g, 0) == dmax);
    assert(eval(Expr::Advice(11, 0), g, 0) == dmax);
    // AND and booleans
    let ge = ge_flag(age, min);
    let le = le_flag(age, max);
    assert(eval(Expr::Advice(5, 0), g, 0) == ge);
    assert(eval(Expr::Advice(6, 0), g, 0) == le);
    assert(eval(Expr::Advice(7, 0), g, 0) == ge * le);
    lemma_small(ge * le);
    let prod = Expr::Product(Box::new(Expr::Advice(5, 0)), Box::new(Expr::Advice(6, 0)));
    assert(eval(prod, g, 0) == ge * le);
    lemma_difference_zero(ge * le, ge * le);
    lemma_small(1);
    lemma_small(0);
    lemma_difference_zero(1, 1);
    assert(eval(Expr::Constant(1), g, 0) == 1);
    let om5 = Expr::Difference(Box::new(Expr::Constant(1)), Box::new(Expr::Advice(5, 0)));
    let om6 = Expr::Difference(Box::new(Expr::Constant(1)), Box::new(Expr::Advice(6, 0)));
    if ge == 1 {
        assert(eval(om5, g, 0) == 0);
    } else {
        lemma_add_modulus(1);
        assert(eval(om5, g, 0) == 1);
    }
    if le == 1 {
        assert(eval(om6, g, 0) == 0);
    } else {
        lemma_add_modulus(1);
        assert(eval(om6, g, 0) == 1);
    }
    assert(ge * eval(om5, g, 0) == 0);
    assert(le * eval(om6, g, 0) == 0);
    assert(eval(bool_poly(5), g, 0) == (ge * eval(om5, g, 0)) % m);
    assert(eval(bool_poly(6), g, 0) == (le * eval(om6, g, 0)) % m);
}

/// Every witness whose age and bounds fit in 8 bits has an assignment
/// satisfying the age circuit with public values commitment, bounds and
/// `valid`, whether or not the age lies within the bounds.
pub proof fn lemma_age_complete(
    shape: CircuitShape,
    layout: Layout,
    g: Grid,
    age: nat,
    salt: nat,
    min: nat,
    max: nat,
    public: Seq<FieldElement>,
)
    requires
        is_age_shape(shape),
        is_age_layout(layout),
        is_age_assignment(g, age, salt, min, max),
        salt < modulus(),
        public.len() == 4,
        forall|i: int| 0 <= i < 4 ==> (#[trigger] public[i])@ == age_public_values(age, salt, min, max)[i],
    ensures
        satisfied(shape, layout, g, public),
{
    lemma_modulus_large();
    vstd::arithmetic::power2::lemma2_to64();
    vstd::arithmetic::power2::lemma_pow2_adds(64, 1);
    vstd::arithmetic::power2::lemma_pow2_strictly_increases(65, 254);
    vstd::arithmetic::power2::lemma_pow2_strictly_increases(64, 254);
    vstd::arithmetic::power2::lemma_pow2_strictly_increases(8, 254);
    let dmin = (age + 0x1_0000_0000_0000_0000 - min) as nat;
    let dmax = (max + 0x1_0000_0000_0000_0000 - age) as nat;
    lemma_range_block_gates(g, 8, 9, 0, 8, age);
    lemma_range_block_gates(g, 8, 9, 9, 65, dmin);
    lemma_range_block_gates(g, 8, 9, 75, 65, dmax);
    lemma_range_block_gates(g, 8, 9, 141, 64, min);
    lemma_range_block_gates(g, 8, 9, 206, 64, max);
    lemma_row_zero_gates(g, age, salt, min, max);
    assert forall|c: usize| c < 12 implies shape.equality@.contains(c) by {
        assert(shape.equality@[c as int] == c);
    }
    assert(layout_fits(shape, layout)) by {
        assert forall|k: int| 0 <= k < layout.enabled@.len() implies {
            let (s, r) = #[trigger] layout.enabled@[k];
            s < shape.num_selectors && r < layout.rows
        } by {
            lemma_age_enabled(k);
        }
    }
    assert(gates_hold(shape, layout, g)) by {
        assert forall|k: int, j: int, p: int|
            0 <= k < layout.enabled@.len() && 0 <= j < shape.gates@.len() && (#[trigger] shape.gates@[j]).selector
                == (#[trigger] layout.enabled@[k]).0 && 0 <= p < shape.gates@[j].polys@.len()
                implies eval(#[trigger] shape.gates@[j].polys@[p], g, layout.enabled@[k].1 as int) == 0 by {
            lemma_age_enabled(k);
            let (s, r) = layout.enabled@[k];
            let ri = r as int;
            assert(shape.gates@[j].selector == j);
            if s == 1 {
                if ri < 8 {
                    assert(eval(bool_poly(8), g, 0 + (ri - 0)) == 0);
                    assert(eval(horner_poly(8, 9), g, 0 + (ri - 0)) == 0);
                } else if ri < 74 {
                    assert(eval(bool_poly(8), g, 9 + (ri - 9)) == 0);
                    assert(eval(horner_poly(8, 9), g, 9 + (ri - 9)) == 0);
                } else if ri < 140 {
                    assert(eval(bool_poly(8), g, 75 + (ri - 75)) == 0);
                    assert(eval(horner_poly(8, 9), g, 75 + (ri - 75)) == 0);
                } else if ri < 205 {
                    assert(eval(bool_poly(8), g, 141 + (ri - 141)) == 0);
                    assert(eval(horner_poly(8, 9), g, 141 + (ri - 141)) == 0);
                } else {
                    assert(eval(bool_poly(8), g, 206 + (ri - 206)) == 0);
                    assert(eval(horner_poly(8, 9), g, 206 + (ri - 206)) == 0);
                }
            }
        }
    }
    assert(copies_hold(layout, g)) by {
        assert(cell_value(g, 9, 0int + 8) == age);
        assert(cell_value(g, 9, 9int + 65) == dmin);
        assert(cell_value(g, 9, 75int + 65) == dmax);
        assert(cell_value(g, 9, 141int + 64) == min);
        assert(cell_value(g, 9, 206int + 64) == max);
        assert(cell_value(g, 8, 9int + 0) == bit_at(dmin, 65, 0));
        assert(cell_value(g, 8, 75int + 0) == bit_at(dmax, 65, 0));
        assert(vstd::arithmetic::power2::pow2(64) == 0x1_0000_0000_0000_0000);
        assert((65 - 1 - 0) as nat == 64nat);
        if age >= min {
            assert(dmin / 0x1_0000_0000_0000_0000 == 1);
        } else {
            assert(dmin / 0x1_0000_0000_0000_0000 == 0);
        }
        if age <= max {
            assert(dmax / 0x1_0000_0000_0000_0000 == 1);
        } else {
            assert(dmax / 0x1_0000_0000_0000_0000 == 0);
        }
        assert(bit_at(dmin, 65, 0) == ge_flag(age, min));
        assert(bit_at(dmax, 65, 0) == le_flag(age, max));
    }
    assert(bindings_hold(layout, g, public)) by {
        assert forall|i: int| 0 <= i < public.len() implies {
            let c = #[trigger] layout.bindings@[i];
            cell_value(g, c.column as int, c.row as int) == public[i]@
        } by {
            assert(public[i]@ == age_public_values(age, salt, min, max)[i]);
        }
    }
}

/// The enabled entries of one range-check block within the age layout: the
/// block starting at row `base` with `n` bits begins at entry `k`.
proof fn lemma_age_enabled_block(k: int, base: nat, n: nat, r: int)
    requires
        (k, base, n) == (3int, 0nat, 8nat) || (k, base, n) == (12int, 9nat, 65nat) || (k, base, n) == (
            78int,
            75nat,
            65nat,
        ) || (k, base, n) == (144int, 141nat, 64nat) || (k, base, n) == (209int, 206nat, 64nat),
        0 <= r <= n,
    ensures
        r < n ==> age_enabled()[k + r] == (1usize, (base + r) as usize),
        r == n ==> age_enabled()[k + r] == (2usize, base as usize),
{
    let h = seq![(0usize, 0usize), (3usize, 0usize), (4usize, 0usize)];
    let a = block_rows(0, 8);
    let b = block_rows(9, 65);
    let c = block_rows(75, 65);
    let d = block_rows(141, 64);
    let e = block_rows(206, 64);
    let s5 = h + a + b + c + d + e;
    assert(s5 == age_enabled());
    lemma_block_rows_index(base, n, r);
    assert(a.len() == 9 && b.len() == 66 && c.len() == 66 && d.len() == 65 && e.len() == 65);
    if k == 3 {
        assert(s5[k + r] == a[r]);
    } else if k == 12 {
        assert(s5[k + r] == b[r]);
    } else if k == 78 {
        assert(s5[k + r] == c[r]);
    } else if k == 144 {
        assert(s5[k + r] == d[r]);
    } else {
        assert(s5[k + r] == e[r]);
    }
}

proof fn lemma_age_block_gates(shape: CircuitShape, layout: Layout, g: Grid, k: int, base: nat, n: nat)
    requires
        is_age_shape(shape),
        is_age_layout(layout),
        gates_hold(shape, layout, g),
        (k, base, n) == (3int, 0nat, 8nat) || (k, base, n) == (12int, 9nat, 65nat) || (k, base, n) == (
            78int,
            75nat,
            65nat,
        ) || (k, base, n) == (144int, 141nat, 64nat) || (k, base, n) == (209int, 206nat, 64nat),
    ensures
        block_gates_hold(g, 8, 9, base as int, n),
{
    lemma_age_enabled(0);
    assert forall|r: int| 0 <= r < n implies #[trigger] eval(bool_poly(8), g, base + r) == 0 by {
        lemma_age_enabled_block(k, base, n, r);
        assert(layout.enabled@[k + r] == (1usize, (base + r) as usize));
        assert(shape.gates@[1].selector == 1);
        assert(shape.gates@[1].polys@[0] == bool_poly(8));
    }
    assert forall|r: int| 0 <= r < n implies #[trigger] eval(horner_poly(8, 9), g, base + r) == 0 by {
        lemma_age_enabled_block(k, base, n, r);
        assert(layout.enabled@[k + r] == (1usize, (base + r) as usize));
        assert(shape.gates@[1].selector == 1);
        assert(shape.gates@[1].polys@[1] == horner_poly(8, 9));
    }
    lemma_age_enabled_block(k, base, n, n as int);
    assert(layout.enabled@[k + n] == (2usize, base as usize));
    assert(shape.gates@[2].selector == 2);
    assert(shape.gates@[2].polys@[0] == start_poly(9));
}

/// Provided the field has no zero divisors: whatever was assigned, when the
/// age circuit is satisfied the committed age fits in 8 bits, the bounds in
/// 64 bits, the commitment is that of the age and salt cells, and `valid` is
/// 1 exactly when the age lies within the public bounds.
pub proof fn lemma_age_sound(shape: CircuitShape, layout: Layout, g: Grid, public: Seq<FieldElement>)
    requires
        no_zero_divisors(),
        is_age_shape(shape),
        is_age_layout(layout),
        satisfied(shape, layout, g, public),
    ensures
        public.len() == 4,
        cell_value(g, 0, 0) < 256,
        public[1]@ < 0x1_0000_0000_0000_0000nat,
        public[2]@ < 0x1_0000_0000_0000_0000nat,
        public[0]@ == commitment_of(cell_value(g, 0, 0), cell_value(g, 1, 0)),
        public[3]@ == (if public[1]@ <= cell_value(g, 0, 0) <= public[2]@ { 1nat } else { 0nat }),
{
    let off = 0x1_0000_0000_0000_0000nat;
    lemma_modulus_large();
    vstd::arithmetic::power2::lemma2_to64();
    lemma_age_block_gates(shape, layout, g, 3, 0, 8);
    lemma_age_block_gates(shape, layout, g, 12, 9, 65);
    lemma_age_block_gates(shape, layout, g, 78, 75, 65);
    lemma_age_block_gates(shape, layout, g, 144, 141, 64);
    lemma_age_block_gates(shape, layout, g, 209, 206, 64);
    lemma_block_sound(g, 8, 9, 0, 8, 8);
    lemma_block_sound(g, 8, 9, 9, 65, 65);
    lemma_block_sound(g, 8, 9, 75, 65, 65);
    lemma_block_sound(g, 8, 9, 141, 64, 64);
    lemma_block_sound(g, 8, 9, 206, 64, 64);
    let cp = age_copies();
    assert(layout.copies@[0] == cp[0] && layout.copies@[1] == cp[1] && layout.copies@[2] == cp[2]);
    assert(layout.copies@[3] == cp[3] && layout.copies@[4] == cp[4] && layout.copies@[5] == cp[5]);
    assert(layout.copies@[6] == cp[6]);
    let age = cell_value(g, 0, 0);
    let salt = cell_value(g, 1, 0);
    let min = cell_value(g, 3, 0);
    let max = cell_value(g, 4, 0);
    let dmin = cell_value(g, 10, 0);
    let dmax = cell_value(g, 11, 0);
    let ge = cell_value(g, 5, 0);
    let le = cell_value(g, 6, 0);
    assert(cell_value(g, 9, 0int + 8) == age);
    assert(cell_value(g, 9, 9int + 65) == dmin);
    assert(cell_value(g, 9, 75int + 65) == dmax);
    assert(cell_value(g, 9, 141int + 64) == min);
    assert(cell_value(g, 9, 206int + 64) == max);
    assert(cell_value(g, 8, 9) == ge);
    assert(cell_value(g, 8, 75) == le);
    assert(age < 256);
    assert(min < off && max < off);
    // row 0 gates
    lemma_age_enabled(0);
    assert(layout.enabled@[0] == (0usize, 0usize));
    assert(layout.enabled@[1] == (3usize, 0usize));
    assert(layout.enabled@[2] == (4usize, 0usize));
    assert(shape.gates@[0].selector == 0 && shape.gates@[3].selector == 3 && shape.gates@[4].selector == 4);
    assert(shape.gates@[0].polys@[0] == commit_poly());
    assert(shape.gates@[0].polys@.len() == 1);
    assert(eval(shape.gates@[0].polys@[0], g, layout.enabled@[0].1 as int) == 0);
    assert(eval(commit_poly(), g, 0) == 0);
    assert(eval(offset_diff_poly(10, 0, 3), g, 0) == 0);
    assert(eval(offset_diff_poly(11, 4, 0), g, 0) == 0);
    assert(eval(and_poly(), g, 0) == 0);
    assert(eval(bool_poly(5), g, 0) == 0);
    assert(eval(bool_poly(6), g, 0) == 0);
    let m = modulus();
    // commitment
    lemma_cell_in_range(g, 2, 0);
    let aa = Expr::Product(Box::new(Expr::Advice(0, 0)), Box::new(Expr::Advice(0, 0)));
    let ss = Expr::Product(Box::new(Expr::Advice(1, 0)), Box::new(Expr::Advice(1, 0)));
    assert(eval(Expr::Advice(0, 0), g, 0) == age);
    assert(eval(Expr::Advice(1, 0), g, 0) == salt);
    assert(eval(aa, g, 0) == (age * age) % m);
    assert(eval(ss, g, 0) == (salt * salt) % m);
    let sum = Expr::Sum(Box::new(aa), Box::new(ss));
    assert(eval(sum, g, 0) == commitment_of(age, salt));
    vstd::arithmetic::div_mod::lemma_mod_bound(((age * age) % m + (salt * salt) % m) as int, m as int);
    assert(eval(Expr::Advice(2, 0), g, 0) == cell_value(g, 2, 0));
    lemma_difference_zero(cell_value(g, 2, 0), commitment_of(age, salt));
    // offset differences
    lemma_small(off);
    lemma_small(age + off);
    lemma_small(max + off);
    lemma_small((age + off - min) as nat);
    lemma_small((max + off - age) as nat);
    lemma_cell_in_range(g, 10, 0);
    lemma_cell_in_range(g, 11, 0);
    let sa = Expr::Sum(Box::new(Expr::Advice(0, 0)), Box::new(Expr::Constant(0x1_0000_0000_0000_0000)));
    assert(eval(Expr::Constant(0x1_0000_0000_0000_0000), g, 0) == off);
    assert(eval(sa, g, 0) == age + off);
    assert(eval(Expr::Advice(3, 0), g, 0) == min);
    let da = Expr::Difference(Box::new(sa), Box::new(Expr::Advice(3, 0)));
    lemma_add_modulus((age + off - min) as int);
    assert(eval(da, g, 0) == (age + off - min) as nat);
    assert(eval(Expr::Advice(10, 0), g, 0) == dmin);
    lemma_difference_zero(dmin, (age + off - min) as nat);
    let sm = Expr::Sum(Box::new(Expr::Advice(4, 0)), Box::new(Expr::Constant(0x1_0000_0000_0000_0000)));
    assert(eval(Expr::Advice(4, 0), g, 0) == max);
    assert(eval(sm, g, 0) == max + off);
    let dm = Expr::Difference(Box::new(sm), Box::new(Expr::Advice(0, 0)));
    lemma_add_modulus((max + off - age) as int);
    assert(eval(dm, g, 0) == (max + off - age) as nat);
    assert(eval(Expr::Advice(11, 0), g, 0) == dmax);
    lemma_difference_zero(dmax, (max + off - age) as nat);
    // comparisons: the top bit of each difference
    assert(vstd::arithmetic::power2::pow2(64) == off);
    assert((65 - 1) as nat == 64nat);
    assert(ge <= 1 && le <= 1);
    if age >= min {
        assert(dmin >= off);
        assert(ge == 1) by {
            if ge == 0 {
                assert(dmin - 0 * off < off);
            }
        }
    } else {
        assert(dmin < off);
        assert(ge == 0) by {
            if ge == 1 {
                assert(dmin >= 1 * off);
            }
        }
    }
    if age <= max {
        assert(dmax >= off);
        assert(le == 1) by {
            if le == 0 {
                assert(dmax - 0 * off < off);
            }
        }
    } else {
        assert(dmax < off);
        assert(le == 0) by {
            if le == 1 {
                assert(dmax >= 1 * off);
            }
        }
    }
    // AND
    lemma_cell_in_range(g, 7, 0);
    let valid = cell_value(g, 7, 0);
    assert(eval(Expr::Advice(5, 0), g, 0) == ge);
    assert(eval(Expr::Advice(6, 0), g, 0) == le);
    assert(eval(Expr::Advice(7, 0), g, 0) == valid);
    lemma_small(ge * le);
    let prod = Expr::Product(Box::new(Expr::Advice(5, 0)), Box::new(Expr::Advice(6, 0)));
    assert(eval(prod, g, 0) == ge * le);
    lemma_difference_zero(valid, ge * le);
    // bindings
    assert(layout.bindings@[0] == CellRef { column: COMMITMENT, row: 0 });
    assert(layout.bindings@[1] == CellRef { column: MIN_AGE, row: 0 });
    assert(layout.bindings@[2] == CellRef { column: MAX_AGE, row: 0 });
    assert(layout.bindings@[3] == CellRef { column: VALID, row: 0 });
    assert(public[0]@ == cell_value(g, 2, 0));
    assert(public[1]@ == min);
    assert(public[2]@ == max);
    assert(public[3]@ == valid);
}

} // verus!
