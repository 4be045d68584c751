//! Range membership: a private value that fits in `N` bits, with a public
//! `valid` output that is 1 whenever a proof exists.

use crate::constraint::{
    bindings_hold, cell_value, copies_hold, eval, gates_hold, grid_fits, layout_fits, lemma_difference_zero,
    lemma_small, satisfied, CellRef, CircuitShape, Expr, Gate, Grid, Layout, SynthesisError,
};
use crate::field::{modulus, FieldElement};
use crate::gadgets::{
    assign_range_block, block_gates_hold, bool_poly, horner_poly, lemma_block_sound, lemma_prefix_start,
    lemma_range_block_gates, no_zero_divisors, range_block, range_check_gates, start_poly,
};
use vstd::arithmetic::power2::pow2;
use vstd::prelude::*;

verus! {

/// Proves that a private value lies in `0 .. 2^N`.
#[derive(Clone, Copy, Debug)]
pub struct RangeProofCircuit<const N: usize> {
    pub value: Option<u64>,
}

/// `valid - 1`.
pub open spec fn one_poly() -> Expr {
    Expr::Difference(Box::new(Expr::Advice(3, 0)), Box::new(Expr::Constant(1)))
}

/// Columns: 0 the value, 1 its bits, 2 the running prefixes, 3 the `valid` output.
/// Selectors: 0 bit rows, 1 the first prefix, 2 the output row.
pub open spec fn is_range_shape(s: CircuitShape) -> bool {
    &&& s.num_advice == 4
    &&& s.num_selectors == 3
    &&& s.num_public == 1
    &&& s.gates@.len() == 3
    &&& s.gates@[0].selector == 0
    &&& s.gates@[0].polys@ == seq![bool_poly(1), horner_poly(1, 2)]
    &&& s.gates@[1].selector == 1
    &&& s.gates@[1].polys@ == seq![start_poly(2)]
    &&& s.gates@[2].selector == 2
    &&& s.gates@[2].polys@ == seq![one_poly()]
    &&& s.equality@ == seq![0usize, 2usize, 3usize]
}

pub open spec fn range_enabled(n: nat) -> Seq<(usize, usize)> {
    Seq::new(n, |r: int| (0usize, r as usize)) + seq![(1usize, 0usize), (2usize, 0usize)]
}

pub open spec fn is_range_layout(l: Layout, n: nat) -> bool {
    &&& l.rows == n + 1
    &&& l.enabled@ == range_enabled(n)
    &&& l.copies@ == seq![(CellRef { column: 2, row: n as usize }, CellRef { column: 0, row: 0 })]
    &&& l.bindings@ == seq![CellRef { column: 3, row: 0 }]
}

/// The assignment for `v`: the value, its bits and prefixes, and `valid = 1`.
pub open spec fn is_range_grid(g: Grid, n: nat, v: nat) -> bool {
    &&& g.columns@.len() == 4
    &&& forall|c: int| 0 <= c < 4 ==> (#[trigger] g.columns@[c])@.len() == n + 1
    &&& cell_value(g, 0, 0) == v
    &&& range_block(g, 1, 2, 0, n, v)
    &&& cell_value(g, 3, 0) == 1
}

impl<const N: usize> RangeProofCircuit<N> {
    /// The same circuit with its witness removed, as used for key generation.
    pub fn without_witnesses(&self) -> (r: Self)
        ensures
            r.value is None,
    {
        RangeProofCircuit { value: None }
    }

    pub fn configure() -> (r: CircuitShape)
        ensures
            is_range_shape(r),
    {
        let (bit_gate, start_gate) = range_check_gates(0, 1, 1, 2);
        let mut one: Vec<Expr> = Vec::new();
        one.push(Expr::Difference(Box::new(Expr::Advice(3, 0)), Box::new(Expr::Constant(1))));
        let mut gates: Vec<Gate> = Vec::new();
        gates.push(bit_gate);
        gates.push(start_gate);
        gates.push(Gate { selector: 2, polys: one });
        let r = CircuitShape {
            num_advice: 4,
            num_selectors: 3,
            num_public: 1,
            gates,
            equality: vec![0usize, 2usize, 3usize],
        };
        assert(r.gates@[2].polys@ =~= seq![one_poly()]);
        assert(r.equality@ =~= seq![0usize, 2usize, 3usize]);
        r
    }

    /// The layout for `N` bits; the same with or without a witness.
    pub fn layout(&self) -> (r: Layout)
        requires
            N < usize::MAX,
        ensures
            is_range_layout(r, N as nat),
    {
        let mut enabled: Vec<(usize, usize)> = Vec::new();
        let mut r: usize = 0;
        while r < N
            invariant
                r <= N,
                enabled@ == Seq::new(r as nat, |i: int| (0usize, i as usize)),
            decreases N - r,
        {
            enabled.push((0usize, r));
            r = r + 1;
            assert(enabled@ =~= Seq::new(r as nat, |i: int| (0usize, i as usize)));
        }
        enabled.push((1usize, 0usize));
        enabled.push((2usize, 0usize));
        assert(enabled@ =~= range_enabled(N as nat));
        let copies = vec![(CellRef { column: 2, row: N }, CellRef { column: 0, row: 0 })];
        let bindings = vec![CellRef { column: 3, row: 0 }];
        assert(copies@ =~= seq![(CellRef { column: 2, row: N }, CellRef { column: 0, row: 0 })]);
        assert(bindings@ =~= seq![CellRef { column: 3, row: 0 }]);
        Layout { rows: N + 1, enabled, copies, bindings }
    }

    /// Assigns the value, its bits and prefixes, and `valid = 1`. Fails when the
    /// value is missing or does not fit in `N` bits.
    pub fn synthesize(&self) -> (r: Result<Grid, SynthesisError>)
        requires
            N <= 64,
        ensures
            match self.value {
                None => r == Err::<Grid, SynthesisError>(SynthesisError::MissingWitness),
                Some(v) => match r {
                    Ok(g) => v < pow2(N as nat) && is_range_grid(g, N as nat, v as nat),
                    Err(e) => v >= pow2(N as nat) && e == SynthesisError::OutOfRange,
                },
            },
    {
        let v = match self.value {
            Some(v) => v,
            None => {
                return Err(SynthesisError::MissingWitness);
            },
        };
        let fits: bool = if N < 64 {
            v >> (N as u64) == 0
        } else {
            true
        };
        proof {
            if N < 64 {
                vstd::bits::lemma_u64_shr_is_div(v, N as u64);
            } else {
                vstd::arithmetic::power2::lemma2_to64();
                vstd::arithmetic::power2::lemma2_to64_rest();
            }
            lemma_prefix_start(v as nat, N as nat);
            assert((N - 0) as nat == N as nat);
        }
        if !fits {
            return Err(SynthesisError::OutOfRange);
        }
        let mut g = Grid::zeros(4, N + 1);
        g.set(0, 0, FieldElement::from_u64(v));
        g.set(3, 0, FieldElement::one());
        assign_range_block(&mut g, 1, 2, 0, N, v as u128);
        Ok(g)
    }

    /// The public values: `[1]`.
    pub fn public_inputs(&self) -> (r: Vec<FieldElement>)
        ensures
            r@.len() == 1,
            r@[0]@ == 1,
    {
        vec![FieldElement::one()]
    }
}

/// Every value that fits in `n` bits has an assignment satisfying the range
/// circuit with public output 1.
pub proof fn lemma_range_complete(shape: CircuitShape, layout: Layout, g: Grid, n: nat, v: nat, public: Seq<FieldElement>)
    requires
        is_range_shape(shape),
        is_range_layout(layout, n),
        is_range_grid(g, n, v),
        n <= 64,
        v < pow2(n),
        public.len() == 1,
        public[0]@ == 1,
    ensures
        satisfied(shape, layout, g, public),
{
    vstd::arithmetic::power2::lemma_pow2_strictly_increases(64, 254);
    if n < 64 {
        vstd::arithmetic::power2::lemma_pow2_strictly_increases(n, 64);
    }
    lemma_range_block_gates(g, 1, 2, 0, n, v);
    assert(shape.equality@[0] == 0usize);
    assert(shape.equality@[1] == 2usize);
    assert(shape.equality@[2] == 3usize);
    assert(layout_fits(shape, layout)) by {
        assert forall|k: int| 0 <= k < layout.enabled@.len() implies {
            let (s, r) = #[trigger] layout.enabled@[k];
            s < shape.num_selectors && r < layout.rows
        } by {
            if k < n {
                assert(layout.enabled@[k] == (0usize, k as usize));
            }
        }
    }
    assert(gates_hold(shape, layout, g)) by {
        assert forall|k: int, j: int, p: int|
            0 <= k < layout.enabled@.len() && 0 <= j < shape.gates@.len() && (#[trigger] shape.gates@[j]).selector
                == (#[trigger] layout.enabled@[k]).0 && 0 <= p < shape.gates@[j].polys@.len()
                implies eval(#[trigger] shape.gates@[j].polys@[p], g, layout.enabled@[k].1 as int) == 0 by {
            if k < n {
                assert(layout.enabled@[k] == (0usize, k as usize));
                assert(j == 0);
                assert(eval(bool_poly(1), g, 0 + k) == 0);
                assert(eval(horner_poly(1, 2), g, 0 + k) == 0);
            } else if k == n {
                assert(layout.enabled@[k] == (1usize, 0usize));
                assert(j == 1);
                assert(eval(start_poly(2), g, 0) == 0);
            } else {
                assert(layout.enabled@[k] == (2usize, 0usize));
                assert(j == 2);
                lemma_small(1);
                assert(eval(Expr::Advice(3, 0), g, 0) == 1);
                assert(eval(Expr::Constant(1), g, 0) == 1);
                lemma_difference_zero(1, 1);
            }
        }
    }
    assert(copies_hold(layout, g)) by {
        assert(cell_value(g, 2, 0 + n as int) == v);
    }
    assert(bindings_hold(layout, g, public));
}


/// Provided the field has no zero divisors: whatever was assigned, when the
/// range circuit is satisfied its value fits in `n` bits and its public output
/// is 1.
pub proof fn lemma_range_sound(shape: CircuitShape, layout: Layout, g: Grid, n: nat, public: Seq<FieldElement>)
    requires
        no_zero_divisors(),
        is_range_shape(shape),
        is_range_layout(layout, n),
        n <= 64,
        satisfied(shape, layout, g, public),
    ensures
        cell_value(g, 0, 0) < pow2(n),
        public.len() == 1,
        public[0]@ == 1,
{
    assert(block_gates_hold(g, 1, 2, 0, n)) by {
        assert forall|r: int| 0 <= r < n implies #[trigger] eval(bool_poly(1), g, 0 + r) == 0 by {
            assert(layout.enabled@[r] == (0usize, r as usize));
            assert(shape.gates@[0].polys@[0] == bool_poly(1));
        }
        assert forall|r: int| 0 <= r < n implies #[trigger] eval(horner_poly(1, 2), g, 0 + r) == 0 by {
            assert(layout.enabled@[r] == (0usize, r as usize));
            assert(shape.gates@[0].polys@[1] == horner_poly(1, 2));
        }
        assert(layout.enabled@[n as int] == (1usize, 0usize));
        assert(shape.gates@[1].polys@[0] == start_poly(2));
    }
    lemma_block_sound(g, 1, 2, 0, n, n);
    assert(layout.copies@[0] == (CellRef { column: 2, row: n as usize }, CellRef { column: 0, row: 0 }));
    assert(cell_value(g, 2, 0 + n as int) == cell_value(g, 0, 0));
    assert(layout.enabled@[n + 1int] == (2usize, 0usize));
    assert(shape.gates@[2].polys@[0] == one_poly());
    assert(eval(one_poly(), g, 0) == 0);
    let v = cell_value(g, 3, 0);
    crate::constraint::lemma_cell_in_range(g, 3, 0);
    crate::field::lemma_modulus_large();
    lemma_small(1);
    assert(eval(Expr::Advice(3, 0), g, 0) == v);
    assert(eval(Expr::Constant(1), g, 0) == 1);
    lemma_difference_zero(v, 1);
    assert(layout.bindings@[0] == CellRef { column: 3, row: 0 });
}

} // verus!
