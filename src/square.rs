//! The square relation: a private `x` and a public `y` with `y = x^2`.

use crate::constraint::{
    cell_value, eval, grid_fits, satisfied, CellRef, CircuitShape, Expr, Gate, Grid, Layout,
};
use crate::field::{modulus, FieldElement};
use vstd::prelude::*;

verus! {

/// Proves knowledge of `x` with `x * x` equal to the public value.
#[derive(Clone, Copy, Debug)]
pub struct SquareCircuit {
    pub x: Option<FieldElement>,
}

/// The square gate: advice column 1 equals the square of advice column 0.
pub open spec fn square_poly() -> Expr {
    Expr::Difference(
        Box::new(Expr::Advice(1, 0)),
        Box::new(Expr::Product(Box::new(Expr::Advice(0, 0)), Box::new(Expr::Advice(0, 0)))),
    )
}

pub open spec fn is_square_shape(s: CircuitShape) -> bool {
    &&& s.num_advice == 2
    &&& s.num_selectors == 1
    &&& s.num_public == 1
    &&& s.gates@.len() == 1
    &&& s.gates@[0].selector == 0
    &&& s.gates@[0].polys@ == seq![square_poly()]
    &&& s.equality@ == seq![0usize, 1usize]
}

pub open spec fn is_square_layout(l: Layout) -> bool {
    &&& l.rows == 1
    &&& l.enabled@ == seq![(0usize, 0usize)]
    &&& l.copies@.len() == 0
    &&& l.bindings@ == seq![CellRef { column: 1, row: 0 }]
}

/// The assignment for witness `x`: `x` and `x * x` side by side on one row.
pub open spec fn is_square_grid(g: Grid, x: nat) -> bool {
    &&& g.columns@.len() == 2
    &&& g.columns@[0]@.len() == 1
    &&& g.columns@[1]@.len() == 1
    &&& cell_value(g, 0, 0) == x
    &&& cell_value(g, 1, 0) == (x * x) % modulus()
}

impl SquareCircuit {
    /// The same circuit with its witness removed, as used for key generation.
    pub fn without_witnesses(&self) -> (r: Self)
        ensures
            r.x is None,
    {
        SquareCircuit { x: None }
    }

    /// Declares two advice columns, one selector and the square gate.
    pub fn configure() -> (r: CircuitShape)
        ensures
            is_square_shape(r),
    {
        let poly = Expr::Difference(
            Box::new(Expr::Advice(1, 0)),
            Box::new(Expr::Product(Box::new(Expr::Advice(0, 0)), Box::new(Expr::Advice(0, 0)))),
        );
        let mut polys: Vec<Expr> = Vec::new();
        polys.push(poly);
        let mut gates: Vec<Gate> = Vec::new();
        gates.push(Gate { selector: 0, polys });
        let r = CircuitShape {
            num_advice: 2,
            num_selectors: 1,
            num_public: 1,
            gates,
            equality: vec![0usize, 1usize],
        };
        assert(r.gates@[0].polys@ =~= seq![square_poly()]);
        assert(r.equality@ =~= seq![0usize, 1usize]);
        r
    }

    /// Where the square gate is enabled and which cell is public.
    pub fn layout(&self) -> (r: Layout)
        ensures
            is_square_layout(r),
    {
        let r = Layout {
            rows: 1,
            enabled: vec![(0usize, 0usize)],
            copies: Vec::new(),
            bindings: vec![CellRef { column: 1, row: 0 }],
        };
        assert(r.enabled@ =~= seq![(0usize, 0usize)]);
        assert(r.bindings@ =~= seq![CellRef { column: 1, row: 0 }]);
        r
    }

    /// Assigns `x` and `x * x`; a missing witness is assigned as zero.
    pub fn synthesize(&self) -> (r: Grid)
        ensures
            is_square_grid(
                r,
                match self.x {
                    Some(x) => x@,
                    None => 0,
                },
            ),
    {
        let x = match self.x {
            Some(x) => x,
            None => FieldElement::zero(),
        };
        let mut g = Grid::zeros(2, 1);
        g.set(0, 0, x);
        g.set(1, 0, x.mul(&x));
        g
    }

    /// The public values: `[x * x]`.
    pub fn public_inputs(&self) -> (r: Vec<FieldElement>)
        requires
            self.x is Some,
        ensures
            r@.len() == 1,
            r@[0]@ == (self.x.unwrap()@ * self.x.unwrap()@) % modulus(),
    {
        let x = self.x.unwrap();
        vec![x.mul(&x)]
    }
}

/// For any field value `x`, the square circuit assigned from `x` is satisfied
/// by the public value `y` exactly when `y = x^2`.
pub proof fn lemma_square_relation(
    shape: CircuitShape,
    layout: Layout,
    g: Grid,
    x: nat,
    public: Seq<FieldElement>,
)
    requires
        is_square_shape(shape),
        is_square_layout(layout),
        is_square_grid(g, x),
        x < modulus(),
        public.len() == 1,
    ensures
        satisfied(shape, layout, g, public) <==> public[0]@ == (x * x) % modulus(),
{
    lemma_square_gate(shape, layout, g);
    let y = public[0]@;
    assert(shape.equality@.contains(1usize)) by {
        assert(shape.equality@[1] == 1usize);
    }
    assert(layout.bindings@[0] == CellRef { column: 1, row: 0 });
    assert(layout.enabled@[0] == (0usize, 0usize));
    if y == (x * x) % modulus() {
        assert(crate::constraint::layout_fits(shape, layout));
        assert(grid_fits(shape, layout, g));
        assert(crate::constraint::bindings_hold(layout, g, public));
    }
}

/// Whatever was assigned: when the square circuit is satisfied, its public
/// value is the square of the private cell.
pub proof fn lemma_square_sound(shape: CircuitShape, layout: Layout, g: Grid, public: Seq<FieldElement>)
    requires
        is_square_shape(shape),
        is_square_layout(layout),
        satisfied(shape, layout, g, public),
    ensures
        public.len() == 1,
        public[0]@ == (cell_value(g, 0, 0) * cell_value(g, 0, 0)) % modulus(),
{
    lemma_square_gate(shape, layout, g);
    assert(layout.bindings@[0] == CellRef { column: 1, row: 0 });
}

/// The square gate holds on row 0 exactly when column 1 holds the square of column 0.
proof fn lemma_square_gate(shape: CircuitShape, layout: Layout, g: Grid)
    requires
        is_square_shape(shape),
        is_square_layout(layout),
    ensures
        crate::constraint::gates_hold(shape, layout, g) <==> cell_value(g, 1, 0) == (cell_value(g, 0, 0)
            * cell_value(g, 0, 0)) % modulus(),
{
    let a = cell_value(g, 0, 0);
    let b = cell_value(g, 1, 0);
    let prod = (a * a) % modulus();
    assert(eval(Expr::Advice(0, 0), g, 0) == a);
    assert(eval(Expr::Advice(1, 0), g, 0) == b);
    crate::constraint::lemma_cell_in_range(g, 1, 0);
    vstd::arithmetic::div_mod::lemma_mod_bound((a * a) as int, modulus() as int);
    crate::constraint::lemma_difference_zero(b, prod);
    let sq = Expr::Product(Box::new(Expr::Advice(0, 0)), Box::new(Expr::Advice(0, 0)));
    assert(eval(sq, g, 0) == prod);
    assert(eval(square_poly(), g, 0) == ((b + modulus() - prod) % (modulus() as int)) as nat);
    assert(layout.enabled@[0] == (0usize, 0usize));
    assert(shape.gates@[0].polys@[0] == square_poly());
}

} // verus!
