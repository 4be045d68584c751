//! The constraint-system abstraction: the shape a circuit declares once
//! (advice columns, selectors, gates, equality-enabled columns), the layout that
//! synthesis produces (enabled selectors, copy constraints, public bindings),
//! and a checker that decides whether an assignment satisfies them.

use crate::field::{modulus, FieldElement};
use vstd::prelude::*;

verus! {

/// Why a witness could not be assigned so that a gadget's constraints hold.
#[derive(Debug, Clone, Copy, PartialEq, Eq, Structural)]
pub enum SynthesisError {
    /// A private value needed for proving was not supplied.
    MissingWitness,
    /// A value does not fit in the bit width its range check declares.
    OutOfRange,
}

/// A polynomial over advice cells, queried relative to the row a gate is enabled on.
#[derive(Debug)]
pub enum Expr {
    Constant(u128),
    /// The cell of advice column `.0` at `.1` rows below the current one.
    Advice(usize, usize),
    Sum(Box<Expr>, Box<Expr>),
    Difference(Box<Expr>, Box<Expr>),
    Product(Box<Expr>, Box<Expr>),
}

/// A named list of polynomials that must vanish on every row where `selector` is enabled.
pub struct Gate {
    pub selector: usize,
    pub polys: Vec<Expr>,
}

/// What a circuit declares at configure time, independent of any witness.
pub struct CircuitShape {
    pub num_advice: usize,
    pub num_selectors: usize,
    /// How many public values the circuit binds, in order.
    pub num_public: usize,
    pub gates: Vec<Gate>,
    /// Advice columns whose cells may take part in copy constraints.
    pub equality: Vec<usize>,
}

/// One advice cell.
#[derive(Debug, Clone, Copy, PartialEq, Eq, Structural)]
pub struct CellRef {
    pub column: usize,
    pub row: usize,
}

/// Where synthesis enabled selectors and wired cells together; like the shape,
/// it does not depend on witness values.
pub struct Layout {
    pub rows: usize,
    /// Pairs of (selector, row).
    pub enabled: Vec<(usize, usize)>,
    /// Cells whose values must be equal.
    pub copies: Vec<(CellRef, CellRef)>,
    /// `bindings[i]` is the cell that public value `i` must equal.
    pub bindings: Vec<CellRef>,
}

/// Concrete values for every advice cell, column by column.
pub struct Grid {
    pub columns: Vec<Vec<FieldElement>>,
}

/// The value of a cell; cells outside the grid read as zero.
pub open spec fn cell_value(g: Grid, column: int, row: int) -> nat {
    if 0 <= column < g.columns@.len() && 0 <= row < g.columns@[column]@.len() {
        g.columns@[column]@[row]@
    } else {
        0
    }
}

pub open spec fn eval(e: Expr, g: Grid, row: int) -> nat
    decreases e,
{
    match e {
        Expr::Constant(c) => c as nat % modulus(),
        Expr::Advice(col, rot) => cell_value(g, col as int, row + rot),
        Expr::Sum(a, b) => (eval(*a, g, row) + eval(*b, g, row)) % modulus(),
        Expr::Difference(a, b) => ((eval(*a, g, row) + modulus() - eval(*b, g, row)) % (
        modulus() as int)) as nat,
        Expr::Product(a, b) => (eval(*a, g, row) * eval(*b, g, row)) % modulus(),
    }
}

/// Every expression only reads columns below `num_advice`.
pub open spec fn expr_fits(e: Expr, num_advice: nat) -> bool
    decreases e,
{
    match e {
        Expr::Constant(_) => true,
        Expr::Advice(col, _) => col < num_advice,
        Expr::Sum(a, b) | Expr::Difference(a, b) | Expr::Product(a, b) => expr_fits(*a, num_advice)
            && expr_fits(*b, num_advice),
    }
}

pub open spec fn cell_fits(shape: CircuitShape, layout: Layout, c: CellRef) -> bool {
    &&& c.column < shape.num_advice
    &&& c.row < layout.rows
    &&& shape.equality@.contains(c.column)
}

/// The layout only uses what the shape declares, and copies only touch
/// equality-enabled columns.
pub open spec fn layout_fits(shape: CircuitShape, layout: Layout) -> bool {
    &&& forall|k: int|
        0 <= k < layout.enabled@.len() ==> {
            let (s, r) = #[trigger] layout.enabled@[k];
            s < shape.num_selectors && r < layout.rows
        }
    &&& forall|k: int|
        0 <= k < layout.copies@.len() ==> cell_fits(shape, layout, (#[trigger] layout.copies@[k]).0)
            && cell_fits(shape, layout, layout.copies@[k].1)
    &&& forall|k: int|
        0 <= k < layout.bindings@.len() ==> cell_fits(shape, layout, #[trigger] layout.bindings@[k])
    &&& layout.bindings@.len() == shape.num_public
}

/// The grid has one column per advice column and one cell per row.
pub open spec fn grid_fits(shape: CircuitShape, layout: Layout, g: Grid) -> bool {
    &&& g.columns@.len() == shape.num_advice
    &&& forall|c: int| 0 <= c < g.columns@.len() ==> (#[trigger] g.columns@[c])@.len() == layout.rows
}

/// Every gate holds on every row where its selector is enabled.
pub open spec fn gates_hold(shape: CircuitShape, layout: Layout, g: Grid) -> bool {
    forall|k: int, j: int, p: int|
        0 <= k < layout.enabled@.len() && 0 <= j < shape.gates@.len() && (#[trigger] shape.gates@[j]).selector
            == (#[trigger] layout.enabled@[k]).0 && 0 <= p < shape.gates@[j].polys@.len()
            ==> eval(#[trigger] shape.gates@[j].polys@[p], g, layout.enabled@[k].1 as int) == 0
}

pub open spec fn copies_hold(layout: Layout, g: Grid) -> bool {
    forall|k: int|
        0 <= k < layout.copies@.len() ==> {
            let (a, b) = #[trigger] layout.copies@[k];
            cell_value(g, a.column as int, a.row as int) == cell_value(g, b.column as int, b.row as int)
        }
}

pub open spec fn bindings_hold(layout: Layout, g: Grid, public: Seq<FieldElement>) -> bool {
    &&& public.len() == layout.bindings@.len()
    &&& forall|i: int|
        0 <= i < public.len() ==> {
            let c = #[trigger] layout.bindings@[i];
            cell_value(g, c.column as int, c.row as int) == public[i]@
        }
}

/// The assignment satisfies the shape under the layout, for these public values.
pub open spec fn satisfied(shape: CircuitShape, layout: Layout, g: Grid, public: Seq<FieldElement>) -> bool {
    &&& layout_fits(shape, layout)
    &&& grid_fits(shape, layout, g)
    &&& gates_hold(shape, layout, g)
    &&& copies_hold(layout, g)
    &&& bindings_hold(layout, g, public)
}

pub(crate) proof fn lemma_small(x: nat)
    requires
        x < modulus(),
    ensures
        x % modulus() == x,
{
    vstd::arithmetic::div_mod::lemma_small_mod(x, modulus());
}

pub(crate) proof fn lemma_cell_in_range(g: Grid, column: int, row: int)
    ensures
        cell_value(g, column, row) < modulus(),
{
    if 0 <= column < g.columns@.len() && 0 <= row < g.columns@[column]@.len() {
        FieldElement::lemma_in_range(g.columns@[column]@[row]);
    } else {
        crate::field::lemma_modulus_large();
    }
}

/// Two canonical values are equal exactly when their difference is zero.
pub(crate) proof fn lemma_difference_zero(a: nat, b: nat)
    requires
        a < modulus(),
        b < modulus(),
    ensures
        ((a + modulus() - b) % (modulus() as int) == 0) <==> (a == b),
{
    let m = modulus() as int;
    let d = a + m - b;
    if a == b {
        vstd::arithmetic::div_mod::lemma_mod_self_0(m);
    } else if a > b {
        assert(m < d < 2 * m);
        vstd::arithmetic::div_mod::lemma_fundamental_div_mod(d, m);
        vstd::arithmetic::div_mod::lemma_mod_sub_multiples_vanish(d, m);
        vstd::arithmetic::div_mod::lemma_small_mod((d - m) as nat, m as nat);
    } else {
        vstd::arithmetic::div_mod::lemma_small_mod(d as nat, m as nat);
    }
}

impl Grid {
    /// A grid of `columns` columns of `rows` zero cells.
    pub fn zeros(columns: usize, rows: usize) -> (r: Grid)
        ensures
            r.columns@.len() == columns,
            forall|c: int| 0 <= c < columns ==> (#[trigger] r.columns@[c])@.len() == rows,
            forall|c: int, w: int| 0 <= c < columns && 0 <= w < rows ==> cell_value(r, c, w) == 0,
    {
        let mut cols: Vec<Vec<FieldElement>> = Vec::new();
        let mut c: usize = 0;
        while c < columns
            invariant
                c <= columns,
                cols@.len() == c,
                forall|i: int| 0 <= i < c ==> (#[trigger] cols@[i])@.len() == rows,
                forall|i: int, w: int| 0 <= i < c && 0 <= w < rows ==> #[trigger] cols@[i]@[w]@ == 0,
            decreases columns - c,
        {
            let mut col: Vec<FieldElement> = Vec::new();
            let mut w: usize = 0;
            while w < rows
                invariant
                    w <= rows,
                    col@.len() == w,
                    forall|i: int| 0 <= i < w ==> (#[trigger] col@[i])@ == 0,
                decreases rows - w,
            {
                col.push(FieldElement::zero());
                w = w + 1;
            }
            cols.push(col);
            c = c + 1;
        }
        Grid { columns: cols }
    }

    /// Assigns one cell, leaving every other cell as it was.
    pub fn set(&mut self, column: usize, row: usize, value: FieldElement)
        requires
            column < old(self).columns@.len(),
            row < old(self).columns@[column as int]@.len(),
        ensures
            final(self).columns@.len() == old(self).columns@.len(),
            forall|c: int|
                0 <= c < final(self).columns@.len() ==> (#[trigger] final(self).columns@[c])@.len()
                    == old(self).columns@[c]@.len(),
            cell_value(*final(self), column as int, row as int) == value@,
            forall|c: int, w: int|
                !(c == column && w == row) ==> cell_value(*final(self), c, w) == cell_value(
                    *old(self),
                    c,
                    w,
                ),
    {
        let mut col: Vec<FieldElement> = Vec::new();
        std::mem::swap(&mut col, &mut self.columns[column]);
        col.set(row, value);
        self.columns.set(column, col);
    }

    pub fn get(&self, column: usize, row: usize) -> (r: FieldElement)
        requires
            column < self.columns@.len(),
            row < self.columns@[column as int]@.len(),
        ensures
            r@ == cell_value(*self, column as int, row as int),
    {
        self.columns[column][row]
    }

    /// The value of a cell; cells outside the grid read as zero.
    pub fn value_at(&self, column: usize, row: usize) -> (r: FieldElement)
        ensures
            r@ == cell_value(*self, column as int, row as int),
    {
        if column < self.columns.len() && row < self.columns[column].len() {
            self.columns[column][row]
        } else {
            FieldElement::zero()
        }
    }
}

/// Evaluates a polynomial on a row of the grid.
pub fn eval_expr(e: &Expr, g: &Grid, row: usize) -> (r: FieldElement)
    ensures
        r@ == eval(*e, *g, row as int),
    decreases e,
{
    match e {
        Expr::Constant(c) => {
            let v = FieldElement::from_u128(*c);
            proof {
                FieldElement::lemma_in_range(v);
                lemma_small(v@);
            }
            v
        },
        Expr::Advice(col, rot) => {
            if *col < g.columns.len() && row as u128 + *rot as u128 > usize::MAX as u128 {
                let len = g.columns[*col].len();
                assert(row + *rot > len);
                FieldElement::zero()
            } else if row as u128 + *rot as u128 > usize::MAX as u128 {
                FieldElement::zero()
            } else {
                g.value_at(*col, row + *rot)
            }
        },
        Expr::Sum(a, b) => eval_expr(a, g, row).add(&eval_expr(b, g, row)),
        Expr::Difference(a, b) => eval_expr(a, g, row).sub(&eval_expr(b, g, row)),
        Expr::Product(a, b) => eval_expr(a, g, row).mul(&eval_expr(b, g, row)),
    }
}


/// Whether two elements stand for the same field value.
pub fn same_value(a: &FieldElement, b: &FieldElement) -> (r: bool)
    ensures
        r == (a@ == b@),
{
    proof {
        FieldElement::lemma_in_range(*a);
        FieldElement::lemma_in_range(*b);
        lemma_difference_zero(a@, b@);
    }
    a.sub(b).is_zero()
}

fn column_has_equality(shape: &CircuitShape, column: usize) -> (r: bool)
    ensures
        r == shape.equality@.contains(column),
{
    let mut i: usize = 0;
    while i < shape.equality.len()
        invariant
            i <= shape.equality@.len(),
            forall|j: int| 0 <= j < i ==> shape.equality@[j] != column,
        decreases shape.equality@.len() - i,
    {
        if shape.equality[i] == column {
            return true;
        }
        i = i + 1;
    }
    false
}

fn check_cell(shape: &CircuitShape, layout: &Layout, c: CellRef) -> (r: bool)
    ensures
        r == cell_fits(*shape, *layout, c),
{
    c.column < shape.num_advice && c.row < layout.rows && column_has_equality(shape, c.column)
}

/// Decides `layout_fits`.
pub fn check_layout(shape: &CircuitShape, layout: &Layout) -> (r: bool)
    ensures
        r == layout_fits(*shape, *layout),
{
    let mut k: usize = 0;
    while k < layout.enabled.len()
        invariant
            k <= layout.enabled@.len(),
            forall|i: int|
                0 <= i < k ==> {
                    let (s, r) = #[trigger] layout.enabled@[i];
                    s < shape.num_selectors && r < layout.rows
                },
        decreases layout.enabled@.len() - k,
    {
        let (s, r) = layout.enabled[k];
        if !(s < shape.num_selectors && r < layout.rows) {
            return false;
        }
        k = k + 1;
    }
    let mut k: usize = 0;
    while k < layout.copies.len()
        invariant
            k <= layout.copies@.len(),
            forall|i: int|
                0 <= i < k ==> cell_fits(*shape, *layout, (#[trigger] layout.copies@[i]).0)
                    && cell_fits(*shape, *layout, layout.copies@[i].1),
        decreases layout.copies@.len() - k,
    {
        let (a, b) = layout.copies[k];
        if !(check_cell(shape, layout, a) && check_cell(shape, layout, b)) {
            return false;
        }
        k = k + 1;
    }
    let mut k: usize = 0;
    while k < layout.bindings.len()
        invariant
            k <= layout.bindings@.len(),
            forall|i: int| 0 <= i < k ==> cell_fits(*shape, *layout, #[trigger] layout.bindings@[i]),
        decreases layout.bindings@.len() - k,
    {
        if !check_cell(shape, layout, layout.bindings[k]) {
            return false;
        }
        k = k + 1;
    }
    layout.bindings.len() == shape.num_public
}

/// Decides `grid_fits`.
pub fn check_grid(shape: &CircuitShape, layout: &Layout, g: &Grid) -> (r: bool)
    ensures
        r == grid_fits(*shape, *layout, *g),
{
    if g.columns.len() != shape.num_advice {
        return false;
    }
    let mut c: usize = 0;
    while c < g.columns.len()
        invariant
            c <= g.columns@.len(),
            forall|i: int| 0 <= i < c ==> (#[trigger] g.columns@[i])@.len() == layout.rows,
        decreases g.columns@.len() - c,
    {
        if g.columns[c].len() != layout.rows {
            return false;
        }
        c = c + 1;
    }
    true
}

/// Decides `gates_hold`.
pub fn check_gates(shape: &CircuitShape, layout: &Layout, g: &Grid) -> (r: bool)
    ensures
        r == gates_hold(*shape, *layout, *g),
{
    let mut k: usize = 0;
    while k < layout.enabled.len()
        invariant
            k <= layout.enabled@.len(),
            forall|k2: int, j: int, p: int|
                0 <= k2 < k && 0 <= j < shape.gates@.len() && (#[trigger] shape.gates@[j]).selector
                    == (#[trigger] layout.enabled@[k2]).0 && 0 <= p < shape.gates@[j].polys@.len()
                    ==> eval(#[trigger] shape.gates@[j].polys@[p], *g, layout.enabled@[k2].1 as int)
                    == 0,
        decreases layout.enabled@.len() - k,
    {
        let (sel, row) = layout.enabled[k];
        let mut j: usize = 0;
        while j < shape.gates.len()
            invariant
                k < layout.enabled@.len(),
                (sel, row) == layout.enabled@[k as int],
                j <= shape.gates@.len(),
                forall|k2: int, j2: int, p: int|
                    0 <= k2 < k && 0 <= j2 < shape.gates@.len() && (#[trigger] shape.gates@[j2]).selector
                        == (#[trigger] layout.enabled@[k2]).0 && 0 <= p < shape.gates@[j2].polys@.len()
                        ==> eval(#[trigger] shape.gates@[j2].polys@[p], *g, layout.enabled@[k2].1 as int)
                        == 0,
                forall|j2: int, p: int|
                    0 <= j2 < j && (#[trigger] shape.gates@[j2]).selector == sel && 0 <= p
                        < shape.gates@[j2].polys@.len() ==> eval(
                        #[trigger] shape.gates@[j2].polys@[p],
                        *g,
                        row as int,
                    ) == 0,
            decreases shape.gates@.len() - j,
        {
            let gate = &shape.gates[j];
            if gate.selector == sel {
                let mut p: usize = 0;
                while p < gate.polys.len()
                    invariant
                        j < shape.gates@.len(),
                        *gate == shape.gates@[j as int],
                        k < layout.enabled@.len(),
                        (sel, row) == layout.enabled@[k as int],
                        gate.selector == sel,
                        p <= gate.polys@.len(),
                        forall|p2: int| 0 <= p2 < p ==> eval(#[trigger] gate.polys@[p2], *g, row as int) == 0,
                    decreases gate.polys@.len() - p,
                {
                    if !eval_expr(&gate.polys[p], g, row).is_zero() {
                        assert(!gates_hold(*shape, *layout, *g)) by {
                            let e = shape.gates@[j as int].polys@[p as int];
                            assert(shape.gates@[j as int].selector == layout.enabled@[k as int].0);
                            assert(eval(e, *g, layout.enabled@[k as int].1 as int) != 0);
                        }
                        return false;
                    }
                    p = p + 1;
                }
            }
            j = j + 1;
        }
        k = k + 1;
    }
    true
}

/// Decides `copies_hold`.
pub fn check_copies(layout: &Layout, g: &Grid) -> (r: bool)
    ensures
        r == copies_hold(*layout, *g),
{
    let mut k: usize = 0;
    while k < layout.copies.len()
        invariant
            k <= layout.copies@.len(),
            forall|i: int|
                0 <= i < k ==> {
                    let (a, b) = #[trigger] layout.copies@[i];
                    cell_value(*g, a.column as int, a.row as int) == cell_value(
                        *g,
                        b.column as int,
                        b.row as int,
                    )
                },
        decreases layout.copies@.len() - k,
    {
        let (a, b) = layout.copies[k];
        if !same_value(&g.value_at(a.column, a.row), &g.value_at(b.column, b.row)) {
            return false;
        }
        k = k + 1;
    }
    true
}

/// Decides `bindings_hold`.
pub fn check_bindings(layout: &Layout, g: &Grid, public: &Vec<FieldElement>) -> (r: bool)
    ensures
        r == bindings_hold(*layout, *g, public@),
{
    if public.len() != layout.bindings.len() {
        return false;
    }
    let mut i: usize = 0;
    while i < public.len()
        invariant
            public@.len() == layout.bindings@.len(),
            i <= public@.len(),
            forall|i2: int|
                0 <= i2 < i ==> {
                    let c = #[trigger] layout.bindings@[i2];
                    cell_value(*g, c.column as int, c.row as int) == public@[i2]@
                },
        decreases public@.len() - i,
    {
        let c = layout.bindings[i];
        if !same_value(&g.value_at(c.column, c.row), &public[i]) {
            return false;
        }
        i = i + 1;
    }
    true
}

/// Whether the assignment satisfies the circuit for these public values: the
/// decision that a backend's verifier makes about a genuine witness.
pub fn is_satisfied(shape: &CircuitShape, layout: &Layout, g: &Grid, public: &Vec<FieldElement>) -> (r:
    bool)
    ensures
        r == satisfied(*shape, *layout, *g, public@),
{
    check_layout(shape, layout) && check_grid(shape, layout, g) && check_gates(shape, layout, g)
        && check_copies(layout, g) && check_bindings(layout, g, public)
}

/// A layout binds public values to cells, so one assignment satisfies a circuit
/// for at most one vector of public values.
pub proof fn lemma_public_values_determined(
    shape: CircuitShape,
    layout: Layout,
    g: Grid,
    public1: Seq<FieldElement>,
    public2: Seq<FieldElement>,
)
    requires
        satisfied(shape, layout, g, public1),
        satisfied(shape, layout, g, public2),
    ensures
        public1.len() == public2.len(),
        forall|i: int| 0 <= i < public1.len() ==> (#[trigger] public1[i])@ == public2[i]@,
{
    assert forall|i: int| 0 <= i < public1.len() implies (#[trigger] public1[i])@ == public2[i]@ by {
        let c = layout.bindings@[i];
        assert(cell_value(g, c.column as int, c.row as int) == public1[i]@);
        assert(cell_value(g, c.column as int, c.row as int) == public2[i]@);
    }
}

} // verus!
