//! Turning a witnessed circuit into what the proving backend consumes: the
//! shape, the layout (checked against the one key generation used), the
//! assignment (checked against every gate, copy and binding) and the public
//! values.

use crate::age::{
    age_public_values, is_age_assignment, is_age_layout, is_age_shape, lemma_age_complete, AgeVerificationCircuitV2,
};
use crate::constraint::{is_satisfied, satisfied, CellRef, CircuitShape, Grid, Layout, SynthesisError};
use crate::field::{modulus, FieldElement};
use crate::placeholder::{
    AgeVerificationCircuit, BalanceProofCircuit, MerkleProofCircuit, VotingCircuit,
};
use crate::range::{
    is_range_grid, is_range_layout, is_range_shape, lemma_range_complete, RangeProofCircuit,
};
use crate::square::{
    is_square_grid, is_square_layout, is_square_shape, lemma_square_relation, SquareCircuit,
};
use vstd::arithmetic::power2::pow2;
use vstd::prelude::*;

verus! {

/// Why a proving attempt stopped before the backend was called.
#[derive(Debug, Clone, Copy, PartialEq, Eq, Structural)]
pub enum ProofError {
    /// The witnessed instance laid itself out differently from the witness-free
    /// instance that the keys were made from.
    ShapeMismatch,
    /// The witness could not be assigned.
    Synthesis(SynthesisError),
    /// The assignment breaks a gate, a copy or a public binding.
    Unsatisfied,
}

/// Everything the backend needs for one proof.
pub struct ProvingInput {
    pub shape: CircuitShape,
    pub layout: Layout,
    pub grid: Grid,
    pub public: Vec<FieldElement>,
}

pub open spec fn layouts_equal(a: Layout, b: Layout) -> bool {
    &&& a.rows == b.rows
    &&& a.enabled@ == b.enabled@
    &&& a.copies@ == b.copies@
    &&& a.bindings@ == b.bindings@
}

/// The layout a proof is made under is the one its keys were made under.
pub fn same_layout(a: &Layout, b: &Layout) -> (r: bool)
    ensures
        r == layouts_equal(*a, *b),
{
    if a.rows != b.rows || a.enabled.len() != b.enabled.len() || a.copies.len() != b.copies.len()
        || a.bindings.len() != b.bindings.len() {
        return false;
    }
    let mut i: usize = 0;
    while i < a.enabled.len()
        invariant
            i <= a.enabled@.len() == b.enabled@.len(),
            forall|j: int| 0 <= j < i ==> a.enabled@[j] == b.enabled@[j],
        decreases a.enabled@.len() - i,
    {
        let (s1, r1) = a.enabled[i];
        let (s2, r2) = b.enabled[i];
        if s1 != s2 || r1 != r2 {
            return false;
        }
        i = i + 1;
    }
    assert(a.enabled@ =~= b.enabled@);
    let mut i: usize = 0;
    while i < a.copies.len()
        invariant
            i <= a.copies@.len() == b.copies@.len(),
            forall|j: int| 0 <= j < i ==> a.copies@[j] == b.copies@[j],
        decreases a.copies@.len() - i,
    {
        let (x1, y1) = a.copies[i];
        let (x2, y2) = b.copies[i];
        if x1 != x2 || y1 != y2 {
            return false;
        }
        i = i + 1;
    }
    assert(a.copies@ =~= b.copies@);
    let mut i: usize = 0;
    while i < a.bindings.len()
        invariant
            i <= a.bindings@.len() == b.bindings@.len(),
            forall|j: int| 0 <= j < i ==> a.bindings@[j] == b.bindings@[j],
        decreases a.bindings@.len() - i,
    {
        if a.bindings[i] != b.bindings[i] {
            return false;
        }
        i = i + 1;
    }
    assert(a.bindings@ =~= b.bindings@);
    true
}

/// Checks an assignment against the key-generation layout and the shape.
pub fn check_assignment(
    shape: CircuitShape,
    keygen_layout: &Layout,
    layout: Layout,
    grid: Grid,
    public: Vec<FieldElement>,
) -> (r: Result<ProvingInput, ProofError>)
    ensures
        match r {
            Ok(p) => layouts_equal(*keygen_layout, layout) && satisfied(shape, layout, grid, public@)
                && p == (ProvingInput { shape, layout, grid, public }),
            Err(ProofError::ShapeMismatch) => !layouts_equal(*keygen_layout, layout),
            Err(ProofError::Unsatisfied) => layouts_equal(*keygen_layout, layout) && !satisfied(
                shape,
                layout,
                grid,
                public@,
            ),
            Err(_) => false,
        },
{
    if !same_layout(keygen_layout, &layout) {
        return Err(ProofError::ShapeMismatch);
    }
    if !is_satisfied(&shape, &layout, &grid, &public) {
        return Err(ProofError::Unsatisfied);
    }
    Ok(ProvingInput { shape, layout, grid, public })
}

/// Prepares a square proof: always possible once `x` is known, with public value `x^2`.
pub fn prepare_square(circuit: &SquareCircuit) -> (r: Result<ProvingInput, ProofError>)
    ensures
        match circuit.x {
            None => r == Err::<ProvingInput, ProofError>(ProofError::Synthesis(SynthesisError::MissingWitness)),
            Some(x) => match r {
                Ok(p) => satisfied(p.shape, p.layout, p.grid, p.public@) && p.public@.len() == 1
                    && p.public@[0]@ == (x@ * x@) % modulus() && is_square_shape(p.shape)
                    && is_square_layout(p.layout) && is_square_grid(p.grid, x@),
                Err(_) => false,
            },
        },
{
    let x = match circuit.x {
        Some(x) => x,
        None => {
            return Err(ProofError::Synthesis(SynthesisError::MissingWitness));
        },
    };
    let keygen_layout = circuit.without_witnesses().layout();
    let shape = SquareCircuit::configure();
    let layout = circuit.layout();
    let grid = circuit.synthesize();
    let public = circuit.public_inputs();
    proof {
        FieldElement::lemma_in_range(x);
        lemma_square_relation(shape, layout, grid, x@, public@);
        assert(keygen_layout.enabled@ =~= layout.enabled@);
        assert(keygen_layout.copies@ =~= layout.copies@);
    }
    check_assignment(shape, &keygen_layout, layout, grid, public)
}

/// Prepares a range proof: possible exactly when the value fits in `N` bits,
/// with public value 1.
pub fn prepare_range<const N: usize>(circuit: &RangeProofCircuit<N>) -> (r: Result<ProvingInput, ProofError>)
    requires
        N <= 64,
    ensures
        match circuit.value {
            None => r == Err::<ProvingInput, ProofError>(ProofError::Synthesis(SynthesisError::MissingWitness)),
            Some(v) => match r {
                Ok(p) => v < pow2(N as nat) && satisfied(p.shape, p.layout, p.grid, p.public@)
                    && p.public@.len() == 1 && p.public@[0]@ == 1 && is_range_shape(p.shape)
                    && is_range_layout(p.layout, N as nat) && is_range_grid(p.grid, N as nat, v as nat),
                Err(e) => v >= pow2(N as nat) && e == ProofError::Synthesis(SynthesisError::OutOfRange),
            },
        },
{
    let shape = RangeProofCircuit::<N>::configure();
    let keygen_layout = circuit.without_witnesses().layout();
    let layout = circuit.layout();
    let grid = match circuit.synthesize() {
        Ok(g) => g,
        Err(e) => {
            return Err(ProofError::Synthesis(e));
        },
    };
    let public = circuit.public_inputs();
    proof {
        let v = circuit.value.unwrap();
        lemma_range_complete(shape, layout, grid, N as nat, v as nat, public@);
        assert(keygen_layout.enabled@ =~= layout.enabled@);
        assert(keygen_layout.copies@ =~= layout.copies@);
    }
    check_assignment(shape, &keygen_layout, layout, grid, public)
}

/// Prepares an age proof: possible exactly when the age fits in 8 bits, for
/// any 64-bit bounds, with public values commitment, bounds and `valid`.
pub fn prepare_age(circuit: &AgeVerificationCircuitV2) -> (r: Result<ProvingInput, ProofError>)
    ensures
        match (circuit.age, circuit.salt, circuit.min_age, circuit.max_age) {
            (Some(age), Some(salt), Some(min), Some(max)) => match r {
                Ok(p) => satisfied(p.shape, p.layout, p.grid, p.public@) && is_age_shape(p.shape)
                    && is_age_layout(p.layout) && is_age_assignment(p.grid, age as nat, salt@, min as nat, max as nat) && p.public@.len() == 4
                    && forall|i: int|
                    0 <= i < 4 ==> (#[trigger] p.public@[i])@ == age_public_values(
                        age as nat,
                        salt@,
                        min as nat,
                        max as nat,
                    )[i],
                Err(e) => e == ProofError::Synthesis(SynthesisError::OutOfRange) && age >= 256,
            },
            _ => r == Err::<ProvingInput, ProofError>(ProofError::Synthesis(SynthesisError::MissingWitness)),
        },
{
    let shape = AgeVerificationCircuitV2::configure();
    let keygen_layout = circuit.without_witnesses().layout();
    let layout = circuit.layout();
    let grid = match circuit.synthesize() {
        Ok(g) => g,
        Err(e) => {
            return Err(ProofError::Synthesis(e));
        },
    };
    let public = circuit.public_inputs();
    proof {
        let salt = circuit.salt.unwrap();
        FieldElement::lemma_in_range(salt);
        lemma_age_complete(
            shape,
            layout,
            grid,
            circuit.age.unwrap() as nat,
            salt@,
            circuit.min_age.unwrap() as nat,
            circuit.max_age.unwrap() as nat,
            public@,
        );
    }
    check_assignment(shape, &keygen_layout, layout, grid, public)
}

fn prepare_single_output(shape: CircuitShape, keygen_layout: &Layout, layout: Layout, grid: Grid, output: FieldElement) -> (r: Result<ProvingInput, ProofError>)
    requires
        crate::placeholder::is_single_output_shape(shape),
        crate::placeholder::is_single_output_layout(*keygen_layout),
        crate::placeholder::is_single_output_layout(layout),
        crate::placeholder::is_single_output_grid(grid, output@),
    ensures
        r matches Ok(p) && satisfied(p.shape, p.layout, p.grid, p.public@) && p.public@ == seq![output],
{
    let public = vec![output];
    proof {
        assert(keygen_layout.bindings@ =~= layout.bindings@);
        assert(keygen_layout.enabled@ =~= layout.enabled@);
        assert(keygen_layout.copies@ =~= layout.copies@);
        assert(shape.equality@[0] == 0usize);
        assert(layout.bindings@[0] == CellRef { column: 0, row: 0 });
        assert(public@ =~= seq![output]);
    }
    check_assignment(shape, keygen_layout, layout, grid, public)
}

/// Scaffolding: the public output is 1 whatever the inputs.
pub fn prepare_age_basic(circuit: &AgeVerificationCircuit) -> (r: Result<ProvingInput, ProofError>)
    ensures
        r matches Ok(p) && satisfied(p.shape, p.layout, p.grid, p.public@) && p.public@.len() == 1
            && p.public@[0]@ == 1,
{
    let keygen_layout = circuit.without_witnesses().layout();
    prepare_single_output(
        AgeVerificationCircuit::configure(),
        &keygen_layout,
        circuit.layout(),
        circuit.synthesize(),
        FieldElement::one(),
    )
}

/// Scaffolding: the `sufficient` output is 1 whatever the inputs.
pub fn prepare_balance(circuit: &BalanceProofCircuit) -> (r: Result<ProvingInput, ProofError>)
    ensures
        r matches Ok(p) && satisfied(p.shape, p.layout, p.grid, p.public@) && p.public@.len() == 1
            && p.public@[0]@ == 1,
{
    let keygen_layout = circuit.without_witnesses().layout();
    prepare_single_output(
        BalanceProofCircuit::configure(),
        &keygen_layout,
        circuit.layout(),
        circuit.synthesize(),
        FieldElement::one(),
    )
}

/// Scaffolding: the public output is the root itself, or zero when it is missing.
pub fn prepare_merkle(circuit: &MerkleProofCircuit) -> (r: Result<ProvingInput, ProofError>)
    ensures
        r matches Ok(p) && satisfied(p.shape, p.layout, p.grid, p.public@) && p.public@.len() == 1
            && p.public@[0]@ == match circuit.root {
            Some(root) => root@,
            None => 0,
        },
{
    let keygen_layout = circuit.without_witnesses().layout();
    let root = match circuit.root {
        Some(root) => root,
        None => FieldElement::zero(),
    };
    prepare_single_output(
        MerkleProofCircuit::configure(),
        &keygen_layout,
        circuit.layout(),
        circuit.synthesize(),
        root,
    )
}

/// Scaffolding: the vote-hash output is 1 whatever the inputs.
pub fn prepare_voting(circuit: &VotingCircuit) -> (r: Result<ProvingInput, ProofError>)
    ensures
        r matches Ok(p) && satisfied(p.shape, p.layout, p.grid, p.public@) && p.public@.len() == 1
            && p.public@[0]@ == 1,
{
    let keygen_layout = circuit.without_witnesses().layout();
    prepare_single_output(
        VotingCircuit::configure(),
        &keygen_layout,
        circuit.layout(),
        circuit.synthesize(),
        FieldElement::one(),
    )
}

} // verus!
