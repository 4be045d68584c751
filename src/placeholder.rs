//! Scaffolding circuits. Each binds one public output to a cell that is
//! assigned a value without any constraint tying it to the private inputs, so
//! none of them is a sound relation; they only fix a shape for key generation
//! and proving until the real constraints are written.

use crate::age::commitment_of;
use crate::constraint::{cell_value, CellRef, CircuitShape, Gate, Grid, Layout};
use crate::field::FieldElement;
use vstd::prelude::*;

verus! {

/// One equality-enabled advice column bound to one public value, no gates.
pub open spec fn is_single_output_shape(s: CircuitShape) -> bool {
    &&& s.num_advice == 1
    &&& s.num_selectors == 0
    &&& s.num_public == 1
    &&& s.gates@.len() == 0
    &&& s.equality@ == seq![0usize]
}

pub open spec fn is_single_output_layout(l: Layout) -> bool {
    &&& l.rows == 1
    &&& l.enabled@.len() == 0
    &&& l.copies@.len() == 0
    &&& l.bindings@ == seq![CellRef { column: 0, row: 0 }]
}

pub open spec fn is_single_output_grid(g: Grid, v: nat) -> bool {
    &&& g.columns@.len() == 1
    &&& g.columns@[0]@.len() == 1
    &&& cell_value(g, 0, 0) == v
}

pub fn single_output_shape() -> (r: CircuitShape)
    ensures
        is_single_output_shape(r),
{
    let gates: Vec<Gate> = Vec::new();
    let r = CircuitShape { num_advice: 1, num_selectors: 0, num_public: 1, gates, equality: vec![0usize] };
    assert(r.equality@ =~= seq![0usize]);
    r
}

pub fn single_output_layout() -> (r: Layout)
    ensures
        is_single_output_layout(r),
{
    let r = Layout {
        rows: 1,
        enabled: Vec::new(),
        copies: Vec::new(),
        bindings: vec![CellRef { column: 0, row: 0 }],
    };
    assert(r.bindings@ =~= seq![CellRef { column: 0, row: 0 }]);
    r
}

pub fn single_output_grid(v: FieldElement) -> (r: Grid)
    ensures
        is_single_output_grid(r, v@),
{
    let mut g = Grid::zeros(1, 1);
    g.set(0, 0, v);
    g
}

/// Age check scaffolding: the output is always 1.
#[derive(Clone, Copy, Debug)]
pub struct AgeVerificationCircuit {
    pub age: Option<u64>,
    pub min_age: Option<u64>,
    pub max_age: Option<u64>,
}

/// Balance check scaffolding: the `sufficient` output is always 1.
#[derive(Clone, Copy, Debug)]
pub struct BalanceProofCircuit {
    pub balance: Option<u64>,
    pub required_amount: Option<u64>,
}

/// Merkle membership scaffolding: the root is assigned, no path is checked.
#[derive(Clone, Copy, Debug)]
pub struct MerkleProofCircuit {
    pub leaf: Option<FieldElement>,
    pub root: Option<FieldElement>,
}

/// Voting scaffolding: the vote-hash output is always 1.
#[derive(Clone, Copy, Debug)]
pub struct VotingCircuit {
    pub voter_secret: Option<FieldElement>,
    pub vote: Option<u8>,
    pub merkle_root: Option<FieldElement>,
}

impl AgeVerificationCircuit {
    pub fn without_witnesses(&self) -> (r: Self)
        ensures
            r.age is None && r.min_age is None && r.max_age is None,
    {
        AgeVerificationCircuit { age: None, min_age: None, max_age: None }
    }

    pub fn configure() -> (r: CircuitShape)
        ensures
            is_single_output_shape(r),
    {
        single_output_shape()
    }

    pub fn layout(&self) -> (r: Layout)
        ensures
            is_single_output_layout(r),
    {
        single_output_layout()
    }

    pub fn synthesize(&self) -> (r: Grid)
        ensures
            is_single_output_grid(r, 1),
    {
        single_output_grid(FieldElement::one())
    }
}

impl BalanceProofCircuit {
    pub fn without_witnesses(&self) -> (r: Self)
        ensures
            r.balance is None && r.required_amount is None,
    {
        BalanceProofCircuit { balance: None, required_amount: None }
    }

    pub fn configure() -> (r: CircuitShape)
        ensures
            is_single_output_shape(r),
    {
        single_output_shape()
    }

    pub fn layout(&self) -> (r: Layout)
        ensures
            is_single_output_layout(r),
    {
        single_output_layout()
    }

    pub fn synthesize(&self) -> (r: Grid)
        ensures
            is_single_output_grid(r, 1),
    {
        single_output_grid(FieldElement::one())
    }
}

impl MerkleProofCircuit {
    pub fn without_witnesses(&self) -> (r: Self)
        ensures
            r.leaf is None && r.root is None,
    {
        MerkleProofCircuit { leaf: None, root: None }
    }

    pub fn configure() -> (r: CircuitShape)
        ensures
            is_single_output_shape(r),
    {
        single_output_shape()
    }

    pub fn layout(&self) -> (r: Layout)
        ensures
            is_single_output_layout(r),
    {
        single_output_layout()
    }

    /// Assigns the root, or zero when it is missing.
    pub fn synthesize(&self) -> (r: Grid)
        ensures
            is_single_output_grid(
                r,
                match self.root {
                    Some(root) => root@,
                    None => 0,
                },
            ),
    {
        match self.root {
            Some(root) => single_output_grid(root),
            None => single_output_grid(FieldElement::zero()),
        }
    }
}

impl VotingCircuit {
    pub fn without_witnesses(&self) -> (r: Self)
        ensures
            r.voter_secret is None && r.vote is None && r.merkle_root is None,
    {
        VotingCircuit { voter_secret: None, vote: None, merkle_root: None }
    }

    pub fn configure() -> (r: CircuitShape)
        ensures
            is_single_output_shape(r),
    {
        single_output_shape()
    }

    pub fn layout(&self) -> (r: Layout)
        ensures
            is_single_output_layout(r),
    {
        single_output_layout()
    }

    pub fn synthesize(&self) -> (r: Grid)
        ensures
            is_single_output_grid(r, 1),
    {
        single_output_grid(FieldElement::one())
    }
}

/// The commitment that a balance record carries: the balance and account
/// committed together, then committed with the salt.
pub open spec fn balance_commitment_of(balance: nat, account_id: nat, salt: nat) -> nat {
    commitment_of(commitment_of(balance, account_id), salt)
}

pub fn balance_commitment(balance: u64, account_id: &FieldElement, salt: &FieldElement) -> (r: FieldElement)
    ensures
        r@ == balance_commitment_of(balance as nat, account_id@, salt@),
{
    let inner = crate::age::commit(&FieldElement::from_u64(balance), account_id);
    crate::age::commit(&inner, salt)
}

/// The `sufficient` flag that a balance record carries.
pub fn balance_sufficient(balance: u64, required_amount: u64) -> (r: bool)
    ensures
        r == (balance >= required_amount),
{
    balance >= required_amount
}

} // verus!
