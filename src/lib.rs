//! A small zero-knowledge circuit library: a constraint-system model with a
//! satisfaction checker, reusable gadgets, concrete circuits, field arithmetic
//! over the Pasta base field, and the byte encodings used at the boundary with
//! callers.

pub mod adapter;
pub mod age;
pub mod constraint;
pub mod decimal;
pub mod encoding;
pub mod field;
pub mod gadgets;
pub mod pipeline;
pub mod placeholder;
pub mod range;
pub mod requests;
pub mod square;
pub mod value;

pub use adapter::{CircuitAdapter, CircuitInfo, CircuitType, ProofResult};
pub use age::AgeVerificationCircuitV2;
pub use constraint::{CircuitShape, Grid, Layout, SynthesisError};
pub use encoding::EncodingError;
pub use field::FieldElement;
pub use pipeline::{ProofError, ProvingInput};
pub use placeholder::{AgeVerificationCircuit, BalanceProofCircuit, MerkleProofCircuit, VotingCircuit};
pub use range::RangeProofCircuit;
pub use square::SquareCircuit;
pub use value::{SimpleProofSystem, SimpleValue};
