//! The closed catalogue of circuit kinds and their descriptions.

use std::collections::HashMap;
use vstd::prelude::*;
use vstd::string::StringExecFns;

verus! {

/// The kinds of statement this library can prove.
#[derive(Debug, Clone, Copy, PartialEq, Eq, Structural)]
pub enum CircuitType {
    Square,
    AgeVerification,
    BalanceProof,
    RangeProof,
    MerkleProof,
    Voting,
}

/// A proof together with named public outputs.
pub struct ProofResult {
    pub proof: Vec<u8>,
    pub public_outputs: HashMap<String, String>,
}

/// Describes one circuit kind: its name, inputs, outputs and maturity.
pub struct CircuitInfo {
    pub name: String,
    pub description: String,
    pub inputs: Vec<String>,
    pub outputs: Vec<String>,
    pub status: String,
}

/// Hands out descriptions of the circuit kinds.
pub struct CircuitAdapter;

/// Every circuit kind, in catalogue order.
pub open spec fn all_circuit_types() -> Seq<CircuitType> {
    seq![
        CircuitType::Square,
        CircuitType::AgeVerification,
        CircuitType::BalanceProof,
        CircuitType::RangeProof,
        CircuitType::MerkleProof,
        CircuitType::Voting,
    ]
}

pub open spec fn circuit_name(t: CircuitType) -> Seq<char> {
    match t {
        CircuitType::Square => "Square"@,
        CircuitType::AgeVerification => "AgeVerification"@,
        CircuitType::BalanceProof => "BalanceProof"@,
        CircuitType::RangeProof => "RangeProof"@,
        CircuitType::MerkleProof => "MerkleProof"@,
        CircuitType::Voting => "Voting"@,
    }
}

pub open spec fn circuit_description(t: CircuitType) -> Seq<char> {
    match t {
        CircuitType::Square => "证明知道 x 使得 y = x²"@,
        CircuitType::AgeVerification => "证明年龄在范围内"@,
        CircuitType::BalanceProof => "证明余额充足"@,
        CircuitType::RangeProof => "证明值在范围内"@,
        CircuitType::MerkleProof => "证明叶子在默克尔树中"@,
        CircuitType::Voting => "匿名投票"@,
    }
}

pub open spec fn circuit_inputs(t: CircuitType) -> Seq<Seq<char>> {
    match t {
        CircuitType::Square => seq!["x"@],
        CircuitType::AgeVerification => seq!["age"@, "minAge"@, "maxAge"@],
        CircuitType::BalanceProof => seq!["balance"@, "requiredAmount"@],
        CircuitType::RangeProof => seq!["value"@, "bits"@],
        CircuitType::MerkleProof => seq!["leaf"@, "root"@],
        CircuitType::Voting => seq!["voterSecret"@, "vote"@],
    }
}

pub open spec fn circuit_outputs(t: CircuitType) -> Seq<Seq<char>> {
    match t {
        CircuitType::Square => seq!["y"@],
        CircuitType::AgeVerification => seq!["valid"@],
        CircuitType::BalanceProof => seq!["sufficient"@],
        CircuitType::RangeProof => seq!["valid"@],
        CircuitType::MerkleProof => seq!["root"@],
        CircuitType::Voting => seq!["voteHash"@],
    }
}

/// Square and RangeProof are complete relations; the others are scaffolding.
pub open spec fn circuit_status(t: CircuitType) -> Seq<char> {
    match t {
        CircuitType::Square | CircuitType::RangeProof => "Production"@,
        _ => "Basic Framework"@,
    }
}

pub open spec fn strings_match(v: Seq<String>, s: Seq<Seq<char>>) -> bool {
    v.len() == s.len() && forall|i: int| 0 <= i < v.len() ==> #[trigger] v[i]@ == s[i]
}

/// What `get_circuit_info` returns for `t`.
pub open spec fn info_matches(r: CircuitInfo, t: CircuitType) -> bool {
    &&& r.name@ == circuit_name(t)
    &&& r.description@ == circuit_description(t)
    &&& strings_match(r.inputs@, circuit_inputs(t))
    &&& strings_match(r.outputs@, circuit_outputs(t))
    &&& r.status@ == circuit_status(t)
}

fn string_list_1(a: &str) -> (r: Vec<String>)
    ensures
        strings_match(r@, seq![a@]),
{
    let mut r: Vec<String> = Vec::new();
    r.push(String::from_str(a));
    r
}

fn string_list_2(a: &str, b: &str) -> (r: Vec<String>)
    ensures
        strings_match(r@, seq![a@, b@]),
{
    let mut r: Vec<String> = Vec::new();
    r.push(String::from_str(a));
    r.push(String::from_str(b));
    r
}

fn string_list_3(a: &str, b: &str, c: &str) -> (r: Vec<String>)
    ensures
        strings_match(r@, seq![a@, b@, c@]),
{
    let mut r: Vec<String> = Vec::new();
    r.push(String::from_str(a));
    r.push(String::from_str(b));
    r.push(String::from_str(c));
    r
}

fn make_info(
    name: &str,
    description: &str,
    inputs: Vec<String>,
    outputs: Vec<String>,
    status: &str,
) -> (r: CircuitInfo)
    ensures
        r.name@ == name@,
        r.description@ == description@,
        r.inputs@ == inputs@,
        r.outputs@ == outputs@,
        r.status@ == status@,
{
    CircuitInfo {
        name: String::from_str(name),
        description: String::from_str(description),
        inputs,
        outputs,
        status: String::from_str(status),
    }
}

impl CircuitAdapter {
    pub fn new() -> (r: Self) {
        CircuitAdapter
    }

    /// The description of one circuit kind.
    pub fn get_circuit_info(&self, circuit_type: CircuitType) -> (r: CircuitInfo)
        ensures
            info_matches(r, circuit_type),
    {
        match circuit_type {
            CircuitType::Square => make_info(
                "Square",
                "证明知道 x 使得 y = x²",
                string_list_1("x"),
                string_list_1("y"),
                "Production",
            ),
            CircuitType::AgeVerification => make_info(
                "AgeVerification",
                "证明年龄在范围内",
                string_list_3("age", "minAge", "maxAge"),
                string_list_1("valid"),
                "Basic Framework",
            ),
            CircuitType::BalanceProof => make_info(
                "BalanceProof",
                "证明余额充足",
                string_list_2("balance", "requiredAmount"),
                string_list_1("sufficient"),
                "Basic Framework",
            ),
            CircuitType::RangeProof => make_info(
                "RangeProof",
                "证明值在范围内",
                string_list_2("value", "bits"),
                string_list_1("valid"),
                "Production",
            ),
            CircuitType::MerkleProof => make_info(
                "MerkleProof",
                "证明叶子在默克尔树中",
                string_list_2("leaf", "root"),
                string_list_1("root"),
                "Basic Framework",
            ),
            CircuitType::Voting => make_info(
                "Voting",
                "匿名投票",
                string_list_2("voterSecret", "vote"),
                string_list_1("voteHash"),
                "Basic Framework",
            ),
        }
    }

    /// Every circuit kind, each once, in catalogue order.
    pub fn list_circuits(&self) -> (r: Vec<CircuitType>)
        ensures
            r@ == all_circuit_types(),
    {
        let r: Vec<CircuitType> = vec![
            CircuitType::Square,
            CircuitType::AgeVerification,
            CircuitType::BalanceProof,
            CircuitType::RangeProof,
            CircuitType::MerkleProof,
            CircuitType::Voting,
        ];
        assert(r@ =~= all_circuit_types());
        r
    }
}

impl Default for CircuitAdapter {
    fn default() -> (r: Self) {
        CircuitAdapter::new()
    }
}

/// Every kind in the catalogue has a non-empty name and description.
pub proof fn lemma_catalogue_described(t: CircuitType)
    ensures
        all_circuit_types().contains(t),
        circuit_name(t).len() > 0,
        circuit_description(t).len() > 0,
{
    reveal_strlit("Square");
    reveal_strlit("AgeVerification");
    reveal_strlit("BalanceProof");
    reveal_strlit("RangeProof");
    reveal_strlit("MerkleProof");
    reveal_strlit("Voting");
    reveal_strlit("证明知道 x 使得 y = x²");
    reveal_strlit("证明年龄在范围内");
    reveal_strlit("证明余额充足");
    reveal_strlit("证明值在范围内");
    reveal_strlit("证明叶子在默克尔树中");
    reveal_strlit("匿名投票");
    let s = all_circuit_types();
    match t {
        CircuitType::Square => assert(s[0] == t),
        CircuitType::AgeVerification => assert(s[1] == t),
        CircuitType::BalanceProof => assert(s[2] == t),
        CircuitType::RangeProof => assert(s[3] == t),
        CircuitType::MerkleProof => assert(s[4] == t),
        CircuitType::Voting => assert(s[5] == t),
    }
}

} // verus!
