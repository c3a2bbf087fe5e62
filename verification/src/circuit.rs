//! Constraint circuits over transition witnesses: products of terms that an
//! assignment of the variables has to satisfy.

use crate::bytes::{append_bytes, append_le, le_bytes};
use crate::digest::{sha256, sha256_digest};
use crate::text::{append_decimal, decimal};
use crate::witness::{TransitionOperation, TransitionWitness};
use vstd::prelude::*;
use vstd::string::StringExecFns;

verus! {

/// Why a circuit or an assignment was refused.
#[derive(Debug, Clone, PartialEq, Eq)]
pub enum CircuitError {
    /// A constraint does not hold; the text names it and the three values.
    ConstraintViolation(String),
    /// The assignment is shorter than the number of variables.
    InvalidInput,
    /// The circuit could not be compiled.
    CompilationFailed,
}

/// The public input of a circuit.
#[derive(Clone, Copy, Debug)]
pub struct CircuitInput {
    pub pre_state_hash: [u8; 32],
    pub post_state_hash: [u8; 32],
    pub operation_hash: [u8; 32],
}

/// A term of a constraint.
#[derive(Clone, Debug)]
pub enum ConstraintTerm {
    Constant(u64),
    Variable(usize),
    LinearCombination(Vec<(u64, usize)>),
}

/// The constraint `left * right == output`.
#[derive(Clone, Debug)]
pub struct Constraint {
    pub left: ConstraintTerm,
    pub right: ConstraintTerm,
    pub output: ConstraintTerm,
}

/// The circuit of one transition.
#[derive(Clone, Debug)]
pub struct TransitionCircuit {
    pub constraints: Vec<Constraint>,
    pub input: CircuitInput,
    pub num_variables: usize,
}

/// The bytes of the word "transfer".
pub open spec fn transfer_tag() -> Seq<u8> {
    seq![0x74u8, 0x72u8, 0x61u8, 0x6eu8, 0x73u8, 0x66u8, 0x65u8, 0x72u8]
}

/// The bytes of the word "nonce_inc".
pub open spec fn nonce_tag() -> Seq<u8> {
    seq![0x6eu8, 0x6fu8, 0x6eu8, 0x63u8, 0x65u8, 0x5fu8, 0x69u8, 0x6eu8, 0x63u8]
}

/// The bytes of the word "storage_write".
pub open spec fn storage_tag() -> Seq<u8> {
    seq![
        0x73u8,
        0x74u8,
        0x6fu8,
        0x72u8,
        0x61u8,
        0x67u8,
        0x65u8,
        0x5fu8,
        0x77u8,
        0x72u8,
        0x69u8,
        0x74u8,
        0x65u8,
    ]
}

/// The bytes that are hashed for an operation: its tag, then its arguments.
pub open spec fn operation_preimage(op: TransitionOperation) -> Seq<u8> {
    match op {
        TransitionOperation::Transfer { amount } => transfer_tag() + le_bytes(amount as nat, 16),
        TransitionOperation::NonceIncrement => nonce_tag(),
        TransitionOperation::StorageWrite { key, value } => storage_tag() + key@ + value@,
    }
}

/// The sum of the first `n` products of a linear combination.
pub open spec fn combination_value(terms: Seq<(u64, usize)>, assignment: Seq<u64>, n: nat) -> int
    decreases n,
{
    if n == 0 {
        0
    } else {
        combination_value(terms, assignment, (n - 1) as nat) + terms[n - 1].0
            * assignment[terms[n - 1].1 as int]
    }
}

/// The value of a term under an assignment.
pub open spec fn term_value(term: ConstraintTerm, assignment: Seq<u64>) -> int {
    match term {
        ConstraintTerm::Constant(c) => c as int,
        ConstraintTerm::Variable(idx) => assignment[idx as int] as int,
        ConstraintTerm::LinearCombination(terms) => combination_value(
            terms@,
            assignment,
            terms@.len(),
        ),
    }
}

/// Whether a term reads only variables below `n`.
pub open spec fn term_in_range(term: ConstraintTerm, n: nat) -> bool {
    match term {
        ConstraintTerm::Constant(_) => true,
        ConstraintTerm::Variable(idx) => idx < n,
        ConstraintTerm::LinearCombination(terms) => forall|k: int|
            0 <= k < terms@.len() ==> (#[trigger] terms@[k]).1 < n,
    }
}

/// Whether a term, and every partial sum of it, fits in 64 bits under an
/// assignment.
pub open spec fn term_fits(term: ConstraintTerm, assignment: Seq<u64>) -> bool {
    match term {
        ConstraintTerm::LinearCombination(terms) => forall|k: nat|
            k <= terms@.len() ==> #[trigger] combination_value(terms@, assignment, k) <= u64::MAX,
        _ => true,
    }
}

/// Whether a constraint holds under an assignment.
pub open spec fn constraint_holds(c: Constraint, assignment: Seq<u64>) -> bool {
    term_value(c.left, assignment) * term_value(c.right, assignment) == term_value(
        c.output,
        assignment,
    )
}

/// Whether the terms of a constraint and the product of its two factors fit
/// in 64 bits under an assignment.
pub open spec fn constraint_fits(c: Constraint, assignment: Seq<u64>) -> bool {
    &&& term_fits(c.left, assignment)
    &&& term_fits(c.right, assignment)
    &&& term_fits(c.output, assignment)
    &&& term_value(c.left, assignment) * term_value(c.right, assignment) <= u64::MAX
}

/// The text of a violation: the number of the constraint and the values of
/// its three terms.
pub open spec fn violation_text(i: nat, left: nat, right: nat, output: nat) -> Seq<char> {
    "Constraint "@ + decimal(i) + " failed: "@ + decimal(left) + " * "@ + decimal(right) + " != "@
        + decimal(output)
}

impl TransitionCircuit {
    /// Every term of the circuit reads only its own variables.
    pub open spec fn wf(&self) -> bool {
        forall|i: int|
            0 <= i < self.constraints@.len() ==> {
                &&& term_in_range((#[trigger] self.constraints@[i]).left, self.num_variables as nat)
                &&& term_in_range(self.constraints@[i].right, self.num_variables as nat)
                &&& term_in_range(self.constraints@[i].output, self.num_variables as nat)
            }
    }

    /// Whether all constraints before the `i`th hold under an assignment.
    pub open spec fn holds_before(&self, assignment: Seq<u64>, i: int) -> bool {
        forall|j: int| 0 <= j < i ==> constraint_holds(#[trigger] self.constraints@[j], assignment)
    }

    /// Whether the arithmetic of every constraint that is reached fits in 64
    /// bits under an assignment: a constraint is reached when all before it
    /// hold.
    pub open spec fn spec_fits(&self, assignment: Seq<u64>) -> bool {
        forall|i: int|
            0 <= i < self.constraints@.len() && self.holds_before(assignment, i)
                ==> constraint_fits(#[trigger] self.constraints@[i], assignment)
    }

    /// The circuit of a witness: its public input and the three constraints
    /// of a transition over five variables.
    pub fn from_witness(witness: &TransitionWitness) -> (res: Result<Self, CircuitError>)
        ensures
            res matches Ok(c) && {
                &&& c.wf()
                &&& c.num_variables == 5
                &&& c.input.pre_state_hash@ == witness.pre_state.spec_hash()
                &&& c.input.post_state_hash@ == witness.post_state.spec_hash()
                &&& c.input.operation_hash@ == sha256(operation_preimage(witness.operation))
                &&& c.constraints@.len() == 3
                &&& c.constraints@[0].left == ConstraintTerm::Variable(0)
                &&& c.constraints@[0].right == ConstraintTerm::Constant(1)
                &&& c.constraints@[0].output == ConstraintTerm::Variable(1)
                &&& c.constraints@[1].left == ConstraintTerm::Variable(1)
                &&& c.constraints@[1].right == ConstraintTerm::Variable(2)
                &&& c.constraints@[1].output == ConstraintTerm::Variable(3)
                &&& c.constraints@[2].left matches ConstraintTerm::LinearCombination(terms)
                &&& terms@ == seq![(1u64, 0usize), (1u64, 1usize)]
                &&& c.constraints@[2].right == ConstraintTerm::Constant(1)
                &&& c.constraints@[2].output == ConstraintTerm::Variable(4)
            },
    {
        let pre_hash = witness.pre_state.hash();
        let post_hash = witness.post_state.hash();
        let operation_hash = Self::hash_operation(&witness.operation);
        let input = CircuitInput {
            pre_state_hash: pre_hash,
            post_state_hash: post_hash,
            operation_hash,
        };
        let mut constraints: Vec<Constraint> = Vec::new();
        constraints.push(
            Constraint {
                left: ConstraintTerm::Variable(0),
                right: ConstraintTerm::Constant(1),
                output: ConstraintTerm::Variable(1),
            },
        );
        constraints.push(
            Constraint {
                left: ConstraintTerm::Variable(1),
                right: ConstraintTerm::Variable(2),
                output: ConstraintTerm::Variable(3),
            },
        );
        let mut combination: Vec<(u64, usize)> = Vec::new();
        combination.push((1, 0));
        combination.push((1, 1));
        proof {
            assert(combination@ =~= seq![(1u64, 0usize), (1u64, 1usize)]);
        }
        constraints.push(
            Constraint {
                left: ConstraintTerm::LinearCombination(combination),
                right: ConstraintTerm::Constant(1),
                output: ConstraintTerm::Variable(4),
            },
        );
        Ok(TransitionCircuit { constraints, input, num_variables: 5 })
    }

    /// The digest of an operation: its tag, then its arguments.
    pub fn hash_operation(op: &TransitionOperation) -> (r: [u8; 32])
        ensures
            r@ == sha256(operation_preimage(*op)),
    {
        let mut buf: Vec<u8> = Vec::new();
        match op {
            TransitionOperation::Transfer { amount } => {
                let tag: [u8; 8] = [0x74u8, 0x72u8, 0x61u8, 0x6eu8, 0x73u8, 0x66u8, 0x65u8, 0x72u8];
                proof {
                    assert(tag@ =~= transfer_tag());
                }
                append_bytes(&mut buf, tag.as_slice());
                append_le(&mut buf, *amount, 16);
            },
            TransitionOperation::NonceIncrement => {
                let tag: [u8; 9] = [
                    0x6eu8,
                    0x6fu8,
                    0x6eu8,
                    0x63u8,
                    0x65u8,
                    0x5fu8,
                    0x69u8,
                    0x6eu8,
                    0x63u8,
                ];
                proof {
                    assert(tag@ =~= nonce_tag());
                }
                append_bytes(&mut buf, tag.as_slice());
            },
            TransitionOperation::StorageWrite { key, value } => {
                let tag: [u8; 13] = [
                    0x73u8,
                    0x74u8,
                    0x6fu8,
                    0x72u8,
                    0x61u8,
                    0x67u8,
                    0x65u8,
                    0x5fu8,
                    0x77u8,
                    0x72u8,
                    0x69u8,
                    0x74u8,
                    0x65u8,
                ];
                proof {
                    assert(tag@ =~= storage_tag());
                }
                append_bytes(&mut buf, tag.as_slice());
                append_bytes(&mut buf, key.as_slice());
                append_bytes(&mut buf, value.as_slice());
            },
        }
        proof {
            assert(buf@ =~= operation_preimage(*op));
        }
        sha256_digest(buf.as_slice())
    }

    /// Checks every constraint under the assignment. Refuses an assignment
    /// that is shorter than the number of variables; else reports the first
    /// constraint that does not hold, and `Ok(true)` when all hold.
    pub fn verify_constraints(&self, assignment: &[u64]) -> (res: Result<bool, CircuitError>)
        requires
            self.wf(),
            assignment@.len() >= self.num_variables ==> self.spec_fits(assignment@),
        ensures
            assignment@.len() < self.num_variables ==> res == Err::<bool, CircuitError>(
                CircuitError::InvalidInput,
            ),
            (assignment@.len() >= self.num_variables && forall|i: int|
                0 <= i < self.constraints@.len() ==> constraint_holds(
                    #[trigger] self.constraints@[i],
                    assignment@,
                )) ==> res == Ok::<bool, CircuitError>(true),
            (assignment@.len() >= self.num_variables && exists|i: int|
                0 <= i < self.constraints@.len() && !constraint_holds(
                    #[trigger] self.constraints@[i],
                    assignment@,
                )) ==> (res matches Err(CircuitError::ConstraintViolation(text)) && exists|i: int|
                {
                    &&& 0 <= i < self.constraints@.len()
                    &&& !constraint_holds(#[trigger] self.constraints@[i], assignment@)
                    &&& forall|j: int|
                        0 <= j < i ==> constraint_holds(
                            #[trigger] self.constraints@[j],
                            assignment@,
                        )
                    &&& text@ == violation_text(
                        i as nat,
                        term_value(self.constraints@[i].left, assignment@) as nat,
                        term_value(self.constraints@[i].right, assignment@) as nat,
                        term_value(self.constraints@[i].output, assignment@) as nat,
                    )
                }),
    {
        if assignment.len() < self.num_variables {
            return Err(CircuitError::InvalidInput);
        }
        let mut i: usize = 0;
        while i < self.constraints.len()
            invariant
                i <= self.constraints@.len(),
                self.wf(),
                self.spec_fits(assignment@),
                assignment@.len() >= self.num_variables,
                forall|j: int|
                    0 <= j < i ==> constraint_holds(#[trigger] self.constraints@[j], assignment@),
            decreases self.constraints@.len() - i,
        {
            let constraint = &self.constraints[i];
            proof {
                assert(self.holds_before(assignment@, i as int));
                assert(constraint_fits(self.constraints@[i as int], assignment@));
            }
            let left = self.evaluate_term(&constraint.left, assignment);
            let right = self.evaluate_term(&constraint.right, assignment);
            let output = self.evaluate_term(&constraint.output, assignment);
            if left * right != output {
                let mut text = String::new();
                text.append("Constraint ");
                append_decimal(&mut text, i as u64);
                text.append(" failed: ");
                append_decimal(&mut text, left);
                text.append(" * ");
                append_decimal(&mut text, right);
                text.append(" != ");
                append_decimal(&mut text, output);
                proof {
                    assert(text@ =~= violation_text(
                        i as nat,
                        left as nat,
                        right as nat,
                        output as nat,
                    ));
                }
                return Err(CircuitError::ConstraintViolation(text));
            }
            i = i + 1;
        }
        Ok(true)
    }

    /// The value of a term under the assignment.
    pub fn evaluate_term(&self, term: &ConstraintTerm, assignment: &[u64]) -> (r: u64)
        requires
            term_in_range(*term, assignment@.len()),
            term_fits(*term, assignment@),
        ensures
            r == term_value(*term, assignment@),
    {
        match term {
            ConstraintTerm::Constant(c) => *c,
            ConstraintTerm::Variable(idx) => assignment[*idx],
            ConstraintTerm::LinearCombination(terms) => {
                let mut sum: u64 = 0;
                let mut k: usize = 0;
                while k < terms.len()
                    invariant
                        k <= terms@.len(),
                        sum == combination_value(terms@, assignment@, k as nat),
                        forall|q: int| 0 <= q < terms@.len() ==> (#[trigger] terms@[q]).1
                            < assignment@.len(),
                        forall|q: nat|
                            q <= terms@.len() ==> #[trigger] combination_value(
                                terms@,
                                assignment@,
                                q,
                            ) <= u64::MAX,
                    decreases terms@.len() - k,
                {
                    let coeff = terms[k].0;
                    let idx = terms[k].1;
                    proof {
                        assert(combination_value(terms@, assignment@, (k + 1) as nat) <= u64::MAX);
                        assert(terms@[k as int].1 < assignment@.len());
                        assert(coeff * assignment@[idx as int] >= 0) by (nonlinear_arith)
                            requires
                                coeff >= 0,
                                assignment@[idx as int] >= 0,
                        ;
                    }
                    sum = sum + coeff * assignment[idx];
                    k = k + 1;
                }
                sum
            },
        }
    }
}

} // verus!
