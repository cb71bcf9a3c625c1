//! Benchmarking error type.
//!
//! Three kinds of failure are distinguished: load errors surfaced at
//! algorithm construction, contract errors surfaced while evaluating
//! one atomic, and input errors surfaced before evaluation.

use crate::operation::InputShape;
use vstd::prelude::*;

verus! {

/// Everything that can go wrong while loading or running an algorithm.
#[derive(Debug)]
pub enum BenchmarkingError {
    /// Load: the atomic list is empty.
    EmptyAlgorithm,
    /// Load: two atomics share the name carried here.
    DuplicateAtomic(String),
    /// Load: the named atomic lies on a dependency cycle.
    CyclicDependency(String),
    /// Load: the named dependency was not found during ordering.
    MissingDependency(String),
    /// Input: the named required inputs are absent from a company's
    /// data.
    MissingInputs(Vec<String>),
    /// Contract: the named atomic has the wrong number of dependency
    /// names for its operation, which expects the carried shape.
    WrongOperandCount(String, InputShape),
    /// Contract: the named atomic carries a constant its operation
    /// forbids.
    UnusedConstant(String),
    /// Contract: the named atomic lacks the constant its operation
    /// requires.
    MissingConstant(String),
    /// Contract: a division of the named atomic has a zero divisor.
    DivisionByZero(String),
    /// Contract: the named result was written twice.
    DuplicateResolved(String),
    /// Contract: the named value was read before it was resolved.
    UnresolvedValue(String),
    /// Contract: an element-wise operation of the named atomic mixes
    /// dimensions.
    DimensionMismatch(String),
}

impl BenchmarkingError {
    /// A short description of the error for display at the boundary.
    pub fn message(&self) -> String {
        let mut s = String::new();
        match self {
            BenchmarkingError::EmptyAlgorithm => {
                s.append("the provided algorithm is empty");
            },
            BenchmarkingError::DuplicateAtomic(name) => {
                s.append("duplicate atomic definition: ");
                s.append(name.as_str());
            },
            BenchmarkingError::CyclicDependency(name) => {
                s.append("cyclic dependency through atomic: ");
                s.append(name.as_str());
            },
            BenchmarkingError::MissingDependency(name) => {
                s.append("missing dependency: ");
                s.append(name.as_str());
            },
            BenchmarkingError::MissingInputs(names) => {
                s.append("missing input variables:");
                let mut i: usize = 0;
                while i < names.len()
                    decreases names@.len() - i,
                {
                    s.append(" ");
                    s.append(names[i].as_str());
                    i += 1;
                }
            },
            BenchmarkingError::WrongOperandCount(name, shape) => {
                s.append("atomic ");
                s.append(name.as_str());
                match shape {
                    InputShape::NAry => {
                        s.append(" expects NAry input");
                    },
                    InputShape::Binary => {
                        s.append(" expects Binary input");
                    },
                    InputShape::Unary => {
                        s.append(" expects Unary input");
                    },
                }
            },
            BenchmarkingError::UnusedConstant(name) => {
                s.append("atomic ");
                s.append(name.as_str());
                s.append(" has an unused constant");
            },
            BenchmarkingError::MissingConstant(name) => {
                s.append("atomic ");
                s.append(name.as_str());
                s.append(" requires a constant but none is provided");
            },
            BenchmarkingError::DivisionByZero(name) => {
                s.append("atomic ");
                s.append(name.as_str());
                s.append(" has a zero division");
            },
            BenchmarkingError::DuplicateResolved(name) => {
                s.append("value resolved twice: ");
                s.append(name.as_str());
            },
            BenchmarkingError::UnresolvedValue(name) => {
                s.append("value not resolved: ");
                s.append(name.as_str());
            },
            BenchmarkingError::DimensionMismatch(name) => {
                s.append("atomic ");
                s.append(name.as_str());
                s.append(" mixes vector dimensions");
            },
        }
        s
    }
}

} // verus!
