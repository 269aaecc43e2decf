//! An interpreter core for a small combinator language of quantum unitaries.
//!
//! Terms compose, tensor, condition on basis-state patterns ("if let"), apply
//! global phases and call named gates, with inverse and square-root macros.
//! The library checks arities, evaluates terms to a normal form and extracts
//! a circuit-normal form made of pattern-conditioned phase clauses.
//!
//! - `ket`, `phase`: single-qubit states and exact phases (fractions of pi).
//! - `text`, `raw_syntax`, `parsing`: spans, the syntax as read, and its reader.
//! - `typed_syntax`, `typecheck`, `command`: well-typed terms and the checker.
//! - `normal_syntax`, `eval`, `squash`: normal forms, evaluation, flattening.
//! - `circuit_syntax`: extraction of pattern-conditioned phase clauses.

pub mod ket;
pub mod phase;
pub mod text;
pub mod typed_syntax;
pub mod normal_syntax;
pub mod eval;
pub mod squash;
pub mod raw_syntax;
pub mod typecheck;
pub mod command;
pub mod circuit_syntax;
pub mod parsing;
