//! List comprehensions: `mapping for pattern in sequence if condition ...`.
//!
//! The input is lexed into Rust tokens and split by the grammar into its
//! pieces, `syn` deciding where each expression ends; each pattern is checked
//! to be a Rust pattern, and the expansion into an iterator chain is written
//! out as Rust source text.  The module also
//! evaluates a comprehension's clauses eagerly over vectors.

pub mod token;
pub mod syntax;
pub mod grammar;
pub mod expand;
pub mod eval;
