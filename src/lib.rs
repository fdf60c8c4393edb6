//! Propositional logic: sentences over named symbols, their three-valued
//! evaluation under a partial truth assignment, and entailment decided by
//! enumerating every assignment of the symbols involved.
#![allow(non_snake_case)]

pub mod semantics;
pub mod formula;
pub mod utils;
pub mod connectives;
pub mod entailment;
pub mod laws;

pub use crate::connectives::{And, Biconditional, Implies, Not, Or};
pub use crate::entailment::check;
pub use crate::formula::{Formula, Model, Sentence, Symbol};
pub use crate::utils::unique;
