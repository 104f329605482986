//! A proof checker for natural deduction in first-order logic.
//!
//! The crate has three layers: an algebraic model of well-formed formulas
//! and of derivation-rule citations (`ast`), recursive-descent parsers and
//! canonical printers for both (`parser`), and a line-by-line checker that
//! computes, for every row of a proof, the set of premise numbers it
//! depends on and whether its cited rule is correctly applied (`checker`).
//! The laws the library obeys — parse of a canonical rendering gives the
//! value back, premises stand on themselves, ex falso licenses anything,
//! the eigenvariable condition rejects, and row insertion only relabels
//! citations — are stated and proved in `laws`.

pub mod ast;
pub mod checker;
pub mod laws;
pub mod parser;
pub mod util;
