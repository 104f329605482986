//! Algebraic data: well-formed formulas and derivation-rule citations.

pub mod exp;
pub mod rule;
