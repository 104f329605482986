//! Recursive-descent parsers for formulas and rule citations.
//!
//! Every parser consumes a prefix of its input and hands back the rest;
//! each has a specification-level twin that pins down exactly which prefix
//! is consumed and what value it yields.

pub mod expression;
pub mod individual_constant;
pub mod rule;
pub mod symbol;
pub mod util;
