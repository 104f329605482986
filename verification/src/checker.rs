//! The proof checker: full-string parsing of rows, premise-number sets and
//! rule validity, and the editing steps a front end drives them with.

pub mod parser;
pub mod state;
