//! Identifier lexing: subscripts, dimension markers and predicate symbols.

use deduction::parser::individual_constant::{dim, pre, subscr};

#[test]
fn subscr_valid() {
    assert_eq!(subscr("_5"), Some(("", "_5")));
    assert_eq!(subscr("_12"), Some(("", "_12")));
}

#[test]
fn subscr_invalid() {
    assert!(subscr("^5").is_none());
    assert!(subscr("_ 12").is_none());
    assert!(subscr("12").is_none());
    assert!(subscr("_").is_none());
    assert!(subscr("_a").is_none());
    assert!(subscr("_-1").is_none());
    assert!(subscr("_(-1)").is_none());
}

#[test]
fn dim_valid() {
    assert_eq!(dim("^5"), Some(("", 5u8)));
    assert_eq!(dim("^12"), Some(("", 12u8)));
}

#[test]
fn dim_invalid() {
    assert!(dim("_5").is_none());
    assert!(dim("^ 12").is_none());
    assert!(dim("12").is_none());
    assert!(dim("^").is_none());
    assert!(dim("^a").is_none());
    assert!(dim("^-1").is_none());
    assert!(dim("^(-1)").is_none());
}

#[test]
fn pre_valid() {
    assert_eq!(pre("P"), Some(("", "P")));
    assert_eq!(pre("P_10"), Some(("", "P_10")));
    assert_eq!(pre("R_2"), Some(("", "R_2")));
}

#[test]
fn pre_invalid() {
    assert!(pre("피").is_none());
    assert_eq!(pre("P'"), Some(("'", "P")));
}

#[test]
fn dim_overflow_is_rejected() {
    assert!(dim("^256").is_none());
    assert!(dim("^00012").is_some());
    assert_eq!(dim("^00012"), Some(("", 12u8)));
}
