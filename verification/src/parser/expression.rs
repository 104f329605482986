//! The formula grammar: conditionals and biconditionals bind loosest and
//! associate to the right, conjunction and disjunction sit between, and the
//! tightest layer holds atoms, falsum, negations, quantifications and
//! parenthesized formulas. Alternatives are tried in a fixed order and the
//! first that matches wins.

use crate::ast::exp::{Exp, Formula};
use crate::parser::individual_constant::{
    dim_at, ind_sym_at, pre_at, spec_dim, spec_ind_sym, spec_pre, spec_var, var_at,
};
use crate::parser::symbol::{
    and_at, existential_at, falsum_at, left_right_arrow_at, negation_at, or_at, right_arrow_at,
    spec_and, spec_existential, spec_falsum_sym, spec_left_right_arrow, spec_negation, spec_or,
    spec_right_arrow,
};
use crate::parser::util::{skip_ws, split_at_pos, ws_end};
use vstd::prelude::*;

verus! {

/// Exactly `n` individual symbols, each preceded by optional whitespace.
pub open spec fn spec_count_inds(t: Seq<char>, i: int, n: nat) -> Option<(int, Seq<Seq<char>>)>
    decreases n,
{
    if n == 0 {
        Some((i, Seq::empty()))
    } else {
        let w = ws_end(t, i);
        match spec_ind_sym(t, w) {
            None => None,
            Some(e) => match spec_count_inds(t, e, (n - 1) as nat) {
                None => None,
                Some((j, rest)) => Some((j, seq![t.subrange(w, e)] + rest)),
            },
        }
    }
}

/// As many individual symbols as possible, each preceded by optional
/// whitespace; whitespace before a failed match is left unconsumed.
pub open spec fn spec_many_inds(t: Seq<char>, i: int) -> (int, Seq<Seq<char>>)
    decreases t.len() - i,
{
    let w = ws_end(t, i);
    match spec_ind_sym(t, w) {
        None => (i, Seq::empty()),
        Some(e) => {
            if i < e && e <= t.len() {
                let (j, rest) = spec_many_inds(t, e);
                (j, seq![t.subrange(w, e)] + rest)
            } else {
                (i, Seq::empty())
            }
        }
    }
}

/// An atom: a predicate, then either a dimension marker fixing the count of
/// individual symbols or a greedy run of them. When the fixed count cannot
/// be met, the marker is left unconsumed and the greedy run is used.
pub open spec fn spec_atom_exp(t: Seq<char>, i: int) -> Option<(int, Formula)> {
    match spec_pre(t, i) {
        None => None,
        Some(pe) => {
            let predicate = t.subrange(i, pe);
            match spec_dim(t, pe) {
                Some((de, n)) => match spec_count_inds(t, de, n) {
                    Some((j, inds)) => Some(
                        (j, Formula::Atom { predicate, individuals: inds }),
                    ),
                    None => {
                        let (j, inds) = spec_many_inds(t, pe);
                        Some((j, Formula::Atom { predicate, individuals: inds }))
                    }
                },
                None => {
                    let (j, inds) = spec_many_inds(t, pe);
                    Some((j, Formula::Atom { predicate, individuals: inds }))
                }
            }
        }
    }
}

/// The falsum constant.
pub open spec fn spec_falsum_exp(t: Seq<char>, i: int) -> Option<(int, Formula)> {
    match spec_falsum_sym(t, i) {
        None => None,
        Some(j) => Some((j, Formula::Falsum)),
    }
}

/// A conditional: a boolean layer, the arrow, then a conditional layer to
/// its right.
pub open spec fn spec_if_exp(t: Seq<char>, i: int) -> Option<(int, Formula)>
    decreases t.len() - i, 5int,
{
    match spec_bool_exp(t, i) {
        None => None,
        Some((j, lhs)) => {
            let a = ws_end(t, j);
            match spec_right_arrow(t, a) {
                None => None,
                Some(b) => {
                    let k = ws_end(t, b);
                    if i < k && k <= t.len() {
                        match spec_cond_exp(t, k) {
                            None => None,
                            Some((m, rhs)) => Some(
                                (
                                    m,
                                    Formula::Cond {
                                        antecedent: Box::new(lhs),
                                        consequent: Box::new(rhs),
                                    },
                                ),
                            ),
                        }
                    } else {
                        None
                    }
                }
            }
        }
    }
}

/// A biconditional: a boolean layer, the double arrow, then a conditional
/// layer to its right.
pub open spec fn spec_iff_exp(t: Seq<char>, i: int) -> Option<(int, Formula)>
    decreases t.len() - i, 5int,
{
    match spec_bool_exp(t, i) {
        None => None,
        Some((j, lhs)) => {
            let a = ws_end(t, j);
            match spec_left_right_arrow(t, a) {
                None => None,
                Some(b) => {
                    let k = ws_end(t, b);
                    if i < k && k <= t.len() {
                        match spec_cond_exp(t, k) {
                            None => None,
                            Some((m, rhs)) => Some(
                                (m, Formula::Iff { lhs: Box::new(lhs), rhs: Box::new(rhs) }),
                            ),
                        }
                    } else {
                        None
                    }
                }
            }
        }
    }
}

/// The loosest layer: a conditional, a biconditional, or a boolean layer.
pub open spec fn spec_cond_exp(t: Seq<char>, i: int) -> Option<(int, Formula)>
    decreases t.len() - i, 6int,
{
    match spec_if_exp(t, i) {
        Some(r) => Some(r),
        None => match spec_iff_exp(t, i) {
            Some(r) => Some(r),
            None => spec_bool_exp(t, i),
        },
    }
}

/// A conjunction: a factor, `&`, then a boolean layer to its right.
pub open spec fn spec_and_exp(t: Seq<char>, i: int) -> Option<(int, Formula)>
    decreases t.len() - i, 3int,
{
    match spec_f(t, i) {
        None => None,
        Some((j, lhs)) => {
            let a = ws_end(t, j);
            match spec_and(t, a) {
                None => None,
                Some(b) => {
                    let k = ws_end(t, b);
                    if i < k && k <= t.len() {
                        match spec_bool_exp(t, k) {
                            None => None,
                            Some((m, rhs)) => Some(
                                (m, Formula::And { lhs: Box::new(lhs), rhs: Box::new(rhs) }),
                            ),
                        }
                    } else {
                        None
                    }
                }
            }
        }
    }
}

/// A disjunction: a factor, the disjunction symbol, then a boolean layer.
pub open spec fn spec_or_exp(t: Seq<char>, i: int) -> Option<(int, Formula)>
    decreases t.len() - i, 3int,
{
    match spec_f(t, i) {
        None => None,
        Some((j, lhs)) => {
            let a = ws_end(t, j);
            match spec_or(t, a) {
                None => None,
                Some(b) => {
                    let k = ws_end(t, b);
                    if i < k && k <= t.len() {
                        match spec_bool_exp(t, k) {
                            None => None,
                            Some((m, rhs)) => Some(
                                (m, Formula::Or { lhs: Box::new(lhs), rhs: Box::new(rhs) }),
                            ),
                        }
                    } else {
                        None
                    }
                }
            }
        }
    }
}

/// The boolean layer: a conjunction, a disjunction, or a bare factor.
pub open spec fn spec_bool_exp(t: Seq<char>, i: int) -> Option<(int, Formula)>
    decreases t.len() - i, 4int,
{
    match spec_and_exp(t, i) {
        Some(r) => Some(r),
        None => match spec_or_exp(t, i) {
            Some(r) => Some(r),
            None => spec_f(t, i),
        },
    }
}

/// A negation: the negation symbol, optional whitespace, then a factor.
pub open spec fn spec_negate_exp(t: Seq<char>, i: int) -> Option<(int, Formula)>
    decreases t.len() - i, 1int,
{
    match spec_negation(t, i) {
        None => None,
        Some(a) => {
            let k = ws_end(t, a);
            if i < k && k <= t.len() {
                match spec_f(t, k) {
                    None => None,
                    Some((m, f)) => Some((m, Formula::Neg(Box::new(f)))),
                }
            } else {
                None
            }
        }
    }
}

/// A universal generalization: a parenthesized variable, then a factor.
pub open spec fn spec_univ_genr_exp(t: Seq<char>, i: int) -> Option<(int, Formula)>
    decreases t.len() - i, 0int,
{
    if 0 <= i < t.len() && t[i] == '(' {
        let a = ws_end(t, i + 1);
        match spec_var(t, a) {
            None => None,
            Some(ve) => {
                let b = ws_end(t, ve);
                if 0 <= b < t.len() && t[b] == ')' {
                    let k = ws_end(t, b + 1);
                    if i < k && k <= t.len() {
                        match spec_f(t, k) {
                            None => None,
                            Some((m, f)) => Some(
                                (
                                    m,
                                    Formula::UnivGenr {
                                        variable: t.subrange(a, ve),
                                        form: Box::new(f),
                                    },
                                ),
                            ),
                        }
                    } else {
                        None
                    }
                } else {
                    None
                }
            }
        }
    } else {
        None
    }
}

/// An existential generalization: a parenthesized existential symbol and
/// variable, then a factor.
pub open spec fn spec_exist_genr_exp(t: Seq<char>, i: int) -> Option<(int, Formula)>
    decreases t.len() - i, 0int,
{
    if 0 <= i < t.len() && t[i] == '(' {
        let a0 = ws_end(t, i + 1);
        match spec_existential(t, a0) {
            None => None,
            Some(e1) => {
                let a = ws_end(t, e1);
                match spec_var(t, a) {
                    None => None,
                    Some(ve) => {
                        let b = ws_end(t, ve);
                        if 0 <= b < t.len() && t[b] == ')' {
                            let k = ws_end(t, b + 1);
                            if i < k && k <= t.len() {
                                match spec_f(t, k) {
                                    None => None,
                                    Some((m, f)) => Some(
                                        (
                                            m,
                                            Formula::ExistGenr {
                                                variable: t.subrange(a, ve),
                                                form: Box::new(f),
                                            },
                                        ),
                                    ),
                                }
                            } else {
                                None
                            }
                        } else {
                            None
                        }
                    }
                }
            }
        }
    } else {
        None
    }
}

/// A generalization: existential first, universal second.
pub open spec fn spec_genr_exp(t: Seq<char>, i: int) -> Option<(int, Formula)>
    decreases t.len() - i, 1int,
{
    match spec_exist_genr_exp(t, i) {
        Some(r) => Some(r),
        None => spec_univ_genr_exp(t, i),
    }
}

/// A parenthesized formula.
pub open spec fn spec_parenthesesed_exp(t: Seq<char>, i: int) -> Option<(int, Formula)>
    decreases t.len() - i, 1int,
{
    if 0 <= i < t.len() && t[i] == '(' {
        let a = ws_end(t, i + 1);
        if i < a && a <= t.len() {
            match spec_cond_exp(t, a) {
                None => None,
                Some((j, e)) => {
                    let b = ws_end(t, j);
                    if 0 <= b < t.len() && t[b] == ')' {
                        Some((b + 1, e))
                    } else {
                        None
                    }
                }
            }
        } else {
            None
        }
    } else {
        None
    }
}

/// The factor layer: an atom, falsum, a negation, a generalization, or a
/// parenthesized formula, in that order.
pub open spec fn spec_f(t: Seq<char>, i: int) -> Option<(int, Formula)>
    decreases t.len() - i, 2int,
{
    match spec_atom_exp(t, i) {
        Some(r) => Some(r),
        None => match spec_falsum_exp(t, i) {
            Some(r) => Some(r),
            None => match spec_negate_exp(t, i) {
                Some(r) => Some(r),
                None => match spec_genr_exp(t, i) {
                    Some(r) => Some(r),
                    None => spec_parenthesesed_exp(t, i),
                },
            },
        },
    }
}

/// A whole formula: the loosest layer.
pub open spec fn spec_exp(t: Seq<char>, i: int) -> Option<(int, Formula)> {
    spec_cond_exp(t, i)
}

/// How an executable parse result corresponds to its specification twin.
pub open spec fn exp_rel(r: Option<(usize, Exp)>, sp: Option<(int, Formula)>, i: int, len: nat) -> bool {
    match r {
        None => sp is None,
        Some((j, e)) => sp == Some((j as int, e@)) && i <= j as int <= len,
    }
}

/// Matches exactly `n` whitespace-separated individual symbols.
fn count_inds_at(s: &str, i: usize, n: u8) -> (r: Option<(usize, Vec<String>)>)
    requires
        i <= s@.len(),
    ensures
        match r {
            Some((j, v)) => spec_count_inds(s@, i as int, n as nat) == Some(
                (j as int, v.deep_view()),
            ) && i <= j <= s@.len(),
            None => spec_count_inds(s@, i as int, n as nat) is None,
        },
    decreases n,
{
    if n == 0 {
        let v: Vec<String> = Vec::new();
        proof {
            assert(v.deep_view() =~= Seq::<Seq<char>>::empty());
        }
        Some((i, v))
    } else {
        let w = skip_ws(s, i);
        match ind_sym_at(s, w) {
            None => None,
            Some(e) => {
                let tok = s.substring_char(w, e).to_owned();
                match count_inds_at(s, e, n - 1) {
                    None => None,
                    Some((j, rest)) => {
                        let ghost rest_view = rest.deep_view();
                        let mut v = rest;
                        v.insert(0, tok);
                        proof {
                            assert(v.deep_view() =~= seq![s@.subrange(w as int, e as int)]
                                + rest_view);
                        }
                        Some((j, v))
                    }
                }
            }
        }
    }
}

/// Matches as many whitespace-separated individual symbols as possible.
fn many_inds_at(s: &str, i: usize) -> (r: (usize, Vec<String>))
    requires
        i <= s@.len(),
    ensures
        spec_many_inds(s@, i as int) == (r.0 as int, r.1.deep_view()),
        i <= r.0 <= s@.len(),
    decreases s@.len() - i,
{
    let w = skip_ws(s, i);
    match ind_sym_at(s, w) {
        None => {
            let v: Vec<String> = Vec::new();
            proof {
                assert(v.deep_view() =~= Seq::<Seq<char>>::empty());
            }
            (i, v)
        }
        Some(e) => {
            let tok = s.substring_char(w, e).to_owned();
            let (j, rest) = many_inds_at(s, e);
            let ghost rest_view = rest.deep_view();
            let mut v = rest;
            v.insert(0, tok);
            proof {
                assert(v.deep_view() =~= seq![s@.subrange(w as int, e as int)] + rest_view);
            }
            (j, v)
        }
    }
}

/// Matches an atom at position `i`.
pub fn atom_exp_at(s: &str, i: usize) -> (r: Option<(usize, Exp)>)
    requires
        i <= s@.len(),
    ensures
        exp_rel(r, spec_atom_exp(s@, i as int), i as int, s@.len()),
{
    match pre_at(s, i) {
        None => None,
        Some(pe) => {
            let predicate = s.substring_char(i, pe).to_owned();
            match dim_at(s, pe) {
                Some((de, n)) => match count_inds_at(s, de, n) {
                    Some((j, inds)) => Some((j, Exp::Atom { predicate, individuals: inds })),
                    None => {
                        let (j, inds) = many_inds_at(s, pe);
                        Some((j, Exp::Atom { predicate, individuals: inds }))
                    }
                },
                None => {
                    let (j, inds) = many_inds_at(s, pe);
                    Some((j, Exp::Atom { predicate, individuals: inds }))
                }
            }
        }
    }
}

/// Matches the falsum constant at position `i`.
fn falsum_exp_at(s: &str, i: usize) -> (r: Option<(usize, Exp)>)
    requires
        i <= s@.len(),
    ensures
        exp_rel(r, spec_falsum_exp(s@, i as int), i as int, s@.len()),
{
    match falsum_at(s, i) {
        None => None,
        Some(j) => Some((j, Exp::Falsum)),
    }
}

/// Matches a conditional at position `i`.
fn if_exp_at(s: &str, i: usize) -> (r: Option<(usize, Exp)>)
    requires
        i <= s@.len(),
    ensures
        exp_rel(r, spec_if_exp(s@, i as int), i as int, s@.len()),
    decreases s@.len() - i, 5int,
{
    match bool_exp_at(s, i) {
        None => None,
        Some((j, lhs)) => {
            let a = skip_ws(s, j);
            match right_arrow_at(s, a) {
                None => None,
                Some(b) => {
                    let k = skip_ws(s, b);
                    match cond_exp_at(s, k) {
                        None => None,
                        Some((m, rhs)) => Some(
                            (
                                m,
                                Exp::Cond {
                                    antecedent: Box::new(lhs),
                                    consequent: Box::new(rhs),
                                },
                            ),
                        ),
                    }
                }
            }
        }
    }
}

/// Matches a biconditional at position `i`.
fn iff_exp_at(s: &str, i: usize) -> (r: Option<(usize, Exp)>)
    requires
        i <= s@.len(),
    ensures
        exp_rel(r, spec_iff_exp(s@, i as int), i as int, s@.len()),
    decreases s@.len() - i, 5int,
{
    match bool_exp_at(s, i) {
        None => None,
        Some((j, lhs)) => {
            let a = skip_ws(s, j);
            match left_right_arrow_at(s, a) {
                None => None,
                Some(b) => {
                    let k = skip_ws(s, b);
                    match cond_exp_at(s, k) {
                        None => None,
                        Some((m, rhs)) => Some(
                            (m, Exp::Iff { lhs: Box::new(lhs), rhs: Box::new(rhs) }),
                        ),
                    }
                }
            }
        }
    }
}

/// Matches the loosest layer at position `i`.
pub fn cond_exp_at(s: &str, i: usize) -> (r: Option<(usize, Exp)>)
    requires
        i <= s@.len(),
    ensures
        exp_rel(r, spec_cond_exp(s@, i as int), i as int, s@.len()),
    decreases s@.len() - i, 6int,
{
    match if_exp_at(s, i) {
        Some(r) => Some(r),
        None => match iff_exp_at(s, i) {
            Some(r) => Some(r),
            None => bool_exp_at(s, i),
        },
    }
}

/// Matches a conjunction at position `i`.
fn and_exp_at(s: &str, i: usize) -> (r: Option<(usize, Exp)>)
    requires
        i <= s@.len(),
    ensures
        exp_rel(r, spec_and_exp(s@, i as int), i as int, s@.len()),
    decreases s@.len() - i, 3int,
{
    match f_at(s, i) {
        None => None,
        Some((j, lhs)) => {
            let a = skip_ws(s, j);
            match and_at(s, a) {
                None => None,
                Some(b) => {
                    let k = skip_ws(s, b);
                    match bool_exp_at(s, k) {
                        None => None,
                        Some((m, rhs)) => Some(
                            (m, Exp::And { lhs: Box::new(lhs), rhs: Box::new(rhs) }),
                        ),
                    }
                }
            }
        }
    }
}

/// Matches a disjunction at position `i`.
fn or_exp_at(s: &str, i: usize) -> (r: Option<(usize, Exp)>)
    requires
        i <= s@.len(),
    ensures
        exp_rel(r, spec_or_exp(s@, i as int), i as int, s@.len()),
    decreases s@.len() - i, 3int,
{
    match f_at(s, i) {
        None => None,
        Some((j, lhs)) => {
            let a = skip_ws(s, j);
            match or_at(s, a) {
                None => None,
                Some(b) => {
                    let k = skip_ws(s, b);
                    match bool_exp_at(s, k) {
                        None => None,
                        Some((m, rhs)) => Some(
                            (m, Exp::Or { lhs: Box::new(lhs), rhs: Box::new(rhs) }),
                        ),
                    }
                }
            }
        }
    }
}

/// Matches the boolean layer at position `i`.
fn bool_exp_at(s: &str, i: usize) -> (r: Option<(usize, Exp)>)
    requires
        i <= s@.len(),
    ensures
        exp_rel(r, spec_bool_exp(s@, i as int), i as int, s@.len()),
    decreases s@.len() - i, 4int,
{
    match and_exp_at(s, i) {
        Some(r) => Some(r),
        None => match or_exp_at(s, i) {
            Some(r) => Some(r),
            None => f_at(s, i),
        },
    }
}

/// Matches a negation at position `i`.
fn negate_exp_at(s: &str, i: usize) -> (r: Option<(usize, Exp)>)
    requires
        i <= s@.len(),
    ensures
        exp_rel(r, spec_negate_exp(s@, i as int), i as int, s@.len()),
    decreases s@.len() - i, 1int,
{
    match negation_at(s, i) {
        None => None,
        Some(a) => {
            let k = skip_ws(s, a);
            match f_at(s, k) {
                None => None,
                Some((m, f)) => Some((m, Exp::Neg(Box::new(f)))),
            }
        }
    }
}

/// Matches a universal generalization at position `i`.
fn univ_genr_exp_at(s: &str, i: usize) -> (r: Option<(usize, Exp)>)
    requires
        i <= s@.len(),
    ensures
        exp_rel(r, spec_univ_genr_exp(s@, i as int), i as int, s@.len()),
    decreases s@.len() - i, 0int,
{
    let n = s.unicode_len();
    if i < n && s.get_char(i) == '(' {
        let a = skip_ws(s, i + 1);
        match var_at(s, a) {
            None => None,
            Some(ve) => {
                let b = skip_ws(s, ve);
                if b < n && s.get_char(b) == ')' {
                    let k = skip_ws(s, b + 1);
                    match f_at(s, k) {
                        None => None,
                        Some((m, f)) => {
                            let variable = s.substring_char(a, ve).to_owned();
                            Some((m, Exp::UnivGenr { variable, form: Box::new(f) }))
                        }
                    }
                } else {
                    None
                }
            }
        }
    } else {
        None
    }
}

/// Matches an existential generalization at position `i`.
fn exist_genr_exp_at(s: &str, i: usize) -> (r: Option<(usize, Exp)>)
    requires
        i <= s@.len(),
    ensures
        exp_rel(r, spec_exist_genr_exp(s@, i as int), i as int, s@.len()),
    decreases s@.len() - i, 0int,
{
    let n = s.unicode_len();
    if i < n && s.get_char(i) == '(' {
        let a0 = skip_ws(s, i + 1);
        match existential_at(s, a0) {
            None => None,
            Some(e1) => {
                let a = skip_ws(s, e1);
                match var_at(s, a) {
                    None => None,
                    Some(ve) => {
                        let b = skip_ws(s, ve);
                        if b < n && s.get_char(b) == ')' {
                            let k = skip_ws(s, b + 1);
                            match f_at(s, k) {
                                None => None,
                                Some((m, f)) => {
                                    let variable = s.substring_char(a, ve).to_owned();
                                    Some((m, Exp::ExistGenr { variable, form: Box::new(f) }))
                                }
                            }
                        } else {
                            None
                        }
                    }
                }
            }
        }
    } else {
        None
    }
}

/// Matches a generalization at position `i`.
fn genr_exp_at(s: &str, i: usize) -> (r: Option<(usize, Exp)>)
    requires
        i <= s@.len(),
    ensures
        exp_rel(r, spec_genr_exp(s@, i as int), i as int, s@.len()),
    decreases s@.len() - i, 1int,
{
    match exist_genr_exp_at(s, i) {
        Some(r) => Some(r),
        None => univ_genr_exp_at(s, i),
    }
}

/// Matches a parenthesized formula at position `i`.
fn parenthesesed_exp_at(s: &str, i: usize) -> (r: Option<(usize, Exp)>)
    requires
        i <= s@.len(),
    ensures
        exp_rel(r, spec_parenthesesed_exp(s@, i as int), i as int, s@.len()),
    decreases s@.len() - i, 1int,
{
    let n = s.unicode_len();
    if i < n && s.get_char(i) == '(' {
        let a = skip_ws(s, i + 1);
        match cond_exp_at(s, a) {
            None => None,
            Some((j, e)) => {
                let b = skip_ws(s, j);
                if b < n && s.get_char(b) == ')' {
                    Some((b + 1, e))
                } else {
                    None
                }
            }
        }
    } else {
        None
    }
}

/// Matches the factor layer at position `i`.
fn f_at(s: &str, i: usize) -> (r: Option<(usize, Exp)>)
    requires
        i <= s@.len(),
    ensures
        exp_rel(r, spec_f(s@, i as int), i as int, s@.len()),
    decreases s@.len() - i, 2int,
{
    match atom_exp_at(s, i) {
        Some(r) => Some(r),
        None => match falsum_exp_at(s, i) {
            Some(r) => Some(r),
            None => match negate_exp_at(s, i) {
                Some(r) => Some(r),
                None => match genr_exp_at(s, i) {
                    Some(r) => Some(r),
                    None => parenthesesed_exp_at(s, i),
                },
            },
        },
    }
}

/// Matches a whole formula at position `i`.
pub fn exp_at(s: &str, i: usize) -> (r: Option<(usize, Exp)>)
    requires
        i <= s@.len(),
    ensures
        exp_rel(r, spec_exp(s@, i as int), i as int, s@.len()),
{
    cond_exp_at(s, i)
}

/// A formula as a leading token: the rest of the input and the parse tree.
pub fn exp(s: &str) -> (r: Option<(&str, Exp)>)
    ensures
        r is Some <==> spec_exp(s@, 0) is Some,
        r matches Some((rest, e)) ==> spec_exp(s@, 0) matches Some((j, f)) && e@ == f && rest@
            == s@.subrange(j, s@.len() as int),
{
    match exp_at(s, 0) {
        Some((j, e)) => {
            let (rest, _) = split_at_pos(s, j);
            Some((rest, e))
        }
        None => None,
    }
}

/// An atom as a leading token: the rest of the input and the parse tree.
pub fn atom_exp(s: &str) -> (r: Option<(&str, Exp)>)
    ensures
        r is Some <==> spec_atom_exp(s@, 0) is Some,
        r matches Some((rest, e)) ==> spec_atom_exp(s@, 0) matches Some((j, f)) && e@ == f && rest@
            == s@.subrange(j, s@.len() as int),
{
    match atom_exp_at(s, 0) {
        Some((j, e)) => {
            let (rest, _) = split_at_pos(s, j);
            Some((rest, e))
        }
        None => None,
    }
}

} // verus!
