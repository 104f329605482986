//! The rule-citation grammar: comma-separated line numbers and line ranges
//! followed by a rule tag. Alternatives are tried in a fixed order and the
//! first that matches wins.

use crate::ast::rule::Rule;
use crate::parser::symbol::{
    and_at, existential_at, falsum_at, left_right_arrow_at, negation_at, or_at, right_arrow_at,
    spec_and, spec_existential, spec_falsum_sym, spec_left_right_arrow, spec_negation, spec_or,
    spec_right_arrow,
};
use crate::parser::util::{
    digit_run_value, digits_end, digits_val, is_space_char, lemma_digits_end, scan_digits, skip_ws,
    split_at_pos, ws_end,
};
use vstd::prelude::*;

verus! {

/// A line number: a run of decimal digits whose value fits in `usize`.
pub open spec fn spec_num(t: Seq<char>, i: int) -> Option<(int, usize)> {
    let e = digits_end(t, i);
    if e > i && digits_val(t, i, e) <= usize::MAX {
        Some((e, digits_val(t, i, e) as usize))
    } else {
        None
    }
}

/// A comma with optional whitespace around it.
pub open spec fn spec_sep(t: Seq<char>, i: int) -> Option<int> {
    let a = ws_end(t, i);
    if 0 <= a < t.len() && t[a] == ',' {
        Some(ws_end(t, a + 1))
    } else {
        None
    }
}

/// One or more whitespace characters.
pub open spec fn spec_ws1(t: Seq<char>, i: int) -> Option<int> {
    if 0 <= i < t.len() && is_space_char(t[i]) {
        Some(ws_end(t, i))
    } else {
        None
    }
}

/// A line range `a-b`, with optional whitespace around the dash.
pub open spec fn spec_range(t: Seq<char>, i: int) -> Option<(int, (usize, usize))> {
    match spec_num(t, i) {
        None => None,
        Some((a, k)) => {
            let b = ws_end(t, a);
            if 0 <= b < t.len() && t[b] == '-' {
                let c = ws_end(t, b + 1);
                match spec_num(t, c) {
                    None => None,
                    Some((d, l)) => Some((d, (k, l))),
                }
            } else {
                None
            }
        }
    }
}

/// The tag letter (`I` or `E`) that closes most rule tags.
pub open spec fn spec_letter(t: Seq<char>, i: int, c: char) -> Option<int> {
    if 0 <= i < t.len() && t[i] == c {
        Some(i + 1)
    } else {
        None
    }
}

/// `P`: this line is a premise.
pub open spec fn spec_premise(t: Seq<char>, i: int) -> Option<(int, Rule)> {
    if 0 <= i < t.len() && t[i] == 'P' {
        Some((i + 1, Rule::Premise))
    } else {
        None
    }
}

/// `k, l &I`.
pub open spec fn spec_and_intro(t: Seq<char>, i: int) -> Option<(int, Rule)> {
    match spec_num(t, i) {
        None => None,
        Some((a, k)) => match spec_sep(t, a) {
            None => None,
            Some(b) => match spec_num(t, b) {
                None => None,
                Some((c, l)) => match spec_ws1(t, c) {
                    None => None,
                    Some(d) => match spec_and(t, d) {
                        None => None,
                        Some(e) => match spec_letter(t, e, 'I') {
                            None => None,
                            Some(j) => Some((j, Rule::AndIntro(k, l))),
                        },
                    },
                },
            },
        },
    }
}

/// `k &E`.
pub open spec fn spec_and_exclude(t: Seq<char>, i: int) -> Option<(int, Rule)> {
    match spec_num(t, i) {
        None => None,
        Some((a, k)) => match spec_ws1(t, a) {
            None => None,
            Some(d) => match spec_and(t, d) {
                None => None,
                Some(e) => match spec_letter(t, e, 'E') {
                    None => None,
                    Some(j) => Some((j, Rule::AndExclude(k))),
                },
            },
        },
    }
}

/// `k ∨I` or `k, l ∨I`.
pub open spec fn spec_or_intro(t: Seq<char>, i: int) -> Option<(int, Rule)> {
    match spec_num(t, i) {
        None => None,
        Some((a, k)) => {
            let second = match spec_sep(t, a) {
                None => (a, None),
                Some(b) => match spec_num(t, b) {
                    None => (a, None),
                    Some((c, l)) => (c, Some(l)),
                },
            };
            match spec_ws1(t, second.0) {
                None => None,
                Some(d) => match spec_or(t, d) {
                    None => None,
                    Some(e) => match spec_letter(t, e, 'I') {
                        None => None,
                        Some(j) => Some((j, Rule::OrIntro(k, second.1))),
                    },
                },
            }
        }
    }
}

/// `k, l0-l1, m0-m1 ∨E`.
pub open spec fn spec_or_exclude(t: Seq<char>, i: int) -> Option<(int, Rule)> {
    match spec_num(t, i) {
        None => None,
        Some((a, k)) => match spec_sep(t, a) {
            None => None,
            Some(b) => match spec_range(t, b) {
                None => None,
                Some((c, r1)) => match spec_sep(t, c) {
                    None => None,
                    Some(d) => match spec_range(t, d) {
                        None => None,
                        Some((e, r2)) => match spec_ws1(t, e) {
                            None => None,
                            Some(f) => match spec_or(t, f) {
                                None => None,
                                Some(g) => match spec_letter(t, g, 'E') {
                                    None => None,
                                    Some(j) => Some((j, Rule::OrExclude(k, r1, r2))),
                                },
                            },
                        },
                    },
                },
            },
        },
    }
}

/// `k0-k1 →I` or `k →I`.
pub open spec fn spec_if_intro(t: Seq<char>, i: int) -> Option<(int, Rule)> {
    let opened = match spec_num(t, i) {
        None => (i, None),
        Some((a, k0)) => {
            let b = ws_end(t, a);
            if 0 <= b < t.len() && t[b] == '-' {
                (ws_end(t, b + 1), Some(k0))
            } else {
                (i, None)
            }
        }
    };
    match spec_num(t, opened.0) {
        None => None,
        Some((c, k1)) => match spec_ws1(t, c) {
            None => None,
            Some(d) => match spec_right_arrow(t, d) {
                None => None,
                Some(e) => match spec_letter(t, e, 'I') {
                    None => None,
                    Some(j) => Some((j, Rule::IfIntro((opened.1, k1)))),
                },
            },
        },
    }
}

/// `k, l →E`.
pub open spec fn spec_if_exclude(t: Seq<char>, i: int) -> Option<(int, Rule)> {
    match spec_num(t, i) {
        None => None,
        Some((a, k)) => match spec_sep(t, a) {
            None => None,
            Some(b) => match spec_num(t, b) {
                None => None,
                Some((c, l)) => match spec_ws1(t, c) {
                    None => None,
                    Some(d) => match spec_right_arrow(t, d) {
                        None => None,
                        Some(e) => match spec_letter(t, e, 'E') {
                            None => None,
                            Some(j) => Some((j, Rule::IfExclude(k, l))),
                        },
                    },
                },
            },
        },
    }
}

/// `k, l ↔I`.
pub open spec fn spec_iff_intro(t: Seq<char>, i: int) -> Option<(int, Rule)> {
    match spec_num(t, i) {
        None => None,
        Some((a, k)) => match spec_sep(t, a) {
            None => None,
            Some(b) => match spec_num(t, b) {
                None => None,
                Some((c, l)) => match spec_ws1(t, c) {
                    None => None,
                    Some(d) => match spec_left_right_arrow(t, d) {
                        None => None,
                        Some(e) => match spec_letter(t, e, 'I') {
                            None => None,
                            Some(j) => Some((j, Rule::IffIntro(k, l))),
                        },
                    },
                },
            },
        },
    }
}

/// `k ↔E`.
pub open spec fn spec_iff_exclude(t: Seq<char>, i: int) -> Option<(int, Rule)> {
    match spec_num(t, i) {
        None => None,
        Some((a, k)) => match spec_ws1(t, a) {
            None => None,
            Some(d) => match spec_left_right_arrow(t, d) {
                None => None,
                Some(e) => match spec_letter(t, e, 'E') {
                    None => None,
                    Some(j) => Some((j, Rule::IffExclude(k))),
                },
            },
        },
    }
}

/// `k ⊥`: ex falso quodlibet.
pub open spec fn spec_falsum_rule(t: Seq<char>, i: int) -> Option<(int, Rule)> {
    match spec_num(t, i) {
        None => None,
        Some((a, k)) => match spec_ws1(t, a) {
            None => None,
            Some(d) => match spec_falsum_sym(t, d) {
                None => None,
                Some(j) => Some((j, Rule::Falsum(k))),
            },
        },
    }
}

/// `k0-k1 ¬I`.
pub open spec fn spec_neg_intro(t: Seq<char>, i: int) -> Option<(int, Rule)> {
    match spec_range(t, i) {
        None => None,
        Some((a, r)) => match spec_ws1(t, a) {
            None => None,
            Some(d) => match spec_negation(t, d) {
                None => None,
                Some(e) => match spec_letter(t, e, 'I') {
                    None => None,
                    Some(j) => Some((j, Rule::NegIntro(r))),
                },
            },
        },
    }
}

/// `k0-k1 ¬E`.
pub open spec fn spec_neg_exclude(t: Seq<char>, i: int) -> Option<(int, Rule)> {
    match spec_range(t, i) {
        None => None,
        Some((a, r)) => match spec_ws1(t, a) {
            None => None,
            Some(d) => match spec_negation(t, d) {
                None => None,
                Some(e) => match spec_letter(t, e, 'E') {
                    None => None,
                    Some(j) => Some((j, Rule::NegExclude(r))),
                },
            },
        },
    }
}

/// The universal tag `()` at position `i`.
pub open spec fn spec_univ_tag(t: Seq<char>, i: int) -> Option<int> {
    if 0 <= i && i + 2 <= t.len() && t[i] == '(' && t[i + 1] == ')' {
        Some(i + 2)
    } else {
        None
    }
}

/// `k ()I`.
pub open spec fn spec_univ_qunt_intro(t: Seq<char>, i: int) -> Option<(int, Rule)> {
    match spec_num(t, i) {
        None => None,
        Some((a, k)) => match spec_ws1(t, a) {
            None => None,
            Some(d) => match spec_univ_tag(t, d) {
                None => None,
                Some(e) => match spec_letter(t, e, 'I') {
                    None => None,
                    Some(j) => Some((j, Rule::UnivQuntIntro(k))),
                },
            },
        },
    }
}

/// `k ()E`.
pub open spec fn spec_univ_qunt_exclude(t: Seq<char>, i: int) -> Option<(int, Rule)> {
    match spec_num(t, i) {
        None => None,
        Some((a, k)) => match spec_ws1(t, a) {
            None => None,
            Some(d) => match spec_univ_tag(t, d) {
                None => None,
                Some(e) => match spec_letter(t, e, 'E') {
                    None => None,
                    Some(j) => Some((j, Rule::UnivQuntExclude(k))),
                },
            },
        },
    }
}

/// `k ∃I`.
pub open spec fn spec_exis_qunt_intro(t: Seq<char>, i: int) -> Option<(int, Rule)> {
    match spec_num(t, i) {
        None => None,
        Some((a, k)) => match spec_ws1(t, a) {
            None => None,
            Some(d) => match spec_existential(t, d) {
                None => None,
                Some(e) => match spec_letter(t, e, 'I') {
                    None => None,
                    Some(j) => Some((j, Rule::ExisQuntIntro(k))),
                },
            },
        },
    }
}

/// `k, l0-l1 ∃E`.
pub open spec fn spec_exis_qunt_exclude(t: Seq<char>, i: int) -> Option<(int, Rule)> {
    match spec_num(t, i) {
        None => None,
        Some((a, k)) => match spec_sep(t, a) {
            None => None,
            Some(b) => match spec_range(t, b) {
                None => None,
                Some((c, r)) => match spec_ws1(t, c) {
                    None => None,
                    Some(d) => match spec_existential(t, d) {
                        None => None,
                        Some(e) => match spec_letter(t, e, 'E') {
                            None => None,
                            Some(j) => Some((j, Rule::ExisQuntExclude(k, r))),
                        },
                    },
                },
            },
        },
    }
}

/// A rule citation: the seventeen shapes tried in a fixed order.
pub open spec fn spec_rule(t: Seq<char>, i: int) -> Option<(int, Rule)> {
    match spec_premise(t, i) {
        Some(r) => Some(r),
        None => match spec_and_intro(t, i) {
            Some(r) => Some(r),
            None => match spec_and_exclude(t, i) {
                Some(r) => Some(r),
                None => match spec_or_intro(t, i) {
                    Some(r) => Some(r),
                    None => match spec_or_exclude(t, i) {
                        Some(r) => Some(r),
                        None => match spec_if_intro(t, i) {
                            Some(r) => Some(r),
                            None => match spec_if_exclude(t, i) {
                                Some(r) => Some(r),
                                None => match spec_iff_intro(t, i) {
                                    Some(r) => Some(r),
                                    None => match spec_iff_exclude(t, i) {
                                        Some(r) => Some(r),
                                        None => match spec_falsum_rule(t, i) {
                                            Some(r) => Some(r),
                                            None => match spec_neg_intro(t, i) {
                                                Some(r) => Some(r),
                                                None => match spec_neg_exclude(t, i) {
                                                    Some(r) => Some(r),
                                                    None => match spec_univ_qunt_intro(t, i) {
                                                        Some(r) => Some(r),
                                                        None => match spec_univ_qunt_exclude(
                                                            t,
                                                            i,
                                                        ) {
                                                            Some(r) => Some(r),
                                                            None => match spec_exis_qunt_intro(
                                                                t,
                                                                i,
                                                            ) {
                                                                Some(r) => Some(r),
                                                                None => spec_exis_qunt_exclude(
                                                                    t,
                                                                    i,
                                                                ),
                                                            },
                                                        },
                                                    },
                                                },
                                            },
                                        },
                                    },
                                },
                            },
                        },
                    },
                },
            },
        },
    }
}

/// How an executable citation parse corresponds to its specification twin.
pub open spec fn rule_rel(r: Option<(usize, Rule)>, sp: Option<(int, Rule)>, i: int, len: nat) -> bool {
    match r {
        None => sp is None,
        Some((j, ru)) => sp == Some((j as int, ru)) && i <= j as int <= len,
    }
}

/// Matches a line number at position `i`.
pub fn num_at(s: &str, i: usize) -> (r: Option<(usize, usize)>)
    requires
        i <= s@.len(),
    ensures
        match r {
            Some((j, v)) => spec_num(s@, i as int) == Some((j as int, v)) && i < j <= s@.len(),
            None => spec_num(s@, i as int) is None,
        },
{
    let e = scan_digits(s, i);
    if e > i {
        proof {
            lemma_digits_end(s@, i as int);
        }
        match digit_run_value(s, i, e) {
            Some(v) => Some((e, v)),
            None => None,
        }
    } else {
        None
    }
}

/// Matches a separator comma at position `i`.
fn sep_at(s: &str, i: usize) -> (r: Option<usize>)
    requires
        i <= s@.len(),
    ensures
        match r {
            Some(j) => spec_sep(s@, i as int) == Some(j as int) && i <= j <= s@.len(),
            None => spec_sep(s@, i as int) is None,
        },
{
    let n = s.unicode_len();
    let a = skip_ws(s, i);
    if a < n && s.get_char(a) == ',' {
        Some(skip_ws(s, a + 1))
    } else {
        None
    }
}

/// Matches one or more whitespace characters at position `i`.
fn ws1_at(s: &str, i: usize) -> (r: Option<usize>)
    requires
        i <= s@.len(),
    ensures
        match r {
            Some(j) => spec_ws1(s@, i as int) == Some(j as int) && i < j <= s@.len(),
            None => spec_ws1(s@, i as int) is None,
        },
{
    let n = s.unicode_len();
    if i < n && crate::parser::util::is_space(s.get_char(i)) {
        let j = skip_ws(s, i);
        proof {
            assert(ws_end(s@, i as int) == ws_end(s@, i + 1 as int));
            crate::parser::util::lemma_ws_end(s@, i + 1 as int);
        }
        Some(j)
    } else {
        None
    }
}

/// Matches a line range at position `i`.
fn range_at(s: &str, i: usize) -> (r: Option<(usize, (usize, usize))>)
    requires
        i <= s@.len(),
    ensures
        match r {
            Some((j, p)) => spec_range(s@, i as int) == Some((j as int, p)) && i < j <= s@.len(),
            None => spec_range(s@, i as int) is None,
        },
{
    let n = s.unicode_len();
    match num_at(s, i) {
        None => None,
        Some((a, k)) => {
            let b = skip_ws(s, a);
            if b < n && s.get_char(b) == '-' {
                let c = skip_ws(s, b + 1);
                match num_at(s, c) {
                    None => None,
                    Some((d, l)) => Some((d, (k, l))),
                }
            } else {
                None
            }
        }
    }
}

/// Matches the closing tag letter at position `i`.
fn letter_at(s: &str, i: usize, c: char) -> (r: Option<usize>)
    requires
        i <= s@.len(),
    ensures
        match r {
            Some(j) => spec_letter(s@, i as int, c) == Some(j as int) && i < j <= s@.len(),
            None => spec_letter(s@, i as int, c) is None,
        },
{
    let n = s.unicode_len();
    if i < n && s.get_char(i) == c {
        Some(i + 1)
    } else {
        None
    }
}

/// Matches the universal tag `()` at position `i`.
fn univ_tag_at(s: &str, i: usize) -> (r: Option<usize>)
    requires
        i <= s@.len(),
    ensures
        match r {
            Some(j) => spec_univ_tag(s@, i as int) == Some(j as int) && i < j <= s@.len(),
            None => spec_univ_tag(s@, i as int) is None,
        },
{
    let n = s.unicode_len();
    if i < n && n - i >= 2 && s.get_char(i) == '(' && s.get_char(i + 1) == ')' {
        Some(i + 2)
    } else {
        None
    }
}

/// Matches `P` at position `i`.
fn premise_at(s: &str, i: usize) -> (r: Option<(usize, Rule)>)
    requires
        i <= s@.len(),
    ensures
        rule_rel(r, spec_premise(s@, i as int), i as int, s@.len()),
{
    let n = s.unicode_len();
    if i < n && s.get_char(i) == 'P' {
        Some((i + 1, Rule::Premise))
    } else {
        None
    }
}

/// Matches `k, l &I` at position `i`.
fn and_intro_at(s: &str, i: usize) -> (r: Option<(usize, Rule)>)
    requires
        i <= s@.len(),
    ensures
        rule_rel(r, spec_and_intro(s@, i as int), i as int, s@.len()),
{
    match num_at(s, i) {
        None => None,
        Some((a, k)) => match sep_at(s, a) {
            None => None,
            Some(b) => match num_at(s, b) {
                None => None,
                Some((c, l)) => match ws1_at(s, c) {
                    None => None,
                    Some(d) => match and_at(s, d) {
                        None => None,
                        Some(e) => match letter_at(s, e, 'I') {
                            None => None,
                            Some(j) => Some((j, Rule::AndIntro(k, l))),
                        },
                    },
                },
            },
        },
    }
}

/// Matches `k &E` at position `i`.
fn and_exclude_at(s: &str, i: usize) -> (r: Option<(usize, Rule)>)
    requires
        i <= s@.len(),
    ensures
        rule_rel(r, spec_and_exclude(s@, i as int), i as int, s@.len()),
{
    match num_at(s, i) {
        None => None,
        Some((a, k)) => match ws1_at(s, a) {
            None => None,
            Some(d) => match and_at(s, d) {
                None => None,
                Some(e) => match letter_at(s, e, 'E') {
                    None => None,
                    Some(j) => Some((j, Rule::AndExclude(k))),
                },
            },
        },
    }
}

/// Matches `k ∨I` or `k, l ∨I` at position `i`.
fn or_intro_at(s: &str, i: usize) -> (r: Option<(usize, Rule)>)
    requires
        i <= s@.len(),
    ensures
        rule_rel(r, spec_or_intro(s@, i as int), i as int, s@.len()),
{
    match num_at(s, i) {
        None => None,
        Some((a, k)) => {
            let (pos, second) = match sep_at(s, a) {
                None => (a, None),
                Some(b) => match num_at(s, b) {
                    None => (a, None),
                    Some((c, l)) => (c, Some(l)),
                },
            };
            match ws1_at(s, pos) {
                None => None,
                Some(d) => match or_at(s, d) {
                    None => None,
                    Some(e) => match letter_at(s, e, 'I') {
                        None => None,
                        Some(j) => Some((j, Rule::OrIntro(k, second))),
                    },
                },
            }
        }
    }
}

/// Matches `k, l0-l1, m0-m1 ∨E` at position `i`.
fn or_exclude_at(s: &str, i: usize) -> (r: Option<(usize, Rule)>)
    requires
        i <= s@.len(),
    ensures
        rule_rel(r, spec_or_exclude(s@, i as int), i as int, s@.len()),
{
    match num_at(s, i) {
        None => None,
        Some((a, k)) => match sep_at(s, a) {
            None => None,
            Some(b) => match range_at(s, b) {
                None => None,
                Some((c, r1)) => match sep_at(s, c) {
                    None => None,
                    Some(d) => match range_at(s, d) {
                        None => None,
                        Some((e, r2)) => match ws1_at(s, e) {
                            None => None,
                            Some(f) => match or_at(s, f) {
                                None => None,
                                Some(g) => match letter_at(s, g, 'E') {
                                    None => None,
                                    Some(j) => Some((j, Rule::OrExclude(k, r1, r2))),
                                },
                            },
                        },
                    },
                },
            },
        },
    }
}

/// Matches `k0-k1 →I` or `k →I` at position `i`.
fn if_intro_at(s: &str, i: usize) -> (r: Option<(usize, Rule)>)
    requires
        i <= s@.len(),
    ensures
        rule_rel(r, spec_if_intro(s@, i as int), i as int, s@.len()),
{
    let n = s.unicode_len();
    let (pos, opened) = match num_at(s, i) {
        None => (i, None),
        Some((a, k0)) => {
            let b = skip_ws(s, a);
            if b < n && s.get_char(b) == '-' {
                (skip_ws(s, b + 1), Some(k0))
            } else {
                (i, None)
            }
        }
    };
    match num_at(s, pos) {
        None => None,
        Some((c, k1)) => match ws1_at(s, c) {
            None => None,
            Some(d) => match right_arrow_at(s, d) {
                None => None,
                Some(e) => match letter_at(s, e, 'I') {
                    None => None,
                    Some(j) => Some((j, Rule::IfIntro((opened, k1)))),
                },
            },
        },
    }
}

/// Matches `k, l →E` at position `i`.
fn if_exclude_at(s: &str, i: usize) -> (r: Option<(usize, Rule)>)
    requires
        i <= s@.len(),
    ensures
        rule_rel(r, spec_if_exclude(s@, i as int), i as int, s@.len()),
{
    match num_at(s, i) {
        None => None,
        Some((a, k)) => match sep_at(s, a) {
            None => None,
            Some(b) => match num_at(s, b) {
                None => None,
                Some((c, l)) => match ws1_at(s, c) {
                    None => None,
                    Some(d) => match right_arrow_at(s, d) {
                        None => None,
                        Some(e) => match letter_at(s, e, 'E') {
                            None => None,
                            Some(j) => Some((j, Rule::IfExclude(k, l))),
                        },
                    },
                },
            },
        },
    }
}

/// Matches `k, l ↔I` at position `i`.
fn iff_intro_at(s: &str, i: usize) -> (r: Option<(usize, Rule)>)
    requires
        i <= s@.len(),
    ensures
        rule_rel(r, spec_iff_intro(s@, i as int), i as int, s@.len()),
{
    match num_at(s, i) {
        None => None,
        Some((a, k)) => match sep_at(s, a) {
            None => None,
            Some(b) => match num_at(s, b) {
                None => None,
                Some((c, l)) => match ws1_at(s, c) {
                    None => None,
                    Some(d) => match left_right_arrow_at(s, d) {
                        None => None,
                        Some(e) => match letter_at(s, e, 'I') {
                            None => None,
                            Some(j) => Some((j, Rule::IffIntro(k, l))),
                        },
                    },
                },
            },
        },
    }
}

/// Matches `k ↔E` at position `i`.
fn iff_exclude_at(s: &str, i: usize) -> (r: Option<(usize, Rule)>)
    requires
        i <= s@.len(),
    ensures
        rule_rel(r, spec_iff_exclude(s@, i as int), i as int, s@.len()),
{
    match num_at(s, i) {
        None => None,
        Some((a, k)) => match ws1_at(s, a) {
            None => None,
            Some(d) => match left_right_arrow_at(s, d) {
                None => None,
                Some(e) => match letter_at(s, e, 'E') {
                    None => None,
                    Some(j) => Some((j, Rule::IffExclude(k))),
                },
            },
        },
    }
}

/// Matches `k ⊥` at position `i`.
fn falsum_rule_at(s: &str, i: usize) -> (r: Option<(usize, Rule)>)
    requires
        i <= s@.len(),
    ensures
        rule_rel(r, spec_falsum_rule(s@, i as int), i as int, s@.len()),
{
    match num_at(s, i) {
        None => None,
        Some((a, k)) => match ws1_at(s, a) {
            None => None,
            Some(d) => match falsum_at(s, d) {
                None => None,
                Some(j) => Some((j, Rule::Falsum(k))),
            },
        },
    }
}

/// Matches `k0-k1 ¬I` at position `i`.
fn neg_intro_at(s: &str, i: usize) -> (r: Option<(usize, Rule)>)
    requires
        i <= s@.len(),
    ensures
        rule_rel(r, spec_neg_intro(s@, i as int), i as int, s@.len()),
{
    match range_at(s, i) {
        None => None,
        Some((a, range)) => match ws1_at(s, a) {
            None => None,
            Some(d) => match negation_at(s, d) {
                None => None,
                Some(e) => match letter_at(s, e, 'I') {
                    None => None,
                    Some(j) => Some((j, Rule::NegIntro(range))),
                },
            },
        },
    }
}

/// Matches `k0-k1 ¬E` at position `i`.
fn neg_exclude_at(s: &str, i: usize) -> (r: Option<(usize, Rule)>)
    requires
        i <= s@.len(),
    ensures
        rule_rel(r, spec_neg_exclude(s@, i as int), i as int, s@.len()),
{
    match range_at(s, i) {
        None => None,
        Some((a, range)) => match ws1_at(s, a) {
            None => None,
            Some(d) => match negation_at(s, d) {
                None => None,
                Some(e) => match letter_at(s, e, 'E') {
                    None => None,
                    Some(j) => Some((j, Rule::NegExclude(range))),
                },
            },
        },
    }
}

/// Matches `k ()I` at position `i`.
fn univ_qunt_intro_at(s: &str, i: usize) -> (r: Option<(usize, Rule)>)
    requires
        i <= s@.len(),
    ensures
        rule_rel(r, spec_univ_qunt_intro(s@, i as int), i as int, s@.len()),
{
    match num_at(s, i) {
        None => None,
        Some((a, k)) => match ws1_at(s, a) {
            None => None,
            Some(d) => match univ_tag_at(s, d) {
                None => None,
                Some(e) => match letter_at(s, e, 'I') {
                    None => None,
                    Some(j) => Some((j, Rule::UnivQuntIntro(k))),
                },
            },
        },
    }
}

/// Matches `k ()E` at position `i`.
fn univ_qunt_exclude_at(s: &str, i: usize) -> (r: Option<(usize, Rule)>)
    requires
        i <= s@.len(),
    ensures
        rule_rel(r, spec_univ_qunt_exclude(s@, i as int), i as int, s@.len()),
{
    match num_at(s, i) {
        None => None,
        Some((a, k)) => match ws1_at(s, a) {
            None => None,
            Some(d) => match univ_tag_at(s, d) {
                None => None,
                Some(e) => match letter_at(s, e, 'E') {
                    None => None,
                    Some(j) => Some((j, Rule::UnivQuntExclude(k))),
                },
            },
        },
    }
}

/// Matches `k ∃I` at position `i`.
fn exis_qunt_intro_at(s: &str, i: usize) -> (r: Option<(usize, Rule)>)
    requires
        i <= s@.len(),
    ensures
        rule_rel(r, spec_exis_qunt_intro(s@, i as int), i as int, s@.len()),
{
    match num_at(s, i) {
        None => None,
        Some((a, k)) => match ws1_at(s, a) {
            None => None,
            Some(d) => match existential_at(s, d) {
                None => None,
                Some(e) => match letter_at(s, e, 'I') {
                    None => None,
                    Some(j) => Some((j, Rule::ExisQuntIntro(k))),
                },
            },
        },
    }
}

/// Matches `k, l0-l1 ∃E` at position `i`.
fn exis_qunt_exclude_at(s: &str, i: usize) -> (r: Option<(usize, Rule)>)
    requires
        i <= s@.len(),
    ensures
        rule_rel(r, spec_exis_qunt_exclude(s@, i as int), i as int, s@.len()),
{
    match num_at(s, i) {
        None => None,
        Some((a, k)) => match sep_at(s, a) {
            None => None,
            Some(b) => match range_at(s, b) {
                None => None,
                Some((c, range)) => match ws1_at(s, c) {
                    None => None,
                    Some(d) => match existential_at(s, d) {
                        None => None,
                        Some(e) => match letter_at(s, e, 'E') {
                            None => None,
                            Some(j) => Some((j, Rule::ExisQuntExclude(k, range))),
                        },
                    },
                },
            },
        },
    }
}

/// Matches a rule citation at position `i`.
pub fn rule_at(s: &str, i: usize) -> (r: Option<(usize, Rule)>)
    requires
        i <= s@.len(),
    ensures
        rule_rel(r, spec_rule(s@, i as int), i as int, s@.len()),
{
    match premise_at(s, i) {
        Some(r) => Some(r),
        None => match and_intro_at(s, i) {
            Some(r) => Some(r),
            None => match and_exclude_at(s, i) {
                Some(r) => Some(r),
                None => match or_intro_at(s, i) {
                    Some(r) => Some(r),
                    None => match or_exclude_at(s, i) {
                        Some(r) => Some(r),
                        None => match if_intro_at(s, i) {
                            Some(r) => Some(r),
                            None => match if_exclude_at(s, i) {
                                Some(r) => Some(r),
                                None => match iff_intro_at(s, i) {
                                    Some(r) => Some(r),
                                    None => match iff_exclude_at(s, i) {
                                        Some(r) => Some(r),
                                        None => match falsum_rule_at(s, i) {
                                            Some(r) => Some(r),
                                            None => match neg_intro_at(s, i) {
                                                Some(r) => Some(r),
                                                None => match neg_exclude_at(s, i) {
                                                    Some(r) => Some(r),
                                                    None => match univ_qunt_intro_at(s, i) {
                                                        Some(r) => Some(r),
                                                        None => match univ_qunt_exclude_at(s, i) {
                                                            Some(r) => Some(r),
                                                            None => match exis_qunt_intro_at(
                                                                s,
                                                                i,
                                                            ) {
                                                                Some(r) => Some(r),
                                                                None => exis_qunt_exclude_at(s, i),
                                                            },
                                                        },
                                                    },
                                                },
                                            },
                                        },
                                    },
                                },
                            },
                        },
                    },
                },
            },
        },
    }
}

/// A rule citation as a leading token: the rest of the input and the parsed
/// citation.
pub fn rule(s: &str) -> (r: Option<(&str, Rule)>)
    ensures
        r is Some <==> spec_rule(s@, 0) is Some,
        r matches Some((rest, ru)) ==> spec_rule(s@, 0) matches Some((j, sr)) && ru == sr && rest@
            == s@.subrange(j, s@.len() as int),
{
    match rule_at(s, 0) {
        Some((j, ru)) => {
            let (rest, _) = split_at_pos(s, j);
            Some((rest, ru))
        }
        None => None,
    }
}

} // verus!
