//! Connective and quantifier symbols, each with its canonical form and its
//! accepted alternate spellings.

use crate::parser::util::split_at_pos;
use vstd::prelude::*;

verus! {

/// `→` or `->` at position `i`; yields the position after the symbol.
pub open spec fn spec_right_arrow(t: Seq<char>, i: int) -> Option<int> {
    if 0 <= i < t.len() && t[i] == '→' {
        Some(i + 1)
    } else if 0 <= i && i + 2 <= t.len() && t[i] == '-' && t[i + 1] == '>' {
        Some(i + 2)
    } else {
        None
    }
}

/// `↔` or `<->` at position `i`.
pub open spec fn spec_left_right_arrow(t: Seq<char>, i: int) -> Option<int> {
    if 0 <= i < t.len() && t[i] == '↔' {
        Some(i + 1)
    } else if 0 <= i && i + 3 <= t.len() && t[i] == '<' && t[i + 1] == '-' && t[i + 2] == '>' {
        Some(i + 3)
    } else {
        None
    }
}

/// `&` at position `i`.
pub open spec fn spec_and(t: Seq<char>, i: int) -> Option<int> {
    if 0 <= i < t.len() && t[i] == '&' {
        Some(i + 1)
    } else {
        None
    }
}

/// `∨` or `|` at position `i`.
pub open spec fn spec_or(t: Seq<char>, i: int) -> Option<int> {
    if 0 <= i < t.len() && (t[i] == '∨' || t[i] == '|') {
        Some(i + 1)
    } else {
        None
    }
}

/// `¬` or `-` at position `i`.
pub open spec fn spec_negation(t: Seq<char>, i: int) -> Option<int> {
    if 0 <= i < t.len() && (t[i] == '¬' || t[i] == '-') {
        Some(i + 1)
    } else {
        None
    }
}

/// `∃` or `]` at position `i`.
pub open spec fn spec_existential(t: Seq<char>, i: int) -> Option<int> {
    if 0 <= i < t.len() && (t[i] == '∃' || t[i] == ']') {
        Some(i + 1)
    } else {
        None
    }
}

/// `⊥` or `\bot` at position `i`.
pub open spec fn spec_falsum_sym(t: Seq<char>, i: int) -> Option<int> {
    if 0 <= i < t.len() && t[i] == '⊥' {
        Some(i + 1)
    } else if 0 <= i && i + 4 <= t.len() && t[i] == '\\' && t[i + 1] == 'b' && t[i + 2] == 'o' && t[
        i + 3
    ] == 't' {
        Some(i + 4)
    } else {
        None
    }
}

/// Matches `→` or `->` at position `i`.
pub fn right_arrow_at(s: &str, i: usize) -> (r: Option<usize>)
    requires
        i <= s@.len(),
    ensures
        match r {
            Some(j) => spec_right_arrow(s@, i as int) == Some(j as int) && i < j <= s@.len(),
            None => spec_right_arrow(s@, i as int) is None,
        },
{
    let n = s.unicode_len();
    if i < n && s.get_char(i) == '→' {
        Some(i + 1)
    } else if i < n && i + 1 < n && s.get_char(i) == '-' && s.get_char(i + 1) == '>' {
        Some(i + 2)
    } else {
        None
    }
}

/// Matches `↔` or `<->` at position `i`.
pub fn left_right_arrow_at(s: &str, i: usize) -> (r: Option<usize>)
    requires
        i <= s@.len(),
    ensures
        match r {
            Some(j) => spec_left_right_arrow(s@, i as int) == Some(j as int) && i < j <= s@.len(),
            None => spec_left_right_arrow(s@, i as int) is None,
        },
{
    let n = s.unicode_len();
    if i < n && s.get_char(i) == '↔' {
        Some(i + 1)
    } else if i < n && n - i >= 3 && s.get_char(i) == '<' && s.get_char(i + 1) == '-'
        && s.get_char(i + 2) == '>' {
        Some(i + 3)
    } else {
        None
    }
}

/// Matches `&` at position `i`.
pub fn and_at(s: &str, i: usize) -> (r: Option<usize>)
    requires
        i <= s@.len(),
    ensures
        match r {
            Some(j) => spec_and(s@, i as int) == Some(j as int) && i < j <= s@.len(),
            None => spec_and(s@, i as int) is None,
        },
{
    let n = s.unicode_len();
    if i < n && s.get_char(i) == '&' {
        Some(i + 1)
    } else {
        None
    }
}

/// Matches `∨` or `|` at position `i`.
pub fn or_at(s: &str, i: usize) -> (r: Option<usize>)
    requires
        i <= s@.len(),
    ensures
        match r {
            Some(j) => spec_or(s@, i as int) == Some(j as int) && i < j <= s@.len(),
            None => spec_or(s@, i as int) is None,
        },
{
    let n = s.unicode_len();
    if i < n && (s.get_char(i) == '∨' || s.get_char(i) == '|') {
        Some(i + 1)
    } else {
        None
    }
}

/// Matches `¬` or `-` at position `i`.
pub fn negation_at(s: &str, i: usize) -> (r: Option<usize>)
    requires
        i <= s@.len(),
    ensures
        match r {
            Some(j) => spec_negation(s@, i as int) == Some(j as int) && i < j <= s@.len(),
            None => spec_negation(s@, i as int) is None,
        },
{
    let n = s.unicode_len();
    if i < n && (s.get_char(i) == '¬' || s.get_char(i) == '-') {
        Some(i + 1)
    } else {
        None
    }
}

/// Matches `∃` or `]` at position `i`.
pub fn existential_at(s: &str, i: usize) -> (r: Option<usize>)
    requires
        i <= s@.len(),
    ensures
        match r {
            Some(j) => spec_existential(s@, i as int) == Some(j as int) && i < j <= s@.len(),
            None => spec_existential(s@, i as int) is None,
        },
{
    let n = s.unicode_len();
    if i < n && (s.get_char(i) == '∃' || s.get_char(i) == ']') {
        Some(i + 1)
    } else {
        None
    }
}

/// Matches `⊥` or `\bot` at position `i`.
pub fn falsum_at(s: &str, i: usize) -> (r: Option<usize>)
    requires
        i <= s@.len(),
    ensures
        match r {
            Some(j) => spec_falsum_sym(s@, i as int) == Some(j as int) && i < j <= s@.len(),
            None => spec_falsum_sym(s@, i as int) is None,
        },
{
    let n = s.unicode_len();
    if i < n && s.get_char(i) == '⊥' {
        Some(i + 1)
    } else if i < n && n - i >= 4 && s.get_char(i) == '\\' && s.get_char(i + 1) == 'b'
        && s.get_char(i + 2) == 'o' && s.get_char(i + 3) == 't' {
        Some(i + 4)
    } else {
        None
    }
}

/// The conditional arrow as a leading token: the rest of the input and the
/// matched spelling.
pub fn right_arrow(s: &str) -> (r: Option<(&str, &str)>)
    ensures
        r is Some <==> spec_right_arrow(s@, 0) is Some,
        r matches Some((rest, tok)) ==> spec_right_arrow(s@, 0) matches Some(j) && rest@
            == s@.subrange(j, s@.len() as int) && tok@ == s@.subrange(0, j),
{
    match right_arrow_at(s, 0) {
        Some(j) => Some(split_at_pos(s, j)),
        None => None,
    }
}

/// The biconditional arrow as a leading token.
pub fn left_right_arrow(s: &str) -> (r: Option<(&str, &str)>)
    ensures
        r is Some <==> spec_left_right_arrow(s@, 0) is Some,
        r matches Some((rest, tok)) ==> spec_left_right_arrow(s@, 0) matches Some(j) && rest@
            == s@.subrange(j, s@.len() as int) && tok@ == s@.subrange(0, j),
{
    match left_right_arrow_at(s, 0) {
        Some(j) => Some(split_at_pos(s, j)),
        None => None,
    }
}

/// The conjunction symbol as a leading token.
pub fn and(s: &str) -> (r: Option<(&str, &str)>)
    ensures
        r is Some <==> spec_and(s@, 0) is Some,
        r matches Some((rest, tok)) ==> spec_and(s@, 0) matches Some(j) && rest@ == s@.subrange(
            j,
            s@.len() as int,
        ) && tok@ == s@.subrange(0, j),
{
    match and_at(s, 0) {
        Some(j) => Some(split_at_pos(s, j)),
        None => None,
    }
}

/// The disjunction symbol as a leading token.
pub fn or(s: &str) -> (r: Option<(&str, &str)>)
    ensures
        r is Some <==> spec_or(s@, 0) is Some,
        r matches Some((rest, tok)) ==> spec_or(s@, 0) matches Some(j) && rest@ == s@.subrange(
            j,
            s@.len() as int,
        ) && tok@ == s@.subrange(0, j),
{
    match or_at(s, 0) {
        Some(j) => Some(split_at_pos(s, j)),
        None => None,
    }
}

/// The negation symbol as a leading token.
pub fn negation(s: &str) -> (r: Option<(&str, &str)>)
    ensures
        r is Some <==> spec_negation(s@, 0) is Some,
        r matches Some((rest, tok)) ==> spec_negation(s@, 0) matches Some(j) && rest@
            == s@.subrange(j, s@.len() as int) && tok@ == s@.subrange(0, j),
{
    match negation_at(s, 0) {
        Some(j) => Some(split_at_pos(s, j)),
        None => None,
    }
}

/// The existential quantifier symbol as a leading token.
pub fn existential(s: &str) -> (r: Option<(&str, &str)>)
    ensures
        r is Some <==> spec_existential(s@, 0) is Some,
        r matches Some((rest, tok)) ==> spec_existential(s@, 0) matches Some(j) && rest@
            == s@.subrange(j, s@.len() as int) && tok@ == s@.subrange(0, j),
{
    match existential_at(s, 0) {
        Some(j) => Some(split_at_pos(s, j)),
        None => None,
    }
}

/// The falsum symbol as a leading token.
pub fn falsum(s: &str) -> (r: Option<(&str, &str)>)
    ensures
        r is Some <==> spec_falsum_sym(s@, 0) is Some,
        r matches Some((rest, tok)) ==> spec_falsum_sym(s@, 0) matches Some(j) && rest@
            == s@.subrange(j, s@.len() as int) && tok@ == s@.subrange(0, j),
{
    match falsum_at(s, 0) {
        Some(j) => Some(split_at_pos(s, j)),
        None => None,
    }
}

} // verus!
