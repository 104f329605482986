//! Identifier lexing: subscripts, dimension markers, individual constants,
//! individual variables and predicate symbols.

use crate::parser::util::{
    digits_end, digits_val, lemma_digits_end, scan_digits, split_at_pos, digit_run_value,
};
use vstd::prelude::*;

verus! {

/// Individual variables start with `u` through `z`.
pub open spec fn is_var_char(c: char) -> bool {
    'u' <= c && c <= 'z'
}

/// Individual constants start with `a` through `t`.
pub open spec fn is_ind_char(c: char) -> bool {
    'a' <= c && c <= 't'
}

/// Predicate symbols start with `A` through `Z`.
pub open spec fn is_pre_char(c: char) -> bool {
    'A' <= c && c <= 'Z'
}

/// A subscript `_` followed by one or more digits at position `i`; yields
/// the position after the digits.
pub open spec fn spec_subscr(t: Seq<char>, i: int) -> Option<int> {
    if 0 <= i < t.len() && t[i] == '_' && digits_end(t, i + 1) > i + 1 {
        Some(digits_end(t, i + 1))
    } else {
        None
    }
}

/// End of an identifier whose head character stands at `i`: the head plus
/// an optional subscript.
pub open spec fn spec_ident_end(t: Seq<char>, i: int) -> int {
    match spec_subscr(t, i + 1) {
        Some(j) => j,
        None => i + 1,
    }
}

/// An individual variable token at position `i`.
pub open spec fn spec_var(t: Seq<char>, i: int) -> Option<int> {
    if 0 <= i < t.len() && is_var_char(t[i]) {
        Some(spec_ident_end(t, i))
    } else {
        None
    }
}

/// An individual constant token at position `i`.
pub open spec fn spec_ind(t: Seq<char>, i: int) -> Option<int> {
    if 0 <= i < t.len() && is_ind_char(t[i]) {
        Some(spec_ident_end(t, i))
    } else {
        None
    }
}

/// An individual symbol: a variable or a constant.
pub open spec fn spec_ind_sym(t: Seq<char>, i: int) -> Option<int> {
    match spec_var(t, i) {
        Some(j) => Some(j),
        None => spec_ind(t, i),
    }
}

/// A predicate token at position `i`.
pub open spec fn spec_pre(t: Seq<char>, i: int) -> Option<int> {
    if 0 <= i < t.len() && is_pre_char(t[i]) {
        Some(spec_ident_end(t, i))
    } else {
        None
    }
}

/// A dimension marker `^` followed by digits whose value fits in eight
/// bits; yields the position after the digits and the value.
pub open spec fn spec_dim(t: Seq<char>, i: int) -> Option<(int, nat)> {
    if 0 <= i < t.len() && t[i] == '^' {
        let e = digits_end(t, i + 1);
        if e > i + 1 && digits_val(t, i + 1, e) <= 255 {
            Some((e, digits_val(t, i + 1, e)))
        } else {
            None
        }
    } else {
        None
    }
}

/// Token ends stay within the input.
pub proof fn lemma_ident_end(t: Seq<char>, i: int)
    requires
        0 <= i < t.len(),
    ensures
        i < spec_ident_end(t, i) <= t.len(),
{
    match spec_subscr(t, i + 1) {
        Some(j) => {
            assert(i + 1 < t.len());
            lemma_digits_end(t, i + 2);
        }
        None => {}
    }
}

/// Matches a subscript at position `i`.
pub fn subscr_at(s: &str, i: usize) -> (r: Option<usize>)
    requires
        i <= s@.len(),
    ensures
        match r {
            Some(j) => spec_subscr(s@, i as int) == Some(j as int) && i < j <= s@.len(),
            None => spec_subscr(s@, i as int) is None,
        },
{
    let n = s.unicode_len();
    if i < n && s.get_char(i) == '_' {
        let e = scan_digits(s, i + 1);
        if e > i + 1 {
            Some(e)
        } else {
            None
        }
    } else {
        None
    }
}

/// End of the identifier whose head stands at `i`.
fn ident_end_at(s: &str, i: usize) -> (j: usize)
    requires
        i < s@.len(),
    ensures
        j as int == spec_ident_end(s@, i as int),
        i < j <= s@.len(),
{
    let _n = s.unicode_len();
    match subscr_at(s, i + 1) {
        Some(j) => j,
        None => i + 1,
    }
}

/// Matches an individual variable at position `i`.
pub fn var_at(s: &str, i: usize) -> (r: Option<usize>)
    requires
        i <= s@.len(),
    ensures
        match r {
            Some(j) => spec_var(s@, i as int) == Some(j as int) && i < j <= s@.len(),
            None => spec_var(s@, i as int) is None,
        },
{
    let n = s.unicode_len();
    if i < n {
        let c = s.get_char(i);
        if c >= 'u' && c <= 'z' {
            Some(ident_end_at(s, i))
        } else {
            None
        }
    } else {
        None
    }
}

/// Matches an individual constant at position `i`.
pub fn ind_at(s: &str, i: usize) -> (r: Option<usize>)
    requires
        i <= s@.len(),
    ensures
        match r {
            Some(j) => spec_ind(s@, i as int) == Some(j as int) && i < j <= s@.len(),
            None => spec_ind(s@, i as int) is None,
        },
{
    let n = s.unicode_len();
    if i < n {
        let c = s.get_char(i);
        if c >= 'a' && c <= 't' {
            Some(ident_end_at(s, i))
        } else {
            None
        }
    } else {
        None
    }
}

/// Matches an individual symbol at position `i`.
pub fn ind_sym_at(s: &str, i: usize) -> (r: Option<usize>)
    requires
        i <= s@.len(),
    ensures
        match r {
            Some(j) => spec_ind_sym(s@, i as int) == Some(j as int) && i < j <= s@.len(),
            None => spec_ind_sym(s@, i as int) is None,
        },
{
    match var_at(s, i) {
        Some(j) => Some(j),
        None => ind_at(s, i),
    }
}

/// Matches a predicate token at position `i`.
pub fn pre_at(s: &str, i: usize) -> (r: Option<usize>)
    requires
        i <= s@.len(),
    ensures
        match r {
            Some(j) => spec_pre(s@, i as int) == Some(j as int) && i < j <= s@.len(),
            None => spec_pre(s@, i as int) is None,
        },
{
    let n = s.unicode_len();
    if i < n {
        let c = s.get_char(i);
        if c >= 'A' && c <= 'Z' {
            Some(ident_end_at(s, i))
        } else {
            None
        }
    } else {
        None
    }
}

/// Matches a dimension marker at position `i`.
pub fn dim_at(s: &str, i: usize) -> (r: Option<(usize, u8)>)
    requires
        i <= s@.len(),
    ensures
        match r {
            Some((j, v)) => spec_dim(s@, i as int) == Some((j as int, v as nat)) && i < j
                <= s@.len(),
            None => spec_dim(s@, i as int) is None,
        },
{
    let n = s.unicode_len();
    if i < n && s.get_char(i) == '^' {
        let e = scan_digits(s, i + 1);
        if e > i + 1 {
            proof {
                lemma_digits_end(s@, i + 1 as int);
            }
            match digit_run_value(s, i + 1, e) {
                Some(v) => {
                    if v <= 255 {
                        Some((e, v as u8))
                    } else {
                        None
                    }
                }
                None => None,
            }
        } else {
            None
        }
    } else {
        None
    }
}

/// A subscript as a leading token: the rest of the input and the matched
/// text.
pub fn subscr(s: &str) -> (r: Option<(&str, &str)>)
    ensures
        r is Some <==> spec_subscr(s@, 0) is Some,
        r matches Some((rest, tok)) ==> spec_subscr(s@, 0) matches Some(j) && rest@ == s@.subrange(
            j,
            s@.len() as int,
        ) && tok@ == s@.subrange(0, j),
{
    match subscr_at(s, 0) {
        Some(j) => Some(split_at_pos(s, j)),
        None => None,
    }
}

/// A dimension marker as a leading token: the rest of the input and the
/// value of its digits.
pub fn dim(s: &str) -> (r: Option<(&str, u8)>)
    ensures
        r is Some <==> spec_dim(s@, 0) is Some,
        r matches Some((rest, v)) ==> spec_dim(s@, 0) matches Some((j, val)) && rest@
            == s@.subrange(j, s@.len() as int) && v as nat == val,
{
    match dim_at(s, 0) {
        Some((j, v)) => {
            let (rest, _) = split_at_pos(s, j);
            Some((rest, v))
        }
        None => None,
    }
}

/// An individual variable as a leading token.
pub fn var(s: &str) -> (r: Option<(&str, &str)>)
    ensures
        r is Some <==> spec_var(s@, 0) is Some,
        r matches Some((rest, tok)) ==> spec_var(s@, 0) matches Some(j) && rest@ == s@.subrange(
            j,
            s@.len() as int,
        ) && tok@ == s@.subrange(0, j),
{
    match var_at(s, 0) {
        Some(j) => Some(split_at_pos(s, j)),
        None => None,
    }
}

/// An individual constant as a leading token.
pub fn ind(s: &str) -> (r: Option<(&str, &str)>)
    ensures
        r is Some <==> spec_ind(s@, 0) is Some,
        r matches Some((rest, tok)) ==> spec_ind(s@, 0) matches Some(j) && rest@ == s@.subrange(
            j,
            s@.len() as int,
        ) && tok@ == s@.subrange(0, j),
{
    match ind_at(s, 0) {
        Some(j) => Some(split_at_pos(s, j)),
        None => None,
    }
}

/// An individual symbol as a leading token.
pub fn ind_sym(s: &str) -> (r: Option<(&str, &str)>)
    ensures
        r is Some <==> spec_ind_sym(s@, 0) is Some,
        r matches Some((rest, tok)) ==> spec_ind_sym(s@, 0) matches Some(j) && rest@
            == s@.subrange(j, s@.len() as int) && tok@ == s@.subrange(0, j),
{
    match ind_sym_at(s, 0) {
        Some(j) => Some(split_at_pos(s, j)),
        None => None,
    }
}

/// A predicate symbol as a leading token.
pub fn pre(s: &str) -> (r: Option<(&str, &str)>)
    ensures
        r is Some <==> spec_pre(s@, 0) is Some,
        r matches Some((rest, tok)) ==> spec_pre(s@, 0) matches Some(j) && rest@ == s@.subrange(
            j,
            s@.len() as int,
        ) && tok@ == s@.subrange(0, j),
{
    match pre_at(s, 0) {
        Some(j) => Some(split_at_pos(s, j)),
        None => None,
    }
}

} // verus!
