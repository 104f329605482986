//! Full-string parsing: a row's text is accepted only when, after trimming
//! surrounding whitespace, the whole of it is one formula or one citation.

use crate::ast::exp::{Exp, Formula};
use crate::ast::rule::Rule;
use crate::parser::expression::{exp_at, spec_exp};
use crate::parser::rule::{rule_at, spec_rule};
use crate::parser::util::{lemma_ws_end, lemma_ws_rend, skip_ws, skip_ws_rev, ws_end, ws_rend};
use vstd::prelude::*;

verus! {

/// The text with surrounding whitespace trimmed away.
pub open spec fn trimmed(t: Seq<char>) -> Seq<char> {
    let l = ws_end(t, 0);
    let r = ws_rend(t, t.len() as int);
    if l <= r {
        t.subrange(l, r)
    } else {
        Seq::empty()
    }
}

/// The formula a whole row text stands for, if any: the trimmed text must
/// be consumed completely.
pub open spec fn spec_parse_exp(t: Seq<char>) -> Option<Formula> {
    let u = trimmed(t);
    match spec_exp(u, 0) {
        Some((j, f)) => if j == u.len() {
            Some(f)
        } else {
            None
        },
        None => None,
    }
}

/// The citation a whole rule text stands for, if any: the trimmed text
/// must be consumed completely.
pub open spec fn spec_parse_rule(t: Seq<char>) -> Option<Rule> {
    let u = trimmed(t);
    match spec_rule(u, 0) {
        Some((j, r)) => if j == u.len() {
            Some(r)
        } else {
            None
        },
        None => None,
    }
}

/// The trimmed text as a borrowed slice.
fn trim(s: &str) -> (r: &str)
    ensures
        r@ == trimmed(s@),
{
    let n = s.unicode_len();
    let l = skip_ws(s, 0);
    let r = skip_ws_rev(s, n);
    proof {
        lemma_ws_end(s@, 0);
        lemma_ws_rend(s@, s@.len() as int);
    }
    if l <= r {
        s.substring_char(l, r)
    } else {
        let empty = s.substring_char(0, 0);
        proof {
            assert(empty@ =~= trimmed(s@));
        }
        empty
    }
}

/// Parses a whole row text as a formula.
pub fn parse_exp(s: &str) -> (r: Result<Exp, ()>)
    ensures
        match r {
            Ok(e) => spec_parse_exp(s@) == Some(e@),
            Err(_) => spec_parse_exp(s@) is None,
        },
{
    let u = trim(s);
    let n = u.unicode_len();
    match exp_at(u, 0) {
        Some((j, e)) => {
            if j == n {
                Ok(e)
            } else {
                Err(())
            }
        }
        None => Err(()),
    }
}

/// Parses a whole rule text as a citation.
pub fn parse_rule(s: &str) -> (r: Result<Rule, ()>)
    ensures
        match r {
            Ok(ru) => spec_parse_rule(s@) == Some(ru),
            Err(_) => spec_parse_rule(s@) is None,
        },
{
    let u = trim(s);
    let n = u.unicode_len();
    match rule_at(u, 0) {
        Some((j, ru)) => {
            if j == n {
                Ok(ru)
            } else {
                Err(())
            }
        }
        None => Err(()),
    }
}

} // verus!
