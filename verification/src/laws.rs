//! Laws of the checker, stated once and proved for every input.

use crate::ast::exp::{cat_idents, wf_ident, Formula};
use crate::ast::rule::Rule;
use crate::checker::parser::{spec_parse_exp, spec_parse_rule, trimmed};
use crate::checker::state::{
    eig_bad, item_exp, spec_dep_at, spec_valid_at, spec_valid_univ_intro,
};
use crate::parser::util::{
    digits_val, is_digit_char, is_space_char, lemma_digits_end_split, lemma_ws_end, ws_end,
    ws_rend,
};
use crate::parser::rule::spec_num;
use crate::util::{dec_digits, digit_char, lemma_dec_digits_shape};
use vstd::arithmetic::div_mod::lemma_fundamental_div_mod;
use vstd::prelude::*;

verus! {

/// A text that neither starts nor ends with whitespace trims to itself.
proof fn lemma_trim_id(t: Seq<char>)
    requires
        t.len() > 0,
        !is_space_char(t[0]),
        !is_space_char(t[t.len() - 1]),
    ensures
        trimmed(t) == t,
{
    assert(ws_end(t, 0) == 0);
    assert(ws_rend(t, t.len() as int) == t.len() as int);
    assert(t.subrange(0, t.len() as int) =~= t);
}

/// A rendered number read back digit by digit gives the number.
proof fn lemma_digits_val_at(t: Seq<char>, i: int, n: nat)
    requires
        0 <= i,
        i + dec_digits(n).len() <= t.len(),
        forall|j: int| 0 <= j < dec_digits(n).len() ==> t[i + j] == #[trigger] dec_digits(n)[j],
    ensures
        digits_val(t, i, i + dec_digits(n).len()) == n,
    decreases n,
{
    let dd = dec_digits(n);
    if n < 10 {
        assert(t[i + 0] == dd[0]);
        assert(digits_val(t, i, i + 1) == digits_val(t, i, i) * 10 + crate::parser::util::digit_val(
            t[i],
        ));
    } else {
        let dd1 = dec_digits(n / 10);
        lemma_dec_digits_shape(n / 10);
        assert forall|j: int| 0 <= j < dd1.len() implies t[i + j] == #[trigger] dd1[j] by {
            assert(dd[j] == dd1[j]);
            assert(t[i + j] == dd[j]);
        }
        lemma_digits_val_at(t, i, n / 10);
        assert(t[i + dd1.len()] == dd[dd1.len() as int]);
        assert(dd[dd1.len() as int] == digit_char(n % 10));
        assert(digits_val(t, i, i + dd.len()) == digits_val(t, i, i + dd.len() - 1) * 10
            + crate::parser::util::digit_val(t[i + dd.len() - 1]));
        lemma_fundamental_div_mod(n as int, 10);
    }
}

/// A rendered number followed by a non-digit parses as that number.
proof fn lemma_spec_num_at(t: Seq<char>, i: int, v: usize)
    requires
        0 <= i,
        i + dec_digits(v as nat).len() <= t.len(),
        forall|j: int|
            0 <= j < dec_digits(v as nat).len() ==> t[i + j] == #[trigger] dec_digits(
                v as nat,
            )[j],
        i + dec_digits(v as nat).len() == t.len() || !is_digit_char(
            t[i + dec_digits(v as nat).len()],
        ),
    ensures
        spec_num(t, i) == Some((i + dec_digits(v as nat).len(), v)),
{
    let dd = dec_digits(v as nat);
    lemma_dec_digits_shape(v as nat);
    assert forall|j: int| i <= j < i + dd.len() implies is_digit_char(#[trigger] t[j]) by {
        assert(t[i + (j - i)] == dd[j - i]);
    }
    lemma_digits_end_split(t, i, i + dd.len());
    lemma_digits_val_at(t, i, v as nat);
}

/// Round trip for the premise citation.
proof fn rt_premise()
    ensures
        spec_parse_rule(Rule::Premise.to_text()) == Some(Rule::Premise),
{
    let t = Rule::Premise.to_text();
    lemma_trim_id(t);
}

/// Round trip for conjunction introduction.
proof fn rt_and_intro(k: usize, l: usize)
    ensures
        spec_parse_rule(Rule::AndIntro(k, l).to_text()) == Some(Rule::AndIntro(k, l)),
{
    let r = Rule::AndIntro(k, l);
    let t = r.to_text();
    let dk = dec_digits(k as nat);
    let dl = dec_digits(l as nat);
    let a = dk.len() as int;
    let b = dl.len() as int;
    lemma_dec_digits_shape(k as nat);
    lemma_dec_digits_shape(l as nat);
    assert(t.len() == a + b + 5);
    assert forall|j: int| 0 <= j < a implies t[j] == #[trigger] dk[j] by {}
    assert(t[a] == ',');
    assert(t[a + 1] == ' ');
    assert forall|j: int| 0 <= j < b implies t[a + 2 + j] == #[trigger] dl[j] by {}
    assert(t[a + 2 + b] == ' ');
    assert(t[a + 3 + b] == '&');
    assert(t[a + 4 + b] == 'I');
    lemma_spec_num_at(t, 0, k);
    assert(ws_end(t, a) == a);
    assert(ws_end(t, a + 1) == ws_end(t, a + 2));
    assert(ws_end(t, a + 2) == a + 2);
    lemma_spec_num_at(t, a + 2, l);
    assert(ws_end(t, a + 2 + b) == ws_end(t, a + 3 + b));
    assert(ws_end(t, a + 3 + b) == a + 3 + b);
    lemma_trim_id(t);
    assert(spec_parse_rule(t) == Some(r));
}

/// Round trip for conjunction elimination.
proof fn rt_and_exclude(k: usize)
    ensures
        spec_parse_rule(Rule::AndExclude(k).to_text()) == Some(Rule::AndExclude(k)),
{
    let r = Rule::AndExclude(k);
    let t = r.to_text();
    let dk = dec_digits(k as nat);
    let a = dk.len() as int;
    lemma_dec_digits_shape(k as nat);
    assert(t.len() == a + 3);
    assert forall|j: int| 0 <= j < a implies t[j] == #[trigger] dk[j] by {}
    assert(t[a] == ' ');
    assert(t[a + 1] == '&');
    assert(t[a + 2] == 'E');
    lemma_spec_num_at(t, 0, k);
    assert(ws_end(t, a) == ws_end(t, a + 1));
    assert(ws_end(t, a + 1) == a + 1);
    lemma_trim_id(t);
    assert(spec_parse_rule(t) == Some(r));
}

/// Round trip for a citation of one number followed by a two-character
/// tag whose first character is a symbol accepted at that spot.
proof fn rt_single_num(t: Seq<char>, k: usize, sym: char, letter: char)
    requires
        t == dec_digits(k as nat) + seq![' ', sym, letter],
        !is_space_char(sym),
        !is_space_char(letter),
    ensures
        ws_end(t, dec_digits(k as nat).len() as int) == dec_digits(k as nat).len() as int + 1,
        spec_num(t, 0) == Some((dec_digits(k as nat).len() as int, k)),
        trimmed(t) == t,
{
    let dk = dec_digits(k as nat);
    let a = dk.len() as int;
    lemma_dec_digits_shape(k as nat);
    assert(t.len() == a + 3);
    assert forall|j: int| 0 <= j < a implies t[j] == #[trigger] dk[j] by {}
    assert(t[a] == ' ');
    assert(t[a + 1] == sym);
    assert(t[a + 2] == letter);
    lemma_spec_num_at(t, 0, k);
    assert(ws_end(t, a) == ws_end(t, a + 1));
    assert(ws_end(t, a + 1) == a + 1);
    lemma_trim_id(t);
}

/// Round trip for disjunction introduction from one line.
proof fn rt_or_intro_single(k: usize)
    ensures
        spec_parse_rule(Rule::OrIntro(k, None).to_text()) == Some(Rule::OrIntro(k, None)),
{
    let r = Rule::OrIntro(k, None);
    let t = r.to_text();
    rt_single_num(t, k, '∨', 'I');
    let a = dec_digits(k as nat).len() as int;
    lemma_dec_digits_shape(k as nat);
    assert forall|j: int| 0 <= j < a implies t[j] == #[trigger] dec_digits(k as nat)[j] by {}
    assert(t[a] == ' ');
    assert(t[a + 1] == '∨');
    assert(t[a + 2] == 'I');
    assert(spec_parse_rule(t) == Some(r));
}

/// Round trip for disjunction introduction from two lines.
proof fn rt_or_intro_pair(k: usize, l: usize)
    ensures
        spec_parse_rule(Rule::OrIntro(k, Some(l)).to_text()) == Some(Rule::OrIntro(k, Some(l))),
{
    let r = Rule::OrIntro(k, Some(l));
    let t = r.to_text();
    let dk = dec_digits(k as nat);
    let dl = dec_digits(l as nat);
    let a = dk.len() as int;
    let b = dl.len() as int;
    lemma_dec_digits_shape(k as nat);
    lemma_dec_digits_shape(l as nat);
    assert(t.len() == a + b + 5);
    assert forall|j: int| 0 <= j < a implies t[j] == #[trigger] dk[j] by {}
    assert(t[a] == ',');
    assert(t[a + 1] == ' ');
    assert forall|j: int| 0 <= j < b implies t[a + 2 + j] == #[trigger] dl[j] by {}
    assert(t[a + 2 + b] == ' ');
    assert(t[a + 3 + b] == '∨');
    assert(t[a + 4 + b] == 'I');
    lemma_spec_num_at(t, 0, k);
    assert(ws_end(t, a) == a);
    assert(ws_end(t, a + 1) == ws_end(t, a + 2));
    assert(ws_end(t, a + 2) == a + 2);
    lemma_spec_num_at(t, a + 2, l);
    assert(ws_end(t, a + 2 + b) == ws_end(t, a + 3 + b));
    assert(ws_end(t, a + 3 + b) == a + 3 + b);
    lemma_trim_id(t);
    assert(spec_parse_rule(t) == Some(r));
}

/// Round trip for disjunction elimination.
#[verifier::rlimit(100)]
proof fn rt_or_exclude(k: usize, l0: usize, l1: usize, m0: usize, m1: usize)
    ensures
        spec_parse_rule(Rule::OrExclude(k, (l0, l1), (m0, m1)).to_text()) == Some(
            Rule::OrExclude(k, (l0, l1), (m0, m1)),
        ),
{
    let r = Rule::OrExclude(k, (l0, l1), (m0, m1));
    let t = r.to_text();
    let dk = dec_digits(k as nat);
    let d0 = dec_digits(l0 as nat);
    let d1 = dec_digits(l1 as nat);
    let e0 = dec_digits(m0 as nat);
    let e1 = dec_digits(m1 as nat);
    let a = dk.len() as int;
    let b0 = d0.len() as int;
    let b1 = d1.len() as int;
    let c0 = e0.len() as int;
    let c1 = e1.len() as int;
    lemma_dec_digits_shape(k as nat);
    lemma_dec_digits_shape(l0 as nat);
    lemma_dec_digits_shape(l1 as nat);
    lemma_dec_digits_shape(m0 as nat);
    lemma_dec_digits_shape(m1 as nat);
    assert(t.len() == a + b0 + b1 + c0 + c1 + 9);
    assert forall|j: int| 0 <= j < a implies t[j] == #[trigger] dk[j] by {}
    assert(t[a] == ',');
    assert(t[a + 1] == ' ');
    assert forall|j: int| 0 <= j < b0 implies t[a + 2 + j] == #[trigger] d0[j] by {}
    assert(t[a + 2 + b0] == '-');
    assert forall|j: int| 0 <= j < b1 implies t[a + 3 + b0 + j] == #[trigger] d1[j] by {}
    assert(t[a + 3 + b0 + b1] == ',');
    assert(t[a + 4 + b0 + b1] == ' ');
    assert forall|j: int| 0 <= j < c0 implies t[a + 5 + b0 + b1 + j] == #[trigger] e0[j] by {}
    assert(t[a + 5 + b0 + b1 + c0] == '-');
    assert forall|j: int| 0 <= j < c1 implies t[a + 6 + b0 + b1 + c0 + j] == #[trigger] e1[j] by {}
    assert(t[a + 6 + b0 + b1 + c0 + c1] == ' ');
    assert(t[a + 7 + b0 + b1 + c0 + c1] == '∨');
    assert(t[a + 8 + b0 + b1 + c0 + c1] == 'E');
    lemma_spec_num_at(t, 0, k);
    assert(ws_end(t, a) == a);
    assert(ws_end(t, a + 1) == ws_end(t, a + 2));
    assert(ws_end(t, a + 2) == a + 2);
    lemma_spec_num_at(t, a + 2, l0);
    assert(ws_end(t, a + 2 + b0) == a + 2 + b0);
    assert(ws_end(t, a + 3 + b0) == a + 3 + b0);
    lemma_spec_num_at(t, a + 3 + b0, l1);
    assert(ws_end(t, a + 3 + b0 + b1) == a + 3 + b0 + b1);
    assert(ws_end(t, a + 4 + b0 + b1) == ws_end(t, a + 5 + b0 + b1));
    assert(ws_end(t, a + 5 + b0 + b1) == a + 5 + b0 + b1);
    lemma_spec_num_at(t, a + 5 + b0 + b1, m0);
    assert(ws_end(t, a + 5 + b0 + b1 + c0) == a + 5 + b0 + b1 + c0);
    assert(ws_end(t, a + 6 + b0 + b1 + c0) == a + 6 + b0 + b1 + c0);
    lemma_spec_num_at(t, a + 6 + b0 + b1 + c0, m1);
    assert(ws_end(t, a + 6 + b0 + b1 + c0 + c1) == ws_end(t, a + 7 + b0 + b1 + c0 + c1));
    assert(ws_end(t, a + 7 + b0 + b1 + c0 + c1) == a + 7 + b0 + b1 + c0 + c1);
    lemma_trim_id(t);
    assert(spec_parse_rule(t) == Some(r));
}

/// Round trip for a citation of one range followed by a two-character tag.
proof fn rt_range_tag(t: Seq<char>, k0: usize, k1: usize, sym: char, letter: char)
    requires
        t == dec_digits(k0 as nat) + seq!['-'] + dec_digits(k1 as nat) + seq![' ', sym, letter],
        !is_space_char(sym),
        !is_space_char(letter),
    ensures
        spec_num(t, 0) == Some((dec_digits(k0 as nat).len() as int, k0)),
        spec_num(t, dec_digits(k0 as nat).len() as int + 1) == Some(
            (
                dec_digits(k0 as nat).len() as int + 1 + dec_digits(k1 as nat).len() as int,
                k1,
            ),
        ),
        crate::parser::rule::spec_range(t, 0) == Some(
            (
                dec_digits(k0 as nat).len() as int + 1 + dec_digits(k1 as nat).len() as int,
                (k0, k1),
            ),
        ),
        ws_end(t, dec_digits(k0 as nat).len() as int + 1 + dec_digits(k1 as nat).len() as int)
            == dec_digits(k0 as nat).len() as int + 2 + dec_digits(k1 as nat).len() as int,
        trimmed(t) == t,
{
    let dk = dec_digits(k0 as nat);
    let dl = dec_digits(k1 as nat);
    let a = dk.len() as int;
    let b = dl.len() as int;
    lemma_dec_digits_shape(k0 as nat);
    lemma_dec_digits_shape(k1 as nat);
    assert(t.len() == a + b + 4);
    assert forall|j: int| 0 <= j < a implies t[j] == #[trigger] dk[j] by {}
    assert(t[a] == '-');
    assert forall|j: int| 0 <= j < b implies t[a + 1 + j] == #[trigger] dl[j] by {}
    assert(t[a + 1 + b] == ' ');
    assert(t[a + 2 + b] == sym);
    assert(t[a + 3 + b] == letter);
    lemma_spec_num_at(t, 0, k0);
    assert(ws_end(t, a) == a);
    assert(ws_end(t, a + 1) == a + 1);
    lemma_spec_num_at(t, a + 1, k1);
    assert(ws_end(t, a + 1 + b) == ws_end(t, a + 2 + b));
    assert(ws_end(t, a + 2 + b) == a + 2 + b);
    lemma_trim_id(t);
}

/// Round trip for conditional introduction with a discharged assumption.
proof fn rt_if_intro_opened(k0: usize, k1: usize)
    ensures
        spec_parse_rule(Rule::IfIntro((Some(k0), k1)).to_text()) == Some(
            Rule::IfIntro((Some(k0), k1)),
        ),
{
    let r = Rule::IfIntro((Some(k0), k1));
    let t = r.to_text();
    rt_range_tag(t, k0, k1, '→', 'I');
    let a = dec_digits(k0 as nat).len() as int;
    let b = dec_digits(k1 as nat).len() as int;
    lemma_dec_digits_shape(k0 as nat);
    lemma_dec_digits_shape(k1 as nat);
    assert(t[a] == '-');
    assert(t[a + 1 + b] == ' ');
    assert(t[a + 2 + b] == '→');
    assert(t[a + 3 + b] == 'I');
    assert(ws_end(t, a) == a);
    assert(ws_end(t, a + 1) == a + 1);
    assert(spec_parse_rule(t) == Some(r));
}

/// Round trip for vacuous conditional introduction.
proof fn rt_if_intro_vacuous(k: usize)
    ensures
        spec_parse_rule(Rule::IfIntro((None, k)).to_text()) == Some(Rule::IfIntro((None, k))),
{
    let r = Rule::IfIntro((None, k));
    let t = r.to_text();
    rt_single_num(t, k, '→', 'I');
    let a = dec_digits(k as nat).len() as int;
    lemma_dec_digits_shape(k as nat);
    assert(t[a] == ' ');
    assert(t[a + 1] == '→');
    assert(t[a + 2] == 'I');
    assert(spec_parse_rule(t) == Some(r));
}

/// Round trip for a citation of two numbers followed by a two-character
/// tag.
proof fn rt_pair_tag(t: Seq<char>, k: usize, l: usize, sym: char, letter: char)
    requires
        t == dec_digits(k as nat) + seq![',', ' '] + dec_digits(l as nat) + seq![
            ' ',
            sym,
            letter,
        ],
        !is_space_char(sym),
        !is_space_char(letter),
    ensures
        spec_num(t, 0) == Some((dec_digits(k as nat).len() as int, k)),
        crate::parser::rule::spec_sep(t, dec_digits(k as nat).len() as int) == Some(
            dec_digits(k as nat).len() as int + 2,
        ),
        spec_num(t, dec_digits(k as nat).len() as int + 2) == Some(
            (
                dec_digits(k as nat).len() as int + 2 + dec_digits(l as nat).len() as int,
                l,
            ),
        ),
        ws_end(t, dec_digits(k as nat).len() as int + 2 + dec_digits(l as nat).len() as int)
            == dec_digits(k as nat).len() as int + 3 + dec_digits(l as nat).len() as int,
        trimmed(t) == t,
{
    let dk = dec_digits(k as nat);
    let dl = dec_digits(l as nat);
    let a = dk.len() as int;
    let b = dl.len() as int;
    lemma_dec_digits_shape(k as nat);
    lemma_dec_digits_shape(l as nat);
    assert(t.len() == a + b + 5);
    assert forall|j: int| 0 <= j < a implies t[j] == #[trigger] dk[j] by {}
    assert(t[a] == ',');
    assert(t[a + 1] == ' ');
    assert forall|j: int| 0 <= j < b implies t[a + 2 + j] == #[trigger] dl[j] by {}
    assert(t[a + 2 + b] == ' ');
    assert(t[a + 3 + b] == sym);
    assert(t[a + 4 + b] == letter);
    lemma_spec_num_at(t, 0, k);
    assert(ws_end(t, a) == a);
    assert(ws_end(t, a + 1) == ws_end(t, a + 2));
    assert(ws_end(t, a + 2) == a + 2);
    lemma_spec_num_at(t, a + 2, l);
    assert(ws_end(t, a + 2 + b) == ws_end(t, a + 3 + b));
    assert(ws_end(t, a + 3 + b) == a + 3 + b);
    lemma_trim_id(t);
}

/// Round trip for conditional elimination.
proof fn rt_if_exclude(k: usize, l: usize)
    ensures
        spec_parse_rule(Rule::IfExclude(k, l).to_text()) == Some(Rule::IfExclude(k, l)),
{
    let r = Rule::IfExclude(k, l);
    let t = r.to_text();
    rt_pair_tag(t, k, l, '→', 'E');
    let a = dec_digits(k as nat).len() as int;
    let b = dec_digits(l as nat).len() as int;
    lemma_dec_digits_shape(k as nat);
    lemma_dec_digits_shape(l as nat);
    assert(t[a] == ',');
    assert(t[a + 2 + b] == ' ');
    assert(t[a + 3 + b] == '→');
    assert(t[a + 4 + b] == 'E');
    assert(spec_parse_rule(t) == Some(r));
}

/// Round trip for biconditional introduction.
proof fn rt_iff_intro(k: usize, l: usize)
    ensures
        spec_parse_rule(Rule::IffIntro(k, l).to_text()) == Some(Rule::IffIntro(k, l)),
{
    let r = Rule::IffIntro(k, l);
    let t = r.to_text();
    rt_pair_tag(t, k, l, '↔', 'I');
    let a = dec_digits(k as nat).len() as int;
    let b = dec_digits(l as nat).len() as int;
    lemma_dec_digits_shape(k as nat);
    lemma_dec_digits_shape(l as nat);
    assert(t[a] == ',');
    assert(t[a + 2 + b] == ' ');
    assert(t[a + 3 + b] == '↔');
    assert(t[a + 4 + b] == 'I');
    assert(spec_parse_rule(t) == Some(r));
}

/// Round trip for biconditional elimination.
proof fn rt_iff_exclude(k: usize)
    ensures
        spec_parse_rule(Rule::IffExclude(k).to_text()) == Some(Rule::IffExclude(k)),
{
    let r = Rule::IffExclude(k);
    let t = r.to_text();
    rt_single_num(t, k, '↔', 'E');
    let a = dec_digits(k as nat).len() as int;
    lemma_dec_digits_shape(k as nat);
    assert(t[a] == ' ');
    assert(t[a + 1] == '↔');
    assert(t[a + 2] == 'E');
    assert(spec_parse_rule(t) == Some(r));
}

/// Round trip for ex falso.
proof fn rt_falsum(k: usize)
    ensures
        spec_parse_rule(Rule::Falsum(k).to_text()) == Some(Rule::Falsum(k)),
{
    let r = Rule::Falsum(k);
    let t = r.to_text();
    let dk = dec_digits(k as nat);
    let a = dk.len() as int;
    lemma_dec_digits_shape(k as nat);
    assert(t.len() == a + 2);
    assert forall|j: int| 0 <= j < a implies t[j] == #[trigger] dk[j] by {}
    assert(t[a] == ' ');
    assert(t[a + 1] == '⊥');
    lemma_spec_num_at(t, 0, k);
    assert(ws_end(t, a) == ws_end(t, a + 1));
    assert(ws_end(t, a + 1) == a + 1);
    lemma_trim_id(t);
    assert(spec_parse_rule(t) == Some(r));
}

/// Round trip for negation introduction.
proof fn rt_neg_intro(k0: usize, k1: usize)
    ensures
        spec_parse_rule(Rule::NegIntro((k0, k1)).to_text()) == Some(Rule::NegIntro((k0, k1))),
{
    let r = Rule::NegIntro((k0, k1));
    let t = r.to_text();
    rt_range_tag(t, k0, k1, '¬', 'I');
    let a = dec_digits(k0 as nat).len() as int;
    let b = dec_digits(k1 as nat).len() as int;
    lemma_dec_digits_shape(k0 as nat);
    lemma_dec_digits_shape(k1 as nat);
    assert(t[a] == '-');
    assert(t[a + 1 + b] == ' ');
    assert(t[a + 2 + b] == '¬');
    assert(t[a + 3 + b] == 'E' || t[a + 3 + b] == 'I');
    assert(t[a + 3 + b] == 'I');
    assert(ws_end(t, a) == a);
    assert(ws_end(t, a + 1) == a + 1);
    assert(spec_parse_rule(t) == Some(r));
}

/// Round trip for negation elimination.
proof fn rt_neg_exclude(k0: usize, k1: usize)
    ensures
        spec_parse_rule(Rule::NegExclude((k0, k1)).to_text()) == Some(Rule::NegExclude((k0, k1))),
{
    let r = Rule::NegExclude((k0, k1));
    let t = r.to_text();
    rt_range_tag(t, k0, k1, '¬', 'E');
    let a = dec_digits(k0 as nat).len() as int;
    let b = dec_digits(k1 as nat).len() as int;
    lemma_dec_digits_shape(k0 as nat);
    lemma_dec_digits_shape(k1 as nat);
    assert(t[a] == '-');
    assert(t[a + 1 + b] == ' ');
    assert(t[a + 2 + b] == '¬');
    assert(t[a + 3 + b] == 'E');
    assert(ws_end(t, a) == a);
    assert(ws_end(t, a + 1) == a + 1);
    assert(spec_parse_rule(t) == Some(r));
}

/// Round trip for universal introduction.
proof fn rt_univ_intro(k: usize)
    ensures
        spec_parse_rule(Rule::UnivQuntIntro(k).to_text()) == Some(Rule::UnivQuntIntro(k)),
{
    let r = Rule::UnivQuntIntro(k);
    let t = r.to_text();
    let dk = dec_digits(k as nat);
    let a = dk.len() as int;
    lemma_dec_digits_shape(k as nat);
    assert(t.len() == a + 4);
    assert forall|j: int| 0 <= j < a implies t[j] == #[trigger] dk[j] by {}
    assert(t[a] == ' ');
    assert(t[a + 1] == '(');
    assert(t[a + 2] == ')');
    assert(t[a + 3] == 'I');
    lemma_spec_num_at(t, 0, k);
    assert(ws_end(t, a) == ws_end(t, a + 1));
    assert(ws_end(t, a + 1) == a + 1);
    lemma_trim_id(t);
    assert(spec_parse_rule(t) == Some(r));
}

/// Round trip for universal elimination.
proof fn rt_univ_exclude(k: usize)
    ensures
        spec_parse_rule(Rule::UnivQuntExclude(k).to_text()) == Some(Rule::UnivQuntExclude(k)),
{
    let r = Rule::UnivQuntExclude(k);
    let t = r.to_text();
    let dk = dec_digits(k as nat);
    let a = dk.len() as int;
    lemma_dec_digits_shape(k as nat);
    assert(t.len() == a + 4);
    assert forall|j: int| 0 <= j < a implies t[j] == #[trigger] dk[j] by {}
    assert(t[a] == ' ');
    assert(t[a + 1] == '(');
    assert(t[a + 2] == ')');
    assert(t[a + 3] == 'E');
    lemma_spec_num_at(t, 0, k);
    assert(ws_end(t, a) == ws_end(t, a + 1));
    assert(ws_end(t, a + 1) == a + 1);
    lemma_trim_id(t);
    assert(spec_parse_rule(t) == Some(r));
}

/// Round trip for existential introduction.
#[verifier::rlimit(50)]
proof fn rt_exis_intro(k: usize)
    ensures
        spec_parse_rule(Rule::ExisQuntIntro(k).to_text()) == Some(Rule::ExisQuntIntro(k)),
{
    let r = Rule::ExisQuntIntro(k);
    let t = r.to_text();
    rt_single_num(t, k, '∃', 'I');
    let a = dec_digits(k as nat).len() as int;
    lemma_dec_digits_shape(k as nat);
    assert(t[a] == ' ');
    assert(t[a + 1] == '∃');
    assert(t[a + 2] == 'I');
    assert(spec_parse_rule(t) == Some(r));
}

/// Round trip for existential elimination.
#[verifier::rlimit(100)]
proof fn rt_exis_exclude(k: usize, l0: usize, l1: usize)
    ensures
        spec_parse_rule(Rule::ExisQuntExclude(k, (l0, l1)).to_text()) == Some(
            Rule::ExisQuntExclude(k, (l0, l1)),
        ),
{
    let r = Rule::ExisQuntExclude(k, (l0, l1));
    let t = r.to_text();
    let dk = dec_digits(k as nat);
    let d0 = dec_digits(l0 as nat);
    let d1 = dec_digits(l1 as nat);
    let a = dk.len() as int;
    let b0 = d0.len() as int;
    let b1 = d1.len() as int;
    lemma_dec_digits_shape(k as nat);
    lemma_dec_digits_shape(l0 as nat);
    lemma_dec_digits_shape(l1 as nat);
    assert(t.len() == a + b0 + b1 + 6);
    assert forall|j: int| 0 <= j < a implies t[j] == #[trigger] dk[j] by {}
    assert(t[a] == ',');
    assert(t[a + 1] == ' ');
    assert forall|j: int| 0 <= j < b0 implies t[a + 2 + j] == #[trigger] d0[j] by {}
    assert(t[a + 2 + b0] == '-');
    assert forall|j: int| 0 <= j < b1 implies t[a + 3 + b0 + j] == #[trigger] d1[j] by {}
    assert(t[a + 3 + b0 + b1] == ' ');
    assert(t[a + 4 + b0 + b1] == '∃');
    assert(t[a + 5 + b0 + b1] == 'E');
    lemma_spec_num_at(t, 0, k);
    assert(ws_end(t, a) == a);
    assert(ws_end(t, a + 1) == ws_end(t, a + 2));
    assert(ws_end(t, a + 2) == a + 2);
    lemma_spec_num_at(t, a + 2, l0);
    assert(ws_end(t, a + 2 + b0) == a + 2 + b0);
    assert(ws_end(t, a + 3 + b0) == a + 3 + b0);
    lemma_spec_num_at(t, a + 3 + b0, l1);
    assert(ws_end(t, a + 3 + b0 + b1) == ws_end(t, a + 4 + b0 + b1));
    assert(ws_end(t, a + 4 + b0 + b1) == a + 4 + b0 + b1);
    lemma_trim_id(t);
    assert(spec_parse_rule(t) == Some(r));
}

/// The canonical rendering of a formula is nonempty; its first character
/// is an opening parenthesis, a negation, falsum, or a predicate head;
/// and its last character is never whitespace.
proof fn lemma_text_shape(f: Formula)
    requires
        f.wf(),
    ensures
        f.to_text().len() >= 1,
        f.to_text()[0] == '(' || f.to_text()[0] == '¬' || f.to_text()[0] == '⊥' || ('A'
            <= f.to_text()[0] && f.to_text()[0] <= 'Z'),
        !is_space_char(f.to_text()[f.to_text().len() - 1]),
    decreases f,
{
    let t = f.to_text();
    match f {
        Formula::Atom { predicate, individuals } => {
            if individuals.len() == 0 {
                assert(cat_idents(individuals).len() == 0);
                assert(t[t.len() - 1] == predicate[predicate.len() - 1]);
                if predicate.len() == 1 {
                } else {
                    assert('0' <= predicate[predicate.len() - 1] && predicate[predicate.len() - 1]
                        <= '9');
                }
            } else {
                lemma_cat_last(individuals);
            }
        }
        Formula::Cond { antecedent, consequent } => {}
        Formula::Iff { lhs, rhs } => {}
        Formula::And { lhs, rhs } => {}
        Formula::Or { lhs, rhs } => {}
        Formula::Neg(inner) => {
            lemma_text_shape(*inner);
            assert(t[t.len() - 1] == inner.to_text()[inner.to_text().len() - 1]);
        }
        Formula::UnivGenr { variable, form } => {
            lemma_text_shape(*form);
            assert(t[t.len() - 1] == form.to_text()[form.to_text().len() - 1]);
        }
        Formula::ExistGenr { variable, form } => {
            lemma_text_shape(*form);
            assert(t[t.len() - 1] == form.to_text()[form.to_text().len() - 1]);
        }
        Formula::Falsum => {}
    }
}

/// The rendering of a nonempty list of well-formed individuals ends in a
/// letter or a digit.
proof fn lemma_cat_last(inds: Seq<Seq<char>>)
    requires
        inds.len() >= 1,
        forall|j: int| 0 <= j < inds.len() ==> wf_ident(#[trigger] inds[j], 'a', 'z'),
    ensures
        cat_idents(inds).len() >= 1,
        !is_space_char(cat_idents(inds)[cat_idents(inds).len() - 1]),
    decreases inds.len(),
{
    if inds.len() == 1 {
        assert(cat_idents(inds.drop_first()).len() == 0);
        let s = inds[0];
        assert(cat_idents(inds)[cat_idents(inds).len() - 1] == s[s.len() - 1]);
        if s.len() == 1 {
        } else {
            assert('0' <= s[s.len() - 1] && s[s.len() - 1] <= '9');
        }
    } else {
        let rest = inds.drop_first();
        assert(forall|j: int| 0 <= j < rest.len() ==> wf_ident(#[trigger] rest[j], 'a', 'z'));
        lemma_cat_last(rest);
        assert(cat_idents(inds)[cat_idents(inds).len() - 1] == cat_idents(rest)[cat_idents(
            rest,
        ).len() - 1]);
    }
}

/// What may follow a rendered subformula: the end of the text, a closing
/// parenthesis, or a space leading to a binary connective.
pub open spec fn follower_ok(t: Seq<char>, j: int) -> bool {
    ||| j == t.len()
    ||| (0 <= j < t.len() && t[j] == ')')
    ||| (0 <= j < t.len() && t[j] == ' ' && ws_end(t, j) < t.len() && (t[ws_end(t, j)] == '→'
        || t[ws_end(t, j)] == '↔' || t[ws_end(t, j)] == '&' || t[ws_end(t, j)] == '∨'))
}

/// A well-formed identifier bounded by a character that cannot extend it
/// is tokenized exactly.
proof fn rt_ident(t: Seq<char>, i: int, s: Seq<char>, lo: char, hi: char)
    requires
        wf_ident(s, lo, hi),
        0 <= i,
        i + s.len() <= t.len(),
        forall|j: int| 0 <= j < s.len() ==> t[i + j] == #[trigger] s[j],
        i + s.len() == t.len() || (!is_digit_char(t[i + s.len()]) && t[i + s.len()] != '_'),
    ensures
        crate::parser::individual_constant::spec_ident_end(t, i) == i + s.len(),
{
    assert(t[i + 0] == s[0]);
    if s.len() == 1 {
    } else {
        assert(t[i + 1] == s[1]);
        assert forall|j: int| i + 2 <= j < i + s.len() implies is_digit_char(#[trigger] t[j]) by {
            assert(t[i + (j - i)] == s[j - i]);
        }
        lemma_digits_end_split(t, i + 2, i + s.len());
    }
}

/// A position where no further individual symbol can start.
pub open spec fn blocks_inds(t: Seq<char>, j: int) -> bool {
    &&& (j == t.len() || (!is_digit_char(t[j]) && t[j] != '_' && !('a' <= t[j] && t[j] <= 'z')
        && t[j] != '^'))
    &&& (ws_end(t, j) == t.len() || !('a' <= t[ws_end(t, j)] && t[ws_end(t, j)] <= 'z'))
}

/// A canonical follower blocks further individual symbols.
proof fn lemma_follower_blocks(t: Seq<char>, j: int)
    requires
        0 <= j <= t.len(),
        follower_ok(t, j),
    ensures
        blocks_inds(t, j),
{
    if j < t.len() && t[j] == ')' {
        assert(ws_end(t, j) == j);
    }
}

/// A rendered individual list bounded by a blocking position is parsed
/// back exactly, greedily.
proof fn rt_many_inds(t: Seq<char>, i: int, inds: Seq<Seq<char>>)
    requires
        0 <= i,
        i + cat_idents(inds).len() <= t.len(),
        forall|j: int| 0 <= j < inds.len() ==> wf_ident(#[trigger] inds[j], 'a', 'z'),
        forall|j: int|
            0 <= j < cat_idents(inds).len() ==> t[i + j] == #[trigger] cat_idents(inds)[j],
        blocks_inds(t, i + cat_idents(inds).len()),
    ensures
        crate::parser::expression::spec_many_inds(t, i) == (
            i + cat_idents(inds).len(),
            inds,
        ),
    decreases inds.len(),
{
    let cat = cat_idents(inds);
    if inds.len() == 0 {
        assert(ws_end(t, i) == ws_end(t, i + cat.len()));
        assert(crate::parser::expression::spec_many_inds(t, i).1 =~= inds);
    } else {
        let s = inds[0];
        let rest = inds.drop_first();
        assert(cat == s + cat_idents(rest));
        assert forall|j: int| 0 <= j < s.len() implies t[i + j] == #[trigger] s[j] by {
            assert(cat[j] == s[j]);
        }
        assert(t[i + 0] == s[0]);
        assert(ws_end(t, i) == i);
        if rest.len() > 0 {
            assert(wf_ident(rest[0], 'a', 'z'));
            assert(cat_idents(rest)[0] == rest[0][0]);
            assert(t[i + s.len()] == cat[s.len() as int]);
            assert(t[i + s.len()] == rest[0][0]);
        }
        rt_ident(t, i, s, 'a', 'z');
        let e = i + s.len();
        assert forall|j: int|
            0 <= j < cat_idents(rest).len() implies t[e + j] == #[trigger] cat_idents(
            rest,
        )[j] by {
            assert(cat[s.len() + j] == cat_idents(rest)[j]);
            assert(t[i + (s.len() + j)] == cat[s.len() + j]);
        }
        rt_many_inds(t, e, rest);
        assert(t.subrange(i, e) =~= s);
        assert(crate::parser::expression::spec_many_inds(t, i).1 =~= inds);
    }
}

/// A rendered atom bounded by a canonical follower parses back exactly.
proof fn rt_atom(t: Seq<char>, i: int, predicate: Seq<char>, individuals: Seq<Seq<char>>)
    requires
        wf_ident(predicate, 'A', 'Z'),
        forall|j: int| 0 <= j < individuals.len() ==> wf_ident(#[trigger] individuals[j], 'a', 'z'),
        0 <= i,
        i + predicate.len() + cat_idents(individuals).len() <= t.len(),
        forall|j: int|
            0 <= j < predicate.len() + cat_idents(individuals).len() ==> t[i + j] == #[trigger] (
            predicate + cat_idents(individuals))[j],
        blocks_inds(t, i + predicate.len() + cat_idents(individuals).len()),
    ensures
        crate::parser::expression::spec_atom_exp(t, i) == Some(
            (
                i + predicate.len() + cat_idents(individuals).len(),
                Formula::Atom { predicate, individuals },
            ),
        ),
{
    let cat = cat_idents(individuals);
    let pe = i + predicate.len();
    let j = pe + cat.len();
    assert forall|jj: int|
        0 <= jj < predicate.len() implies t[i + jj] == #[trigger] predicate[jj] by {
        assert((predicate + cat)[jj] == predicate[jj]);
    }
    assert(t[i + 0] == predicate[0]);
    if individuals.len() > 0 {
        assert(wf_ident(individuals[0], 'a', 'z'));
        assert(cat[0] == individuals[0][0]);
        assert(t[i + predicate.len()] == (predicate + cat)[predicate.len() as int]);
        assert(t[pe] == individuals[0][0]);
    }
    rt_ident(t, i, predicate, 'A', 'Z');
    assert(crate::parser::individual_constant::spec_pre(t, i) == Some(pe));
    assert(pe == t.len() || t[pe] != '^');
    assert(crate::parser::individual_constant::spec_dim(t, pe) is None);
    assert forall|jj: int| 0 <= jj < cat.len() implies t[pe + jj] == #[trigger] cat[jj] by {
        assert((predicate + cat)[predicate.len() + jj] == cat[jj]);
        assert(t[i + (predicate.len() + jj)] == (predicate + cat)[predicate.len() + jj]);
    }
    rt_many_inds(t, pe, individuals);
    assert(t.subrange(i, pe) =~= predicate);
}

/// A rendered formula bounded by a canonical follower is parsed back
/// exactly by the factor layer.
#[verifier::rlimit(100)]
proof fn rt_f(f: Formula, t: Seq<char>, i: int)
    requires
        f.wf(),
        0 <= i,
        i + f.to_text().len() <= t.len(),
        forall|j: int| 0 <= j < f.to_text().len() ==> t[i + j] == #[trigger] f.to_text()[j],
        follower_ok(t, i + f.to_text().len()),
    ensures
        crate::parser::expression::spec_f(t, i) == Some((i + f.to_text().len(), f)),
    decreases f, 1int,
{
    let text = f.to_text();
    let j = i + text.len();
    lemma_text_shape(f);
    assert(t[i + 0] == text[0]);
    lemma_ws_end(t, j);
    lemma_follower_blocks(t, j);
    match f {
        Formula::Atom { predicate, individuals } => {
            rt_atom(t, i, predicate, individuals);
        }
        Formula::Falsum => {
            assert(t[i] == '⊥');
        }
        Formula::Neg(inner) => {
            assert(t[i] == '¬');
            let ti = inner.to_text();
            assert forall|jj: int| 0 <= jj < ti.len() implies t[i + 1 + jj] == #[trigger] ti[jj] by {
                assert(text[1 + jj] == ti[jj]);
                assert(t[i + (1 + jj)] == text[1 + jj]);
            }
            lemma_text_shape(*inner);
            assert(t[i + 1] == ti[0]);
            assert(ws_end(t, i + 1) == i + 1);
            rt_f(*inner, t, i + 1);
        }
        Formula::UnivGenr { variable, form } => {
            assert(t[i] == '(');
            let tf = form.to_text();
            let ve = i + 1 + variable.len();
            assert forall|jj: int|
                0 <= jj < variable.len() implies t[i + 1 + jj] == #[trigger] variable[jj] by {
                assert(text[1 + jj] == variable[jj]);
                assert(t[i + (1 + jj)] == text[1 + jj]);
            }
            assert(t[ve] == text[1 + variable.len() as int]);
            assert(t[ve] == ')');
            assert forall|jj: int| 0 <= jj < tf.len() implies t[ve + 1 + jj] == #[trigger] tf[jj] by {
                assert(text[2 + variable.len() + jj] == tf[jj]);
                assert(t[i + (2 + variable.len() + jj)] == text[2 + variable.len() + jj]);
            }
            assert(t[i + 1] == variable[0]);
            assert(ws_end(t, i + 1) == i + 1);
            rt_ident(t, i + 1, variable, 'u', 'z');
            assert(ws_end(t, ve) == ve);
            lemma_text_shape(*form);
            assert(t[ve + 1] == tf[0]);
            assert(ws_end(t, ve + 1) == ve + 1);
            rt_f(*form, t, ve + 1);
            assert(t.subrange(i + 1, ve) =~= variable);
            assert(crate::parser::expression::spec_exist_genr_exp(t, i) is None);
            assert(crate::parser::expression::spec_univ_genr_exp(t, i) == Some((j, f)));
        }
        Formula::ExistGenr { variable, form } => {
            assert(t[i] == '(');
            assert(t[i + 1] == text[1]);
            assert(t[i + 1] == '∃');
            let tf = form.to_text();
            let ve = i + 2 + variable.len();
            assert forall|jj: int|
                0 <= jj < variable.len() implies t[i + 2 + jj] == #[trigger] variable[jj] by {
                assert(text[2 + jj] == variable[jj]);
                assert(t[i + (2 + jj)] == text[2 + jj]);
            }
            assert(t[ve] == text[2 + variable.len() as int]);
            assert(t[ve] == ')');
            assert forall|jj: int| 0 <= jj < tf.len() implies t[ve + 1 + jj] == #[trigger] tf[jj] by {
                assert(text[3 + variable.len() + jj] == tf[jj]);
                assert(t[i + (3 + variable.len() + jj)] == text[3 + variable.len() + jj]);
            }
            assert(ws_end(t, i + 1) == i + 1);
            assert(t[i + 2] == variable[0]);
            assert(ws_end(t, i + 2) == i + 2);
            rt_ident(t, i + 2, variable, 'u', 'z');
            assert(ws_end(t, ve) == ve);
            lemma_text_shape(*form);
            assert(t[ve + 1] == tf[0]);
            assert(ws_end(t, ve + 1) == ve + 1);
            rt_f(*form, t, ve + 1);
            assert(t.subrange(i + 2, ve) =~= variable);
            assert(crate::parser::expression::spec_exist_genr_exp(t, i) == Some((j, f)));
        }
        Formula::Cond { antecedent, consequent } => {
            rt_content_cond(f, t, i + 1);
            assert(t[j - 1] == text[text.len() - 1]);
            assert(t[j - 1] == ')');
            assert(ws_end(t, j - 1) == j - 1);
            assert(ws_end(t, i + 1) == i + 1) by {
                lemma_text_shape(*antecedent);
                assert(t[i + 1] == text[1]);
            }
            assert(crate::parser::expression::spec_parenthesesed_exp(t, i) == Some((j, f)));
            assert(crate::parser::expression::spec_exist_genr_exp(t, i) is None) by {
                lemma_text_shape(*antecedent);
                assert(t[i + 1] == text[1]);
                assert(ws_end(t, i + 1) == i + 1);
            }
            assert(crate::parser::expression::spec_univ_genr_exp(t, i) is None) by {
                lemma_text_shape(*antecedent);
                assert(t[i + 1] == text[1]);
                assert(ws_end(t, i + 1) == i + 1);
            }
        }
        Formula::Iff { lhs, rhs } => {
            rt_content_iff(f, t, i + 1);
            assert(t[j - 1] == text[text.len() - 1]);
            assert(t[j - 1] == ')');
            assert(ws_end(t, j - 1) == j - 1);
            assert(ws_end(t, i + 1) == i + 1) by {
                lemma_text_shape(*lhs);
                assert(t[i + 1] == text[1]);
            }
            assert(crate::parser::expression::spec_parenthesesed_exp(t, i) == Some((j, f)));
            assert(crate::parser::expression::spec_exist_genr_exp(t, i) is None) by {
                lemma_text_shape(*lhs);
                assert(t[i + 1] == text[1]);
                assert(ws_end(t, i + 1) == i + 1);
            }
            assert(crate::parser::expression::spec_univ_genr_exp(t, i) is None) by {
                lemma_text_shape(*lhs);
                assert(t[i + 1] == text[1]);
                assert(ws_end(t, i + 1) == i + 1);
            }
        }
        Formula::And { lhs, rhs } => {
            rt_content_and(f, t, i + 1);
            assert(t[j - 1] == text[text.len() - 1]);
            assert(t[j - 1] == ')');
            assert(ws_end(t, j - 1) == j - 1);
            assert(ws_end(t, i + 1) == i + 1) by {
                lemma_text_shape(*lhs);
                assert(t[i + 1] == text[1]);
            }
            assert(crate::parser::expression::spec_parenthesesed_exp(t, i) == Some((j, f)));
            assert(crate::parser::expression::spec_exist_genr_exp(t, i) is None) by {
                lemma_text_shape(*lhs);
                assert(t[i + 1] == text[1]);
                assert(ws_end(t, i + 1) == i + 1);
            }
            assert(crate::parser::expression::spec_univ_genr_exp(t, i) is None) by {
                lemma_text_shape(*lhs);
                assert(t[i + 1] == text[1]);
                assert(ws_end(t, i + 1) == i + 1);
            }
        }
        Formula::Or { lhs, rhs } => {
            rt_content_or(f, t, i + 1);
            assert(t[j - 1] == text[text.len() - 1]);
            assert(t[j - 1] == ')');
            assert(ws_end(t, j - 1) == j - 1);
            assert(ws_end(t, i + 1) == i + 1) by {
                lemma_text_shape(*lhs);
                assert(t[i + 1] == text[1]);
            }
            assert(crate::parser::expression::spec_parenthesesed_exp(t, i) == Some((j, f)));
            assert(crate::parser::expression::spec_exist_genr_exp(t, i) is None) by {
                lemma_text_shape(*lhs);
                assert(t[i + 1] == text[1]);
                assert(ws_end(t, i + 1) == i + 1);
            }
            assert(crate::parser::expression::spec_univ_genr_exp(t, i) is None) by {
                lemma_text_shape(*lhs);
                assert(t[i + 1] == text[1]);
                assert(ws_end(t, i + 1) == i + 1);
            }
        }
    }
}

/// The content of a parenthesized conditional — left part, spaced operator,
/// right part — parses back exactly when a closing parenthesis follows.
#[verifier::rlimit(100)]
proof fn rt_content_cond(f: Formula, t: Seq<char>, i: int)
    requires
        f.wf(),
        f matches Formula::Cond { .. },
        0 <= i,
        i + f.to_text().len() - 2 < t.len(),
        forall|j: int|
            0 <= j < f.to_text().len() - 2 ==> t[i + j] == #[trigger] f.to_text()[1 + j],
        t[i + f.to_text().len() - 2] == ')',
    ensures
        crate::parser::expression::spec_cond_exp(t, i) == Some((i + f.to_text().len() - 2, f)),
    decreases f, 0int,
{
    let text = f.to_text();
    let clen = text.len() - 2;
    let j2 = i + clen;
    match f {
        Formula::Cond { antecedent, consequent } => {
            let tl = antecedent.to_text();
            let tr = consequent.to_text();
            let e1 = i + tl.len();
            assert(text.len() == tl.len() + tr.len() + 5);
            assert forall|jj: int| 0 <= jj < tl.len() implies t[i + jj] == #[trigger] tl[jj] by {
                assert(text[1 + jj] == tl[jj]);
            }
            assert(t[e1] == text[1 + tl.len() as int]);
            assert(t[e1] == ' ');
            let p1 = 1 + tl.len() as int;
            let p2 = 2 + tl.len() as int;
            assert(t[i + p1] == text[1 + p1]);
            assert(t[e1 + 1] == '→');
            assert(t[i + p2] == text[1 + p2]);
            assert(t[e1 + 2] == ' ');
            assert forall|jj: int|
                0 <= jj < tr.len() implies t[e1 + 3 + jj] == #[trigger] tr[jj] by {
                let q = 3 + tl.len() as int + jj;
                assert(t[i + q] == text[1 + q]);
                assert(text[1 + q] == tr[jj]);
            }
            assert(ws_end(t, e1 + 1) == e1 + 1);
            assert(ws_end(t, e1) == e1 + 1);
            assert(ws_end(t, j2) == j2);
            lemma_text_shape(*antecedent);
            lemma_text_shape(*consequent);
            assert(follower_ok(t, e1));
            rt_f(*antecedent, t, i);
            assert(t[e1 + 3] == tr[0]);
            assert(ws_end(t, e1 + 3) == e1 + 3);
            assert(ws_end(t, e1 + 2) == ws_end(t, e1 + 3));
            assert(follower_ok(t, j2));
            rt_f(*consequent, t, e1 + 3);
            assert(crate::parser::expression::spec_and_exp(t, e1 + 3) is None);
            assert(crate::parser::expression::spec_or_exp(t, e1 + 3) is None);
            assert(crate::parser::expression::spec_bool_exp(t, e1 + 3) == Some((j2, *consequent)));
            assert(crate::parser::expression::spec_if_exp(t, e1 + 3) is None);
            assert(crate::parser::expression::spec_iff_exp(t, e1 + 3) is None);
            assert(crate::parser::expression::spec_cond_exp(t, e1 + 3) == Some((j2, *consequent)));
            assert(crate::parser::expression::spec_and_exp(t, i) is None);
            assert(crate::parser::expression::spec_or_exp(t, i) is None);
            assert(crate::parser::expression::spec_bool_exp(t, i) == Some((e1, *antecedent)));
            assert(crate::parser::expression::spec_if_exp(t, i) == Some((j2, f)));
        }
        _ => {}
    }
}

/// The content of a parenthesized biconditional — left part, spaced operator,
/// right part — parses back exactly when a closing parenthesis follows.
#[verifier::rlimit(100)]
proof fn rt_content_iff(f: Formula, t: Seq<char>, i: int)
    requires
        f.wf(),
        f matches Formula::Iff { .. },
        0 <= i,
        i + f.to_text().len() - 2 < t.len(),
        forall|j: int|
            0 <= j < f.to_text().len() - 2 ==> t[i + j] == #[trigger] f.to_text()[1 + j],
        t[i + f.to_text().len() - 2] == ')',
    ensures
        crate::parser::expression::spec_cond_exp(t, i) == Some((i + f.to_text().len() - 2, f)),
    decreases f, 0int,
{
    let text = f.to_text();
    let clen = text.len() - 2;
    let j2 = i + clen;
    match f {
        Formula::Iff { lhs, rhs } => {
            let tl = lhs.to_text();
            let tr = rhs.to_text();
            let e1 = i + tl.len();
            assert(text.len() == tl.len() + tr.len() + 5);
            assert forall|jj: int| 0 <= jj < tl.len() implies t[i + jj] == #[trigger] tl[jj] by {
                assert(text[1 + jj] == tl[jj]);
            }
            assert(t[e1] == text[1 + tl.len() as int]);
            assert(t[e1] == ' ');
            let p1 = 1 + tl.len() as int;
            let p2 = 2 + tl.len() as int;
            assert(t[i + p1] == text[1 + p1]);
            assert(t[e1 + 1] == '↔');
            assert(t[i + p2] == text[1 + p2]);
            assert(t[e1 + 2] == ' ');
            assert forall|jj: int|
                0 <= jj < tr.len() implies t[e1 + 3 + jj] == #[trigger] tr[jj] by {
                let q = 3 + tl.len() as int + jj;
                assert(t[i + q] == text[1 + q]);
                assert(text[1 + q] == tr[jj]);
            }
            assert(ws_end(t, e1 + 1) == e1 + 1);
            assert(ws_end(t, e1) == e1 + 1);
            assert(ws_end(t, j2) == j2);
            lemma_text_shape(*lhs);
            lemma_text_shape(*rhs);
            assert(follower_ok(t, e1));
            rt_f(*lhs, t, i);
            assert(t[e1 + 3] == tr[0]);
            assert(ws_end(t, e1 + 3) == e1 + 3);
            assert(ws_end(t, e1 + 2) == ws_end(t, e1 + 3));
            assert(follower_ok(t, j2));
            rt_f(*rhs, t, e1 + 3);
            assert(crate::parser::expression::spec_and_exp(t, e1 + 3) is None);
            assert(crate::parser::expression::spec_or_exp(t, e1 + 3) is None);
            assert(crate::parser::expression::spec_bool_exp(t, e1 + 3) == Some((j2, *rhs)));
            assert(crate::parser::expression::spec_if_exp(t, e1 + 3) is None);
            assert(crate::parser::expression::spec_iff_exp(t, e1 + 3) is None);
            assert(crate::parser::expression::spec_cond_exp(t, e1 + 3) == Some((j2, *rhs)));
            assert(crate::parser::expression::spec_and_exp(t, i) is None);
            assert(crate::parser::expression::spec_or_exp(t, i) is None);
            assert(crate::parser::expression::spec_bool_exp(t, i) == Some((e1, *lhs)));
            assert(crate::parser::expression::spec_if_exp(t, i) is None);
            assert(crate::parser::expression::spec_iff_exp(t, i) == Some((j2, f)));
        }
        _ => {}
    }
}

/// The content of a parenthesized conjunction — left part, spaced operator,
/// right part — parses back exactly when a closing parenthesis follows.
#[verifier::rlimit(100)]
proof fn rt_content_and(f: Formula, t: Seq<char>, i: int)
    requires
        f.wf(),
        f matches Formula::And { .. },
        0 <= i,
        i + f.to_text().len() - 2 < t.len(),
        forall|j: int|
            0 <= j < f.to_text().len() - 2 ==> t[i + j] == #[trigger] f.to_text()[1 + j],
        t[i + f.to_text().len() - 2] == ')',
    ensures
        crate::parser::expression::spec_cond_exp(t, i) == Some((i + f.to_text().len() - 2, f)),
    decreases f, 0int,
{
    let text = f.to_text();
    let clen = text.len() - 2;
    let j2 = i + clen;
    match f {
        Formula::And { lhs, rhs } => {
            let tl = lhs.to_text();
            let tr = rhs.to_text();
            let e1 = i + tl.len();
            assert(text.len() == tl.len() + tr.len() + 5);
            assert forall|jj: int| 0 <= jj < tl.len() implies t[i + jj] == #[trigger] tl[jj] by {
                assert(text[1 + jj] == tl[jj]);
            }
            assert(t[e1] == text[1 + tl.len() as int]);
            assert(t[e1] == ' ');
            let p1 = 1 + tl.len() as int;
            let p2 = 2 + tl.len() as int;
            assert(t[i + p1] == text[1 + p1]);
            assert(t[e1 + 1] == '&');
            assert(t[i + p2] == text[1 + p2]);
            assert(t[e1 + 2] == ' ');
            assert forall|jj: int|
                0 <= jj < tr.len() implies t[e1 + 3 + jj] == #[trigger] tr[jj] by {
                let q = 3 + tl.len() as int + jj;
                assert(t[i + q] == text[1 + q]);
                assert(text[1 + q] == tr[jj]);
            }
            assert(ws_end(t, e1 + 1) == e1 + 1);
            assert(ws_end(t, e1) == e1 + 1);
            assert(ws_end(t, j2) == j2);
            lemma_text_shape(*lhs);
            lemma_text_shape(*rhs);
            assert(follower_ok(t, e1));
            rt_f(*lhs, t, i);
            assert(t[e1 + 3] == tr[0]);
            assert(ws_end(t, e1 + 3) == e1 + 3);
            assert(ws_end(t, e1 + 2) == ws_end(t, e1 + 3));
            assert(follower_ok(t, j2));
            rt_f(*rhs, t, e1 + 3);
            assert(crate::parser::expression::spec_and_exp(t, e1 + 3) is None);
            assert(crate::parser::expression::spec_or_exp(t, e1 + 3) is None);
            assert(crate::parser::expression::spec_bool_exp(t, e1 + 3) == Some((j2, *rhs)));
            assert(crate::parser::expression::spec_and_exp(t, i) == Some((j2, f)));
            assert(crate::parser::expression::spec_bool_exp(t, i) == Some((j2, f)));
            assert(crate::parser::expression::spec_if_exp(t, i) is None);
            assert(crate::parser::expression::spec_iff_exp(t, i) is None);
        }
        _ => {}
    }
}

/// The content of a parenthesized disjunction — left part, spaced operator,
/// right part — parses back exactly when a closing parenthesis follows.
#[verifier::rlimit(100)]
proof fn rt_content_or(f: Formula, t: Seq<char>, i: int)
    requires
        f.wf(),
        f matches Formula::Or { .. },
        0 <= i,
        i + f.to_text().len() - 2 < t.len(),
        forall|j: int|
            0 <= j < f.to_text().len() - 2 ==> t[i + j] == #[trigger] f.to_text()[1 + j],
        t[i + f.to_text().len() - 2] == ')',
    ensures
        crate::parser::expression::spec_cond_exp(t, i) == Some((i + f.to_text().len() - 2, f)),
    decreases f, 0int,
{
    let text = f.to_text();
    let clen = text.len() - 2;
    let j2 = i + clen;
    match f {
        Formula::Or { lhs, rhs } => {
            let tl = lhs.to_text();
            let tr = rhs.to_text();
            let e1 = i + tl.len();
            assert(text.len() == tl.len() + tr.len() + 5);
            assert forall|jj: int| 0 <= jj < tl.len() implies t[i + jj] == #[trigger] tl[jj] by {
                assert(text[1 + jj] == tl[jj]);
            }
            assert(t[e1] == text[1 + tl.len() as int]);
            assert(t[e1] == ' ');
            let p1 = 1 + tl.len() as int;
            let p2 = 2 + tl.len() as int;
            assert(t[i + p1] == text[1 + p1]);
            assert(t[e1 + 1] == '∨');
            assert(t[i + p2] == text[1 + p2]);
            assert(t[e1 + 2] == ' ');
            assert forall|jj: int|
                0 <= jj < tr.len() implies t[e1 + 3 + jj] == #[trigger] tr[jj] by {
                let q = 3 + tl.len() as int + jj;
                assert(t[i + q] == text[1 + q]);
                assert(text[1 + q] == tr[jj]);
            }
            assert(ws_end(t, e1 + 1) == e1 + 1);
            assert(ws_end(t, e1) == e1 + 1);
            assert(ws_end(t, j2) == j2);
            lemma_text_shape(*lhs);
            lemma_text_shape(*rhs);
            assert(follower_ok(t, e1));
            rt_f(*lhs, t, i);
            assert(t[e1 + 3] == tr[0]);
            assert(ws_end(t, e1 + 3) == e1 + 3);
            assert(ws_end(t, e1 + 2) == ws_end(t, e1 + 3));
            assert(follower_ok(t, j2));
            rt_f(*rhs, t, e1 + 3);
            assert(crate::parser::expression::spec_and_exp(t, e1 + 3) is None);
            assert(crate::parser::expression::spec_or_exp(t, e1 + 3) is None);
            assert(crate::parser::expression::spec_bool_exp(t, e1 + 3) == Some((j2, *rhs)));
            assert(crate::parser::expression::spec_and_exp(t, i) is None);
            assert(crate::parser::expression::spec_or_exp(t, i) == Some((j2, f)));
            assert(crate::parser::expression::spec_bool_exp(t, i) == Some((j2, f)));
            assert(crate::parser::expression::spec_if_exp(t, i) is None);
            assert(crate::parser::expression::spec_iff_exp(t, i) is None);
        }
        _ => {}
    }
}

/// An identifier token starting at `i` has the lexical identifier shape.
proof fn lemma_token_shape(t: Seq<char>, i: int, lo: char, hi: char)
    requires
        0 <= i < t.len(),
        lo <= t[i] && t[i] <= hi,
    ensures
        wf_ident(
            t.subrange(i, crate::parser::individual_constant::spec_ident_end(t, i)),
            lo,
            hi,
        ),
        i < crate::parser::individual_constant::spec_ident_end(t, i) <= t.len(),
{
    crate::parser::individual_constant::lemma_ident_end(t, i);
    let j = crate::parser::individual_constant::spec_ident_end(t, i);
    let s = t.subrange(i, j);
    assert(s[0] == t[i]);
    match crate::parser::individual_constant::spec_subscr(t, i + 1) {
        Some(jj) => {
            crate::parser::util::lemma_digits_end(t, i + 2);
            assert(s.len() >= 3);
            assert(s[1] == t[i + 1]);
            assert forall|m: int| 2 <= m < s.len() implies '0' <= #[trigger] s[m] && s[m]
                <= '9' by {
                assert(s[m] == t[i + m]);
                assert(is_digit_char(t[i + m]));
            }
        }
        None => {
            assert(s.len() == 1);
        }
    }
}

/// An individual symbol token has the individual shape, head `a`–`z`.
proof fn lemma_ind_sym_shape(t: Seq<char>, i: int)
    ensures
        crate::parser::individual_constant::spec_ind_sym(t, i) matches Some(j) ==> wf_ident(
            t.subrange(i, j),
            'a',
            'z',
        ) && i < j <= t.len(),
{
    if crate::parser::individual_constant::spec_ind_sym(t, i) is Some {
        lemma_token_shape(t, i, 'a', 'z');
    }
}

/// Every individual matched by the fixed-count form is well shaped.
proof fn lemma_count_inds_wf(t: Seq<char>, i: int, n: nat)
    ensures
        crate::parser::expression::spec_count_inds(t, i, n) matches Some((j, inds))
            ==> forall|m: int| 0 <= m < inds.len() ==> wf_ident(#[trigger] inds[m], 'a', 'z'),
    decreases n,
{
    if n > 0 {
        let w = ws_end(t, i);
        match crate::parser::individual_constant::spec_ind_sym(t, w) {
            Some(e) => {
                lemma_ind_sym_shape(t, w);
                lemma_count_inds_wf(t, e, (n - 1) as nat);
                match crate::parser::expression::spec_count_inds(t, e, (n - 1) as nat) {
                    Some((j, rest)) => {
                        let inds = seq![t.subrange(w, e)] + rest;
                        assert forall|m: int| 0 <= m < inds.len() implies wf_ident(
                            #[trigger] inds[m],
                            'a',
                            'z',
                        ) by {
                            if m > 0 {
                                assert(inds[m] == rest[m - 1]);
                            }
                        }
                    }
                    None => {}
                }
            }
            None => {}
        }
    }
}

/// Every individual matched by the greedy form is well shaped.
proof fn lemma_many_inds_wf(t: Seq<char>, i: int)
    ensures
        forall|m: int|
            0 <= m < crate::parser::expression::spec_many_inds(t, i).1.len() ==> wf_ident(
                #[trigger] crate::parser::expression::spec_many_inds(t, i).1[m],
                'a',
                'z',
            ),
    decreases t.len() - i,
{
    let w = ws_end(t, i);
    match crate::parser::individual_constant::spec_ind_sym(t, w) {
        Some(e) => {
            lemma_ind_sym_shape(t, w);
            if i < e && e <= t.len() {
                lemma_many_inds_wf(t, e);
                let rest = crate::parser::expression::spec_many_inds(t, e).1;
                let inds = seq![t.subrange(w, e)] + rest;
                assert forall|m: int| 0 <= m < inds.len() implies wf_ident(
                    #[trigger] inds[m],
                    'a',
                    'z',
                ) by {
                    if m > 0 {
                        assert(inds[m] == rest[m - 1]);
                    }
                }
            }
        }
        None => {}
    }
}

/// A parsed atom is well formed.
proof fn lemma_atom_exp_wf(t: Seq<char>, i: int)
    ensures
        crate::parser::expression::spec_atom_exp(t, i) matches Some((j, f)) ==> f.wf(),
{
    match crate::parser::individual_constant::spec_pre(t, i) {
        Some(pe) => {
            lemma_token_shape(t, i, 'A', 'Z');
            match crate::parser::individual_constant::spec_dim(t, pe) {
                Some((de, n)) => {
                    lemma_count_inds_wf(t, de, n);
                    lemma_many_inds_wf(t, pe);
                }
                None => {
                    lemma_many_inds_wf(t, pe);
                }
            }
        }
        None => {}
    }
}

/// A parsed conditional layer is well formed.
proof fn lemma_if_exp_wf(t: Seq<char>, i: int)
    ensures
        crate::parser::expression::spec_if_exp(t, i) matches Some((j, f)) ==> f.wf(),
    decreases t.len() - i, 5int,
{
    lemma_bool_exp_wf(t, i);
    match crate::parser::expression::spec_bool_exp(t, i) {
        Some((j1, lhs)) => {
            let a = ws_end(t, j1);
            match crate::parser::symbol::spec_right_arrow(t, a) {
                Some(b) => {
                    let k = ws_end(t, b);
                    if i < k && k <= t.len() {
                        lemma_cond_exp_wf(t, k);
                    }
                }
                None => {}
            }
        }
        None => {}
    }
}

/// A parsed biconditional layer is well formed.
proof fn lemma_iff_exp_wf(t: Seq<char>, i: int)
    ensures
        crate::parser::expression::spec_iff_exp(t, i) matches Some((j, f)) ==> f.wf(),
    decreases t.len() - i, 5int,
{
    lemma_bool_exp_wf(t, i);
    match crate::parser::expression::spec_bool_exp(t, i) {
        Some((j1, lhs)) => {
            let a = ws_end(t, j1);
            match crate::parser::symbol::spec_left_right_arrow(t, a) {
                Some(b) => {
                    let k = ws_end(t, b);
                    if i < k && k <= t.len() {
                        lemma_cond_exp_wf(t, k);
                    }
                }
                None => {}
            }
        }
        None => {}
    }
}

/// A parsed formula of the loosest layer is well formed.
proof fn lemma_cond_exp_wf(t: Seq<char>, i: int)
    ensures
        crate::parser::expression::spec_cond_exp(t, i) matches Some((j, f)) ==> f.wf(),
    decreases t.len() - i, 6int,
{
    lemma_if_exp_wf(t, i);
    lemma_iff_exp_wf(t, i);
    lemma_bool_exp_wf(t, i);
}

/// A parsed conjunction is well formed.
proof fn lemma_and_exp_wf(t: Seq<char>, i: int)
    ensures
        crate::parser::expression::spec_and_exp(t, i) matches Some((j, f)) ==> f.wf(),
    decreases t.len() - i, 3int,
{
    lemma_f_wf(t, i);
    match crate::parser::expression::spec_f(t, i) {
        Some((j1, lhs)) => {
            let a = ws_end(t, j1);
            match crate::parser::symbol::spec_and(t, a) {
                Some(b) => {
                    let k = ws_end(t, b);
                    if i < k && k <= t.len() {
                        lemma_bool_exp_wf(t, k);
                    }
                }
                None => {}
            }
        }
        None => {}
    }
}

/// A parsed disjunction is well formed.
proof fn lemma_or_exp_wf(t: Seq<char>, i: int)
    ensures
        crate::parser::expression::spec_or_exp(t, i) matches Some((j, f)) ==> f.wf(),
    decreases t.len() - i, 3int,
{
    lemma_f_wf(t, i);
    match crate::parser::expression::spec_f(t, i) {
        Some((j1, lhs)) => {
            let a = ws_end(t, j1);
            match crate::parser::symbol::spec_or(t, a) {
                Some(b) => {
                    let k = ws_end(t, b);
                    if i < k && k <= t.len() {
                        lemma_bool_exp_wf(t, k);
                    }
                }
                None => {}
            }
        }
        None => {}
    }
}

/// A parsed boolean layer is well formed.
proof fn lemma_bool_exp_wf(t: Seq<char>, i: int)
    ensures
        crate::parser::expression::spec_bool_exp(t, i) matches Some((j, f)) ==> f.wf(),
    decreases t.len() - i, 4int,
{
    lemma_and_exp_wf(t, i);
    lemma_or_exp_wf(t, i);
    lemma_f_wf(t, i);
}

/// A parsed negation is well formed.
proof fn lemma_negate_exp_wf(t: Seq<char>, i: int)
    ensures
        crate::parser::expression::spec_negate_exp(t, i) matches Some((j, f)) ==> f.wf(),
    decreases t.len() - i, 1int,
{
    match crate::parser::symbol::spec_negation(t, i) {
        Some(a) => {
            let k = ws_end(t, a);
            if i < k && k <= t.len() {
                lemma_f_wf(t, k);
            }
        }
        None => {}
    }
}

/// A parsed universal generalization is well formed.
proof fn lemma_univ_genr_exp_wf(t: Seq<char>, i: int)
    ensures
        crate::parser::expression::spec_univ_genr_exp(t, i) matches Some((j, f)) ==> f.wf(),
    decreases t.len() - i, 0int,
{
    if 0 <= i < t.len() && t[i] == '(' {
        let a = ws_end(t, i + 1);
        match crate::parser::individual_constant::spec_var(t, a) {
            Some(ve) => {
                lemma_token_shape(t, a, 'u', 'z');
                let b = ws_end(t, ve);
                if 0 <= b < t.len() && t[b] == ')' {
                    let k = ws_end(t, b + 1);
                    if i < k && k <= t.len() {
                        lemma_f_wf(t, k);
                    }
                }
            }
            None => {}
        }
    }
}

/// A parsed existential generalization is well formed.
proof fn lemma_exist_genr_exp_wf(t: Seq<char>, i: int)
    ensures
        crate::parser::expression::spec_exist_genr_exp(t, i) matches Some((j, f)) ==> f.wf(),
    decreases t.len() - i, 0int,
{
    if 0 <= i < t.len() && t[i] == '(' {
        let a0 = ws_end(t, i + 1);
        match crate::parser::symbol::spec_existential(t, a0) {
            Some(e1) => {
                let a = ws_end(t, e1);
                match crate::parser::individual_constant::spec_var(t, a) {
                    Some(ve) => {
                        lemma_token_shape(t, a, 'u', 'z');
                        let b = ws_end(t, ve);
                        if 0 <= b < t.len() && t[b] == ')' {
                            let k = ws_end(t, b + 1);
                            if i < k && k <= t.len() {
                                lemma_f_wf(t, k);
                            }
                        }
                    }
                    None => {}
                }
            }
            None => {}
        }
    }
}

/// A parsed parenthesized formula is well formed.
proof fn lemma_parenthesesed_exp_wf(t: Seq<char>, i: int)
    ensures
        crate::parser::expression::spec_parenthesesed_exp(t, i) matches Some((j, f)) ==> f.wf(),
    decreases t.len() - i, 1int,
{
    if 0 <= i < t.len() && t[i] == '(' {
        let a = ws_end(t, i + 1);
        if i < a && a <= t.len() {
            lemma_cond_exp_wf(t, a);
        }
    }
}

/// A parsed factor is well formed.
proof fn lemma_f_wf(t: Seq<char>, i: int)
    ensures
        crate::parser::expression::spec_f(t, i) matches Some((j, f)) ==> f.wf(),
    decreases t.len() - i, 2int,
{
    lemma_atom_exp_wf(t, i);
    lemma_negate_exp_wf(t, i);
    lemma_exist_genr_exp_wf(t, i);
    lemma_univ_genr_exp_wf(t, i);
    lemma_parenthesesed_exp_wf(t, i);
}

/// Whatever the formula parser accepts is well formed: every identifier
/// it tokenizes has the lexical identifier shape.
pub proof fn lemma_parsed_formula_wf(t: Seq<char>)
    ensures
        spec_parse_exp(t) matches Some(f) ==> f.wf(),
{
    lemma_cond_exp_wf(trimmed(t), 0);
}

/// A formatting pass is invisible to the parser: the rewritten sentence
/// parses to exactly what the original did.
pub proof fn lemma_fmt_sentence_stable(t: Seq<char>)
    ensures
        spec_parse_exp(crate::checker::state::fmt_sentence(t)) == spec_parse_exp(t),
{
    match spec_parse_exp(t) {
        Some(f) => {
            lemma_parsed_formula_wf(t);
            lemma_formula_round_trip(f);
        }
        None => {}
    }
}

/// A formatting pass is invisible to the parser: the rewritten citation
/// parses to exactly what the original did.
pub proof fn lemma_fmt_derivation_stable(t: Seq<char>)
    ensures
        spec_parse_rule(crate::checker::state::fmt_derivation(t)) == spec_parse_rule(t),
{
    match spec_parse_rule(t) {
        Some(r) => {
            lemma_rule_round_trip(r);
        }
        None => {}
    }
}

/// Editing sentences alone cannot change any premise-number set: a
/// dependency list that described the rows before the edit describes them
/// after it. This discharges the sentence-edit step, which keeps its list.
pub proof fn lemma_sentence_edits_keep_premise_sets(
    rows1: Seq<(Seq<char>, Seq<char>)>,
    rows2: Seq<(Seq<char>, Seq<char>)>,
    deps: Seq<crate::checker::state::RowDependency>,
)
    requires
        rows1.len() == rows2.len(),
        forall|j: int| 0 <= j < rows1.len() ==> rows1[j].1 == (#[trigger] rows2[j]).1,
        crate::checker::state::deps_match(rows1, deps),
    ensures
        crate::checker::state::deps_match(rows2, deps),
{
    assert forall|j: int|
        0 <= j < rows1.len() implies spec_parse_rule(rows1[j].1) == spec_parse_rule(
        (#[trigger] rows2[j]).1,
    ) by {
        assert(rows1[j].1 == rows2[j].1);
    }
    assert forall|j: int|
        0 <= j < deps.len() implies (#[trigger] deps[j]).wf() && deps[j].is_complete
        == spec_dep_at(rows2, j).0 && deps[j].num_set() == spec_dep_at(rows2, j).1 by {
        crate::checker::state::lemma_dep_at_congruent(rows1, rows2, j);
    }
}

/// A formatting pass keeps both computed lists right: the premise-number
/// sets and validity flags that described the rows before the pass
/// describe the canonically rewritten rows too. This discharges the
/// formatting step, which keeps both lists.
pub proof fn lemma_format_keeps_checker_results(
    rows1: Seq<(Seq<char>, Seq<char>)>,
    rows2: Seq<(Seq<char>, Seq<char>)>,
    deps: Seq<crate::checker::state::RowDependency>,
    valids: Seq<bool>,
)
    requires
        rows1.len() == rows2.len(),
        forall|j: int|
            0 <= j < rows1.len() ==> #[trigger] rows2[j] == (
                crate::checker::state::fmt_sentence(rows1[j].0),
                crate::checker::state::fmt_derivation(rows1[j].1),
            ),
        crate::checker::state::deps_match(rows1, deps),
        crate::checker::state::valid_match(
            rows1,
            crate::checker::state::dep_sets(deps),
            valids,
        ),
    ensures
        crate::checker::state::deps_match(rows2, deps),
        crate::checker::state::valid_match(
            rows2,
            crate::checker::state::dep_sets(deps),
            valids,
        ),
{
    assert forall|j: int|
        0 <= j < rows1.len() implies spec_parse_rule(rows1[j].1) == spec_parse_rule(
        (#[trigger] rows2[j]).1,
    ) by {
        lemma_fmt_derivation_stable(rows1[j].1);
    }
    assert forall|j: int|
        0 <= j < rows1.len() implies spec_parse_exp(rows1[j].0) == spec_parse_exp(
        (#[trigger] rows2[j]).0,
    ) by {
        lemma_fmt_sentence_stable(rows1[j].0);
    }
    assert forall|j: int|
        0 <= j < deps.len() implies (#[trigger] deps[j]).wf() && deps[j].is_complete
        == spec_dep_at(rows2, j).0 && deps[j].num_set() == spec_dep_at(rows2, j).1 by {
        crate::checker::state::lemma_dep_at_congruent(rows1, rows2, j);
    }
    assert forall|i: int|
        0 <= i < valids.len() implies valids[i] == spec_valid_at(
        rows2,
        crate::checker::state::dep_sets(deps),
        i,
    ) by {
        crate::checker::state::lemma_valid_at_congruent(
            rows1,
            rows2,
            crate::checker::state::dep_sets(deps),
            i,
        );
    }
}

/// Lists copied field by field describe the same rows: a copy that keeps
/// every flag and every number keeps both kinds of consistency.
pub proof fn lemma_equiv_lists_match(
    rows: Seq<(Seq<char>, Seq<char>)>,
    deps1: Seq<crate::checker::state::RowDependency>,
    deps2: Seq<crate::checker::state::RowDependency>,
    valids: Seq<bool>,
)
    requires
        crate::checker::state::deps_match(rows, deps1),
        crate::checker::state::valid_match(
            rows,
            crate::checker::state::dep_sets(deps1),
            valids,
        ),
        crate::checker::state::deps_equiv(deps2, deps1),
    ensures
        crate::checker::state::deps_match(rows, deps2),
        crate::checker::state::valid_match(
            rows,
            crate::checker::state::dep_sets(deps2),
            valids,
        ),
{
    assert forall|j: int|
        0 <= j < deps2.len() implies (#[trigger] deps2[j]).wf() && deps2[j].is_complete
        == spec_dep_at(rows, j).0 && deps2[j].num_set() == spec_dep_at(rows, j).1 by {
        assert(deps2[j].nums@ == deps1[j].nums@);
        assert(deps2[j].num_set() == deps1[j].num_set());
    }
    assert(crate::checker::state::dep_sets(deps2) =~= crate::checker::state::dep_sets(deps1));
}

/// Round trip of formulas: parsing the canonical rendering of any
/// well-formed formula gives the formula back. Ill-formed identifiers
/// break the law: an atom whose one "individual" spells two symbols, such
/// as `xy`, renders as text that reads back as two individuals.
pub proof fn lemma_formula_round_trip(f: Formula)
    requires
        f.wf(),
    ensures
        spec_parse_exp(f.to_text()) == Some(f),
{
    let t = f.to_text();
    lemma_text_shape(f);
    lemma_trim_id(t);
    rt_f(f, t, 0);
    let n = t.len() as int;
    assert(ws_end(t, n) == n);
    assert(crate::parser::expression::spec_and_exp(t, 0) is None);
    assert(crate::parser::expression::spec_or_exp(t, 0) is None);
    assert(crate::parser::expression::spec_bool_exp(t, 0) == Some((n, f)));
    assert(crate::parser::expression::spec_if_exp(t, 0) is None);
    assert(crate::parser::expression::spec_iff_exp(t, 0) is None);
    assert(crate::parser::expression::spec_cond_exp(t, 0) == Some((n, f)));
}

/// Round trip of citations: parsing the canonical rendering of any rule
/// citation gives the citation back.
pub proof fn lemma_rule_round_trip(r: Rule)
    ensures
        spec_parse_rule(r.to_text()) == Some(r),
{
    match r {
        Rule::Premise => rt_premise(),
        Rule::AndIntro(k, l) => rt_and_intro(k, l),
        Rule::AndExclude(k) => rt_and_exclude(k),
        Rule::OrIntro(k, l_opt) => match l_opt {
            None => rt_or_intro_single(k),
            Some(l) => rt_or_intro_pair(k, l),
        },
        Rule::OrExclude(k, (l0, l1), (m0, m1)) => rt_or_exclude(k, l0, l1, m0, m1),
        Rule::IfIntro((k0_opt, k1)) => match k0_opt {
            Some(k0) => rt_if_intro_opened(k0, k1),
            None => rt_if_intro_vacuous(k1),
        },
        Rule::IfExclude(k, l) => rt_if_exclude(k, l),
        Rule::IffIntro(k, l) => rt_iff_intro(k, l),
        Rule::IffExclude(k) => rt_iff_exclude(k),
        Rule::Falsum(k) => rt_falsum(k),
        Rule::NegIntro((k0, k1)) => rt_neg_intro(k0, k1),
        Rule::NegExclude((k0, k1)) => rt_neg_exclude(k0, k1),
        Rule::UnivQuntIntro(k) => rt_univ_intro(k),
        Rule::UnivQuntExclude(k) => rt_univ_exclude(k),
        Rule::ExisQuntIntro(k) => rt_exis_intro(k),
        Rule::ExisQuntExclude(k, (l0, l1)) => rt_exis_exclude(k, l0, l1),
    }
}

/// A cited line number after a row was inserted at 1-based position `p`:
/// numbers past `p` move up by one; the largest representable number,
/// which cannot move further, stays.
pub open spec fn bump_num(k: usize, p: usize) -> usize {
    if p < k && k < usize::MAX {
        (k + 1) as usize
    } else {
        k
    }
}

/// A citation after a row was inserted at position `p`: every operand is
/// relabeled by `bump_num`.
pub open spec fn bumped(r: Rule, p: usize) -> Rule {
    match r {
        Rule::Premise => Rule::Premise,
        Rule::AndIntro(k, l) => Rule::AndIntro(bump_num(k, p), bump_num(l, p)),
        Rule::AndExclude(k) => Rule::AndExclude(bump_num(k, p)),
        Rule::OrIntro(k, l_opt) => Rule::OrIntro(
            bump_num(k, p),
            match l_opt {
                Some(l) => Some(bump_num(l, p)),
                None => None,
            },
        ),
        Rule::OrExclude(k, (l0, l1), (m0, m1)) => Rule::OrExclude(
            bump_num(k, p),
            (bump_num(l0, p), bump_num(l1, p)),
            (bump_num(m0, p), bump_num(m1, p)),
        ),
        Rule::IfIntro((k0_opt, k1)) => Rule::IfIntro(
            (
                match k0_opt {
                    Some(k0) => Some(bump_num(k0, p)),
                    None => None,
                },
                bump_num(k1, p),
            ),
        ),
        Rule::IfExclude(k, l) => Rule::IfExclude(bump_num(k, p), bump_num(l, p)),
        Rule::IffIntro(k, l) => Rule::IffIntro(bump_num(k, p), bump_num(l, p)),
        Rule::IffExclude(k) => Rule::IffExclude(bump_num(k, p)),
        Rule::Falsum(k) => Rule::Falsum(bump_num(k, p)),
        Rule::NegIntro((k0, k1)) => Rule::NegIntro((bump_num(k0, p), bump_num(k1, p))),
        Rule::NegExclude((k0, k1)) => Rule::NegExclude((bump_num(k0, p), bump_num(k1, p))),
        Rule::UnivQuntIntro(k) => Rule::UnivQuntIntro(bump_num(k, p)),
        Rule::UnivQuntExclude(k) => Rule::UnivQuntExclude(bump_num(k, p)),
        Rule::ExisQuntIntro(k) => Rule::ExisQuntIntro(bump_num(k, p)),
        Rule::ExisQuntExclude(k, (l0, l1)) => Rule::ExisQuntExclude(
            bump_num(k, p),
            (bump_num(l0, p), bump_num(l1, p)),
        ),
    }
}

/// One renumbering step over a rendered number bounded by a non-digit.
proof fn lemma_renumber_num(t: Seq<char>, i: int, v: usize, p: usize)
    requires
        0 <= i,
        i + dec_digits(v as nat).len() <= t.len(),
        forall|j: int|
            0 <= j < dec_digits(v as nat).len() ==> t[i + j] == #[trigger] dec_digits(
                v as nat,
            )[j],
        i + dec_digits(v as nat).len() == t.len() || !is_digit_char(
            t[i + dec_digits(v as nat).len()],
        ),
    ensures
        crate::checker::state::spec_renumber(t, i, p) == dec_digits(bump_num(v, p) as nat)
            + crate::checker::state::spec_renumber(t, i + dec_digits(v as nat).len(), p),
{
    let dd = dec_digits(v as nat);
    lemma_dec_digits_shape(v as nat);
    assert(t[i + 0] == dd[0]);
    assert forall|j: int| i <= j < i + dd.len() implies is_digit_char(#[trigger] t[j]) by {
        assert(t[i + (j - i)] == dd[j - i]);
    }
    lemma_digits_end_split(t, i, i + dd.len());
    lemma_digits_val_at(t, i, v as nat);
    if !(p < v && v < usize::MAX) {
        assert(t.subrange(i, i + dd.len()) =~= dd);
    }
}

/// One renumbering step over a character that is not a digit.
proof fn lemma_renumber_char(t: Seq<char>, i: int, p: usize)
    requires
        0 <= i < t.len(),
        !is_digit_char(t[i]),
    ensures
        crate::checker::state::spec_renumber(t, i, p) == seq![t[i]]
            + crate::checker::state::spec_renumber(t, i + 1, p),
{
}

/// Inserting a row relabels a canonical citation: renumbering the
/// rendered text of any rule citation yields exactly the rendering of the
/// same citation with every operand past the insertion point moved up by
/// one. With the round trip of citations, the relabeled text parses back
/// as the relabeled citation, so only the numeric labels shift.
#[verifier::rlimit(100)]
pub proof fn lemma_renumber_relabels_citation(r: Rule, p: usize)
    ensures
        crate::checker::state::spec_renumber(r.to_text(), 0, p) == bumped(r, p).to_text(),
{
    let t = r.to_text();
    match r {
        Rule::Premise => {
            lemma_renumber_char(t, 0, p);
            assert(crate::checker::state::spec_renumber(t, 1, p) =~= Seq::<char>::empty());
            assert(crate::checker::state::spec_renumber(t, 0, p) =~= bumped(r, p).to_text());
        }
        Rule::AndIntro(k, l) => {
            ren_pair_tag(t, k, l, p, '&', 'I');
            assert(crate::checker::state::spec_renumber(t, 0, p) =~= bumped(r, p).to_text());
        }
        Rule::AndExclude(k) => {
            ren_single_tail(t, k, p, seq![' ', '&', 'E']);
            assert(crate::checker::state::spec_renumber(t, 0, p) =~= bumped(r, p).to_text());
        }
        Rule::OrIntro(k, l_opt) => {
            match l_opt {
                Some(l) => {
                    ren_pair_tag(t, k, l, p, '∨', 'I');
                    assert(crate::checker::state::spec_renumber(t, 0, p) =~= bumped(
                        r,
                        p,
                    ).to_text());
                }
                None => {
                    ren_single_tail(t, k, p, seq![' ', '∨', 'I']);
                    assert(crate::checker::state::spec_renumber(t, 0, p) =~= bumped(
                        r,
                        p,
                    ).to_text());
                }
            }
        }
        Rule::OrExclude(k, (l0, l1), (m0, m1)) => {
            ren_or_exclude(t, k, l0, l1, m0, m1, p);
            assert(crate::checker::state::spec_renumber(t, 0, p) =~= bumped(r, p).to_text());
        }
        Rule::IfIntro((k0_opt, k1)) => {
            match k0_opt {
                Some(k0) => {
                    ren_range_tag(t, k0, k1, p, '→', 'I');
                    assert(crate::checker::state::spec_renumber(t, 0, p) =~= bumped(
                        r,
                        p,
                    ).to_text());
                }
                None => {
                    ren_single_tail(t, k1, p, seq![' ', '→', 'I']);
                    assert(crate::checker::state::spec_renumber(t, 0, p) =~= bumped(
                        r,
                        p,
                    ).to_text());
                }
            }
        }
        Rule::IfExclude(k, l) => {
            ren_pair_tag(t, k, l, p, '→', 'E');
            assert(crate::checker::state::spec_renumber(t, 0, p) =~= bumped(r, p).to_text());
        }
        Rule::IffIntro(k, l) => {
            ren_pair_tag(t, k, l, p, '↔', 'I');
            assert(crate::checker::state::spec_renumber(t, 0, p) =~= bumped(r, p).to_text());
        }
        Rule::IffExclude(k) => {
            ren_single_tail(t, k, p, seq![' ', '↔', 'E']);
            assert(crate::checker::state::spec_renumber(t, 0, p) =~= bumped(r, p).to_text());
        }
        Rule::Falsum(k) => {
            ren_single_tail(t, k, p, seq![' ', '⊥']);
            assert(crate::checker::state::spec_renumber(t, 0, p) =~= bumped(r, p).to_text());
        }
        Rule::NegIntro((k0, k1)) => {
            ren_range_tag(t, k0, k1, p, '¬', 'I');
            assert(crate::checker::state::spec_renumber(t, 0, p) =~= bumped(r, p).to_text());
        }
        Rule::NegExclude((k0, k1)) => {
            ren_range_tag(t, k0, k1, p, '¬', 'E');
            assert(crate::checker::state::spec_renumber(t, 0, p) =~= bumped(r, p).to_text());
        }
        Rule::UnivQuntIntro(k) => {
            ren_single_tail(t, k, p, seq![' ', '(', ')', 'I']);
            assert(crate::checker::state::spec_renumber(t, 0, p) =~= bumped(r, p).to_text());
        }
        Rule::UnivQuntExclude(k) => {
            ren_single_tail(t, k, p, seq![' ', '(', ')', 'E']);
            assert(crate::checker::state::spec_renumber(t, 0, p) =~= bumped(r, p).to_text());
        }
        Rule::ExisQuntIntro(k) => {
            ren_single_tail(t, k, p, seq![' ', '∃', 'I']);
            assert(crate::checker::state::spec_renumber(t, 0, p) =~= bumped(r, p).to_text());
        }
        Rule::ExisQuntExclude(k, (l0, l1)) => {
            ren_exis_exclude(t, k, l0, l1, p);
            assert(crate::checker::state::spec_renumber(t, 0, p) =~= bumped(r, p).to_text());
        }
    }
}

/// Corollary: after a row insertion at position `p`, the renumbered text
/// of any canonical citation parses as the same citation with its labels
/// shifted. The premise-number sets and validity of untouched rows are
/// therefore functions of the same citations under new labels.
pub proof fn lemma_renumbered_citation_parses(r: Rule, p: usize)
    ensures
        spec_parse_rule(crate::checker::state::spec_renumber(r.to_text(), 0, p)) == Some(
            bumped(r, p),
        ),
{
    lemma_renumber_relabels_citation(r, p);
    lemma_rule_round_trip(bumped(r, p));
}

/// Renumbering a rendered number followed by a digit-free tail rewrites
/// the number and copies the tail.
proof fn ren_single_tail(t: Seq<char>, k: usize, p: usize, tail: Seq<char>)
    requires
        t == dec_digits(k as nat) + tail,
        tail.len() >= 1,
        forall|j: int| 0 <= j < tail.len() ==> !is_digit_char(#[trigger] tail[j]),
    ensures
        crate::checker::state::spec_renumber(t, 0, p) == dec_digits(bump_num(k, p) as nat) + tail,
{
    let a = dec_digits(k as nat).len() as int;
    lemma_dec_digits_shape(k as nat);
    assert forall|j: int|
        0 <= j < dec_digits(k as nat).len() implies t[j] == #[trigger] dec_digits(k as nat)[j] by {}
    assert(t[a] == tail[0]);
    lemma_renumber_num(t, 0, k, p);
    ren_copy_tail(t, a, p, tail);
    assert(crate::checker::state::spec_renumber(t, 0, p) =~= dec_digits(bump_num(k, p) as nat)
        + tail);
}

/// Renumbering a digit-free suffix copies it unchanged.
proof fn ren_copy_tail(t: Seq<char>, i: int, p: usize, tail: Seq<char>)
    requires
        0 <= i,
        i + tail.len() == t.len(),
        forall|j: int| 0 <= j < tail.len() ==> t[i + j] == #[trigger] tail[j],
        forall|j: int| 0 <= j < tail.len() ==> !is_digit_char(#[trigger] tail[j]),
    ensures
        crate::checker::state::spec_renumber(t, i, p) == tail,
    decreases tail.len(),
{
    if tail.len() == 0 {
        assert(crate::checker::state::spec_renumber(t, i, p) =~= tail);
    } else {
        assert(t[i + 0] == tail[0]);
        lemma_renumber_char(t, i, p);
        let rest = tail.drop_first();
        assert forall|j: int| 0 <= j < rest.len() implies t[i + 1 + j] == #[trigger] rest[j] by {
            assert(t[i + (1 + j)] == tail[1 + j]);
        }
        ren_copy_tail(t, i + 1, p, rest);
        assert(crate::checker::state::spec_renumber(t, i, p) =~= tail);
    }
}

/// Renumbering `k, l TAG` rewrites both numbers.
proof fn ren_pair_tag(t: Seq<char>, k: usize, l: usize, p: usize, sym: char, letter: char)
    requires
        t == dec_digits(k as nat) + seq![',', ' '] + dec_digits(l as nat) + seq![
            ' ',
            sym,
            letter,
        ],
        !is_digit_char(sym),
        !is_digit_char(letter),
    ensures
        crate::checker::state::spec_renumber(t, 0, p) == dec_digits(bump_num(k, p) as nat) + seq![
            ',',
            ' ',
        ] + dec_digits(bump_num(l, p) as nat) + seq![' ', sym, letter],
{
    let dk = dec_digits(k as nat);
    let dl = dec_digits(l as nat);
    let a = dk.len() as int;
    let b = dl.len() as int;
    lemma_dec_digits_shape(k as nat);
    lemma_dec_digits_shape(l as nat);
    assert forall|j: int| 0 <= j < a implies t[j] == #[trigger] dk[j] by {}
    assert(t[a] == ',');
    assert(t[a + 1] == ' ');
    assert forall|j: int| 0 <= j < b implies t[a + 2 + j] == #[trigger] dl[j] by {}
    lemma_renumber_num(t, 0, k, p);
    lemma_renumber_char(t, a, p);
    lemma_renumber_char(t, a + 1, p);
    lemma_renumber_num(t, a + 2, l, p);
    ren_copy_tail(t, a + 2 + b, p, seq![' ', sym, letter]);
    assert(crate::checker::state::spec_renumber(t, 0, p) =~= dec_digits(bump_num(k, p) as nat)
        + seq![',', ' '] + dec_digits(bump_num(l, p) as nat) + seq![' ', sym, letter]);
}

/// Renumbering `k0-k1 TAG` rewrites both numbers.
proof fn ren_range_tag(t: Seq<char>, k0: usize, k1: usize, p: usize, sym: char, letter: char)
    requires
        t == dec_digits(k0 as nat) + seq!['-'] + dec_digits(k1 as nat) + seq![' ', sym, letter],
        !is_digit_char(sym),
        !is_digit_char(letter),
    ensures
        crate::checker::state::spec_renumber(t, 0, p) == dec_digits(bump_num(k0, p) as nat)
            + seq!['-'] + dec_digits(bump_num(k1, p) as nat) + seq![' ', sym, letter],
{
    let dk = dec_digits(k0 as nat);
    let dl = dec_digits(k1 as nat);
    let a = dk.len() as int;
    let b = dl.len() as int;
    lemma_dec_digits_shape(k0 as nat);
    lemma_dec_digits_shape(k1 as nat);
    assert forall|j: int| 0 <= j < a implies t[j] == #[trigger] dk[j] by {}
    assert(t[a] == '-');
    assert forall|j: int| 0 <= j < b implies t[a + 1 + j] == #[trigger] dl[j] by {}
    lemma_renumber_num(t, 0, k0, p);
    lemma_renumber_char(t, a, p);
    lemma_renumber_num(t, a + 1, k1, p);
    ren_copy_tail(t, a + 1 + b, p, seq![' ', sym, letter]);
    assert(crate::checker::state::spec_renumber(t, 0, p) =~= dec_digits(bump_num(k0, p) as nat)
        + seq!['-'] + dec_digits(bump_num(k1, p) as nat) + seq![' ', sym, letter]);
}

/// Renumbering the second range and tag of a disjunction elimination.
proof fn ren_or_exclude_tail(t: Seq<char>, mid: int, m0: usize, m1: usize, p: usize)
    requires
        0 <= mid,
        mid + 2 + dec_digits(m0 as nat).len() + 1 + dec_digits(m1 as nat).len() + 3 == t.len(),
        t[mid] == ',',
        t[mid + 1] == ' ',
        forall|j: int|
            0 <= j < dec_digits(m0 as nat).len() ==> t[mid + 2 + j] == #[trigger] dec_digits(
                m0 as nat,
            )[j],
        t[mid + 2 + dec_digits(m0 as nat).len()] == '-',
        forall|j: int|
            0 <= j < dec_digits(m1 as nat).len() ==> t[mid + 3 + dec_digits(m0 as nat).len() + j]
                == #[trigger] dec_digits(m1 as nat)[j],
        t[t.len() - 3] == ' ',
        t[t.len() - 2] == '∨',
        t[t.len() - 1] == 'E',
    ensures
        crate::checker::state::spec_renumber(t, mid, p) == seq![',', ' '] + dec_digits(
            bump_num(m0, p) as nat,
        ) + seq!['-'] + dec_digits(bump_num(m1, p) as nat) + seq![' ', '∨', 'E'],
{
    let c0 = dec_digits(m0 as nat).len() as int;
    let c1 = dec_digits(m1 as nat).len() as int;
    lemma_dec_digits_shape(m0 as nat);
    lemma_dec_digits_shape(m1 as nat);
    lemma_renumber_char(t, mid, p);
    lemma_renumber_char(t, mid + 1, p);
    lemma_renumber_num(t, mid + 2, m0, p);
    lemma_renumber_char(t, mid + 2 + c0, p);
    lemma_renumber_num(t, mid + 3 + c0, m1, p);
    ren_copy_tail(t, mid + 3 + c0 + c1, p, seq![' ', '∨', 'E']);
    assert(crate::checker::state::spec_renumber(t, mid, p) =~= seq![',', ' '] + dec_digits(
        bump_num(m0, p) as nat,
    ) + seq!['-'] + dec_digits(bump_num(m1, p) as nat) + seq![' ', '∨', 'E']);
}

/// Renumbering `k, l0-l1, m0-m1 ∨E` rewrites all five numbers.
#[verifier::rlimit(100)]
proof fn ren_or_exclude(t: Seq<char>, k: usize, l0: usize, l1: usize, m0: usize, m1: usize, p: usize)
    requires
        t == dec_digits(k as nat) + seq![',', ' '] + dec_digits(l0 as nat) + seq!['-']
            + dec_digits(l1 as nat) + seq![',', ' '] + dec_digits(m0 as nat) + seq!['-']
            + dec_digits(m1 as nat) + seq![' ', '∨', 'E'],
    ensures
        crate::checker::state::spec_renumber(t, 0, p) == dec_digits(bump_num(k, p) as nat) + (
        seq![','] + (seq![' '] + (dec_digits(bump_num(l0, p) as nat) + (seq!['-'] + (dec_digits(
            bump_num(l1, p) as nat,
        ) + (seq![',', ' '] + dec_digits(bump_num(m0, p) as nat) + seq!['-'] + dec_digits(
            bump_num(m1, p) as nat,
        ) + seq![' ', '∨', 'E'])))))),
{
    let dk = dec_digits(k as nat);
    let d0 = dec_digits(l0 as nat);
    let d1 = dec_digits(l1 as nat);
    let e0 = dec_digits(m0 as nat);
    let e1 = dec_digits(m1 as nat);
    let a = dk.len() as int;
    let b0 = d0.len() as int;
    let b1 = d1.len() as int;
    let c0 = e0.len() as int;
    let c1 = e1.len() as int;
    lemma_dec_digits_shape(k as nat);
    lemma_dec_digits_shape(l0 as nat);
    lemma_dec_digits_shape(l1 as nat);
    lemma_dec_digits_shape(m0 as nat);
    lemma_dec_digits_shape(m1 as nat);
    assert forall|j: int| 0 <= j < a implies t[j] == #[trigger] dk[j] by {}
    assert(t[a] == ',');
    assert(t[a + 1] == ' ');
    assert forall|j: int| 0 <= j < b0 implies t[a + 2 + j] == #[trigger] d0[j] by {}
    assert(t[a + 2 + b0] == '-');
    assert forall|j: int| 0 <= j < b1 implies t[a + 3 + b0 + j] == #[trigger] d1[j] by {}
    assert(t[a + 3 + b0 + b1] == ',');
    assert(t[a + 4 + b0 + b1] == ' ');
    assert forall|j: int| 0 <= j < c0 implies t[a + 5 + b0 + b1 + j] == #[trigger] e0[j] by {}
    assert(t[a + 5 + b0 + b1 + c0] == '-');
    assert forall|j: int| 0 <= j < c1 implies t[a + 6 + b0 + b1 + c0 + j] == #[trigger] e1[j] by {}
    let mid = a + 3 + b0 + b1;
    ren_or_exclude_tail(t, mid, m0, m1, p);
    lemma_renumber_num(t, 0, k, p);
    lemma_renumber_char(t, a, p);
    lemma_renumber_char(t, a + 1, p);
    lemma_renumber_num(t, a + 2, l0, p);
    lemma_renumber_char(t, a + 2 + b0, p);
    lemma_renumber_num(t, a + 3 + b0, l1, p);
}

/// Renumbering `k, l0-l1 ∃E` rewrites all three numbers.
#[verifier::rlimit(100)]
proof fn ren_exis_exclude(t: Seq<char>, k: usize, l0: usize, l1: usize, p: usize)
    requires
        t == dec_digits(k as nat) + seq![',', ' '] + dec_digits(l0 as nat) + seq!['-']
            + dec_digits(l1 as nat) + seq![' ', '∃', 'E'],
    ensures
        crate::checker::state::spec_renumber(t, 0, p) == dec_digits(bump_num(k, p) as nat) + seq![
            ',',
            ' ',
        ] + dec_digits(bump_num(l0, p) as nat) + seq!['-'] + dec_digits(bump_num(l1, p) as nat)
            + seq![' ', '∃', 'E'],
{
    let dk = dec_digits(k as nat);
    let d0 = dec_digits(l0 as nat);
    let d1 = dec_digits(l1 as nat);
    let a = dk.len() as int;
    let b0 = d0.len() as int;
    let b1 = d1.len() as int;
    lemma_dec_digits_shape(k as nat);
    lemma_dec_digits_shape(l0 as nat);
    lemma_dec_digits_shape(l1 as nat);
    assert forall|j: int| 0 <= j < a implies t[j] == #[trigger] dk[j] by {}
    assert(t[a] == ',');
    assert(t[a + 1] == ' ');
    assert forall|j: int| 0 <= j < b0 implies t[a + 2 + j] == #[trigger] d0[j] by {}
    assert(t[a + 2 + b0] == '-');
    assert forall|j: int| 0 <= j < b1 implies t[a + 3 + b0 + j] == #[trigger] d1[j] by {}
    lemma_renumber_num(t, 0, k, p);
    lemma_renumber_char(t, a, p);
    lemma_renumber_char(t, a + 1, p);
    lemma_renumber_num(t, a + 2, l0, p);
    lemma_renumber_char(t, a + 2 + b0, p);
    lemma_renumber_num(t, a + 3 + b0, l1, p);
    ren_copy_tail(t, a + 3 + b0 + b1, p, seq![' ', '∃', 'E']);
    assert(crate::checker::state::spec_renumber(t, 0, p) =~= dec_digits(bump_num(k, p) as nat)
        + seq![',', ' '] + dec_digits(bump_num(l0, p) as nat) + seq!['-'] + dec_digits(
        bump_num(l1, p) as nat,
    ) + seq![' ', '∃', 'E']);
}

/// A row citing the premise rule depends exactly on its own line number,
/// completely, and is valid whenever its formula parses — whatever that
/// formula is.
pub proof fn lemma_premise_row(
    rows: Seq<(Seq<char>, Seq<char>)>,
    dsets: Seq<Set<usize>>,
    i: int,
)
    requires
        0 <= i < rows.len(),
        rows.len() <= usize::MAX,
        spec_parse_rule(rows[i].1) == Some(Rule::Premise),
        spec_parse_exp(rows[i].0) is Some,
    ensures
        spec_dep_at(rows, i) == (true, set![(i + 1) as usize]),
        spec_valid_at(rows, dsets, i),
{
    assert(Set::<usize>::empty().insert((i + 1) as usize) =~= set![(i + 1) as usize]);
}

/// Ex falso quodlibet: a row citing the falsum rule at a line whose
/// formula is falsum is valid, whatever formula the row itself carries.
pub proof fn lemma_ex_falso(
    rows: Seq<(Seq<char>, Seq<char>)>,
    dsets: Seq<Set<usize>>,
    i: int,
    k: usize,
)
    requires
        0 <= i < rows.len(),
        spec_parse_rule(rows[i].1) == Some(Rule::Falsum(k)),
        spec_parse_exp(rows[i].0) is Some,
        item_exp(rows, k) == Some(Formula::Falsum),
    ensures
        spec_valid_at(rows, dsets, i),
{
}

/// The eigenvariable condition bites: a universal introduction is invalid
/// as soon as any line among the cited row's premises has the generalized
/// symbol free (or fails to parse).
pub proof fn lemma_eigenvariable_violation(
    rows: Seq<(Seq<char>, Seq<char>)>,
    dsets: Seq<Set<usize>>,
    i: int,
    k: usize,
    nd: usize,
    variable: Seq<char>,
    form: Formula,
    ek: Formula,
)
    requires
        0 <= i < rows.len(),
        spec_parse_rule(rows[i].1) == Some(Rule::UnivQuntIntro(k)),
        spec_parse_exp(rows[i].0) == Some(
            Formula::UnivGenr { variable, form: Box::new(form) },
        ),
        item_exp(rows, k) == Some(ek),
        1 <= k as int && k as int <= dsets.len(),
        dsets[k as int - 1].contains(nd),
        eig_bad(rows, nd, ek.free_vars().difference(form.free_vars()).choose()),
    ensures
        !spec_valid_at(rows, dsets, i),
{
    assert(!spec_valid_univ_intro(rows, dsets, Formula::UnivGenr { variable, form: Box::new(form) }, k));
}

} // verus!
