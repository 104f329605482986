//! Whole-proof checking: premise-number sets and rule validity, row by
//! row, for the concrete proofs the calculus is expected to handle.

use deduction::checker::parser::{parse_exp, parse_rule};
use deduction::checker::state::{Action, Row, State};

fn rows(pairs: &[(&str, &str)]) -> Vec<Row> {
    pairs
        .iter()
        .map(|&(sentence, derivation)| Row {
            sentence: sentence.to_owned(),
            derivation: derivation.to_owned(),
        })
        .collect()
}

fn nums(state: &State, i: usize) -> Vec<usize> {
    state.deps_list[i].nums.clone()
}

#[test]
fn and_intro_proof() {
    let st = State::init_from(rows(&[("P", "P"), ("Q", "P"), ("(P & Q)", "1, 2 &I")]));
    assert_eq!(st.rule_vaildity_list, vec![true, true, true]);
    assert_eq!(nums(&st, 0), vec![1]);
    assert_eq!(nums(&st, 1), vec![2]);
    assert_eq!(nums(&st, 2), vec![1, 2]);
    assert!(st.deps_list.iter().all(|d| d.is_complete));
}

#[test]
fn and_elim_proof() {
    let st = State::init_from(rows(&[("(P & Q)", "P"), ("P", "1 &E")]));
    assert_eq!(st.rule_vaildity_list, vec![true, true]);
    assert_eq!(nums(&st, 0), vec![1]);
    assert_eq!(nums(&st, 1), vec![1]);
    assert!(st.deps_list.iter().all(|d| d.is_complete));
}

#[test]
fn modus_ponens_proof() {
    let st = State::init_from(rows(&[("(P → Q)", "P"), ("P", "P"), ("Q", "1, 2 →E")]));
    assert_eq!(st.rule_vaildity_list, vec![true, true, true]);
    assert_eq!(nums(&st, 0), vec![1]);
    assert_eq!(nums(&st, 1), vec![2]);
    assert_eq!(nums(&st, 2), vec![1, 2]);
}

#[test]
fn if_intro_subproof() {
    let st = State::init_from(rows(&[("P", "P"), ("P", "P"), ("(P → P)", "1-2 →I")]));
    assert_eq!(st.rule_vaildity_list, vec![true, true, true]);
    // The discharged assumption leaves the conditional's premise set.
    assert_eq!(nums(&st, 2), vec![2]);
}

#[test]
fn or_elim_subproofs() {
    // Each subproof is one premise line assuming a disjunct; both close on
    // the common conclusion.
    let st = State::init_from(rows(&[
        ("(P ∨ Q)", "P"),
        ("P", "P"),
        ("Q", "P"),
        ("Q", "P"),
        ("Q", "P"),
        ("Q", "1, 2-3, 4-5 ∨E"),
    ]));
    assert_eq!(st.rule_vaildity_list, vec![true, true, true, true, true, true]);
    // The subproof conclusions are premises of their own, so their line
    // numbers stay; only the discharged assumptions 2 and 4 are removed.
    assert_eq!(nums(&st, 5), vec![1, 3, 5]);
    assert!(st.deps_list[5].is_complete);
}

#[test]
fn univ_elim_exis_intro_proof() {
    let st = State::init_from(rows(&[
        ("(x)Px", "P"),
        ("Pa", "1 ()E"),
        ("(∃x)Px", "2 ∃I"),
    ]));
    assert_eq!(st.rule_vaildity_list, vec![true, true, true]);
    assert_eq!(nums(&st, 0), vec![1]);
    assert_eq!(nums(&st, 1), vec![1]);
    assert_eq!(nums(&st, 2), vec![1]);
}

#[test]
fn eigenvariable_violation() {
    // `a` is free in the premise `Pa`, which line 1 depends on, so the
    // generalization is rejected.
    let st = State::init_from(rows(&[("Pa", "P"), ("(x)Px", "1 ()I")]));
    assert_eq!(st.rule_vaildity_list, vec![true, false]);
}

#[test]
fn univ_intro_accepted_from_universal_premise() {
    // Here the generalized symbol is not free in any premise line 2
    // depends on: line 1 reads `(y)Py` and the fresh symbol is `a`.
    let st = State::init_from(rows(&[
        ("(y)Py", "P"),
        ("Pa", "1 ()E"),
        ("(x)Px", "2 ()I"),
    ]));
    assert_eq!(st.rule_vaildity_list, vec![true, true, true]);
}

#[test]
fn if_exclude_is_a_disjunction_of_both_forms() {
    // Modus ponens stands even when the row's formula is falsum: from
    // `(P → ⊥)` and `P` the conditional elimination derives `⊥`.
    let st = State::init_from(rows(&[("(P → ⊥)", "P"), ("P", "P"), ("⊥", "1, 2 →E")]));
    assert_eq!(st.rule_vaildity_list, vec![true, true, true]);
    // The other form: falsum from a pair of mutually negated lines.
    let st = State::init_from(rows(&[("¬P", "P"), ("P", "P"), ("⊥", "1, 2 →E")]));
    assert_eq!(st.rule_vaildity_list, vec![true, true, true]);
    // Neither form: no conditional and no contradictory pair.
    let st = State::init_from(rows(&[("Q", "P"), ("P", "P"), ("⊥", "1, 2 →E")]));
    assert_eq!(st.rule_vaildity_list, vec![true, true, false]);
}

#[test]
fn ex_falso_licenses_anything() {
    let st = State::init_from(rows(&[("⊥", "P"), ("(R & S)", "1 ⊥")]));
    assert_eq!(st.rule_vaildity_list, vec![true, true]);
    assert_eq!(nums(&st, 1), vec![1]);
}

#[test]
fn or_intro_pair_depends_on_both_lines() {
    // The premise set of a two-line disjunction introduction joins the
    // sets of both cited lines.
    let st = State::init_from(rows(&[("P", "P"), ("Q", "P"), ("(P ∨ Q)", "1, 2 ∨I")]));
    assert_eq!(st.rule_vaildity_list, vec![true, true, true]);
    assert_eq!(nums(&st, 2), vec![1, 2]);
}

#[test]
fn unparseable_rule_gives_incomplete_dependency() {
    let st = State::init_from(rows(&[("P", "nonsense"), ("P", "1 &E")]));
    assert!(!st.deps_list[0].is_complete);
    assert_eq!(nums(&st, 0), vec![]);
    assert_eq!(st.rule_vaildity_list, vec![false, false]);
}

#[test]
fn forward_reference_is_incomplete_but_structurally_valid() {
    // Premise sets are built from earlier rows only, so a forward citation
    // contributes nothing and marks the set incomplete; the structural
    // check, which sees the whole proof, still passes.
    let st = State::init_from(rows(&[("P", "2 &E"), ("(P & Q)", "P")]));
    assert!(!st.deps_list[0].is_complete);
    assert_eq!(nums(&st, 0), vec![]);
    assert_eq!(st.rule_vaildity_list, vec![true, true]);
}

#[test]
fn dangling_reference_is_invalid() {
    let st = State::init_from(rows(&[("P", "7 &E")]));
    assert!(!st.deps_list[0].is_complete);
    assert_eq!(st.rule_vaildity_list, vec![false]);
}

#[test]
fn insertion_renumbers_citations() {
    let st = State::init_from(rows(&[("P", "P"), ("Q", "P"), ("(P & Q)", "1, 2 &I")]));
    let next = st.reduce(Action::Add { after_num: 1 });
    assert_eq!(next.rows.len(), 4);
    assert_eq!(next.rows[1].sentence, "");
    assert_eq!(next.rows[1].derivation, "");
    assert_eq!(next.rows[3].derivation, "1, 3 &I");
    // Pre-existing rows keep their validity; only the labels shifted.
    assert_eq!(next.rule_vaildity_list, vec![true, false, true, true]);
    assert_eq!(next.deps_list[3].nums, vec![1, 3]);
    assert!(next.deps_list[3].is_complete);
}

#[test]
fn insertion_renumbers_non_canonical_citations() {
    // Renumbering works on the text, so spacing and leading zeros survive:
    // only the maximal digit runs past the insertion point change.
    let st = State::init_from(rows(&[("P", "P"), ("Q", "P"), ("(P & Q)", "1 ,  002 &I")]));
    assert_eq!(st.rule_vaildity_list, vec![true, true, true]);
    let next = st.reduce(Action::Add { after_num: 1 });
    assert_eq!(next.rows[3].derivation, "1 ,  3 &I");
    assert_eq!(next.rule_vaildity_list, vec![true, false, true, true]);
    assert_eq!(next.deps_list[3].nums, vec![1, 3]);
}

#[test]
fn format_rewrites_rows_canonically() {
    let st = State::init_from(rows(&[("P&Q", "P"), ("P", "1   &E"), ("((", "bad")]));
    let next = st.reduce(Action::Format);
    assert_eq!(next.rows[0].sentence, "(P & Q)");
    assert_eq!(next.rows[1].derivation, "1 &E");
    // Texts that do not parse are left exactly as typed.
    assert_eq!(next.rows[2].sentence, "((");
    assert_eq!(next.rows[2].derivation, "bad");
}

#[test]
fn change_sentence_keeps_premise_sets() {
    let st = State::init_from(rows(&[("(P & Q)", "P"), ("P", "1 &E")]));
    let next = st.reduce(Action::ChangeSentence {
        num: 2,
        sentence: "Q".to_owned(),
    });
    assert_eq!(next.rows[1].sentence, "Q");
    assert_eq!(next.deps_list[1].nums, vec![1]);
    assert_eq!(next.rule_vaildity_list, vec![true, true]);
}

#[test]
fn change_derivation_recomputes_everything() {
    let st = State::init_from(rows(&[("(P & Q)", "P"), ("P", "P")]));
    let next = st.reduce(Action::ChangeDerivation {
        num: 2,
        derivation: "1 &E".to_owned(),
    });
    assert_eq!(next.rows[1].derivation, "1 &E");
    assert_eq!(next.deps_list[1].nums, vec![1]);
    assert_eq!(next.rule_vaildity_list, vec![true, true]);
}

#[test]
fn init_starts_with_one_blank_row() {
    let st = State::init();
    assert_eq!(st.rows.len(), 1);
    assert_eq!(st.rows[0].sentence, "");
    assert_eq!(st.rows[0].derivation, "");
    assert!(!st.deps_list[0].is_complete);
    assert_eq!(st.rule_vaildity_list, vec![false]);
    assert!(st.focused_idx.is_none());
}

#[test]
fn surrounding_whitespace_is_trimmed() {
    assert!(parse_exp("  (P & Q)  ").is_ok());
    assert!(parse_rule("  1 &E  ").is_ok());
    assert!(parse_exp("P Q").is_err());
    assert!(parse_rule("P extra").is_err());
    assert!(parse_exp("((").is_err());
}
