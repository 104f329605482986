//! The rule-citation parser.

use deduction::ast::rule::Rule;
use deduction::parser::rule::rule;

#[test]
fn rule_valid() {
    assert_eq!(rule("P"), Some(("", Rule::Premise)));
    assert_eq!(rule("1,3 &I"), Some(("", Rule::AndIntro(1, 3))));
    assert_eq!(rule("5 &E"), Some(("", Rule::AndExclude(5))));
    assert_eq!(rule("1 |I"), Some(("", Rule::OrIntro(1, None))));
    assert_eq!(rule("1,2 |I"), Some(("", Rule::OrIntro(1, Some(2)))));
    assert_eq!(
        rule("1, 3-4, 6-7 |E"),
        Some(("", Rule::OrExclude(1, (3, 4), (6, 7))))
    );
    assert_eq!(rule("3 →I"), Some(("", Rule::IfIntro((None, 3)))));
    assert_eq!(rule("2-3 →I"), Some(("", Rule::IfIntro((Some(2), 3)))));
    assert_eq!(rule("7-14 →I"), Some(("", Rule::IfIntro((Some(7), 14)))));
    assert_eq!(rule("1,3 ->E"), Some(("", Rule::IfExclude(1, 3))));
    assert_eq!(rule("1,3 <->I"), Some(("", Rule::IffIntro(1, 3))));
    assert_eq!(rule("1 <->E"), Some(("", Rule::IffExclude(1))));
    assert_eq!(rule("1 \\bot"), Some(("", Rule::Falsum(1))));
    assert_eq!(rule("1-2 -I"), Some(("", Rule::NegIntro((1, 2)))));
    assert_eq!(rule("1-2 -E"), Some(("", Rule::NegExclude((1, 2)))));
    assert_eq!(rule("1 ()I"), Some(("", Rule::UnivQuntIntro(1))));
    assert_eq!(rule("1 ()E"), Some(("", Rule::UnivQuntExclude(1))));
    assert_eq!(rule("1 ]I"), Some(("", Rule::ExisQuntIntro(1))));
    assert_eq!(rule("1, 2-3 ]E"), Some(("", Rule::ExisQuntExclude(1, (2, 3)))));
}

#[test]
fn rule_rejects_malformed_citations() {
    assert!(rule("").is_none());
    assert!(rule("&I").is_none());
    assert!(rule("1,").is_none());
    assert!(rule("x &E").is_none());
    // A line number too large for the machine makes the citation fail.
    assert!(rule("99999999999999999999999999 &E").is_none());
}

#[test]
fn rule_leaves_trailing_text_unconsumed() {
    let (rest, r) = rule("P extra").unwrap();
    assert_eq!(r, Rule::Premise);
    assert_eq!(rest, " extra");
}
