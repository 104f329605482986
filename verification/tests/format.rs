//! Canonical rendering, and parsing it back.

use deduction::ast::exp::Exp;
use deduction::ast::rule::Rule;
use deduction::parser::expression::exp;
use deduction::parser::rule::rule;

fn atom(predicate: &str, individuals: &[&str]) -> Exp {
    Exp::Atom {
        predicate: predicate.to_owned(),
        individuals: individuals.iter().map(|&s| s.to_owned()).collect(),
    }
}

#[test]
fn exp_to_string() {
    assert_eq!("R", atom("R", &[]).to_string());
    assert_eq!("Rab", atom("R", &["a", "b"]).to_string());
    assert_eq!(
        "(P → Q)",
        Exp::Cond {
            antecedent: Box::new(atom("P", &[])),
            consequent: Box::new(atom("Q", &[])),
        }
        .to_string()
    );
    assert_eq!(
        "(P ↔ Q)",
        Exp::Iff { lhs: Box::new(atom("P", &[])), rhs: Box::new(atom("Q", &[])) }.to_string()
    );
    assert_eq!(
        "(P & Q)",
        Exp::And { lhs: Box::new(atom("P", &[])), rhs: Box::new(atom("Q", &[])) }.to_string()
    );
    assert_eq!(
        "(P ∨ Q)",
        Exp::Or { lhs: Box::new(atom("P", &[])), rhs: Box::new(atom("Q", &[])) }.to_string()
    );
    assert_eq!("¬P", Exp::Neg(Box::new(atom("P", &[]))).to_string());
    assert_eq!(
        "(x)Rx",
        Exp::UnivGenr { variable: "x".to_owned(), form: Box::new(atom("R", &["x"])) }.to_string()
    );
    assert_eq!(
        "(∃x)Rx",
        Exp::ExistGenr { variable: "x".to_owned(), form: Box::new(atom("R", &["x"])) }
            .to_string()
    );
    assert_eq!("⊥", Exp::Falsum.to_string());
    let nested = Exp::UnivGenr {
        variable: "x".to_owned(),
        form: Box::new(Exp::Cond {
            antecedent: Box::new(Exp::And {
                lhs: Box::new(Exp::UnivGenr {
                    variable: "y".to_owned(),
                    form: Box::new(Exp::Cond {
                        antecedent: Box::new(atom("M", &["y"])),
                        consequent: Box::new(atom("L", &["y", "x"])),
                    }),
                }),
                rhs: Box::new(atom("W", &["x"])),
            }),
            consequent: Box::new(Exp::Neg(Box::new(Exp::ExistGenr {
                variable: "z".to_owned(),
                form: Box::new(Exp::And {
                    lhs: Box::new(atom("W", &["z"])),
                    rhs: Box::new(atom("L", &["z", "x"])),
                }),
            }))),
        }),
    };
    assert_eq!("(x)(((y)(My → Lyx) & Wx) → ¬(∃z)(Wz & Lzx))", nested.to_string());
}

#[test]
fn rule_to_string() {
    assert_eq!("P", Rule::Premise.to_string());
    assert_eq!("1, 3 &I", Rule::AndIntro(1, 3).to_string());
    assert_eq!("5 &E", Rule::AndExclude(5).to_string());
    assert_eq!("1 ∨I", Rule::OrIntro(1, None).to_string());
    assert_eq!("1, 2 ∨I", Rule::OrIntro(1, Some(2)).to_string());
    assert_eq!("1, 3-4, 6-7 ∨E", Rule::OrExclude(1, (3, 4), (6, 7)).to_string());
    assert_eq!("3 →I", Rule::IfIntro((None, 3)).to_string());
    assert_eq!("2-3 →I", Rule::IfIntro((Some(2), 3)).to_string());
    assert_eq!("1, 3 →E", Rule::IfExclude(1, 3).to_string());
    assert_eq!("1, 3 ↔I", Rule::IffIntro(1, 3).to_string());
    assert_eq!("1 ↔E", Rule::IffExclude(1).to_string());
    assert_eq!("1 ⊥", Rule::Falsum(1).to_string());
    assert_eq!("1-2 ¬I", Rule::NegIntro((1, 2)).to_string());
    assert_eq!("1-2 ¬E", Rule::NegExclude((1, 2)).to_string());
    assert_eq!("1 ()I", Rule::UnivQuntIntro(1).to_string());
    assert_eq!("1 ()E", Rule::UnivQuntExclude(1).to_string());
    assert_eq!("14 ∃I", Rule::ExisQuntIntro(14).to_string());
    assert_eq!("1, 2-3 ∃E", Rule::ExisQuntExclude(1, (2, 3)).to_string());
}

#[test]
fn formula_round_trip() {
    let samples = [
        "⊥",
        "R_2xy_2a",
        "(P → (Q ↔ ¬R))",
        "((P & Q) ∨ ⊥)",
        "(x)(∃y_1)(Lxy_1 → ¬Mx)",
        "¬¬P_10",
    ];
    for text in samples {
        let (rest, parsed) = exp(text).unwrap();
        assert_eq!(rest, "");
        assert_eq!(parsed.to_string(), text);
        let rendered = parsed.to_string();
        let (rest2, reparsed) = exp(&rendered).unwrap();
        assert_eq!(rest2, "");
        assert_eq!(reparsed, parsed);
    }
}

#[test]
fn rule_round_trip() {
    let samples = [
        Rule::Premise,
        Rule::AndIntro(12, 345),
        Rule::AndExclude(5),
        Rule::OrIntro(9, None),
        Rule::OrIntro(9, Some(10)),
        Rule::OrExclude(1, (3, 4), (6, 7)),
        Rule::IfIntro((None, 3)),
        Rule::IfIntro((Some(2), 3)),
        Rule::IfExclude(1, 3),
        Rule::IffIntro(1, 3),
        Rule::IffExclude(1),
        Rule::Falsum(1),
        Rule::NegIntro((1, 2)),
        Rule::NegExclude((1, 2)),
        Rule::UnivQuntIntro(1),
        Rule::UnivQuntExclude(1),
        Rule::ExisQuntIntro(14),
        Rule::ExisQuntExclude(1, (2, 3)),
    ];
    for r in samples {
        let text = r.to_string();
        assert_eq!(rule(&text), Some(("", r)));
    }
}
