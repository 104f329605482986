//! The formula parser on whole expressions and on atoms.

use deduction::ast::exp::Exp;
use deduction::parser::expression::{atom_exp, exp};

fn atom(predicate: &str, individuals: &[&str]) -> Exp {
    Exp::Atom {
        predicate: predicate.to_owned(),
        individuals: individuals.iter().map(|&s| s.to_owned()).collect(),
    }
}

#[test]
fn exp_valid() {
    let exp1 = Exp::Iff {
        lhs: Box::new(Exp::ExistGenr {
            variable: "y".to_owned(),
            form: Box::new(Exp::And {
                lhs: Box::new(atom("F", &["y"])),
                rhs: Box::new(atom("G", &["y", "y"])),
            }),
        }),
        rhs: Box::new(Exp::ExistGenr {
            variable: "y".to_owned(),
            form: Box::new(Exp::And {
                lhs: Box::new(atom("F", &["y"])),
                rhs: Box::new(Exp::ExistGenr {
                    variable: "x".to_owned(),
                    form: Box::new(Exp::And {
                        lhs: Box::new(atom("F", &["x"])),
                        rhs: Box::new(atom("G", &["y", "x"])),
                    }),
                }),
            }),
        }),
    };
    assert_eq!(
        exp("(∃y)(Fy & Gyy) ↔ (∃y)(Fy & (∃x)(Fx & Gyx))"),
        Some(("", exp1.clone()))
    );
    assert_eq!(
        exp("( ∃ y )(Fy&Gyy) <-> (∃y)( F y & (∃x)( F x & G yx ))"),
        Some(("", exp1.clone()))
    );
    assert_eq!(
        exp("--P"),
        Some(("", Exp::Neg(Box::new(Exp::Neg(Box::new(atom("P", &[])))))))
    );
    assert_eq!(
        exp("(x)-Rx"),
        Some((
            "",
            Exp::UnivGenr {
                variable: "x".to_owned(),
                form: Box::new(Exp::Neg(Box::new(atom("R", &["x"])))),
            }
        ))
    );
}

#[test]
fn atom_exp_valid() {
    assert_eq!(atom_exp("P"), Some(("", atom("P", &[]))));
    assert_eq!(atom_exp("P_10"), Some(("", atom("P_10", &[]))));
    assert_eq!(atom_exp("R_2^3xya"), Some(("", atom("R_2", &["x", "y", "a"]))));
    assert_eq!(atom_exp("R_2xy_2a"), Some(("", atom("R_2", &["x", "y_2", "a"]))));
    assert_eq!(atom_exp("R_2 x y a"), Some(("", atom("R_2", &["x", "y", "a"]))));
}

#[test]
fn atom_exp_invalid() {
    assert_eq!(atom_exp("P^2AB"), Some(("^2AB", atom("P", &[]))));
    assert_eq!(atom_exp("^2AB"), None);
    assert_eq!(atom_exp("P^2x"), Some(("^2x", atom("P", &[]))));
    assert_eq!(atom_exp("^2x"), None);
    assert_eq!(atom_exp("P^2xyz"), Some(("z", atom("P", &["x", "y"]))));
    assert_eq!(atom_exp("P ^2"), Some((" ^2", atom("P", &[]))));
    assert_eq!(atom_exp(" ^2"), None);
    assert_eq!(atom_exp("R^1_2x"), Some(("^1_2x", atom("R", &[]))));
    assert_eq!(atom_exp("^1_2x"), None);
}

#[test]
fn exp_leaves_a_second_formula_unconsumed() {
    let (rest, e) = exp("P Q").unwrap();
    assert_eq!(rest, " Q");
    assert_eq!(e, atom("P", &[]));
}

#[test]
fn exp_falsum_spellings() {
    assert_eq!(exp("⊥"), Some(("", Exp::Falsum)));
    assert_eq!(exp("\\bot"), Some(("", Exp::Falsum)));
}
