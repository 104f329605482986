//! Well-formed formulas of the object language.
//!
//! `Exp` is the executable formula tree; its mathematical abstraction is
//! `Formula`, a ghost tree whose identifiers are character sequences.

use crate::util::{dedup_push, str_eq};
use vstd::prelude::*;
use vstd::seq_lib::*;
use vstd::set_lib::*;

verus! {

/// Mathematical model of a formula: the view of [`Exp`].
pub enum Formula {
    /// An n-ary predicate applied to zero or more individual symbols.
    Atom { predicate: Seq<char>, individuals: Seq<Seq<char>> },
    /// Material conditional.
    Cond { antecedent: Box<Formula>, consequent: Box<Formula> },
    /// Biconditional.
    Iff { lhs: Box<Formula>, rhs: Box<Formula> },
    /// Conjunction.
    And { lhs: Box<Formula>, rhs: Box<Formula> },
    /// Disjunction.
    Or { lhs: Box<Formula>, rhs: Box<Formula> },
    /// Negation.
    Neg(Box<Formula>),
    /// Universal generalization binding one variable.
    UnivGenr { variable: Seq<char>, form: Box<Formula> },
    /// Existential generalization binding one variable.
    ExistGenr { variable: Seq<char>, form: Box<Formula> },
    /// The constant falsum.
    Falsum,
}

/// A well-formed formula over atoms, connectives and quantifiers.
#[derive(Debug)]
pub enum Exp {
    Atom { predicate: String, individuals: Vec<String> },
    Cond { antecedent: Box<Exp>, consequent: Box<Exp> },
    Iff { lhs: Box<Exp>, rhs: Box<Exp> },
    And { lhs: Box<Exp>, rhs: Box<Exp> },
    Or { lhs: Box<Exp>, rhs: Box<Exp> },
    Neg(Box<Exp>),
    UnivGenr { variable: String, form: Box<Exp> },
    ExistGenr { variable: String, form: Box<Exp> },
    Falsum,
}

impl Exp {
    /// The mathematical formula that this tree stands for.
    pub open spec fn model(&self) -> Formula
        decreases self,
    {
        match self {
            Exp::Atom { predicate, individuals } => Formula::Atom {
                predicate: predicate@,
                individuals: individuals.deep_view(),
            },
            Exp::Cond { antecedent, consequent } => Formula::Cond {
                antecedent: Box::new(antecedent.model()),
                consequent: Box::new(consequent.model()),
            },
            Exp::Iff { lhs, rhs } => Formula::Iff {
                lhs: Box::new(lhs.model()),
                rhs: Box::new(rhs.model()),
            },
            Exp::And { lhs, rhs } => Formula::And {
                lhs: Box::new(lhs.model()),
                rhs: Box::new(rhs.model()),
            },
            Exp::Or { lhs, rhs } => Formula::Or {
                lhs: Box::new(lhs.model()),
                rhs: Box::new(rhs.model()),
            },
            Exp::Neg(inner) => Formula::Neg(Box::new(inner.model())),
            Exp::UnivGenr { variable, form } => Formula::UnivGenr {
                variable: variable@,
                form: Box::new(form.model()),
            },
            Exp::ExistGenr { variable, form } => Formula::ExistGenr {
                variable: variable@,
                form: Box::new(form.model()),
            },
            Exp::Falsum => Formula::Falsum,
        }
    }
}

impl View for Exp {
    type V = Formula;

    open spec fn view(&self) -> Formula {
        self.model()
    }
}

/// The individuals of an atom, rendered one after the other.
pub open spec fn cat_idents(inds: Seq<Seq<char>>) -> Seq<char>
    decreases inds.len(),
{
    if inds.len() == 0 {
        Seq::empty()
    } else {
        inds[0] + cat_idents(inds.drop_first())
    }
}

/// The lexical shape of an identifier: a head letter in the given range,
/// optionally followed by `_` and one or more digits.
pub open spec fn wf_ident(s: Seq<char>, lo: char, hi: char) -> bool {
    &&& s.len() >= 1
    &&& lo <= s[0] && s[0] <= hi
    &&& (s.len() == 1 || (s.len() >= 3 && s[1] == '_' && forall|j: int|
        2 <= j < s.len() ==> '0' <= #[trigger] s[j] && s[j] <= '9'))
}

impl Formula {
    /// A formula whose identifiers all have their lexical shape: predicates
    /// `A`–`Z`, individuals `a`–`z`, bound variables `u`–`z`, each with an
    /// optional numeric subscript.
    pub open spec fn wf(self) -> bool
        decreases self,
    {
        match self {
            Formula::Atom { predicate, individuals } => {
                &&& wf_ident(predicate, 'A', 'Z')
                &&& forall|j: int|
                    0 <= j < individuals.len() ==> wf_ident(#[trigger] individuals[j], 'a', 'z')
            }
            Formula::Cond { antecedent, consequent } => antecedent.wf() && consequent.wf(),
            Formula::Iff { lhs, rhs } => lhs.wf() && rhs.wf(),
            Formula::And { lhs, rhs } => lhs.wf() && rhs.wf(),
            Formula::Or { lhs, rhs } => lhs.wf() && rhs.wf(),
            Formula::Neg(inner) => inner.wf(),
            Formula::UnivGenr { variable, form } => wf_ident(variable, 'u', 'z') && form.wf(),
            Formula::ExistGenr { variable, form } => wf_ident(variable, 'u', 'z') && form.wf(),
            Formula::Falsum => true,
        }
    }
}

impl Formula {
    /// The set of identifiers occurring free: every individual of an atom
    /// except those bound by an enclosing quantifier over the same name.
    pub open spec fn free_vars(self) -> Set<Seq<char>>
        decreases self,
    {
        match self {
            Formula::Atom { predicate, individuals } => individuals.to_set(),
            Formula::Cond { antecedent, consequent } => {
                antecedent.free_vars() + consequent.free_vars()
            }
            Formula::Iff { lhs, rhs } => lhs.free_vars() + rhs.free_vars(),
            Formula::And { lhs, rhs } => lhs.free_vars() + rhs.free_vars(),
            Formula::Or { lhs, rhs } => lhs.free_vars() + rhs.free_vars(),
            Formula::Neg(inner) => inner.free_vars(),
            Formula::UnivGenr { variable, form } => form.free_vars().remove(variable),
            Formula::ExistGenr { variable, form } => form.free_vars().remove(variable),
            Formula::Falsum => Set::empty(),
        }
    }

    /// Replacement of every free occurrence of `alpha` by `beta`; a subtree
    /// under a quantifier that binds `alpha` itself is left unchanged.
    pub open spec fn var_replaced(self, alpha: Seq<char>, beta: Seq<char>) -> Formula
        decreases self,
    {
        match self {
            Formula::Atom { predicate, individuals } => Formula::Atom {
                predicate,
                individuals: individuals.map_values(
                    |ind: Seq<char>| if ind == alpha { beta } else { ind },
                ),
            },
            Formula::Cond { antecedent, consequent } => Formula::Cond {
                antecedent: Box::new(antecedent.var_replaced(alpha, beta)),
                consequent: Box::new(consequent.var_replaced(alpha, beta)),
            },
            Formula::Iff { lhs, rhs } => Formula::Iff {
                lhs: Box::new(lhs.var_replaced(alpha, beta)),
                rhs: Box::new(rhs.var_replaced(alpha, beta)),
            },
            Formula::And { lhs, rhs } => Formula::And {
                lhs: Box::new(lhs.var_replaced(alpha, beta)),
                rhs: Box::new(rhs.var_replaced(alpha, beta)),
            },
            Formula::Or { lhs, rhs } => Formula::Or {
                lhs: Box::new(lhs.var_replaced(alpha, beta)),
                rhs: Box::new(rhs.var_replaced(alpha, beta)),
            },
            Formula::Neg(inner) => Formula::Neg(Box::new(inner.var_replaced(alpha, beta))),
            Formula::UnivGenr { variable, form } => {
                if variable == alpha {
                    Formula::UnivGenr { variable, form }
                } else {
                    Formula::UnivGenr {
                        variable,
                        form: Box::new(form.var_replaced(alpha, beta)),
                    }
                }
            }
            Formula::ExistGenr { variable, form } => {
                if variable == alpha {
                    Formula::ExistGenr { variable, form }
                } else {
                    Formula::ExistGenr {
                        variable,
                        form: Box::new(form.var_replaced(alpha, beta)),
                    }
                }
            }
            Formula::Falsum => Formula::Falsum,
        }
    }

    /// Canonical rendering: fully parenthesized binary connectives, the
    /// canonical symbol for each connective, no whitespace inside atoms.
    pub open spec fn to_text(self) -> Seq<char>
        decreases self,
    {
        match self {
            Formula::Atom { predicate, individuals } => predicate + cat_idents(individuals),
            Formula::Cond { antecedent, consequent } => {
                seq!['('] + antecedent.to_text() + seq![' ', '→', ' ']
                    + consequent.to_text() + seq![')']
            }
            Formula::Iff { lhs, rhs } => {
                seq!['('] + lhs.to_text() + seq![' ', '↔', ' '] + rhs.to_text() + seq![')']
            }
            Formula::And { lhs, rhs } => {
                seq!['('] + lhs.to_text() + seq![' ', '&', ' '] + rhs.to_text() + seq![')']
            }
            Formula::Or { lhs, rhs } => {
                seq!['('] + lhs.to_text() + seq![' ', '∨', ' '] + rhs.to_text() + seq![')']
            }
            Formula::Neg(inner) => seq!['¬'] + inner.to_text(),
            Formula::UnivGenr { variable, form } => {
                seq!['('] + variable + seq![')'] + form.to_text()
            }
            Formula::ExistGenr { variable, form } => {
                seq!['(', '∃'] + variable + seq![')'] + form.to_text()
            }
            Formula::Falsum => seq!['⊥'],
        }
    }

    /// Free-variable sets are finite.
    pub proof fn lemma_free_vars_finite(self)
        ensures
            self.free_vars().finite(),
        decreases self,
    {
        broadcast use vstd::seq_lib::seq_to_set_is_finite;

        match self {
            Formula::Atom { predicate, individuals } => {}
            Formula::Cond { antecedent, consequent } => {
                antecedent.lemma_free_vars_finite();
                consequent.lemma_free_vars_finite();
            }
            Formula::Iff { lhs, rhs } => {
                lhs.lemma_free_vars_finite();
                rhs.lemma_free_vars_finite();
            }
            Formula::And { lhs, rhs } => {
                lhs.lemma_free_vars_finite();
                rhs.lemma_free_vars_finite();
            }
            Formula::Or { lhs, rhs } => {
                lhs.lemma_free_vars_finite();
                rhs.lemma_free_vars_finite();
            }
            Formula::Neg(inner) => {
                inner.lemma_free_vars_finite();
            }
            Formula::UnivGenr { variable, form } => {
                form.lemma_free_vars_finite();
            }
            Formula::ExistGenr { variable, form } => {
                form.lemma_free_vars_finite();
            }
            Formula::Falsum => {}
        }
    }
}

impl PartialEq for Exp {
    /// Structural equality: two formulas are equal when they spell the same
    /// tree with the same identifiers.
    fn eq(&self, other: &Exp) -> (r: bool)
        decreases self,
    {
        match (self, other) {
            (
                Exp::Atom { predicate: p1, individuals: i1 },
                Exp::Atom { predicate: p2, individuals: i2 },
            ) => str_eq(p1.as_str(), p2.as_str()) && crate::util::vec_str_eq(i1, i2),
            (
                Exp::Cond { antecedent: a1, consequent: c1 },
                Exp::Cond { antecedent: a2, consequent: c2 },
            ) => (&**a1).eq(&**a2) && (&**c1).eq(&**c2),
            (Exp::Iff { lhs: l1, rhs: r1 }, Exp::Iff { lhs: l2, rhs: r2 }) => {
                (&**l1).eq(&**l2) && (&**r1).eq(&**r2)
            }
            (Exp::And { lhs: l1, rhs: r1 }, Exp::And { lhs: l2, rhs: r2 }) => {
                (&**l1).eq(&**l2) && (&**r1).eq(&**r2)
            }
            (Exp::Or { lhs: l1, rhs: r1 }, Exp::Or { lhs: l2, rhs: r2 }) => {
                (&**l1).eq(&**l2) && (&**r1).eq(&**r2)
            }
            (Exp::Neg(n1), Exp::Neg(n2)) => (&**n1).eq(&**n2),
            (
                Exp::UnivGenr { variable: v1, form: f1 },
                Exp::UnivGenr { variable: v2, form: f2 },
            ) => str_eq(v1.as_str(), v2.as_str()) && (&**f1).eq(&**f2),
            (
                Exp::ExistGenr { variable: v1, form: f1 },
                Exp::ExistGenr { variable: v2, form: f2 },
            ) => str_eq(v1.as_str(), v2.as_str()) && (&**f1).eq(&**f2),
            (Exp::Falsum, Exp::Falsum) => true,
            _ => false,
        }
    }
}

impl vstd::std_specs::cmp::PartialEqSpecImpl for Exp {
    open spec fn obeys_eq_spec() -> bool {
        true
    }

    open spec fn eq_spec(&self, other: &Exp) -> bool {
        self@ == other@
    }
}

/// Rendering an atom's individuals one more at a time appends at the end.
pub proof fn lemma_cat_idents_push(inds: Seq<Seq<char>>, last: Seq<char>)
    ensures
        cat_idents(inds.push(last)) == cat_idents(inds) + last,
    decreases inds.len(),
{
    if inds.len() == 0 {
        assert(inds.push(last).drop_first() =~= inds);
        assert(cat_idents(inds.push(last)) =~= cat_idents(inds) + last);
    } else {
        assert(inds.push(last).drop_first() =~= inds.drop_first().push(last));
        lemma_cat_idents_push(inds.drop_first(), last);
        assert(cat_idents(inds.push(last)) =~= cat_idents(inds) + last);
    }
}

impl Exp {
    /// Wraps the formula in one negation.
    pub fn negated(&self) -> (r: Self)
        ensures
            r@ == Formula::Neg(Box::new(self@)),
    {
        Exp::Neg(Box::new(self.clone()))
    }

    /// The set of identifiers occurring free in the formula, each one once.
    pub fn free_variables(&self) -> (r: Vec<String>)
        ensures
            r.deep_view().to_set() == self@.free_vars(),
            r.deep_view().no_duplicates(),
        decreases self,
    {
        broadcast use Seq::<Seq<char>>::lemma_push_to_set_commute;

        match self {
            Exp::Atom { predicate, individuals } => {
                let mut r: Vec<String> = Vec::new();
                let mut i: usize = 0;
                while i < individuals.len()
                    invariant
                        i <= individuals.len(),
                        r.deep_view().to_set() =~= individuals.deep_view().subrange(
                            0,
                            i as int,
                        ).to_set(),
                        r.deep_view().no_duplicates(),
                    decreases individuals.len() - i,
                {
                    let ghost prefix = individuals.deep_view().subrange(0, i as int);
                    dedup_push(&mut r, &individuals[i]);
                    proof {
                        assert(individuals.deep_view().subrange(0, i + 1 as int) =~= prefix.push(
                            individuals.deep_view()[i as int],
                        ));
                        prefix.lemma_push_to_set_commute(individuals.deep_view()[i as int]);
                        assert(r.deep_view().to_set() =~= individuals.deep_view().subrange(
                            0,
                            i + 1 as int,
                        ).to_set());
                    }
                    i += 1;
                }
                proof {
                    assert(individuals.deep_view().subrange(0, individuals@.len() as int)
                        =~= individuals.deep_view());
                }
                r
            }
            Exp::Cond { antecedent, consequent } => {
                let a = antecedent.free_variables();
                let c = consequent.free_variables();
                merge_names(a, &c)
            }
            Exp::Iff { lhs, rhs } => {
                let a = lhs.free_variables();
                let b = rhs.free_variables();
                merge_names(a, &b)
            }
            Exp::And { lhs, rhs } => {
                let a = lhs.free_variables();
                let b = rhs.free_variables();
                merge_names(a, &b)
            }
            Exp::Or { lhs, rhs } => {
                let a = lhs.free_variables();
                let b = rhs.free_variables();
                merge_names(a, &b)
            }
            Exp::Neg(inner) => inner.free_variables(),
            Exp::UnivGenr { variable, form } => {
                let inner = form.free_variables();
                remove_name(&inner, variable)
            }
            Exp::ExistGenr { variable, form } => {
                let inner = form.free_variables();
                remove_name(&inner, variable)
            }
            Exp::Falsum => Vec::new(),
        }
    }
}

/// Two duplicate-free name lists joined into one, each name kept once.
fn merge_names(base: Vec<String>, more: &Vec<String>) -> (r: Vec<String>)
    requires
        base.deep_view().no_duplicates(),
    ensures
        r.deep_view().to_set() == base.deep_view().to_set() + more.deep_view().to_set(),
        r.deep_view().no_duplicates(),
{
    let ghost base_set = base.deep_view().to_set();
    let mut r = base;
    let mut i: usize = 0;
    while i < more.len()
        invariant
            i <= more.len(),
            r.deep_view().to_set() =~= base_set + more.deep_view().subrange(0, i as int).to_set(),
            r.deep_view().no_duplicates(),
        decreases more.len() - i,
    {
        broadcast use Seq::<Seq<char>>::lemma_push_to_set_commute;

        let ghost prefix = more.deep_view().subrange(0, i as int);
        dedup_push(&mut r, &more[i]);
        proof {
            assert(more.deep_view().subrange(0, i + 1 as int) =~= prefix.push(
                more.deep_view()[i as int],
            ));
            assert(r.deep_view().to_set() =~= base_set + more.deep_view().subrange(
                0,
                i + 1 as int,
            ).to_set());
        }
        i += 1;
    }
    proof {
        assert(more.deep_view().subrange(0, more@.len() as int) =~= more.deep_view());
    }
    r
}

impl Exp {
    /// Replaces every free occurrence of `alpha` by `beta`.
    pub fn var_replaced(&self, alpha: &str, beta: &str) -> (r: Self)
        ensures
            r@ == self@.var_replaced(alpha@, beta@),
        decreases self,
    {
        match self {
            Exp::Atom { predicate, individuals } => {
                let ghost target = individuals.deep_view().map_values(
                    |ind: Seq<char>| if ind == alpha@ { beta@ } else { ind },
                );
                let mut inds: Vec<String> = Vec::new();
                let mut i: usize = 0;
                while i < individuals.len()
                    invariant
                        i <= individuals.len(),
                        target == individuals.deep_view().map_values(
                            |ind: Seq<char>| if ind == alpha@ { beta@ } else { ind },
                        ),
                        inds.deep_view() =~= target.subrange(0, i as int),
                    decreases individuals.len() - i,
                {
                    let ghost prev = inds.deep_view();
                    if str_eq(individuals[i].as_str(), alpha) {
                        inds.push(beta.to_owned());
                    } else {
                        inds.push(individuals[i].clone());
                    }
                    proof {
                        assert(inds.deep_view() =~= prev.push(target[i as int]));
                    }
                    i += 1;
                }
                proof {
                    assert(inds.deep_view() =~= target);
                }
                Exp::Atom { predicate: predicate.clone(), individuals: inds }
            }
            Exp::Cond { antecedent, consequent } => Exp::Cond {
                antecedent: Box::new(antecedent.var_replaced(alpha, beta)),
                consequent: Box::new(consequent.var_replaced(alpha, beta)),
            },
            Exp::Iff { lhs, rhs } => Exp::Iff {
                lhs: Box::new(lhs.var_replaced(alpha, beta)),
                rhs: Box::new(rhs.var_replaced(alpha, beta)),
            },
            Exp::And { lhs, rhs } => Exp::And {
                lhs: Box::new(lhs.var_replaced(alpha, beta)),
                rhs: Box::new(rhs.var_replaced(alpha, beta)),
            },
            Exp::Or { lhs, rhs } => Exp::Or {
                lhs: Box::new(lhs.var_replaced(alpha, beta)),
                rhs: Box::new(rhs.var_replaced(alpha, beta)),
            },
            Exp::Neg(inner) => Exp::Neg(Box::new(inner.var_replaced(alpha, beta))),
            Exp::UnivGenr { variable, form } => {
                if str_eq(variable.as_str(), alpha) {
                    self.clone()
                } else {
                    Exp::UnivGenr {
                        variable: variable.clone(),
                        form: Box::new(form.var_replaced(alpha, beta)),
                    }
                }
            }
            Exp::ExistGenr { variable, form } => {
                if str_eq(variable.as_str(), alpha) {
                    self.clone()
                } else {
                    Exp::ExistGenr {
                        variable: variable.clone(),
                        form: Box::new(form.var_replaced(alpha, beta)),
                    }
                }
            }
            Exp::Falsum => Exp::Falsum,
        }
    }

    /// Canonical rendering of the formula.
    pub fn to_string(&self) -> (r: String)
        ensures
            r@ == self@.to_text(),
        decreases self,
    {
        match self {
            Exp::Atom { predicate, individuals } => {
                let mut r = predicate.clone();
                let mut i: usize = 0;
                while i < individuals.len()
                    invariant
                        i <= individuals.len(),
                        r@ == predicate@ + cat_idents(
                            individuals.deep_view().subrange(0, i as int),
                        ),
                    decreases individuals.len() - i,
                {
                    let ghost prefix = individuals.deep_view().subrange(0, i as int);
                    r.append(individuals[i].as_str());
                    proof {
                        assert(individuals.deep_view().subrange(0, i + 1 as int) =~= prefix.push(
                            individuals.deep_view()[i as int],
                        ));
                        lemma_cat_idents_push(prefix, individuals.deep_view()[i as int]);
                    }
                    i += 1;
                }
                proof {
                    assert(individuals.deep_view().subrange(0, individuals@.len() as int)
                        =~= individuals.deep_view());
                }
                r
            }
            Exp::Cond { antecedent, consequent } => {
                let mut r = String::from_str("(");
                let a = antecedent.to_string();
                r.append(a.as_str());
                r.append(" → ");
                let c = consequent.to_string();
                r.append(c.as_str());
                r.append(")");
                proof {
                    reveal_strlit("(");
                    reveal_strlit(" → ");
                    reveal_strlit(")");
                    assert(r@ =~= self@.to_text());
                }
                r
            }
            Exp::Iff { lhs, rhs } => {
                let mut r = String::from_str("(");
                let a = lhs.to_string();
                r.append(a.as_str());
                r.append(" ↔ ");
                let b = rhs.to_string();
                r.append(b.as_str());
                r.append(")");
                proof {
                    reveal_strlit("(");
                    reveal_strlit(" ↔ ");
                    reveal_strlit(")");
                    assert(r@ =~= self@.to_text());
                }
                r
            }
            Exp::And { lhs, rhs } => {
                let mut r = String::from_str("(");
                let a = lhs.to_string();
                r.append(a.as_str());
                r.append(" & ");
                let b = rhs.to_string();
                r.append(b.as_str());
                r.append(")");
                proof {
                    reveal_strlit("(");
                    reveal_strlit(" & ");
                    reveal_strlit(")");
                    assert(r@ =~= self@.to_text());
                }
                r
            }
            Exp::Or { lhs, rhs } => {
                let mut r = String::from_str("(");
                let a = lhs.to_string();
                r.append(a.as_str());
                r.append(" ∨ ");
                let b = rhs.to_string();
                r.append(b.as_str());
                r.append(")");
                proof {
                    reveal_strlit("(");
                    reveal_strlit(" ∨ ");
                    reveal_strlit(")");
                    assert(r@ =~= self@.to_text());
                }
                r
            }
            Exp::Neg(inner) => {
                let mut r = String::from_str("¬");
                let a = inner.to_string();
                r.append(a.as_str());
                proof {
                    reveal_strlit("¬");
                    assert(r@ =~= self@.to_text());
                }
                r
            }
            Exp::UnivGenr { variable, form } => {
                let mut r = String::from_str("(");
                r.append(variable.as_str());
                r.append(")");
                let f = form.to_string();
                r.append(f.as_str());
                proof {
                    reveal_strlit("(");
                    reveal_strlit(")");
                    assert(r@ =~= self@.to_text());
                }
                r
            }
            Exp::ExistGenr { variable, form } => {
                let mut r = String::from_str("(∃");
                r.append(variable.as_str());
                r.append(")");
                let f = form.to_string();
                r.append(f.as_str());
                proof {
                    reveal_strlit("(∃");
                    reveal_strlit(")");
                    assert(r@ =~= self@.to_text());
                }
                r
            }
            Exp::Falsum => {
                let r = String::from_str("⊥");
                proof {
                    reveal_strlit("⊥");
                    assert(r@ =~= self@.to_text());
                }
                r
            }
        }
    }
}

/// The names of `v` with every occurrence of `name` left out.
fn remove_name(v: &Vec<String>, name: &String) -> (r: Vec<String>)
    ensures
        r.deep_view().to_set() == v.deep_view().to_set().remove(name@),
        r.deep_view().no_duplicates(),
{
    let mut r: Vec<String> = Vec::new();
    let mut i: usize = 0;
    while i < v.len()
        invariant
            i <= v.len(),
            r.deep_view().to_set() =~= v.deep_view().subrange(0, i as int).to_set().remove(name@),
            r.deep_view().no_duplicates(),
        decreases v.len() - i,
    {
        broadcast use Seq::<Seq<char>>::lemma_push_to_set_commute;

        let ghost prefix = v.deep_view().subrange(0, i as int);
        if !str_eq(v[i].as_str(), name.as_str()) {
            dedup_push(&mut r, &v[i]);
        }
        proof {
            assert(v.deep_view().subrange(0, i + 1 as int) =~= prefix.push(
                v.deep_view()[i as int],
            ));
            assert(r.deep_view().to_set() =~= v.deep_view().subrange(
                0,
                i + 1 as int,
            ).to_set().remove(name@));
        }
        i += 1;
    }
    proof {
        assert(v.deep_view().subrange(0, v@.len() as int) =~= v.deep_view());
    }
    r
}

impl Clone for Exp {
    /// A structural copy; the copy has the same view.
    fn clone(&self) -> (r: Self)
        ensures
            r@ == self@,
        decreases self,
    {
        match self {
            Exp::Atom { predicate, individuals } => {
                let mut inds: Vec<String> = Vec::new();
                let mut i: usize = 0;
                while i < individuals.len()
                    invariant
                        i <= individuals.len(),
                        inds.deep_view() =~= individuals.deep_view().subrange(0, i as int),
                    decreases individuals.len() - i,
                {
                    let ghost prev = inds.deep_view();
                    let s = individuals[i].clone();
                    proof {
                        assert(s@ == individuals@[i as int]@);
                    }
                    inds.push(s);
                    proof {
                        assert(inds.deep_view() =~= prev.push(individuals@[i as int]@));
                    }
                    i += 1;
                }
                proof {
                    assert(inds.deep_view() =~= individuals.deep_view());
                }
                Exp::Atom { predicate: predicate.clone(), individuals: inds }
            }
            Exp::Cond { antecedent, consequent } => Exp::Cond {
                antecedent: Box::new((&**antecedent).clone()),
                consequent: Box::new((&**consequent).clone()),
            },
            Exp::Iff { lhs, rhs } => Exp::Iff {
                lhs: Box::new((&**lhs).clone()),
                rhs: Box::new((&**rhs).clone()),
            },
            Exp::And { lhs, rhs } => Exp::And {
                lhs: Box::new((&**lhs).clone()),
                rhs: Box::new((&**rhs).clone()),
            },
            Exp::Or { lhs, rhs } => Exp::Or {
                lhs: Box::new((&**lhs).clone()),
                rhs: Box::new((&**rhs).clone()),
            },
            Exp::Neg(inner) => Exp::Neg(Box::new((&**inner).clone())),
            Exp::UnivGenr { variable, form } => Exp::UnivGenr {
                variable: variable.clone(),
                form: Box::new((&**form).clone()),
            },
            Exp::ExistGenr { variable, form } => Exp::ExistGenr {
                variable: variable.clone(),
                form: Box::new((&**form).clone()),
            },
            Exp::Falsum => Exp::Falsum,
        }
    }
}

} // verus!
