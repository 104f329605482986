//! Derivation-rule citations: an inference rule together with the line
//! numbers (or line ranges for subproofs) it cites. Line numbers are 1-based.

use crate::util::{dec_digits, num_to_string};
use vstd::prelude::*;

verus! {

/// A rule citation of one of the seventeen shapes of the calculus.
/// A pair `(open, close)` names a subproof whose first line is its
/// assumption and whose last line is its conclusion.
#[derive(Debug, Clone, Copy, PartialEq, Eq)]
pub enum Rule {
    Premise,
    AndIntro(usize, usize),
    AndExclude(usize),
    OrIntro(usize, Option<usize>),
    OrExclude(usize, (usize, usize), (usize, usize)),
    IfIntro((Option<usize>, usize)),
    IfExclude(usize, usize),
    IffIntro(usize, usize),
    IffExclude(usize),
    Falsum(usize),
    NegIntro((usize, usize)),
    NegExclude((usize, usize)),
    UnivQuntIntro(usize),
    UnivQuntExclude(usize),
    ExisQuntIntro(usize),
    ExisQuntExclude(usize, (usize, usize)),
}

impl Rule {
    /// Canonical rendering: operands in source order separated by `, `,
    /// ranges as `a-b`, one space, then the canonical rule tag.
    pub open spec fn to_text(self) -> Seq<char> {
        match self {
            Rule::Premise => seq!['P'],
            Rule::AndIntro(k, l) => {
                dec_digits(k as nat) + seq![',', ' '] + dec_digits(l as nat) + seq![' ', '&', 'I']
            }
            Rule::AndExclude(k) => dec_digits(k as nat) + seq![' ', '&', 'E'],
            Rule::OrIntro(k, Some(l)) => {
                dec_digits(k as nat) + seq![',', ' '] + dec_digits(l as nat) + seq![' ', '∨', 'I']
            }
            Rule::OrIntro(k, None) => dec_digits(k as nat) + seq![' ', '∨', 'I'],
            Rule::OrExclude(k, (l0, l1), (m0, m1)) => {
                dec_digits(k as nat) + seq![',', ' '] + dec_digits(l0 as nat) + seq!['-']
                    + dec_digits(l1 as nat) + seq![',', ' '] + dec_digits(m0 as nat) + seq!['-']
                    + dec_digits(m1 as nat) + seq![' ', '∨', 'E']
            }
            Rule::IfIntro((Some(k0), k1)) => {
                dec_digits(k0 as nat) + seq!['-'] + dec_digits(k1 as nat) + seq![' ', '→', 'I']
            }
            Rule::IfIntro((None, k)) => dec_digits(k as nat) + seq![' ', '→', 'I'],
            Rule::IfExclude(k, l) => {
                dec_digits(k as nat) + seq![',', ' '] + dec_digits(l as nat) + seq![' ', '→', 'E']
            }
            Rule::IffIntro(k, l) => {
                dec_digits(k as nat) + seq![',', ' '] + dec_digits(l as nat) + seq![' ', '↔', 'I']
            }
            Rule::IffExclude(k) => dec_digits(k as nat) + seq![' ', '↔', 'E'],
            Rule::Falsum(k) => dec_digits(k as nat) + seq![' ', '⊥'],
            Rule::NegIntro((k0, k1)) => {
                dec_digits(k0 as nat) + seq!['-'] + dec_digits(k1 as nat) + seq![' ', '¬', 'I']
            }
            Rule::NegExclude((k0, k1)) => {
                dec_digits(k0 as nat) + seq!['-'] + dec_digits(k1 as nat) + seq![' ', '¬', 'E']
            }
            Rule::UnivQuntIntro(k) => dec_digits(k as nat) + seq![' ', '(', ')', 'I'],
            Rule::UnivQuntExclude(k) => dec_digits(k as nat) + seq![' ', '(', ')', 'E'],
            Rule::ExisQuntIntro(k) => dec_digits(k as nat) + seq![' ', '∃', 'I'],
            Rule::ExisQuntExclude(k, (l0, l1)) => {
                dec_digits(k as nat) + seq![',', ' '] + dec_digits(l0 as nat) + seq!['-']
                    + dec_digits(l1 as nat) + seq![' ', '∃', 'E']
            }
        }
    }

    /// Canonical rendering of the citation.
    pub fn to_string(&self) -> (r: String)
        ensures
            r@ == self.to_text(),
    {
        proof {
            reveal_strlit("P");
            reveal_strlit(", ");
            reveal_strlit("-");
            reveal_strlit(" &I");
            reveal_strlit(" &E");
            reveal_strlit(" ∨I");
            reveal_strlit(" ∨E");
            reveal_strlit(" →I");
            reveal_strlit(" →E");
            reveal_strlit(" ↔I");
            reveal_strlit(" ↔E");
            reveal_strlit(" ⊥");
            reveal_strlit(" ¬I");
            reveal_strlit(" ¬E");
            reveal_strlit(" ()I");
            reveal_strlit(" ()E");
            reveal_strlit(" ∃I");
            reveal_strlit(" ∃E");
        }
        match self {
            Rule::Premise => {
                let r = String::from_str("P");
                proof {
                    assert(r@ =~= self.to_text());
                }
                r
            }
            Rule::AndIntro(k, l) => {
                let mut r = num_to_string(*k);
                r.append(", ");
                let ls = num_to_string(*l);
                r.append(ls.as_str());
                r.append(" &I");
                proof {
                    assert(r@ =~= self.to_text());
                }
                r
            }
            Rule::AndExclude(k) => {
                let mut r = num_to_string(*k);
                r.append(" &E");
                proof {
                    assert(r@ =~= self.to_text());
                }
                r
            }
            Rule::OrIntro(k, l_opt) => {
                let mut r = num_to_string(*k);
                match l_opt {
                    Some(l) => {
                        r.append(", ");
                        let ls = num_to_string(*l);
                        r.append(ls.as_str());
                    }
                    None => {}
                }
                r.append(" ∨I");
                proof {
                    assert(r@ =~= self.to_text());
                }
                r
            }
            Rule::OrExclude(k, range_l, range_m) => {
                let mut r = num_to_string(*k);
                r.append(", ");
                let s = num_to_string(range_l.0);
                r.append(s.as_str());
                r.append("-");
                let s = num_to_string(range_l.1);
                r.append(s.as_str());
                r.append(", ");
                let s = num_to_string(range_m.0);
                r.append(s.as_str());
                r.append("-");
                let s = num_to_string(range_m.1);
                r.append(s.as_str());
                r.append(" ∨E");
                proof {
                    assert(r@ =~= self.to_text());
                }
                r
            }
            Rule::IfIntro(range) => {
                match &range.0 {
                    Some(k0) => {
                        let mut r = num_to_string(*k0);
                        r.append("-");
                        let s = num_to_string(range.1);
                        r.append(s.as_str());
                        r.append(" →I");
                        proof {
                            assert(r@ =~= self.to_text());
                        }
                        r
                    }
                    None => {
                        let mut r = num_to_string(range.1);
                        r.append(" →I");
                        proof {
                            assert(r@ =~= self.to_text());
                        }
                        r
                    }
                }
            }
            Rule::IfExclude(k, l) => {
                let mut r = num_to_string(*k);
                r.append(", ");
                let ls = num_to_string(*l);
                r.append(ls.as_str());
                r.append(" →E");
                proof {
                    assert(r@ =~= self.to_text());
                }
                r
            }
            Rule::IffIntro(k, l) => {
                let mut r = num_to_string(*k);
                r.append(", ");
                let ls = num_to_string(*l);
                r.append(ls.as_str());
                r.append(" ↔I");
                proof {
                    assert(r@ =~= self.to_text());
                }
                r
            }
            Rule::IffExclude(k) => {
                let mut r = num_to_string(*k);
                r.append(" ↔E");
                proof {
                    assert(r@ =~= self.to_text());
                }
                r
            }
            Rule::Falsum(k) => {
                let mut r = num_to_string(*k);
                r.append(" ⊥");
                proof {
                    assert(r@ =~= self.to_text());
                }
                r
            }
            Rule::NegIntro(range) => {
                let mut r = num_to_string(range.0);
                r.append("-");
                let s = num_to_string(range.1);
                r.append(s.as_str());
                r.append(" ¬I");
                proof {
                    assert(r@ =~= self.to_text());
                }
                r
            }
            Rule::NegExclude(range) => {
                let mut r = num_to_string(range.0);
                r.append("-");
                let s = num_to_string(range.1);
                r.append(s.as_str());
                r.append(" ¬E");
                proof {
                    assert(r@ =~= self.to_text());
                }
                r
            }
            Rule::UnivQuntIntro(k) => {
                let mut r = num_to_string(*k);
                r.append(" ()I");
                proof {
                    assert(r@ =~= self.to_text());
                }
                r
            }
            Rule::UnivQuntExclude(k) => {
                let mut r = num_to_string(*k);
                r.append(" ()E");
                proof {
                    assert(r@ =~= self.to_text());
                }
                r
            }
            Rule::ExisQuntIntro(k) => {
                let mut r = num_to_string(*k);
                r.append(" ∃I");
                proof {
                    assert(r@ =~= self.to_text());
                }
                r
            }
            Rule::ExisQuntExclude(k, range) => {
                let mut r = num_to_string(*k);
                r.append(", ");
                let s = num_to_string(range.0);
                r.append(s.as_str());
                r.append("-");
                let s = num_to_string(range.1);
                r.append(s.as_str());
                r.append(" ∃E");
                proof {
                    assert(r@ =~= self.to_text());
                }
                r
            }
        }
    }
}

} // verus!
