//! Rows, premise-number sets and the checker state.
//!
//! For every row the checker derives two things: the set of premise line
//! numbers the row depends on (with a completeness flag), and whether its
//! cited rule is correctly applied. Both are pure functions of the row
//! texts, specified over `spec_dep_at` and `spec_valid_at`.

use crate::ast::exp::{Exp, Formula};
use crate::ast::rule::Rule;
use crate::checker::parser::{parse_exp, parse_rule, spec_parse_exp, spec_parse_rule};
use crate::parser::util::{digits_end, digits_val, is_digit_char, lemma_digits_end, scan_digits, digit_run_value};
use crate::util::{contains_string, dec_digits, num_to_string, str_eq};
use vstd::prelude::*;

verus! {

/// One row of a proof: the formula text and the rule-citation text, kept
/// as the user typed them.
pub struct Row {
    pub sentence: String,
    pub derivation: String,
}

impl View for Row {
    type V = (Seq<char>, Seq<char>);

    open spec fn view(&self) -> (Seq<char>, Seq<char>) {
        (self.sentence@, self.derivation@)
    }
}

impl Clone for Row {
    /// A copy with the same texts.
    fn clone(&self) -> (r: Self)
        ensures
            r@ == self@,
    {
        Row { sentence: self.sentence.clone(), derivation: self.derivation.clone() }
    }
}

impl PartialEq for Row {
    /// Two rows are equal when both texts agree.
    fn eq(&self, other: &Row) -> (r: bool) {
        str_eq(self.sentence.as_str(), other.sentence.as_str()) && str_eq(
            self.derivation.as_str(),
            other.derivation.as_str(),
        )
    }
}

impl vstd::std_specs::cmp::PartialEqSpecImpl for Row {
    open spec fn obeys_eq_spec() -> bool {
        true
    }

    open spec fn eq_spec(&self, other: &Row) -> bool {
        self@ == other@
    }
}

/// The texts of a sequence of rows.
pub open spec fn row_texts(rows: Seq<Row>) -> Seq<(Seq<char>, Seq<char>)> {
    Seq::new(rows.len(), |i: int| rows[i]@)
}

/// The premise-number set of one row: the line numbers of the premises it
/// depends on, and whether every citation along the way parsed and named
/// an existing earlier row.
pub struct RowDependency {
    pub is_complete: bool,
    pub nums: Vec<usize>,
}

/// Line numbers kept strictly ascending, so every number appears once.
pub open spec fn sorted_unique(nums: Seq<usize>) -> bool {
    forall|j1: int, j2: int| 0 <= j1 < j2 < nums.len() ==> nums[j1] < nums[j2]
}

impl RowDependency {
    /// The set of line numbers held.
    pub open spec fn num_set(&self) -> Set<usize> {
        self.nums@.to_set()
    }

    /// A well-formed premise-number set.
    pub open spec fn wf(&self) -> bool {
        sorted_unique(self.nums@)
    }

    /// The empty, complete set.
    pub fn new() -> (r: Self)
        ensures
            r.wf(),
            r.is_complete,
            r.num_set() == Set::<usize>::empty(),
    {
        let r = RowDependency { is_complete: true, nums: Vec::new() };
        proof {
            assert(r.nums@.to_set() =~= Set::<usize>::empty());
        }
        r
    }

    /// The empty, incomplete set: the sentinel for a row whose rule text
    /// does not parse.
    pub fn new_incomplete() -> (r: Self)
        ensures
            r.wf(),
            !r.is_complete,
            r.num_set() == Set::<usize>::empty(),
    {
        let r = RowDependency { is_complete: false, nums: Vec::new() };
        proof {
            assert(r.nums@.to_set() =~= Set::<usize>::empty());
        }
        r
    }

    /// A complete set holding the given line numbers.
    pub fn init_from<const N: usize>(nums: [usize; N]) -> (r: Self)
        ensures
            r.wf(),
            r.is_complete,
            r.num_set() == nums@.to_set(),
    {
        let mut r = RowDependency::new();
        let mut i: usize = 0;
        while i < N
            invariant
                i <= N,
                r.wf(),
                r.is_complete,
                r.num_set() =~= nums@.subrange(0, i as int).to_set(),
            decreases N - i,
        {
            let ghost prefix = nums@.subrange(0, i as int);
            insert_sorted(&mut r.nums, nums[i]);
            proof {
                assert(nums@.subrange(0, i + 1 as int) =~= prefix.push(nums@[i as int]));
                prefix.lemma_push_to_set_commute(nums@[i as int]);
            }
            i += 1;
        }
        proof {
            assert(nums@.subrange(0, N as int) =~= nums@);
        }
        r
    }

    /// The union of two premise-number sets; complete only when both are.
    pub fn merged(&self, other: &RowDependency) -> (r: Self)
        requires
            self.wf(),
            other.wf(),
        ensures
            r.wf(),
            r.is_complete == (self.is_complete && other.is_complete),
            r.num_set() == self.num_set() + other.num_set(),
    {
        let mut nums = clone_nums(&self.nums);
        let mut i: usize = 0;
        while i < other.nums.len()
            invariant
                i <= other.nums@.len(),
                sorted_unique(nums@),
                other.wf(),
                nums@.to_set() =~= self.nums@.to_set() + other.nums@.subrange(
                    0,
                    i as int,
                ).to_set(),
            decreases other.nums@.len() - i,
        {
            let ghost prefix = other.nums@.subrange(0, i as int);
            insert_sorted(&mut nums, other.nums[i]);
            proof {
                assert(other.nums@.subrange(0, i + 1 as int) =~= prefix.push(
                    other.nums@[i as int],
                ));
                prefix.lemma_push_to_set_commute(other.nums@[i as int]);
            }
            i += 1;
        }
        proof {
            assert(other.nums@.subrange(0, other.nums@.len() as int) =~= other.nums@);
        }
        RowDependency { is_complete: self.is_complete && other.is_complete, nums }
    }

    /// The set with one line number removed: the discharged assumption of
    /// a subproof.
    pub fn without(&self, num: usize) -> (r: Self)
        requires
            self.wf(),
        ensures
            r.wf(),
            r.is_complete == self.is_complete,
            r.num_set() == self.num_set().remove(num),
    {
        let mut nums: Vec<usize> = Vec::new();
        let mut i: usize = 0;
        while i < self.nums.len()
            invariant
                i <= self.nums@.len(),
                self.wf(),
                sorted_unique(nums@),
                nums@.to_set() =~= self.nums@.subrange(0, i as int).to_set().remove(num),
                forall|j: int|
                    0 <= j < nums@.len() ==> i == self.nums@.len() || #[trigger] nums@[j]
                        < self.nums@[i as int],
            decreases self.nums@.len() - i,
        {
            let ghost prefix = self.nums@.subrange(0, i as int);
            let x = self.nums[i];
            if x != num {
                let ghost before = nums@;
                nums.push(x);
                proof {
                    assert(nums@ =~= before.push(x));
                    before.lemma_push_to_set_commute(x);
                }
            }
            proof {
                if i + 1 < self.nums@.len() {
                    assert(self.nums@[i as int] < self.nums@[i + 1]);
                }
            }
            proof {
                assert(self.nums@.subrange(0, i + 1 as int) =~= prefix.push(
                    self.nums@[i as int],
                ));
                prefix.lemma_push_to_set_commute(self.nums@[i as int]);
                assert(nums@.to_set() =~= self.nums@.subrange(0, i + 1 as int).to_set().remove(
                    num,
                ));
            }
            i += 1;
        }
        proof {
            assert(self.nums@.subrange(0, self.nums@.len() as int) =~= self.nums@);
        }
        RowDependency { is_complete: self.is_complete, nums }
    }

    /// The incomplete copy: what a citation of a missing row leaves behind.
    pub fn into_incomplete(self) -> (r: Self)
        requires
            self.wf(),
        ensures
            r.wf(),
            !r.is_complete,
            r.num_set() == self.num_set(),
    {
        RowDependency { is_complete: false, nums: self.nums }
    }
}

impl Clone for RowDependency {
    /// A copy with the same flag and numbers.
    fn clone(&self) -> (r: Self)
        ensures
            r.is_complete == self.is_complete,
            r.nums@ == self.nums@,
    {
        RowDependency { is_complete: self.is_complete, nums: clone_nums(&self.nums) }
    }
}

/// A copy of a number vector.
fn clone_nums(v: &Vec<usize>) -> (r: Vec<usize>)
    ensures
        r@ == v@,
{
    let mut r: Vec<usize> = Vec::new();
    let mut i: usize = 0;
    while i < v.len()
        invariant
            i <= v@.len(),
            r@ =~= v@.subrange(0, i as int),
        decreases v@.len() - i,
    {
        r.push(v[i]);
        i += 1;
    }
    proof {
        assert(v@.subrange(0, v@.len() as int) =~= v@);
    }
    r
}

/// Joins one cited row's premise numbers into an accumulated set: a
/// missing citation contributes nothing and turns the complete flag off.
pub open spec fn dep_join(o: Option<(bool, Set<usize>)>, acc: (bool, Set<usize>)) -> (
    bool,
    Set<usize>,
) {
    match o {
        None => (false, acc.1),
        Some((c, s)) => (acc.0 && c, acc.1 + s),
    }
}

/// The premise numbers of cited row `k`, as seen from row index `i`: only
/// an earlier row (1-based `k` at most `i`) exists.
pub open spec fn spec_ref(rows: Seq<(Seq<char>, Seq<char>)>, i: int, k: usize) -> Option<
    (bool, Set<usize>),
>
    decreases i, 0int,
{
    if 1 <= k as int && k as int <= i {
        Some(spec_dep_at(rows, k as int - 1))
    } else {
        None
    }
}

/// The premise-number set of row index `i` (0-based): the line numbers of
/// the open assumptions it rests on, and whether every citation along the
/// way parsed and named an existing earlier row.
pub open spec fn spec_dep_at(rows: Seq<(Seq<char>, Seq<char>)>, i: int) -> (bool, Set<usize>)
    decreases i, 1int,
{
    match spec_parse_rule(rows[i].1) {
        None => (false, Set::empty()),
        Some(rule) => match rule {
            Rule::Premise => (true, Set::empty().insert((i + 1) as usize)),
            Rule::AndIntro(k, l) => dep_join(
                spec_ref(rows, i, l),
                dep_join(spec_ref(rows, i, k), (true, Set::empty())),
            ),
            Rule::AndExclude(k) => dep_join(spec_ref(rows, i, k), (true, Set::empty())),
            Rule::OrIntro(k, l_opt) => match l_opt {
                Some(l) => dep_join(
                    spec_ref(rows, i, l),
                    dep_join(spec_ref(rows, i, k), (true, Set::empty())),
                ),
                None => dep_join(spec_ref(rows, i, k), (true, Set::empty())),
            },
            Rule::OrExclude(k, (l0, l1), (m0, m1)) => {
                let d = dep_join(
                    spec_ref(rows, i, m1),
                    dep_join(
                        spec_ref(rows, i, l1),
                        dep_join(spec_ref(rows, i, k), (true, Set::empty())),
                    ),
                );
                (d.0, d.1.remove(l0).remove(m0))
            }
            Rule::IfIntro((k0_opt, k1)) => {
                let d = dep_join(spec_ref(rows, i, k1), (true, Set::empty()));
                match k0_opt {
                    Some(k0) => (d.0, d.1.remove(k0)),
                    None => d,
                }
            }
            Rule::IfExclude(k, l) => dep_join(
                spec_ref(rows, i, l),
                dep_join(spec_ref(rows, i, k), (true, Set::empty())),
            ),
            Rule::IffIntro(k, l) => dep_join(
                spec_ref(rows, i, l),
                dep_join(spec_ref(rows, i, k), (true, Set::empty())),
            ),
            Rule::IffExclude(k) => dep_join(spec_ref(rows, i, k), (true, Set::empty())),
            Rule::Falsum(k) => dep_join(spec_ref(rows, i, k), (true, Set::empty())),
            Rule::NegIntro((k0, k1)) => {
                let d = dep_join(spec_ref(rows, i, k1), (true, Set::empty()));
                (d.0, d.1.remove(k0))
            }
            Rule::NegExclude((k0, k1)) => {
                let d = dep_join(spec_ref(rows, i, k1), (true, Set::empty()));
                (d.0, d.1.remove(k0))
            }
            Rule::UnivQuntIntro(k) => dep_join(spec_ref(rows, i, k), (true, Set::empty())),
            Rule::UnivQuntExclude(k) => dep_join(spec_ref(rows, i, k), (true, Set::empty())),
            Rule::ExisQuntIntro(k) => dep_join(spec_ref(rows, i, k), (true, Set::empty())),
            Rule::ExisQuntExclude(k, (l0, l1)) => {
                let d = dep_join(
                    spec_ref(rows, i, l1),
                    dep_join(spec_ref(rows, i, k), (true, Set::empty())),
                );
                (d.0, d.1.remove(l0))
            }
        },
    }
}

/// A cited row's premise numbers depend only on what the rule texts parse
/// to: two row sequences whose citations parse alike refer alike.
pub proof fn lemma_ref_congruent(
    rows1: Seq<(Seq<char>, Seq<char>)>,
    rows2: Seq<(Seq<char>, Seq<char>)>,
    i: int,
    k: usize,
)
    requires
        rows1.len() == rows2.len(),
        forall|j: int|
            0 <= j < rows1.len() ==> spec_parse_rule(rows1[j].1) == spec_parse_rule(
                #[trigger] rows2[j].1,
            ),
        0 <= i <= rows1.len(),
    ensures
        spec_ref(rows1, i, k) == spec_ref(rows2, i, k),
    decreases i, 0int,
{
    if 1 <= k as int && k as int <= i {
        lemma_dep_at_congruent(rows1, rows2, k as int - 1);
    }
}

/// The premise-number set of a row depends only on what the rule texts
/// parse to.
pub proof fn lemma_dep_at_congruent(
    rows1: Seq<(Seq<char>, Seq<char>)>,
    rows2: Seq<(Seq<char>, Seq<char>)>,
    i: int,
)
    requires
        rows1.len() == rows2.len(),
        forall|j: int|
            0 <= j < rows1.len() ==> spec_parse_rule(rows1[j].1) == spec_parse_rule(
                #[trigger] rows2[j].1,
            ),
        0 <= i < rows1.len(),
    ensures
        spec_dep_at(rows1, i) == spec_dep_at(rows2, i),
    decreases i, 1int,
{
    assert(spec_parse_rule(rows1[i].1) == spec_parse_rule(rows2[i].1));
    match spec_parse_rule(rows1[i].1) {
        None => {}
        Some(rule) => match rule {
            Rule::Premise => {}
            Rule::AndIntro(k, l) => {
                lemma_ref_congruent(rows1, rows2, i, k);
                lemma_ref_congruent(rows1, rows2, i, l);
            }
            Rule::AndExclude(k) => {
                lemma_ref_congruent(rows1, rows2, i, k);
            }
            Rule::OrIntro(k, l_opt) => {
                lemma_ref_congruent(rows1, rows2, i, k);
                match l_opt {
                    Some(l) => {
                        lemma_ref_congruent(rows1, rows2, i, l);
                    }
                    None => {}
                }
            }
            Rule::OrExclude(k, (l0, l1), (m0, m1)) => {
                lemma_ref_congruent(rows1, rows2, i, k);
                lemma_ref_congruent(rows1, rows2, i, l1);
                lemma_ref_congruent(rows1, rows2, i, m1);
            }
            Rule::IfIntro((k0_opt, k1)) => {
                lemma_ref_congruent(rows1, rows2, i, k1);
            }
            Rule::IfExclude(k, l) => {
                lemma_ref_congruent(rows1, rows2, i, k);
                lemma_ref_congruent(rows1, rows2, i, l);
            }
            Rule::IffIntro(k, l) => {
                lemma_ref_congruent(rows1, rows2, i, k);
                lemma_ref_congruent(rows1, rows2, i, l);
            }
            Rule::IffExclude(k) => {
                lemma_ref_congruent(rows1, rows2, i, k);
            }
            Rule::Falsum(k) => {
                lemma_ref_congruent(rows1, rows2, i, k);
            }
            Rule::NegIntro((k0, k1)) => {
                lemma_ref_congruent(rows1, rows2, i, k1);
            }
            Rule::NegExclude((k0, k1)) => {
                lemma_ref_congruent(rows1, rows2, i, k1);
            }
            Rule::UnivQuntIntro(k) => {
                lemma_ref_congruent(rows1, rows2, i, k);
            }
            Rule::UnivQuntExclude(k) => {
                lemma_ref_congruent(rows1, rows2, i, k);
            }
            Rule::ExisQuntIntro(k) => {
                lemma_ref_congruent(rows1, rows2, i, k);
            }
            Rule::ExisQuntExclude(k, (l0, l1)) => {
                lemma_ref_congruent(rows1, rows2, i, k);
                lemma_ref_congruent(rows1, rows2, i, l1);
            }
        },
    }
}

/// Universal introduction checks alike on row sequences whose parse
/// results agree.
proof fn lemma_univ_intro_congruent(
    rows1: Seq<(Seq<char>, Seq<char>)>,
    rows2: Seq<(Seq<char>, Seq<char>)>,
    dsets: Seq<Set<usize>>,
    e_row: Formula,
    k: usize,
)
    requires
        forall|kk: usize| #[trigger] item_exp(rows1, kk) == item_exp(rows2, kk),
        forall|nd: usize, beta: Seq<char>|
            #[trigger] eig_bad(rows1, nd, beta) == eig_bad(rows2, nd, beta),
    ensures
        spec_valid_univ_intro(rows1, dsets, e_row, k) == spec_valid_univ_intro(
            rows2,
            dsets,
            e_row,
            k,
        ),
{
    match (item_exp(rows1, k), e_row) {
        (Some(ek), Formula::UnivGenr { variable, form }) => {
            let d = ek.free_vars().difference(form.free_vars());
            if exists|nd: usize| dsets[k as int - 1].contains(nd) && eig_bad(rows1, nd, d.choose()) {
                let nd = choose|nd: usize|
                    dsets[k as int - 1].contains(nd) && eig_bad(rows1, nd, d.choose());
                assert(eig_bad(rows2, nd, d.choose()));
            }
            if exists|nd: usize| dsets[k as int - 1].contains(nd) && eig_bad(rows2, nd, d.choose()) {
                let nd = choose|nd: usize|
                    dsets[k as int - 1].contains(nd) && eig_bad(rows2, nd, d.choose());
                assert(eig_bad(rows1, nd, d.choose()));
            }
        }
        _ => {}
    }
}

/// Existential elimination checks alike on row sequences whose parse
/// results agree.
proof fn lemma_exis_exclude_congruent(
    rows1: Seq<(Seq<char>, Seq<char>)>,
    rows2: Seq<(Seq<char>, Seq<char>)>,
    dsets: Seq<Set<usize>>,
    e_row: Formula,
    k: usize,
    l: usize,
    m: usize,
)
    requires
        forall|kk: usize| #[trigger] item_exp(rows1, kk) == item_exp(rows2, kk),
        forall|kk: usize| #[trigger] item_rule(rows1, kk) == item_rule(rows2, kk),
        forall|nd: usize, beta: Seq<char>|
            #[trigger] eig_bad(rows1, nd, beta) == eig_bad(rows2, nd, beta),
    ensures
        spec_valid_exis_exclude(rows1, dsets, e_row, k, l, m) == spec_valid_exis_exclude(
            rows2,
            dsets,
            e_row,
            k,
            l,
            m,
        ),
{
    match (item_exp(rows1, k), item_exp(rows1, l), item_exp(rows1, m)) {
        (Some(ek), Some(el), Some(em)) => match ek {
            Formula::ExistGenr { variable, form } => {
                let d = el.free_vars().difference(form.free_vars()).difference(em.free_vars());
                if exists|nd: usize|
                    dsets[m as int - 1].contains(nd) && nd != l && eig_bad(rows1, nd, d.choose()) {
                    let nd = choose|nd: usize|
                        dsets[m as int - 1].contains(nd) && nd != l && eig_bad(
                            rows1,
                            nd,
                            d.choose(),
                        );
                    assert(eig_bad(rows2, nd, d.choose()));
                }
                if exists|nd: usize|
                    dsets[m as int - 1].contains(nd) && nd != l && eig_bad(rows2, nd, d.choose()) {
                    let nd = choose|nd: usize|
                        dsets[m as int - 1].contains(nd) && nd != l && eig_bad(
                            rows2,
                            nd,
                            d.choose(),
                        );
                    assert(eig_bad(rows1, nd, d.choose()));
                }
            }
            _ => {}
        },
        _ => {}
    }
}

/// Every structural check dispatches alike on row sequences whose parse
/// results agree.
#[verifier::rlimit(100)]
proof fn lemma_dispatch_congruent(
    rows1: Seq<(Seq<char>, Seq<char>)>,
    rows2: Seq<(Seq<char>, Seq<char>)>,
    dsets: Seq<Set<usize>>,
    e_row: Formula,
    rule: Rule,
)
    requires
        forall|kk: usize| #[trigger] item_exp(rows1, kk) == item_exp(rows2, kk),
        forall|kk: usize| #[trigger] item_rule(rows1, kk) == item_rule(rows2, kk),
        forall|nd: usize, beta: Seq<char>|
            #[trigger] eig_bad(rows1, nd, beta) == eig_bad(rows2, nd, beta),
    ensures
        spec_valid_dispatch(rows1, dsets, e_row, rule) == spec_valid_dispatch(
            rows2,
            dsets,
            e_row,
            rule,
        ),
{
    match rule {
        Rule::UnivQuntIntro(k) => {
            lemma_univ_intro_congruent(rows1, rows2, dsets, e_row, k);
        }
        Rule::ExisQuntExclude(k, (l, m)) => {
            lemma_exis_exclude_congruent(rows1, rows2, dsets, e_row, k, l, m);
        }
        _ => {}
    }
}

/// Rule validity depends only on what the row texts parse to: two row
/// sequences whose sentences and citations parse alike are checked alike.
pub proof fn lemma_valid_at_congruent(
    rows1: Seq<(Seq<char>, Seq<char>)>,
    rows2: Seq<(Seq<char>, Seq<char>)>,
    dsets: Seq<Set<usize>>,
    i: int,
)
    requires
        rows1.len() == rows2.len(),
        forall|j: int|
            0 <= j < rows1.len() ==> spec_parse_rule(rows1[j].1) == spec_parse_rule(
                #[trigger] rows2[j].1,
            ),
        forall|j: int|
            0 <= j < rows1.len() ==> spec_parse_exp(rows1[j].0) == spec_parse_exp(
                #[trigger] rows2[j].0,
            ),
        0 <= i < rows1.len(),
    ensures
        spec_valid_at(rows1, dsets, i) == spec_valid_at(rows2, dsets, i),
{
    assert forall|k: usize| #[trigger] item_exp(rows1, k) == item_exp(rows2, k) by {
        if 1 <= k as int && k as int <= rows1.len() {
            assert(spec_parse_exp(rows1[k as int - 1].0) == spec_parse_exp(
                rows2[k as int - 1].0,
            ));
        }
    }
    assert forall|k: usize| #[trigger] item_rule(rows1, k) == item_rule(rows2, k) by {
        if 1 <= k as int && k as int <= rows1.len() {
            assert(spec_parse_rule(rows1[k as int - 1].1) == spec_parse_rule(
                rows2[k as int - 1].1,
            ));
        }
    }
    assert forall|nd: usize, beta: Seq<char>|
        #[trigger] eig_bad(rows1, nd, beta) == eig_bad(rows2, nd, beta) by {
        assert(item_exp(rows1, nd) == item_exp(rows2, nd));
    }
    assert(spec_parse_exp(rows1[i].0) == spec_parse_exp(rows2[i].0));
    assert(spec_parse_rule(rows1[i].1) == spec_parse_rule(rows2[i].1));
    match (spec_parse_exp(rows1[i].0), spec_parse_rule(rows1[i].1)) {
        (Some(e_row), Some(rule)) => {
            lemma_dispatch_congruent(rows1, rows2, dsets, e_row, rule);
        }
        _ => {}
    }
}

/// The premise-number sets of a prefix agree with the specification.
pub open spec fn deps_agree(rows: Seq<(Seq<char>, Seq<char>)>, deps: Seq<RowDependency>) -> bool {
    forall|j: int|
        0 <= j < deps.len() ==> (#[trigger] deps[j]).wf() && deps[j].is_complete == spec_dep_at(
            rows,
            j,
        ).0 && deps[j].num_set() == spec_dep_at(rows, j).1
}

/// One premise-number set per row, each agreeing with the specification.
pub open spec fn deps_match(rows: Seq<(Seq<char>, Seq<char>)>, deps: Seq<RowDependency>) -> bool {
    deps.len() == rows.len() && deps_agree(rows, deps)
}

/// Joins cited row `k` into the accumulated set, exactly as `dep_join`
/// over `spec_ref` does.
fn join_ref(
    acc: RowDependency,
    deps: &Vec<RowDependency>,
    k: usize,
    Ghost(rows): Ghost<Seq<(Seq<char>, Seq<char>)>>,
) -> (r: RowDependency)
    requires
        acc.wf(),
        deps_agree(rows, deps@),
    ensures
        r.wf(),
        r.is_complete == dep_join(
            spec_ref(rows, deps@.len() as int, k),
            (acc.is_complete, acc.num_set()),
        ).0,
        r.num_set() == dep_join(
            spec_ref(rows, deps@.len() as int, k),
            (acc.is_complete, acc.num_set()),
        ).1,
{
    if 1 <= k && k <= deps.len() {
        acc.merged(&deps[k - 1])
    } else {
        acc.into_incomplete()
    }
}

/// Inserts a line number into a strictly ascending vector, keeping it
/// strictly ascending.
fn insert_sorted(v: &mut Vec<usize>, x: usize)
    requires
        sorted_unique(old(v)@),
    ensures
        sorted_unique(final(v)@),
        final(v)@.to_set() == old(v)@.to_set().insert(x),
{
    let mut idx: usize = 0;
    while idx < v.len() && v[idx] < x
        invariant
            idx <= v@.len(),
            sorted_unique(v@),
            v@ == old(v)@,
            forall|j: int| 0 <= j < idx ==> v@[j] < x,
        decreases v@.len() - idx,
    {
        idx += 1;
    }
    if idx < v.len() && v[idx] == x {
        proof {
            assert(v@.to_set().contains(x));
            assert(v@.to_set() =~= old(v)@.to_set().insert(x));
        }
        return ;
    }
    let ghost before = v@;
    v.insert(idx, x);
    proof {
        assert forall|j1: int, j2: int| 0 <= j1 < j2 < v@.len() implies v@[j1] < v@[j2] by {
            if j2 < idx {
            } else if j1 < idx && j2 == idx {
            } else if j1 == idx {
                assert(v@[j2] == before[j2 - 1]);
                assert(before[idx as int] > x || idx == before.len());
                if idx < before.len() {
                    assert(!(before[idx as int] < x) && before[idx as int] != x);
                }
            } else if j1 > idx {
                assert(v@[j1] == before[j1 - 1]);
                assert(v@[j2] == before[j2 - 1]);
            } else {
                if idx < before.len() {
                    assert(!(before[idx as int] < x) && before[idx as int] != x);
                }
                assert(v@[j2] == before[j2 - 1]);
            }
        }
        assert forall|y: usize| v@.to_set().contains(y) implies before.to_set().insert(
            x,
        ).contains(y) by {
            let j = choose|j: int| 0 <= j < v@.len() && v@[j] == y;
            if j < idx {
                assert(before[j] == y);
            } else if j == idx {
            } else {
                assert(before[j - 1] == y);
            }
        }
        assert forall|y: usize| before.to_set().insert(x).contains(y) implies v@.to_set().contains(
            y,
        ) by {
            if y == x {
                assert(v@[idx as int] == x);
            } else {
                let j = choose|j: int| 0 <= j < before.len() && before[j] == y;
                if j < idx {
                    assert(v@[j] == y);
                } else {
                    assert(v@[j + 1] == y);
                }
            }
        }
        assert(v@.to_set() =~= before.to_set().insert(x));
    }
}

/// The formula of cited row `k` (1-based), if that row exists and its
/// sentence parses.
pub open spec fn item_exp(rows: Seq<(Seq<char>, Seq<char>)>, k: usize) -> Option<Formula> {
    if 1 <= k as int && k as int <= rows.len() {
        spec_parse_exp(rows[k as int - 1].0)
    } else {
        None
    }
}

/// The citation of cited row `k` (1-based), if that row exists and its rule
/// text parses.
pub open spec fn item_rule(rows: Seq<(Seq<char>, Seq<char>)>, k: usize) -> Option<Rule> {
    if 1 <= k as int && k as int <= rows.len() {
        spec_parse_rule(rows[k as int - 1].1)
    } else {
        None
    }
}

/// Equality of two pairs of formulas up to swapping.
pub open spec fn unordered_pair_eq(a1: Formula, a2: Formula, b1: Formula, b2: Formula) -> bool {
    (a1 == b1 && a2 == b2) || (a1 == b2 && a2 == b1)
}

/// Whether cited line `nd` blocks an eigenvariable `beta`: it does when its
/// formula fails to parse or has `beta` free.
pub open spec fn eig_bad(rows: Seq<(Seq<char>, Seq<char>)>, nd: usize, beta: Seq<char>) -> bool {
    match item_exp(rows, nd) {
        None => true,
        Some(f) => f.free_vars().contains(beta),
    }
}

/// Conjunction introduction: the row is the conjunction of the cited
/// formulas, in citation order.
pub open spec fn spec_valid_and_intro(
    rows: Seq<(Seq<char>, Seq<char>)>,
    e_row: Formula,
    k: usize,
    l: usize,
) -> bool {
    match (item_exp(rows, k), item_exp(rows, l)) {
        (Some(ek), Some(el)) => e_row == Formula::And { lhs: Box::new(ek), rhs: Box::new(el) },
        _ => false,
    }
}

/// Conjunction elimination: the cited row is a conjunction and the row is
/// one of its conjuncts.
pub open spec fn spec_valid_and_exclude(
    rows: Seq<(Seq<char>, Seq<char>)>,
    e_row: Formula,
    k: usize,
) -> bool {
    match item_exp(rows, k) {
        Some(ek) => match ek {
            Formula::And { lhs, rhs } => e_row == *lhs || e_row == *rhs,
            _ => false,
        },
        None => false,
    }
}

/// Disjunction introduction from one line: the row is a disjunction with
/// the cited formula as one disjunct.
pub open spec fn spec_valid_or_intro_single(
    rows: Seq<(Seq<char>, Seq<char>)>,
    e_row: Formula,
    k: usize,
) -> bool {
    match item_exp(rows, k) {
        Some(ek) => match e_row {
            Formula::Or { lhs, rhs } => ek == *lhs || ek == *rhs,
            _ => false,
        },
        None => false,
    }
}

/// Disjunction introduction from two lines: the row is the disjunction of
/// the two cited formulas, in either order.
pub open spec fn spec_valid_or_intro_pair(
    rows: Seq<(Seq<char>, Seq<char>)>,
    e_row: Formula,
    k: usize,
    l: usize,
) -> bool {
    match (item_exp(rows, k), item_exp(rows, l)) {
        (Some(ek), Some(el)) => match e_row {
            Formula::Or { lhs, rhs } => unordered_pair_eq(ek, el, *lhs, *rhs),
            _ => false,
        },
        _ => false,
    }
}

/// Disjunction elimination: the cited line is a disjunction, each subproof
/// opens with a premise assuming one disjunct, and both subproofs close on
/// the row's formula.
pub open spec fn spec_valid_or_exclude(
    rows: Seq<(Seq<char>, Seq<char>)>,
    e_row: Formula,
    k: usize,
    l0: usize,
    l1: usize,
    m0: usize,
    m1: usize,
) -> bool {
    match (item_exp(rows, k), item_exp(rows, l0), item_rule(rows, l0)) {
        (Some(ek), Some(el0), Some(rl0)) => match (
            item_exp(rows, l1),
            item_exp(rows, m0),
            item_rule(rows, m0),
            item_exp(rows, m1),
        ) {
            (Some(el1), Some(em0), Some(rm0), Some(em1)) => match ek {
                Formula::Or { lhs, rhs } => rl0 == Rule::Premise && rm0 == Rule::Premise
                    && unordered_pair_eq(*lhs, *rhs, el0, em0) && e_row == el1 && e_row == em1,
                _ => false,
            },
            _ => false,
        },
        _ => false,
    }
}

/// Conditional introduction discharging an assumption: the subproof opens
/// with a premise, and the row is the conditional from that assumption to
/// the subproof's last formula.
pub open spec fn spec_valid_if_intro_opened(
    rows: Seq<(Seq<char>, Seq<char>)>,
    e_row: Formula,
    k0: usize,
    k1: usize,
) -> bool {
    match (item_exp(rows, k0), item_rule(rows, k0), item_exp(rows, k1)) {
        (Some(ek0), Some(rk0), Some(ek1)) => match e_row {
            Formula::Cond { antecedent, consequent } => rk0 == Rule::Premise && *antecedent == ek0
                && *consequent == ek1,
            _ => false,
        },
        _ => false,
    }
}

/// Vacuous conditional introduction: the row is a conditional whose
/// consequent is the cited formula, with any antecedent.
pub open spec fn spec_valid_if_intro_vacuous(
    rows: Seq<(Seq<char>, Seq<char>)>,
    e_row: Formula,
    k: usize,
) -> bool {
    match item_exp(rows, k) {
        Some(ek) => match e_row {
            Formula::Cond { antecedent, consequent } => *consequent == ek,
            _ => false,
        },
        None => false,
    }
}

/// Conditional elimination: modus ponens, or falsum from a pair of
/// mutually negated lines.
pub open spec fn spec_valid_if_exclude(
    rows: Seq<(Seq<char>, Seq<char>)>,
    e_row: Formula,
    k: usize,
    l: usize,
) -> bool {
    match (item_exp(rows, k), item_exp(rows, l)) {
        (Some(ek), Some(el)) => {
            ||| (e_row == Formula::Falsum && (Formula::Neg(Box::new(ek)) == el || ek
                == Formula::Neg(Box::new(el))))
            ||| (match ek {
                Formula::Cond { antecedent, consequent } => *antecedent == el && *consequent
                    == e_row,
                _ => false,
            })
        }
        _ => false,
    }
}

/// Biconditional introduction from two converse conditionals.
pub open spec fn spec_valid_iff_intro(
    rows: Seq<(Seq<char>, Seq<char>)>,
    e_row: Formula,
    k: usize,
    l: usize,
) -> bool {
    match (item_exp(rows, k), item_exp(rows, l)) {
        (Some(ek), Some(el)) => match (e_row, ek, el) {
            (
                Formula::Iff { lhs, rhs },
                Formula::Cond { antecedent: ka, consequent: kc },
                Formula::Cond { antecedent: la, consequent: lc },
            ) => unordered_pair_eq(*lhs, *rhs, *ka, *kc) && *ka == *lc && *kc == *la,
            _ => false,
        },
        _ => false,
    }
}

/// Biconditional elimination: the row is one conditional direction of the
/// cited biconditional.
pub open spec fn spec_valid_iff_exclude(
    rows: Seq<(Seq<char>, Seq<char>)>,
    e_row: Formula,
    k: usize,
) -> bool {
    match item_exp(rows, k) {
        Some(ek) => match (e_row, ek) {
            (Formula::Cond { antecedent, consequent }, Formula::Iff { lhs, rhs }) => {
                unordered_pair_eq(*antecedent, *consequent, *lhs, *rhs)
            }
            _ => false,
        },
        None => false,
    }
}

/// Ex falso: the cited line is falsum; the row may be anything.
pub open spec fn spec_valid_falsum(rows: Seq<(Seq<char>, Seq<char>)>, k: usize) -> bool {
    match item_exp(rows, k) {
        Some(ek) => ek == Formula::Falsum,
        None => false,
    }
}

/// Negation introduction: a subproof from the assumption to falsum yields
/// the negated assumption.
pub open spec fn spec_valid_neg_intro(
    rows: Seq<(Seq<char>, Seq<char>)>,
    e_row: Formula,
    k0: usize,
    k1: usize,
) -> bool {
    match (item_exp(rows, k0), item_exp(rows, k1)) {
        (Some(ek0), Some(ek1)) => match (e_row, ek1) {
            (Formula::Neg(inner), Formula::Falsum) => *inner == ek0,
            _ => false,
        },
        _ => false,
    }
}

/// Negation elimination: a subproof from a negated assumption to falsum
/// yields the assumption unnegated.
pub open spec fn spec_valid_neg_exclude(
    rows: Seq<(Seq<char>, Seq<char>)>,
    e_row: Formula,
    k0: usize,
    k1: usize,
) -> bool {
    match (item_exp(rows, k0), item_exp(rows, k1)) {
        (Some(ek0), Some(ek1)) => match (ek0, ek1) {
            (Formula::Neg(inner), Formula::Falsum) => e_row == *inner,
            _ => false,
        },
        _ => false,
    }
}

/// Universal introduction with the eigenvariable condition: the row
/// generalizes the cited formula over the one symbol free in it but not in
/// the row's matrix, and that symbol is free in no premise the cited line
/// rests on.
pub open spec fn spec_valid_univ_intro(
    rows: Seq<(Seq<char>, Seq<char>)>,
    dsets: Seq<Set<usize>>,
    e_row: Formula,
    k: usize,
) -> bool {
    match item_exp(rows, k) {
        Some(ek) => match e_row {
            Formula::UnivGenr { variable, form } => {
                let d = ek.free_vars().difference(form.free_vars());
                &&& d.finite()
                &&& d.len() == 1
                &&& 1 <= k as int && k as int <= dsets.len()
                &&& !(exists|nd: usize|
                    dsets[k as int - 1].contains(nd) && eig_bad(rows, nd, d.choose()))
                &&& form.var_replaced(variable, d.choose()) == ek
            }
            _ => false,
        },
        None => false,
    }
}

/// Universal elimination: the row instantiates the cited universal at the
/// one symbol free in the row but not in the matrix.
pub open spec fn spec_valid_univ_exclude(
    rows: Seq<(Seq<char>, Seq<char>)>,
    e_row: Formula,
    k: usize,
) -> bool {
    match item_exp(rows, k) {
        Some(ek) => match ek {
            Formula::UnivGenr { variable, form } => {
                let d = e_row.free_vars().difference(form.free_vars());
                &&& d.finite()
                &&& d.len() == 1
                &&& form.var_replaced(variable, d.choose()) == e_row
            }
            _ => false,
        },
        None => false,
    }
}

/// Existential introduction: the row generalizes the cited formula over
/// the one symbol free in it but not in the row's matrix.
pub open spec fn spec_valid_exis_intro(
    rows: Seq<(Seq<char>, Seq<char>)>,
    e_row: Formula,
    k: usize,
) -> bool {
    match item_exp(rows, k) {
        Some(ek) => match e_row {
            Formula::ExistGenr { variable, form } => {
                let d = ek.free_vars().difference(form.free_vars());
                &&& d.finite()
                &&& d.len() == 1
                &&& form.var_replaced(variable, d.choose()) == ek
            }
            _ => false,
        },
        None => false,
    }
}

/// Existential elimination with the eigenvariable condition: from the
/// existential and a subproof assuming an instance at a fresh symbol and
/// closing on the row's formula.
pub open spec fn spec_valid_exis_exclude(
    rows: Seq<(Seq<char>, Seq<char>)>,
    dsets: Seq<Set<usize>>,
    e_row: Formula,
    k: usize,
    l: usize,
    m: usize,
) -> bool {
    match (item_exp(rows, k), item_exp(rows, l), item_rule(rows, l), item_exp(rows, m)) {
        (Some(ek), Some(el), Some(rl), Some(em)) => match ek {
            Formula::ExistGenr { variable, form } => {
                let d = el.free_vars().difference(form.free_vars()).difference(em.free_vars());
                &&& rl == Rule::Premise
                &&& d.finite()
                &&& d.len() == 1
                &&& 1 <= m as int && m as int <= dsets.len()
                &&& !(exists|nd: usize|
                    dsets[m as int - 1].contains(nd) && nd != l && eig_bad(rows, nd, d.choose()))
                &&& form.var_replaced(variable, d.choose()) == el
                &&& em == e_row
            }
            _ => false,
        },
        _ => false,
    }
}

/// The structural check for one parsed row and citation.
pub open spec fn spec_valid_dispatch(
    rows: Seq<(Seq<char>, Seq<char>)>,
    dsets: Seq<Set<usize>>,
    e_row: Formula,
    rule: Rule,
) -> bool {
    match rule {
        Rule::Premise => true,
        Rule::AndIntro(k, l) => spec_valid_and_intro(rows, e_row, k, l),
        Rule::AndExclude(k) => spec_valid_and_exclude(rows, e_row, k),
        Rule::OrIntro(k, l_opt) => match l_opt {
            None => spec_valid_or_intro_single(rows, e_row, k),
            Some(l) => spec_valid_or_intro_pair(rows, e_row, k, l),
        },
        Rule::OrExclude(k, (l0, l1), (m0, m1)) => spec_valid_or_exclude(
            rows,
            e_row,
            k,
            l0,
            l1,
            m0,
            m1,
        ),
        Rule::IfIntro((k0_opt, k1)) => match k0_opt {
            Some(k0) => spec_valid_if_intro_opened(rows, e_row, k0, k1),
            None => spec_valid_if_intro_vacuous(rows, e_row, k1),
        },
        Rule::IfExclude(k, l) => spec_valid_if_exclude(rows, e_row, k, l),
        Rule::IffIntro(k, l) => spec_valid_iff_intro(rows, e_row, k, l),
        Rule::IffExclude(k) => spec_valid_iff_exclude(rows, e_row, k),
        Rule::Falsum(k) => spec_valid_falsum(rows, k),
        Rule::NegIntro((k0, k1)) => spec_valid_neg_intro(rows, e_row, k0, k1),
        Rule::NegExclude((k0, k1)) => spec_valid_neg_exclude(rows, e_row, k0, k1),
        Rule::UnivQuntIntro(k) => spec_valid_univ_intro(rows, dsets, e_row, k),
        Rule::UnivQuntExclude(k) => spec_valid_univ_exclude(rows, e_row, k),
        Rule::ExisQuntIntro(k) => spec_valid_exis_intro(rows, e_row, k),
        Rule::ExisQuntExclude(k, (l, m)) => spec_valid_exis_exclude(rows, dsets, e_row, k, l, m),
    }
}

/// Whether row index `i` (0-based) applies its cited rule correctly: both
/// of its texts parse and the structural check for the citation holds.
pub open spec fn spec_valid_at(
    rows: Seq<(Seq<char>, Seq<char>)>,
    dsets: Seq<Set<usize>>,
    i: int,
) -> bool {
    match (spec_parse_exp(rows[i].0), spec_parse_rule(rows[i].1)) {
        (Some(e_row), Some(rule)) => spec_valid_dispatch(rows, dsets, e_row, rule),
        _ => false,
    }
}

/// The premise-number sets held by a list of row dependencies.
pub open spec fn dep_sets(deps: Seq<RowDependency>) -> Seq<Set<usize>> {
    Seq::new(deps.len(), |j: int| deps[j].num_set())
}

/// One validity flag per row, each agreeing with the specification.
pub open spec fn valid_match(
    rows: Seq<(Seq<char>, Seq<char>)>,
    dsets: Seq<Set<usize>>,
    valids: Seq<bool>,
) -> bool {
    valids.len() == rows.len() && forall|i: int|
        0 <= i < valids.len() ==> valids[i] == spec_valid_at(rows, dsets, i)
}

/// The parse results of every row, in order: what each row's texts stand
/// for, ready for citation lookups.
pub open spec fn items_ok(
    rows: Seq<(Seq<char>, Seq<char>)>,
    items: Seq<(Option<Exp>, Option<Rule>)>,
) -> bool {
    &&& items.len() == rows.len()
    &&& forall|j: int|
        0 <= j < items.len() ==> match (#[trigger] items[j]).0 {
            Some(e) => spec_parse_exp(rows[j].0) == Some(e@),
            None => spec_parse_exp(rows[j].0) is None,
        }
    &&& forall|j: int| 0 <= j < items.len() ==> (#[trigger] items[j]).1 == spec_parse_rule(
        rows[j].1,
    )
}

/// The formula of cited row `k`, looked up among the parse results.
fn get_exp<'a>(
    items: &'a Vec<(Option<Exp>, Option<Rule>)>,
    k: usize,
    Ghost(rows): Ghost<Seq<(Seq<char>, Seq<char>)>>,
) -> (r: Option<&'a Exp>)
    requires
        items_ok(rows, items@),
    ensures
        match r {
            Some(e) => item_exp(rows, k) == Some(e@),
            None => item_exp(rows, k) is None,
        },
{
    if 1 <= k && k <= items.len() {
        match &items[k - 1].0 {
            Some(e) => Some(e),
            None => None,
        }
    } else {
        None
    }
}

/// The citation of cited row `k`, looked up among the parse results.
fn get_rule(
    items: &Vec<(Option<Exp>, Option<Rule>)>,
    k: usize,
    Ghost(rows): Ghost<Seq<(Seq<char>, Seq<char>)>>,
) -> (r: Option<Rule>)
    requires
        items_ok(rows, items@),
    ensures
        r == item_rule(rows, k),
{
    if 1 <= k && k <= items.len() {
        items[k - 1].1
    } else {
        None
    }
}

/// In a finite set of one element, any member is the chosen one.
proof fn lemma_singleton_choose(d: Set<Seq<char>>, x: Seq<char>)
    requires
        d.finite(),
        d.len() == 1,
        d.contains(x),
    ensures
        d.choose() == x,
{
    let c = d.choose();
    assert(d.contains(c));
    if c != x {
        assert(d.remove(x).contains(c));
        assert(d.remove(x).len() == 0);
        d.remove(x).lemma_len0_is_empty();
        assert(false);
    }
}

/// The one name of a duplicate-free list, when it holds exactly one.
fn one_name(v: &Vec<String>) -> (r: Option<String>)
    requires
        v.deep_view().no_duplicates(),
    ensures
        match r {
            Some(b) => v.deep_view().to_set().finite() && v.deep_view().to_set().len() == 1
                && v.deep_view().to_set().choose() == b@,
            None => !(v.deep_view().to_set().finite() && v.deep_view().to_set().len() == 1),
        },
{
    broadcast use vstd::seq_lib::seq_to_set_is_finite;

    if v.len() == 1 {
        let b = v[0].clone();
        proof {
            v.deep_view().unique_seq_to_set();
            assert(v.deep_view().to_set().contains(v.deep_view()[0]));
            lemma_singleton_choose(v.deep_view().to_set(), v.deep_view()[0]);
        }
        Some(b)
    } else {
        proof {
            v.deep_view().unique_seq_to_set();
        }
        None
    }
}

/// The names of `a` that do not occur in `b`.
fn diff_names(a: &Vec<String>, b: &Vec<String>) -> (r: Vec<String>)
    ensures
        r.deep_view().to_set() == a.deep_view().to_set().difference(b.deep_view().to_set()),
        r.deep_view().no_duplicates(),
{
    broadcast use Seq::<Seq<char>>::lemma_push_to_set_commute;

    let mut r: Vec<String> = Vec::new();
    let mut i: usize = 0;
    while i < a.len()
        invariant
            i <= a@.len(),
            r.deep_view().to_set() =~= a.deep_view().subrange(0, i as int).to_set().difference(
                b.deep_view().to_set(),
            ),
            r.deep_view().no_duplicates(),
        decreases a@.len() - i,
    {
        let ghost prefix = a.deep_view().subrange(0, i as int);
        if !contains_string(b, a[i].as_str()) {
            crate::util::dedup_push(&mut r, &a[i]);
        }
        proof {
            assert(a.deep_view().subrange(0, i + 1 as int) =~= prefix.push(
                a.deep_view()[i as int],
            ));
            prefix.lemma_push_to_set_commute(a.deep_view()[i as int]);
            assert(r.deep_view().to_set() =~= a.deep_view().subrange(
                0,
                i + 1 as int,
            ).to_set().difference(b.deep_view().to_set()));
        }
        i += 1;
    }
    proof {
        assert(a.deep_view().subrange(0, a@.len() as int) =~= a.deep_view());
    }
    r
}

/// Whether some premise among `dep`'s numbers (other than `skip`) blocks
/// the eigenvariable `beta`.
fn eigen_violated(
    items: &Vec<(Option<Exp>, Option<Rule>)>,
    dep: &RowDependency,
    beta: &String,
    skip: Option<usize>,
    Ghost(rows): Ghost<Seq<(Seq<char>, Seq<char>)>>,
) -> (r: bool)
    requires
        items_ok(rows, items@),
    ensures
        r == exists|nd: usize|
            #[trigger] dep.num_set().contains(nd) && (match skip {
                Some(l) => nd != l,
                None => true,
            }) && eig_bad(rows, nd, beta@),
{
    let mut j: usize = 0;
    while j < dep.nums.len()
        invariant
            j <= dep.nums@.len(),
            items_ok(rows, items@),
            forall|jj: int|
                0 <= jj < j ==> !((match skip {
                    Some(l) => #[trigger] dep.nums@[jj] != l,
                    None => true,
                }) && eig_bad(rows, dep.nums@[jj], beta@)),
        decreases dep.nums@.len() - j,
    {
        let nd = dep.nums[j];
        let skip_this = match skip {
            Some(l) => nd == l,
            None => false,
        };
        if !skip_this {
            match get_exp(items, nd, Ghost(rows)) {
                None => {
                    proof {
                        assert(dep.num_set().contains(nd));
                    }
                    return true;
                }
                Some(f) => {
                    let fv = f.free_variables();
                    if contains_string(&fv, beta.as_str()) {
                        proof {
                            assert(dep.num_set().contains(nd));
                            assert(f@.free_vars().contains(beta@));
                        }
                        return true;
                    }
                }
            }
        }
        j += 1;
    }
    proof {
        assert forall|nd: usize|
            #[trigger] dep.num_set().contains(nd) implies !((match skip {
            Some(l) => nd != l,
            None => true,
        }) && eig_bad(rows, nd, beta@)) by {
            let jj = choose|jj: int| 0 <= jj < dep.nums@.len() && dep.nums@[jj] == nd;
            assert(dep.nums@[jj] == nd);
        }
    }
    false
}

/// Checks conjunction introduction.
fn check_and_intro(
    items: &Vec<(Option<Exp>, Option<Rule>)>,
    e_row: &Exp,
    k: usize,
    l: usize,
    Ghost(rows): Ghost<Seq<(Seq<char>, Seq<char>)>>,
) -> (r: bool)
    requires
        items_ok(rows, items@),
    ensures
        r == spec_valid_and_intro(rows, e_row@, k, l),
{
    match get_exp(items, k, Ghost(rows)) {
        None => false,
        Some(ek) => match get_exp(items, l, Ghost(rows)) {
            None => false,
            Some(el) => match e_row {
                Exp::And { lhs, rhs } => **lhs == *ek && **rhs == *el,
                _ => false,
            },
        },
    }
}

/// Checks conjunction elimination.
fn check_and_exclude(
    items: &Vec<(Option<Exp>, Option<Rule>)>,
    e_row: &Exp,
    k: usize,
    Ghost(rows): Ghost<Seq<(Seq<char>, Seq<char>)>>,
) -> (r: bool)
    requires
        items_ok(rows, items@),
    ensures
        r == spec_valid_and_exclude(rows, e_row@, k),
{
    match get_exp(items, k, Ghost(rows)) {
        None => false,
        Some(ek) => match ek {
            Exp::And { lhs, rhs } => *e_row == **lhs || *e_row == **rhs,
            _ => false,
        },
    }
}

/// Checks disjunction introduction from one line.
fn check_or_intro_single(
    items: &Vec<(Option<Exp>, Option<Rule>)>,
    e_row: &Exp,
    k: usize,
    Ghost(rows): Ghost<Seq<(Seq<char>, Seq<char>)>>,
) -> (r: bool)
    requires
        items_ok(rows, items@),
    ensures
        r == spec_valid_or_intro_single(rows, e_row@, k),
{
    match get_exp(items, k, Ghost(rows)) {
        None => false,
        Some(ek) => match e_row {
            Exp::Or { lhs, rhs } => *ek == **lhs || *ek == **rhs,
            _ => false,
        },
    }
}

/// Checks disjunction introduction from two lines.
fn check_or_intro_pair(
    items: &Vec<(Option<Exp>, Option<Rule>)>,
    e_row: &Exp,
    k: usize,
    l: usize,
    Ghost(rows): Ghost<Seq<(Seq<char>, Seq<char>)>>,
) -> (r: bool)
    requires
        items_ok(rows, items@),
    ensures
        r == spec_valid_or_intro_pair(rows, e_row@, k, l),
{
    match get_exp(items, k, Ghost(rows)) {
        None => false,
        Some(ek) => match get_exp(items, l, Ghost(rows)) {
            None => false,
            Some(el) => match e_row {
                Exp::Or { lhs, rhs } => (*ek == **lhs && *el == **rhs) || (*ek == **rhs && *el
                    == **lhs),
                _ => false,
            },
        },
    }
}

/// Checks disjunction elimination.
fn check_or_exclude(
    items: &Vec<(Option<Exp>, Option<Rule>)>,
    e_row: &Exp,
    k: usize,
    l0: usize,
    l1: usize,
    m0: usize,
    m1: usize,
    Ghost(rows): Ghost<Seq<(Seq<char>, Seq<char>)>>,
) -> (r: bool)
    requires
        items_ok(rows, items@),
    ensures
        r == spec_valid_or_exclude(rows, e_row@, k, l0, l1, m0, m1),
{
    let ek = match get_exp(items, k, Ghost(rows)) {
        Some(e) => e,
        None => {
            return false;
        }
    };
    let el0 = match get_exp(items, l0, Ghost(rows)) {
        Some(e) => e,
        None => {
            return false;
        }
    };
    let rl0 = match get_rule(items, l0, Ghost(rows)) {
        Some(r) => r,
        None => {
            return false;
        }
    };
    let el1 = match get_exp(items, l1, Ghost(rows)) {
        Some(e) => e,
        None => {
            return false;
        }
    };
    let em0 = match get_exp(items, m0, Ghost(rows)) {
        Some(e) => e,
        None => {
            return false;
        }
    };
    let rm0 = match get_rule(items, m0, Ghost(rows)) {
        Some(r) => r,
        None => {
            return false;
        }
    };
    let em1 = match get_exp(items, m1, Ghost(rows)) {
        Some(e) => e,
        None => {
            return false;
        }
    };
    match ek {
        Exp::Or { lhs, rhs } => {
            let premises = matches!(rl0, Rule::Premise) && matches!(rm0, Rule::Premise);
            let pair_eq = (**lhs == *el0 && **rhs == *em0) || (**lhs == *em0 && **rhs == *el0);
            premises && pair_eq && *e_row == *el1 && *e_row == *em1
        }
        _ => false,
    }
}

/// Checks conditional introduction with a discharged assumption.
fn check_if_intro_opened(
    items: &Vec<(Option<Exp>, Option<Rule>)>,
    e_row: &Exp,
    k0: usize,
    k1: usize,
    Ghost(rows): Ghost<Seq<(Seq<char>, Seq<char>)>>,
) -> (r: bool)
    requires
        items_ok(rows, items@),
    ensures
        r == spec_valid_if_intro_opened(rows, e_row@, k0, k1),
{
    let ek0 = match get_exp(items, k0, Ghost(rows)) {
        Some(e) => e,
        None => {
            return false;
        }
    };
    let rk0 = match get_rule(items, k0, Ghost(rows)) {
        Some(r) => r,
        None => {
            return false;
        }
    };
    let ek1 = match get_exp(items, k1, Ghost(rows)) {
        Some(e) => e,
        None => {
            return false;
        }
    };
    match e_row {
        Exp::Cond { antecedent, consequent } => matches!(rk0, Rule::Premise) && **antecedent
            == *ek0 && **consequent == *ek1,
        _ => false,
    }
}

/// Checks vacuous conditional introduction.
fn check_if_intro_vacuous(
    items: &Vec<(Option<Exp>, Option<Rule>)>,
    e_row: &Exp,
    k: usize,
    Ghost(rows): Ghost<Seq<(Seq<char>, Seq<char>)>>,
) -> (r: bool)
    requires
        items_ok(rows, items@),
    ensures
        r == spec_valid_if_intro_vacuous(rows, e_row@, k),
{
    match get_exp(items, k, Ghost(rows)) {
        None => false,
        Some(ek) => match e_row {
            Exp::Cond { antecedent, consequent } => **consequent == *ek,
            _ => false,
        },
    }
}

/// Checks conditional elimination.
fn check_if_exclude(
    items: &Vec<(Option<Exp>, Option<Rule>)>,
    e_row: &Exp,
    k: usize,
    l: usize,
    Ghost(rows): Ghost<Seq<(Seq<char>, Seq<char>)>>,
) -> (r: bool)
    requires
        items_ok(rows, items@),
    ensures
        r == spec_valid_if_exclude(rows, e_row@, k, l),
{
    let ek = match get_exp(items, k, Ghost(rows)) {
        Some(e) => e,
        None => {
            return false;
        }
    };
    let el = match get_exp(items, l, Ghost(rows)) {
        Some(e) => e,
        None => {
            return false;
        }
    };
    let falsum_pair = if matches!(e_row, Exp::Falsum) {
        let neg_k = ek.negated();
        let neg_l = el.negated();
        neg_k == *el || *ek == neg_l
    } else {
        false
    };
    let modus_ponens = match ek {
        Exp::Cond { antecedent, consequent } => **antecedent == *el && **consequent == *e_row,
        _ => false,
    };
    falsum_pair || modus_ponens
}

/// Checks biconditional introduction.
fn check_iff_intro(
    items: &Vec<(Option<Exp>, Option<Rule>)>,
    e_row: &Exp,
    k: usize,
    l: usize,
    Ghost(rows): Ghost<Seq<(Seq<char>, Seq<char>)>>,
) -> (r: bool)
    requires
        items_ok(rows, items@),
    ensures
        r == spec_valid_iff_intro(rows, e_row@, k, l),
{
    let ek = match get_exp(items, k, Ghost(rows)) {
        Some(e) => e,
        None => {
            return false;
        }
    };
    let el = match get_exp(items, l, Ghost(rows)) {
        Some(e) => e,
        None => {
            return false;
        }
    };
    match (e_row, ek, el) {
        (
            Exp::Iff { lhs, rhs },
            Exp::Cond { antecedent: ka, consequent: kc },
            Exp::Cond { antecedent: la, consequent: lc },
        ) => {
            let pair_eq = (**lhs == **ka && **rhs == **kc) || (**lhs == **kc && **rhs == **ka);
            pair_eq && **ka == **lc && **kc == **la
        }
        _ => false,
    }
}

/// Checks biconditional elimination.
fn check_iff_exclude(
    items: &Vec<(Option<Exp>, Option<Rule>)>,
    e_row: &Exp,
    k: usize,
    Ghost(rows): Ghost<Seq<(Seq<char>, Seq<char>)>>,
) -> (r: bool)
    requires
        items_ok(rows, items@),
    ensures
        r == spec_valid_iff_exclude(rows, e_row@, k),
{
    match get_exp(items, k, Ghost(rows)) {
        None => false,
        Some(ek) => match (e_row, ek) {
            (Exp::Cond { antecedent, consequent }, Exp::Iff { lhs, rhs }) => (**antecedent
                == **lhs && **consequent == **rhs) || (**antecedent == **rhs && **consequent
                == **lhs),
            _ => false,
        },
    }
}

/// Checks ex falso.
fn check_falsum(
    items: &Vec<(Option<Exp>, Option<Rule>)>,
    k: usize,
    Ghost(rows): Ghost<Seq<(Seq<char>, Seq<char>)>>,
) -> (r: bool)
    requires
        items_ok(rows, items@),
    ensures
        r == spec_valid_falsum(rows, k),
{
    match get_exp(items, k, Ghost(rows)) {
        None => false,
        Some(ek) => matches!(ek, Exp::Falsum),
    }
}

/// Checks negation introduction.
fn check_neg_intro(
    items: &Vec<(Option<Exp>, Option<Rule>)>,
    e_row: &Exp,
    k0: usize,
    k1: usize,
    Ghost(rows): Ghost<Seq<(Seq<char>, Seq<char>)>>,
) -> (r: bool)
    requires
        items_ok(rows, items@),
    ensures
        r == spec_valid_neg_intro(rows, e_row@, k0, k1),
{
    let ek0 = match get_exp(items, k0, Ghost(rows)) {
        Some(e) => e,
        None => {
            return false;
        }
    };
    let ek1 = match get_exp(items, k1, Ghost(rows)) {
        Some(e) => e,
        None => {
            return false;
        }
    };
    match (e_row, ek1) {
        (Exp::Neg(inner), Exp::Falsum) => **inner == *ek0,
        _ => false,
    }
}

/// Checks negation elimination.
fn check_neg_exclude(
    items: &Vec<(Option<Exp>, Option<Rule>)>,
    e_row: &Exp,
    k0: usize,
    k1: usize,
    Ghost(rows): Ghost<Seq<(Seq<char>, Seq<char>)>>,
) -> (r: bool)
    requires
        items_ok(rows, items@),
    ensures
        r == spec_valid_neg_exclude(rows, e_row@, k0, k1),
{
    let ek0 = match get_exp(items, k0, Ghost(rows)) {
        Some(e) => e,
        None => {
            return false;
        }
    };
    let ek1 = match get_exp(items, k1, Ghost(rows)) {
        Some(e) => e,
        None => {
            return false;
        }
    };
    match (ek0, ek1) {
        (Exp::Neg(inner), Exp::Falsum) => *e_row == **inner,
        _ => false,
    }
}

/// Checks universal introduction, eigenvariable condition included.
fn check_univ_intro(
    items: &Vec<(Option<Exp>, Option<Rule>)>,
    deps_list: &Vec<RowDependency>,
    e_row: &Exp,
    k: usize,
    Ghost(rows): Ghost<Seq<(Seq<char>, Seq<char>)>>,
    Ghost(dsets): Ghost<Seq<Set<usize>>>,
) -> (r: bool)
    requires
        items_ok(rows, items@),
        dsets == dep_sets(deps_list@),
    ensures
        r == spec_valid_univ_intro(rows, dsets, e_row@, k),
{
    let ek = match get_exp(items, k, Ghost(rows)) {
        Some(e) => e,
        None => {
            return false;
        }
    };
    match e_row {
        Exp::UnivGenr { variable, form } => {
            let fv_k = ek.free_variables();
            let fv_form = form.free_variables();
            let d = diff_names(&fv_k, &fv_form);
            match one_name(&d) {
                None => false,
                Some(beta) => {
                    if 1 <= k && k <= deps_list.len() {
                        let dep = &deps_list[k - 1];
                        proof {
                            assert(dep.num_set() == dsets[k as int - 1]);
                        }
                        if eigen_violated(items, dep, &beta, None, Ghost(rows)) {
                            false
                        } else {
                            let rep = form.var_replaced(variable.as_str(), beta.as_str());
                            rep == *ek
                        }
                    } else {
                        false
                    }
                }
            }
        }
        _ => false,
    }
}

/// Checks universal elimination.
fn check_univ_exclude(
    items: &Vec<(Option<Exp>, Option<Rule>)>,
    e_row: &Exp,
    k: usize,
    Ghost(rows): Ghost<Seq<(Seq<char>, Seq<char>)>>,
) -> (r: bool)
    requires
        items_ok(rows, items@),
    ensures
        r == spec_valid_univ_exclude(rows, e_row@, k),
{
    let ek = match get_exp(items, k, Ghost(rows)) {
        Some(e) => e,
        None => {
            return false;
        }
    };
    match ek {
        Exp::UnivGenr { variable, form } => {
            let fv_row = e_row.free_variables();
            let fv_form = form.free_variables();
            let d = diff_names(&fv_row, &fv_form);
            match one_name(&d) {
                None => false,
                Some(beta) => {
                    let rep = form.var_replaced(variable.as_str(), beta.as_str());
                    rep == *e_row
                }
            }
        }
        _ => false,
    }
}

/// Checks existential introduction.
fn check_exis_intro(
    items: &Vec<(Option<Exp>, Option<Rule>)>,
    e_row: &Exp,
    k: usize,
    Ghost(rows): Ghost<Seq<(Seq<char>, Seq<char>)>>,
) -> (r: bool)
    requires
        items_ok(rows, items@),
    ensures
        r == spec_valid_exis_intro(rows, e_row@, k),
{
    let ek = match get_exp(items, k, Ghost(rows)) {
        Some(e) => e,
        None => {
            return false;
        }
    };
    match e_row {
        Exp::ExistGenr { variable, form } => {
            let fv_k = ek.free_variables();
            let fv_form = form.free_variables();
            let d = diff_names(&fv_k, &fv_form);
            match one_name(&d) {
                None => false,
                Some(beta) => {
                    let rep = form.var_replaced(variable.as_str(), beta.as_str());
                    rep == *ek
                }
            }
        }
        _ => false,
    }
}

/// Checks existential elimination, eigenvariable condition included.
fn check_exis_exclude(
    items: &Vec<(Option<Exp>, Option<Rule>)>,
    deps_list: &Vec<RowDependency>,
    e_row: &Exp,
    k: usize,
    l: usize,
    m: usize,
    Ghost(rows): Ghost<Seq<(Seq<char>, Seq<char>)>>,
    Ghost(dsets): Ghost<Seq<Set<usize>>>,
) -> (r: bool)
    requires
        items_ok(rows, items@),
        dsets == dep_sets(deps_list@),
    ensures
        r == spec_valid_exis_exclude(rows, dsets, e_row@, k, l, m),
{
    let ek = match get_exp(items, k, Ghost(rows)) {
        Some(e) => e,
        None => {
            return false;
        }
    };
    let el = match get_exp(items, l, Ghost(rows)) {
        Some(e) => e,
        None => {
            return false;
        }
    };
    let rl = match get_rule(items, l, Ghost(rows)) {
        Some(r) => r,
        None => {
            return false;
        }
    };
    let em = match get_exp(items, m, Ghost(rows)) {
        Some(e) => e,
        None => {
            return false;
        }
    };
    match ek {
        Exp::ExistGenr { variable, form } => {
            if !matches!(rl, Rule::Premise) {
                return false;
            }
            let fv_l = el.free_variables();
            let fv_form = form.free_variables();
            let fv_m = em.free_variables();
            let d0 = diff_names(&fv_l, &fv_form);
            let d = diff_names(&d0, &fv_m);
            match one_name(&d) {
                None => false,
                Some(beta) => {
                    if 1 <= m && m <= deps_list.len() {
                        let dep = &deps_list[m - 1];
                        proof {
                            assert(dep.num_set() == dsets[m as int - 1]);
                        }
                        if eigen_violated(items, dep, &beta, Some(l), Ghost(rows)) {
                            false
                        } else {
                            let rep = form.var_replaced(variable.as_str(), beta.as_str());
                            rep == *el && *em == *e_row
                        }
                    } else {
                        false
                    }
                }
            }
        }
        _ => false,
    }
}

/// Dispatches the structural check for one parsed row and citation.
fn check_rule(
    items: &Vec<(Option<Exp>, Option<Rule>)>,
    deps_list: &Vec<RowDependency>,
    e_row: &Exp,
    rule: Rule,
    Ghost(rows): Ghost<Seq<(Seq<char>, Seq<char>)>>,
    Ghost(dsets): Ghost<Seq<Set<usize>>>,
) -> (r: bool)
    requires
        items_ok(rows, items@),
        dsets == dep_sets(deps_list@),
    ensures
        r == spec_valid_dispatch(rows, dsets, e_row@, rule),
{
    match rule {
        Rule::Premise => true,
        Rule::AndIntro(k, l) => check_and_intro(items, e_row, k, l, Ghost(rows)),
        Rule::AndExclude(k) => check_and_exclude(items, e_row, k, Ghost(rows)),
        Rule::OrIntro(k, l_opt) => match l_opt {
            None => check_or_intro_single(items, e_row, k, Ghost(rows)),
            Some(l) => check_or_intro_pair(items, e_row, k, l, Ghost(rows)),
        },
        Rule::OrExclude(k, range_l, range_m) => check_or_exclude(
            items,
            e_row,
            k,
            range_l.0,
            range_l.1,
            range_m.0,
            range_m.1,
            Ghost(rows),
        ),
        Rule::IfIntro(range) => match range.0 {
            Some(k0) => check_if_intro_opened(items, e_row, k0, range.1, Ghost(rows)),
            None => check_if_intro_vacuous(items, e_row, range.1, Ghost(rows)),
        },
        Rule::IfExclude(k, l) => check_if_exclude(items, e_row, k, l, Ghost(rows)),
        Rule::IffIntro(k, l) => check_iff_intro(items, e_row, k, l, Ghost(rows)),
        Rule::IffExclude(k) => check_iff_exclude(items, e_row, k, Ghost(rows)),
        Rule::Falsum(k) => check_falsum(items, k, Ghost(rows)),
        Rule::NegIntro(range) => check_neg_intro(items, e_row, range.0, range.1, Ghost(rows)),
        Rule::NegExclude(range) => check_neg_exclude(items, e_row, range.0, range.1, Ghost(rows)),
        Rule::UnivQuntIntro(k) => check_univ_intro(
            items,
            deps_list,
            e_row,
            k,
            Ghost(rows),
            Ghost(dsets),
        ),
        Rule::UnivQuntExclude(k) => check_univ_exclude(items, e_row, k, Ghost(rows)),
        Rule::ExisQuntIntro(k) => check_exis_intro(items, e_row, k, Ghost(rows)),
        Rule::ExisQuntExclude(k, range) => check_exis_exclude(
            items,
            deps_list,
            e_row,
            k,
            range.0,
            range.1,
            Ghost(rows),
            Ghost(dsets),
        ),
    }
}

/// The checker state: the rows as typed, and the premise-number sets and
/// rule-validity flags computed from them.
pub struct State {
    pub rows: Vec<Row>,
    pub focused_idx: Option<usize>,
    pub deps_list: Vec<RowDependency>,
    pub rule_vaildity_list: Vec<bool>,
}

impl State {
    /// The premise-number set of every row, first to last.
    pub fn get_deps_for_rows(&self) -> (r: Vec<RowDependency>)
        ensures
            deps_match(row_texts(self.rows@), r@),
    {
        let ghost rows = row_texts(self.rows@);
        let mut acc: Vec<RowDependency> = Vec::new();
        let mut idx: usize = 0;
        while idx < self.rows.len()
            invariant
                idx <= self.rows@.len(),
                acc@.len() == idx,
                rows == row_texts(self.rows@),
                deps_agree(rows, acc@),
            decreases self.rows@.len() - idx,
        {
            proof {
                assert(rows[idx as int] == self.rows@[idx as int]@);
            }
            let dep = match parse_rule(self.rows[idx].derivation.as_str()) {
                Err(_) => RowDependency::new_incomplete(),
                Ok(rule) => match rule {
                    Rule::Premise => {
                        let d = RowDependency::init_from([idx + 1]);
                        proof {
                            assert([idx + 1]@.to_set() =~= Set::empty().insert(idx + 1));
                        }
                        d
                    }
                    Rule::AndIntro(k, l) => join_ref(
                        join_ref(RowDependency::new(), &acc, k, Ghost(rows)),
                        &acc,
                        l,
                        Ghost(rows),
                    ),
                    Rule::AndExclude(k) => join_ref(
                        RowDependency::new(),
                        &acc,
                        k,
                        Ghost(rows),
                    ),
                    Rule::OrIntro(k, l_opt) => {
                        let base = join_ref(RowDependency::new(), &acc, k, Ghost(rows));
                        match l_opt {
                            Some(l) => join_ref(base, &acc, l, Ghost(rows)),
                            None => base,
                        }
                    }
                    Rule::OrExclude(k, range_l, range_m) => {
                        let d = join_ref(
                            join_ref(
                                join_ref(RowDependency::new(), &acc, k, Ghost(rows)),
                                &acc,
                                range_l.1,
                                Ghost(rows),
                            ),
                            &acc,
                            range_m.1,
                            Ghost(rows),
                        );
                        d.without(range_l.0).without(range_m.0)
                    }
                    Rule::IfIntro(range) => {
                        let d = join_ref(RowDependency::new(), &acc, range.1, Ghost(rows));
                        match range.0 {
                            Some(k0) => d.without(k0),
                            None => d,
                        }
                    }
                    Rule::IfExclude(k, l) => join_ref(
                        join_ref(RowDependency::new(), &acc, k, Ghost(rows)),
                        &acc,
                        l,
                        Ghost(rows),
                    ),
                    Rule::IffIntro(k, l) => join_ref(
                        join_ref(RowDependency::new(), &acc, k, Ghost(rows)),
                        &acc,
                        l,
                        Ghost(rows),
                    ),
                    Rule::IffExclude(k) => join_ref(RowDependency::new(), &acc, k, Ghost(rows)),
                    Rule::Falsum(k) => join_ref(RowDependency::new(), &acc, k, Ghost(rows)),
                    Rule::NegIntro(range) => {
                        let d = join_ref(RowDependency::new(), &acc, range.1, Ghost(rows));
                        d.without(range.0)
                    }
                    Rule::NegExclude(range) => {
                        let d = join_ref(RowDependency::new(), &acc, range.1, Ghost(rows));
                        d.without(range.0)
                    }
                    Rule::UnivQuntIntro(k) => join_ref(
                        RowDependency::new(),
                        &acc,
                        k,
                        Ghost(rows),
                    ),
                    Rule::UnivQuntExclude(k) => join_ref(
                        RowDependency::new(),
                        &acc,
                        k,
                        Ghost(rows),
                    ),
                    Rule::ExisQuntIntro(k) => join_ref(
                        RowDependency::new(),
                        &acc,
                        k,
                        Ghost(rows),
                    ),
                    Rule::ExisQuntExclude(k, range) => {
                        let d = join_ref(
                            join_ref(RowDependency::new(), &acc, k, Ghost(rows)),
                            &acc,
                            range.1,
                            Ghost(rows),
                        );
                        d.without(range.0)
                    }
                },
            };
            proof {
                assert(dep.is_complete == spec_dep_at(rows, idx as int).0);
                assert(dep.num_set() == spec_dep_at(rows, idx as int).1);
            }
            acc.push(dep);
            idx += 1;
        }
        acc
    }
}

/// The computed lists agree with what the row texts dictate.
pub open spec fn state_inv(s: &State) -> bool {
    &&& deps_match(row_texts(s.rows@), s.deps_list@)
    &&& valid_match(row_texts(s.rows@), dep_sets(s.deps_list@), s.rule_vaildity_list@)
}

/// Both parse results of the empty text are failures.
proof fn lemma_empty_text_parses_to_nothing()
    ensures
        spec_parse_exp(Seq::<char>::empty()) is None,
        spec_parse_rule(Seq::<char>::empty()) is None,
{
    let t = Seq::<char>::empty();
    assert(crate::checker::parser::trimmed(t) =~= t);
    let u = crate::checker::parser::trimmed(t);
    assert(u.len() == 0);
    assert(crate::parser::expression::spec_atom_exp(u, 0) is None);
    assert(crate::parser::expression::spec_falsum_exp(u, 0) is None);
    assert(crate::parser::expression::spec_negate_exp(u, 0) is None);
    assert(crate::parser::expression::spec_exist_genr_exp(u, 0) is None);
    assert(crate::parser::expression::spec_univ_genr_exp(u, 0) is None);
    assert(crate::parser::expression::spec_genr_exp(u, 0) is None);
    assert(crate::parser::expression::spec_parenthesesed_exp(u, 0) is None);
    assert(crate::parser::expression::spec_f(u, 0) is None);
    assert(crate::parser::expression::spec_and_exp(u, 0) is None);
    assert(crate::parser::expression::spec_or_exp(u, 0) is None);
    assert(crate::parser::expression::spec_bool_exp(u, 0) is None);
    assert(crate::parser::expression::spec_if_exp(u, 0) is None);
    assert(crate::parser::expression::spec_iff_exp(u, 0) is None);
    assert(crate::parser::expression::spec_cond_exp(u, 0) is None);
    assert(crate::parser::rule::spec_rule(u, 0) is None);
}

impl State {
    /// The validity flag of every row, first to last, computed against the
    /// premise-number sets held in `deps_list`.
    pub fn get_rules_validity(&self) -> (r: Vec<bool>)
        ensures
            valid_match(row_texts(self.rows@), dep_sets(self.deps_list@), r@),
    {
        let ghost rows = row_texts(self.rows@);
        let ghost dsets = dep_sets(self.deps_list@);
        let mut items: Vec<(Option<Exp>, Option<Rule>)> = Vec::new();
        let mut idx: usize = 0;
        while idx < self.rows.len()
            invariant
                idx <= self.rows@.len(),
                items@.len() == idx,
                rows == row_texts(self.rows@),
                forall|j: int|
                    0 <= j < idx ==> match (#[trigger] items@[j]).0 {
                        Some(e) => spec_parse_exp(rows[j].0) == Some(e@),
                        None => spec_parse_exp(rows[j].0) is None,
                    },
                forall|j: int| 0 <= j < idx ==> (#[trigger] items@[j]).1 == spec_parse_rule(
                    rows[j].1,
                ),
            decreases self.rows@.len() - idx,
        {
            proof {
                assert(rows[idx as int] == self.rows@[idx as int]@);
            }
            let e = match parse_exp(self.rows[idx].sentence.as_str()) {
                Ok(e) => Some(e),
                Err(_) => None,
            };
            let ru = match parse_rule(self.rows[idx].derivation.as_str()) {
                Ok(r) => Some(r),
                Err(_) => None,
            };
            items.push((e, ru));
            idx += 1;
        }
        let mut out: Vec<bool> = Vec::new();
        let mut i: usize = 0;
        while i < self.rows.len()
            invariant
                i <= self.rows@.len(),
                out@.len() == i,
                rows == row_texts(self.rows@),
                dsets == dep_sets(self.deps_list@),
                items_ok(rows, items@),
                forall|ii: int| 0 <= ii < i ==> out@[ii] == spec_valid_at(rows, dsets, ii),
            decreases self.rows@.len() - i,
        {
            proof {
                assert(rows[i as int] == self.rows@[i as int]@);
            }
            let v = match &items[i].0 {
                None => false,
                Some(e_row) => match items[i].1 {
                    None => false,
                    Some(rule) => check_rule(
                        &items,
                        &self.deps_list,
                        e_row,
                        rule,
                        Ghost(rows),
                        Ghost(dsets),
                    ),
                },
            };
            proof {
                assert(v == spec_valid_at(rows, dsets, i as int));
            }
            out.push(v);
            i += 1;
        }
        out
    }

    /// Recomputes both lists from the rows: the premise-number sets first,
    /// then the validity flags against them.
    pub fn reload_computed_properties(&mut self)
        ensures
            final(self).rows@ == old(self).rows@,
            final(self).focused_idx == old(self).focused_idx,
            state_inv(final(self)),
    {
        let deps = self.get_deps_for_rows();
        self.deps_list = deps;
        let valids = self.get_rules_validity();
        self.rule_vaildity_list = valids;
    }

    /// The starting state: one empty row, which neither parses nor is
    /// valid.
    pub fn init() -> (r: Self)
        ensures
            r.rows@.len() == 1,
            r.rows@[0]@ == (Seq::<char>::empty(), Seq::<char>::empty()),
            r.focused_idx is None,
            r.deps_list@.len() == 1,
            !r.deps_list@[0].is_complete,
            r.deps_list@[0].num_set() == Set::<usize>::empty(),
            r.rule_vaildity_list@ == seq![false],
            state_inv(&r),
    {
        let mut rows: Vec<Row> = Vec::new();
        rows.push(Row { sentence: String::new(), derivation: String::new() });
        let mut deps: Vec<RowDependency> = Vec::new();
        deps.push(RowDependency::new_incomplete());
        let mut valids: Vec<bool> = Vec::new();
        valids.push(false);
        let st = State {
            rows,
            focused_idx: None,
            deps_list: deps,
            rule_vaildity_list: valids,
        };
        proof {
            lemma_empty_text_parses_to_nothing();
            let texts = row_texts(st.rows@);
            assert(texts[0] == st.rows@[0]@);
            assert(st.rule_vaildity_list@ =~= seq![false]);
            assert(spec_dep_at(texts, 0) == (false, Set::<usize>::empty()));
            assert(!spec_valid_at(texts, dep_sets(st.deps_list@), 0));
        }
        st
    }

    /// A state built from the given rows, with both lists computed.
    pub fn init_from(rows: Vec<Row>) -> (r: Self)
        ensures
            r.rows@ == rows@,
            r.focused_idx is None,
            state_inv(&r),
    {
        let mut state = State {
            rows,
            focused_idx: None,
            deps_list: Vec::new(),
            rule_vaildity_list: Vec::new(),
        };
        state.reload_computed_properties();
        state
    }
}

/// An editing step of the front end.
pub enum Action {
    /// Insert an empty row after 1-based position `after_num` (0 inserts at
    /// the top), renumbering citations past it.
    Add { after_num: usize },
    /// Replace the formula text of row `num` (1-based).
    ChangeSentence { num: usize, sentence: String },
    /// Replace the rule text of row `num` (1-based).
    ChangeDerivation { num: usize, derivation: String },
    /// Rewrite every row that parses in canonical form.
    Format,
    /// Move the focus.
    ChangeFocus { idx: Option<usize> },
}

/// A rule text with every maximal digit run whose value lies strictly
/// above `after` (and below the largest representable number) incremented
/// by one; all other characters stand unchanged.
pub open spec fn spec_renumber(t: Seq<char>, i: int, after: usize) -> Seq<char>
    decreases t.len() - i,
{
    if 0 <= i < t.len() {
        if is_digit_char(t[i]) {
            let e = digits_end(t, i);
            let v = digits_val(t, i, e);
            let run = t.subrange(i, e);
            let bumped: Seq<char> = if after < v && v < usize::MAX {
                dec_digits((v + 1) as nat)
            } else {
                run
            };
            if i < e <= t.len() {
                bumped + spec_renumber(t, e, after)
            } else {
                bumped
            }
        } else {
            seq![t[i]] + spec_renumber(t, i + 1, after)
        }
    } else {
        Seq::empty()
    }
}

/// Renumbers the citation text from position `i` on.
fn renumber_from(s: &str, i: usize, after: usize) -> (r: String)
    requires
        i <= s@.len(),
    ensures
        r@ == spec_renumber(s@, i as int, after),
    decreases s@.len() - i,
{
    let n = s.unicode_len();
    if i < n {
        let c = s.get_char(i);
        if crate::parser::util::is_digit(c) {
            let e = scan_digits(s, i);
            proof {
                lemma_digits_end(s@, i as int);
                assert(digits_end(s@, i as int) == digits_end(s@, i + 1 as int));
                lemma_digits_end(s@, i + 1 as int);
            }
            let bump = match digit_run_value(s, i, e) {
                Some(v) => {
                    if after < v && v < usize::MAX {
                        Some(v + 1)
                    } else {
                        None
                    }
                }
                None => None,
            };
            match bump {
                Some(v1) => {
                    let mut r = crate::util::num_to_string(v1);
                    let rest = renumber_from(s, e, after);
                    r.append(rest.as_str());
                    r
                }
                None => {
                    let mut r = s.substring_char(i, e).to_owned();
                    let rest = renumber_from(s, e, after);
                    r.append(rest.as_str());
                    r
                }
            }
        } else {
            let mut r = s.substring_char(i, i + 1).to_owned();
            let rest = renumber_from(s, i + 1, after);
            r.append(rest.as_str());
            proof {
                assert(r@ =~= seq![s@[i as int]] + spec_renumber(s@, i + 1 as int, after));
            }
            r
        }
    } else {
        let r = String::new();
        proof {
            assert(r@ =~= spec_renumber(s@, i as int, after));
        }
        r
    }
}

/// The sentence text a formatting pass leaves behind.
pub open spec fn fmt_sentence(t: Seq<char>) -> Seq<char> {
    match spec_parse_exp(t) {
        Some(f) => f.to_text(),
        None => t,
    }
}

/// The rule text a formatting pass leaves behind.
pub open spec fn fmt_derivation(t: Seq<char>) -> Seq<char> {
    match spec_parse_rule(t) {
        Some(r) => r.to_text(),
        None => t,
    }
}

/// Two dependency lists holding the same flags and numbers.
pub open spec fn deps_equiv(a: Seq<RowDependency>, b: Seq<RowDependency>) -> bool {
    a.len() == b.len() && forall|j: int|
        0 <= j < a.len() ==> (#[trigger] a[j]).is_complete == b[j].is_complete && a[j].nums@
            == b[j].nums@
}

/// A copy of a row vector with the same texts.
fn clone_rows(v: &Vec<Row>) -> (r: Vec<Row>)
    ensures
        row_texts(r@) == row_texts(v@),
        r@.len() == v@.len(),
{
    let mut r: Vec<Row> = Vec::new();
    let mut i: usize = 0;
    while i < v.len()
        invariant
            i <= v@.len(),
            r@.len() == i,
            forall|j: int| 0 <= j < i ==> (#[trigger] r@[j])@ == v@[j]@,
        decreases v@.len() - i,
    {
        r.push(v[i].clone());
        i += 1;
    }
    proof {
        assert(row_texts(r@) =~= row_texts(v@));
    }
    r
}

/// A copy of a dependency list with the same flags and numbers.
fn clone_deps(v: &Vec<RowDependency>) -> (r: Vec<RowDependency>)
    ensures
        deps_equiv(r@, v@),
{
    let mut r: Vec<RowDependency> = Vec::new();
    let mut i: usize = 0;
    while i < v.len()
        invariant
            i <= v@.len(),
            r@.len() == i,
            forall|j: int|
                0 <= j < i ==> (#[trigger] r@[j]).is_complete == v@[j].is_complete && r@[j].nums@
                    == v@[j].nums@,
        decreases v@.len() - i,
    {
        r.push(v[i].clone());
        i += 1;
    }
    r
}

/// A copy of a flag vector.
fn clone_bools(v: &Vec<bool>) -> (r: Vec<bool>)
    ensures
        r@ == v@,
{
    let mut r: Vec<bool> = Vec::new();
    let mut i: usize = 0;
    while i < v.len()
        invariant
            i <= v@.len(),
            r@ =~= v@.subrange(0, i as int),
        decreases v@.len() - i,
    {
        r.push(v[i]);
        i += 1;
    }
    proof {
        assert(v@.subrange(0, v@.len() as int) =~= v@);
    }
    r
}

impl State {
    /// Applies one editing step and returns the next state.
    ///
    /// Inserting keeps every position in range; replacing a text names a
    /// 1-based row. The steps that keep a computed list instead of
    /// recomputing it stay consistent: the laws of the crate show that a
    /// sentence edit leaves every premise-number set right
    /// (`lemma_sentence_edits_keep_premise_sets`) and that a formatting
    /// pass leaves both lists right (`lemma_format_keeps_checker_results`,
    /// via `lemma_fmt_sentence_stable` and `lemma_fmt_derivation_stable`).
    pub fn reduce(&self, action: Action) -> (r: State)
        requires
            match action {
                Action::Add { after_num } => after_num <= self.rows@.len() && self.rows@.len()
                    < usize::MAX,
                Action::ChangeSentence { num, .. } => num >= 1,
                Action::ChangeDerivation { num, .. } => num >= 1,
                _ => true,
            },
        ensures
            match action {
                Action::Add { after_num } => {
                    &&& r.rows@.len() == self.rows@.len() + 1
                    &&& forall|j: int|
                        0 <= j < after_num ==> (#[trigger] r.rows@[j])@.0 == self.rows@[j]@.0
                            && r.rows@[j]@.1 == spec_renumber(self.rows@[j]@.1, 0, after_num)
                    &&& r.rows@[after_num as int]@ == (Seq::<char>::empty(), Seq::<char>::empty())
                    &&& forall|j: int|
                        after_num < j < r.rows@.len() ==> (#[trigger] r.rows@[j])@.0
                            == self.rows@[j - 1]@.0 && r.rows@[j]@.1 == spec_renumber(
                            self.rows@[j - 1]@.1,
                            0,
                            after_num,
                        )
                    &&& r.focused_idx == self.focused_idx
                    &&& state_inv(&r)
                },
                Action::ChangeSentence { num, sentence } => {
                    &&& r.rows@.len() == self.rows@.len()
                    &&& forall|j: int|
                        0 <= j < r.rows@.len() && j != num - 1 ==> (#[trigger] r.rows@[j])@
                            == self.rows@[j]@
                    &&& num - 1 < r.rows@.len() ==> r.rows@[num - 1]@ == (
                        sentence@,
                        self.rows@[num - 1]@.1,
                    )
                    &&& r.focused_idx == self.focused_idx
                    &&& deps_equiv(r.deps_list@, self.deps_list@)
                    &&& valid_match(
                        row_texts(r.rows@),
                        dep_sets(r.deps_list@),
                        r.rule_vaildity_list@,
                    )
                },
                Action::ChangeDerivation { num, derivation } => {
                    &&& r.rows@.len() == self.rows@.len()
                    &&& forall|j: int|
                        0 <= j < r.rows@.len() && j != num - 1 ==> (#[trigger] r.rows@[j])@
                            == self.rows@[j]@
                    &&& num - 1 < r.rows@.len() ==> r.rows@[num - 1]@ == (
                        self.rows@[num - 1]@.0,
                        derivation@,
                    )
                    &&& r.focused_idx == self.focused_idx
                    &&& state_inv(&r)
                },
                Action::Format => {
                    &&& r.rows@.len() == self.rows@.len()
                    &&& forall|j: int|
                        0 <= j < r.rows@.len() ==> (#[trigger] r.rows@[j])@ == (
                            fmt_sentence(self.rows@[j]@.0),
                            fmt_derivation(self.rows@[j]@.1),
                        )
                    &&& r.focused_idx == self.focused_idx
                    &&& deps_equiv(r.deps_list@, self.deps_list@)
                    &&& r.rule_vaildity_list@ == self.rule_vaildity_list@
                },
                Action::ChangeFocus { idx } => {
                    &&& row_texts(r.rows@) == row_texts(self.rows@)
                    &&& r.focused_idx == idx
                    &&& deps_equiv(r.deps_list@, self.deps_list@)
                    &&& r.rule_vaildity_list@ == self.rule_vaildity_list@
                },
            },
    {
        match action {
            Action::Add { after_num } => {
                let mut rows: Vec<Row> = Vec::new();
                let mut i: usize = 0;
                while i < self.rows.len()
                    invariant
                        i <= self.rows@.len(),
                        rows@.len() == i,
                        forall|j: int|
                            0 <= j < i ==> (#[trigger] rows@[j])@.0 == self.rows@[j]@.0
                                && rows@[j]@.1 == spec_renumber(self.rows@[j]@.1, 0, after_num),
                    decreases self.rows@.len() - i,
                {
                    let derivation = renumber_from(self.rows[i].derivation.as_str(), 0, after_num);
                    rows.push(Row { sentence: self.rows[i].sentence.clone(), derivation });
                    i += 1;
                }
                let ghost before_insert = rows@;
                let blank = Row { sentence: String::new(), derivation: String::new() };
                proof {
                    assert(blank@ == (Seq::<char>::empty(), Seq::<char>::empty()));
                }
                rows.insert(after_num, blank);
                let mut next = State {
                    rows,
                    focused_idx: self.focused_idx,
                    deps_list: Vec::new(),
                    rule_vaildity_list: Vec::new(),
                };
                next.reload_computed_properties();
                proof {
                    assert(next.rows@.len() == self.rows@.len() + 1);
                    assert forall|j: int| 0 <= j < after_num implies (#[trigger] next.rows@[j])@.0
                        == self.rows@[j]@.0 && next.rows@[j]@.1 == spec_renumber(
                        self.rows@[j]@.1,
                        0,
                        after_num,
                    ) by {
                        assert(next.rows@[j] == before_insert[j]);
                    }
                    assert(next.rows@[after_num as int] == blank);
                    assert forall|j: int| after_num < j < next.rows@.len() implies (
                    #[trigger] next.rows@[j])@.0 == self.rows@[j - 1]@.0 && next.rows@[j]@.1
                        == spec_renumber(self.rows@[j - 1]@.1, 0, after_num) by {
                        assert(next.rows@[j] == before_insert[j - 1]);
                    }
                }
                next
            }
            Action::ChangeSentence { num, sentence } => {
                let mut rows = clone_rows(&self.rows);
                proof {
                    assert forall|j: int| 0 <= j < rows@.len() implies (#[trigger] rows@[j])@
                        == self.rows@[j]@ by {
                        assert(row_texts(rows@)[j] == row_texts(self.rows@)[j]);
                    }
                }
                if num - 1 < rows.len() {
                    let derivation = rows[num - 1].derivation.clone();
                    let slot = &mut rows[num - 1];
                    *slot = Row { sentence, derivation };
                }
                let mut next = State {
                    rows,
                    focused_idx: self.focused_idx,
                    deps_list: clone_deps(&self.deps_list),
                    rule_vaildity_list: Vec::new(),
                };
                let valids = next.get_rules_validity();
                next.rule_vaildity_list = valids;
                next
            }
            Action::ChangeDerivation { num, derivation } => {
                let mut rows = clone_rows(&self.rows);
                proof {
                    assert forall|j: int| 0 <= j < rows@.len() implies (#[trigger] rows@[j])@
                        == self.rows@[j]@ by {
                        assert(row_texts(rows@)[j] == row_texts(self.rows@)[j]);
                    }
                }
                if num - 1 < rows.len() {
                    let sentence = rows[num - 1].sentence.clone();
                    let slot = &mut rows[num - 1];
                    *slot = Row { sentence, derivation };
                }
                let mut next = State {
                    rows,
                    focused_idx: self.focused_idx,
                    deps_list: Vec::new(),
                    rule_vaildity_list: Vec::new(),
                };
                next.reload_computed_properties();
                next
            }
            Action::Format => {
                let mut rows: Vec<Row> = Vec::new();
                let mut i: usize = 0;
                while i < self.rows.len()
                    invariant
                        i <= self.rows@.len(),
                        rows@.len() == i,
                        forall|j: int|
                            0 <= j < i ==> (#[trigger] rows@[j])@ == (
                                fmt_sentence(self.rows@[j]@.0),
                                fmt_derivation(self.rows@[j]@.1),
                            ),
                    decreases self.rows@.len() - i,
                {
                    let sentence = match parse_exp(self.rows[i].sentence.as_str()) {
                        Ok(e) => e.to_string(),
                        Err(_) => self.rows[i].sentence.clone(),
                    };
                    let derivation = match parse_rule(self.rows[i].derivation.as_str()) {
                        Ok(ru) => ru.to_string(),
                        Err(_) => self.rows[i].derivation.clone(),
                    };
                    rows.push(Row { sentence, derivation });
                    i += 1;
                }
                State {
                    rows,
                    focused_idx: self.focused_idx,
                    deps_list: clone_deps(&self.deps_list),
                    rule_vaildity_list: clone_bools(&self.rule_vaildity_list),
                }
            }
            Action::ChangeFocus { idx } => {
                let rows = clone_rows(&self.rows);
                State {
                    rows,
                    focused_idx: idx,
                    deps_list: clone_deps(&self.deps_list),
                    rule_vaildity_list: clone_bools(&self.rule_vaildity_list),
                }
            }
        }
    }
}

} // verus!
