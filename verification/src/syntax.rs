//! The term model: executable terms, their mathematical view, and copying.

pub mod abst;
pub mod concrete;
pub mod lexical;
pub mod text;

use vstd::prelude::*;

verus! {

/// A variable name.
pub type Variable = String;

/// A constructor name.
pub type Constructor = String;

/// The mathematical value of a term.
pub enum Term {
    Apply(Box<Term>, Box<Term>),
    Lambda(Seq<char>, Box<Term>),
    Case(Box<Term>, Seq<Arm>),
    Rec(Seq<char>, Box<Term>),
    Var(Seq<char>),
    Const(Seq<char>, Seq<Term>),
}

/// The mathematical value of a branch of a case expression.
pub struct Arm {
    pub constructor: Seq<char>,
    pub parameters: Seq<Seq<char>>,
    pub expression: Box<Term>,
}

/// One alternative of a case expression: the parameters are bound in the
/// expression.
#[derive(Debug, PartialEq, Eq, Hash)]
pub struct Branch {
    pub constructor: Constructor,
    pub parameters: Vec<Variable>,
    pub expression: Box<Exp>,
}

/// A term of the calculus.
#[derive(Debug, PartialEq, Eq, Hash)]
pub enum Exp {
    Apply(Box<Exp>, Box<Exp>),
    Lambda(String, Box<Exp>),
    Case(Box<Exp>, Vec<Branch>),
    Rec(Variable, Box<Exp>),
    Var(Variable),
    Const(String, Vec<Exp>),
}

/// The names of a list of identifiers.
pub open spec fn names_view(names: Seq<String>) -> Seq<Seq<char>> {
    Seq::new(names.len(), |i: int| names[i]@)
}

/// The mathematical value of an executable term.
pub open spec fn term_of(exp: Exp) -> Term
    decreases exp,
{
    match exp {
        Exp::Apply(f, x) => Term::Apply(Box::new(term_of(*f)), Box::new(term_of(*x))),
        Exp::Lambda(x, e) => Term::Lambda(x@, Box::new(term_of(*e))),
        Exp::Case(e, bs) => Term::Case(
            Box::new(term_of(*e)),
            Seq::new(
                bs@.len(),
                |i: int|
                    if 0 <= i < bs@.len() {
                        arm_of(bs@[i])
                    } else {
                        arbitrary()
                    },
            ),
        ),
        Exp::Rec(x, e) => Term::Rec(x@, Box::new(term_of(*e))),
        Exp::Var(x) => Term::Var(x@),
        Exp::Const(c, es) => Term::Const(
            c@,
            Seq::new(
                es@.len(),
                |i: int|
                    if 0 <= i < es@.len() {
                        term_of(es@[i])
                    } else {
                        arbitrary()
                    },
            ),
        ),
    }
}

/// The mathematical value of an executable branch.
pub open spec fn arm_of(branch: Branch) -> Arm
    decreases branch,
{
    Arm {
        constructor: branch.constructor@,
        parameters: names_view(branch.parameters@),
        expression: Box::new(term_of(*branch.expression)),
    }
}

impl View for Exp {
    type V = Term;

    open spec fn view(&self) -> Term {
        term_of(*self)
    }
}

impl View for Branch {
    type V = Arm;

    open spec fn view(&self) -> Arm {
        arm_of(*self)
    }
}

/// The mathematical values of a list of executable terms.
pub open spec fn terms_of(exps: Seq<Exp>) -> Seq<Term> {
    Seq::new(exps.len(), |i: int| term_of(exps[i]))
}

/// The mathematical values of a list of executable branches.
pub open spec fn arms_of(branches: Seq<Branch>) -> Seq<Arm> {
    Seq::new(branches.len(), |i: int| arm_of(branches[i]))
}

/// The value of a constructor application is the constructor applied to
/// the values of its arguments.
pub proof fn lemma_const_view(name: String, arguments: Vec<Exp>)
    ensures
        term_of(Exp::Const(name, arguments)) == Term::Const(name@, terms_of(arguments@)),
{
    assert(term_of(Exp::Const(name, arguments))->Const_1 =~= terms_of(arguments@));
}

/// The value of a case expression is the case on the value of its
/// scrutinee over the values of its branches.
pub proof fn lemma_case_view(scrutinee: Exp, branches: Vec<Branch>)
    ensures
        term_of(Exp::Case(Box::new(scrutinee), branches)) == Term::Case(
            Box::new(term_of(scrutinee)),
            arms_of(branches@),
        ),
{
    assert(term_of(Exp::Case(Box::new(scrutinee), branches))->Case_1 =~= arms_of(branches@));
}

/// Copies a list of names.
pub fn clone_names(names: &Vec<String>) -> (result: Vec<String>)
    ensures
        names_view(result@) == names_view(names@),
{
    let mut result: Vec<String> = Vec::new();
    let mut i: usize = 0;
    while i < names.len()
        invariant
            i <= names.len(),
            result@.len() == i,
            forall|j: int| 0 <= j < i ==> result@[j]@ == names@[j]@,
        decreases names.len() - i,
    {
        result.push(names[i].clone());
        i += 1;
    }
    assert(names_view(result@) =~= names_view(names@));
    result
}

/// Copies a list of terms.
pub fn clone_exps(exps: &Vec<Exp>) -> (result: Vec<Exp>)
    ensures
        terms_of(result@) == terms_of(exps@),
    decreases exps,
{
    let mut result: Vec<Exp> = Vec::new();
    let mut i: usize = 0;
    while i < exps.len()
        invariant
            i <= exps.len(),
            result@.len() == i,
            forall|j: int| 0 <= j < i ==> term_of(#[trigger] result@[j]) == term_of(exps@[j]),
        decreases exps.len() - i,
    {
        result.push(clone_exp(&exps[i]));
        i += 1;
    }
    assert(terms_of(result@) =~= terms_of(exps@));
    result
}

/// Copies a list of branches.
pub fn clone_branches(branches: &Vec<Branch>) -> (result: Vec<Branch>)
    ensures
        arms_of(result@) == arms_of(branches@),
    decreases branches,
{
    let mut result: Vec<Branch> = Vec::new();
    let mut i: usize = 0;
    while i < branches.len()
        invariant
            i <= branches.len(),
            result@.len() == i,
            forall|j: int| 0 <= j < i ==> arm_of(#[trigger] result@[j]) == arm_of(branches@[j]),
        decreases branches.len() - i,
    {
        result.push(clone_branch(&branches[i]));
        i += 1;
    }
    assert(arms_of(result@) =~= arms_of(branches@));
    result
}

/// Copies a branch.
pub fn clone_branch(branch: &Branch) -> (result: Branch)
    ensures
        result@ == branch@,
    decreases branch,
{
    Branch {
        constructor: branch.constructor.clone(),
        parameters: clone_names(&branch.parameters),
        expression: Box::new(clone_exp(&branch.expression)),
    }
}

/// Copies a term.
pub fn clone_exp(exp: &Exp) -> (result: Exp)
    ensures
        result@ == exp@,
    decreases exp,
{
    match exp {
        Exp::Apply(f, x) => Exp::Apply(Box::new(clone_exp(f)), Box::new(clone_exp(x))),
        Exp::Lambda(x, e) => Exp::Lambda(x.clone(), Box::new(clone_exp(e))),
        Exp::Case(e, bs) => {
            let scrutinee = clone_exp(e);
            let branches = clone_branches(bs);
            proof {
                lemma_case_view(scrutinee, branches);
                lemma_case_view(**e, *bs);
            }
            Exp::Case(Box::new(scrutinee), branches)
        },
        Exp::Rec(x, e) => Exp::Rec(x.clone(), Box::new(clone_exp(e))),
        Exp::Var(x) => Exp::Var(x.clone()),
        Exp::Const(c, es) => {
            let name = c.clone();
            let arguments = clone_exps(es);
            proof {
                lemma_const_view(name, arguments);
                lemma_const_view(*c, *es);
            }
            Exp::Const(name, arguments)
        },
    }
}

/// Whether two lists of names hold the same names in the same order.
pub fn same_names(left: &Vec<String>, right: &Vec<String>) -> (result: bool)
    ensures
        result == (names_view(left@) == names_view(right@)),
{
    if left.len() != right.len() {
        assert(names_view(left@).len() != names_view(right@).len());
        return false;
    }
    let mut i: usize = 0;
    while i < left.len()
        invariant
            i <= left@.len(),
            left@.len() == right@.len(),
            forall|j: int| 0 <= j < i ==> left@[j]@ == right@[j]@,
        decreases left.len() - i,
    {
        if left[i] != right[i] {
            assert(names_view(left@)[i as int] != names_view(right@)[i as int]);
            return false;
        }
        i += 1;
    }
    assert(names_view(left@) =~= names_view(right@));
    true
}

/// Whether two lists of terms are equal, term by term.
pub fn same_exps(left: &Vec<Exp>, right: &Vec<Exp>) -> (result: bool)
    ensures
        result == (terms_of(left@) == terms_of(right@)),
    decreases left,
{
    if left.len() != right.len() {
        assert(terms_of(left@).len() != terms_of(right@).len());
        return false;
    }
    let mut i: usize = 0;
    while i < left.len()
        invariant
            i <= left@.len(),
            left@.len() == right@.len(),
            forall|j: int| 0 <= j < i ==> term_of(#[trigger] left@[j]) == term_of(right@[j]),
        decreases left.len() - i,
    {
        if !same_exp(&left[i], &right[i]) {
            assert(terms_of(left@)[i as int] != terms_of(right@)[i as int]);
            return false;
        }
        i += 1;
    }
    assert(terms_of(left@) =~= terms_of(right@));
    true
}

/// Whether two lists of branches are equal, branch by branch.
pub fn same_branches(left: &Vec<Branch>, right: &Vec<Branch>) -> (result: bool)
    ensures
        result == (arms_of(left@) == arms_of(right@)),
    decreases left,
{
    if left.len() != right.len() {
        assert(arms_of(left@).len() != arms_of(right@).len());
        return false;
    }
    let mut i: usize = 0;
    while i < left.len()
        invariant
            i <= left@.len(),
            left@.len() == right@.len(),
            forall|j: int| 0 <= j < i ==> arm_of(#[trigger] left@[j]) == arm_of(right@[j]),
        decreases left.len() - i,
    {
        if !same_branch(&left[i], &right[i]) {
            assert(arms_of(left@)[i as int] != arms_of(right@)[i as int]);
            return false;
        }
        i += 1;
    }
    assert(arms_of(left@) =~= arms_of(right@));
    true
}

/// Whether two branches are equal: the same constructor, the same
/// parameters and equal bodies.
pub fn same_branch(left: &Branch, right: &Branch) -> (result: bool)
    ensures
        result == (left@ == right@),
    decreases left,
{
    left.constructor == right.constructor && same_names(&left.parameters, &right.parameters)
        && same_exp(&left.expression, &right.expression)
}

/// Whether two terms are equal: of the same kind, with the same names and
/// equal parts.
pub fn same_exp(left: &Exp, right: &Exp) -> (result: bool)
    ensures
        result == (left@ == right@),
    decreases left,
{
    match (left, right) {
        (Exp::Apply(f, x), Exp::Apply(g, y)) => same_exp(f, g) && same_exp(x, y),
        (Exp::Lambda(x, body), Exp::Lambda(y, other)) => *x == *y && same_exp(body, other),
        (Exp::Case(scrutinee, branches), Exp::Case(other, others)) => {
            proof {
                lemma_case_view(**scrutinee, *branches);
                lemma_case_view(**other, *others);
            }
            same_exp(scrutinee, other) && same_branches(branches, others)
        },
        (Exp::Rec(x, body), Exp::Rec(y, other)) => *x == *y && same_exp(body, other),
        (Exp::Var(x), Exp::Var(y)) => *x == *y,
        (Exp::Const(c, arguments), Exp::Const(d, others)) => {
            proof {
                lemma_const_view(*c, *arguments);
                lemma_const_view(*d, *others);
            }
            *c == *d && same_exps(arguments, others)
        },
        _ => false,
    }
}

impl Clone for Branch {
    fn clone(&self) -> (result: Branch)
        ensures
            result@ == self@,
    {
        clone_branch(self)
    }
}

impl Clone for Exp {
    fn clone(&self) -> (result: Exp)
        ensures
            result@ == self@,
    {
        clone_exp(self)
    }
}

} // verus!
