//! Building terms piece by piece.

use crate::bootstrapping::programs::{app, app2, app3, arm, cases, fix, lam, v};
use crate::syntax::{
    arms_of, lemma_case_view, lemma_const_view, names_view, terms_of, Branch, Exp, Term,
};
use vstd::prelude::*;

verus! {

/// The constructor `tag` applied to nothing.
pub fn data0(tag: &str) -> (result: Exp)
    ensures
        result@ == Term::Const(tag@, seq![]),
{
    let fields: Vec<Exp> = Vec::new();
    let name = tag.to_owned();
    proof {
        lemma_const_view(name, fields);
        assert(terms_of(fields@) =~= seq![]);
    }
    Exp::Const(name, fields)
}

/// The constructor `tag` applied to one argument.
pub fn data1(tag: &str, first: Exp) -> (result: Exp)
    ensures
        result@ == Term::Const(tag@, seq![first@]),
{
    let mut fields: Vec<Exp> = Vec::new();
    fields.push(first);
    let name = tag.to_owned();
    proof {
        lemma_const_view(name, fields);
        assert(terms_of(fields@) =~= seq![first@]);
    }
    Exp::Const(name, fields)
}

/// The constructor `tag` applied to two arguments.
pub fn data2(tag: &str, first: Exp, second: Exp) -> (result: Exp)
    ensures
        result@ == Term::Const(tag@, seq![first@, second@]),
{
    let mut fields: Vec<Exp> = Vec::new();
    fields.push(first);
    fields.push(second);
    let name = tag.to_owned();
    proof {
        lemma_const_view(name, fields);
        assert(terms_of(fields@) =~= seq![first@, second@]);
    }
    Exp::Const(name, fields)
}

/// The constructor `tag` applied to three arguments.
pub fn data3(tag: &str, first: Exp, second: Exp, third: Exp) -> (result: Exp)
    ensures
        result@ == Term::Const(tag@, seq![first@, second@, third@]),
{
    let mut fields: Vec<Exp> = Vec::new();
    fields.push(first);
    fields.push(second);
    fields.push(third);
    let name = tag.to_owned();
    proof {
        lemma_const_view(name, fields);
        assert(terms_of(fields@) =~= seq![first@, second@, third@]);
    }
    Exp::Const(name, fields)
}

/// The variable `name`.
pub fn var(name: &str) -> (result: Exp)
    ensures
        result@ == v(name@),
{
    Exp::Var(name.to_owned())
}

/// The abstraction of `name` over `body`.
pub fn lambda(name: &str, body: Exp) -> (result: Exp)
    ensures
        result@ == lam(name@, body@),
{
    Exp::Lambda(name.to_owned(), Box::new(body))
}

/// The recursive binding of `name` to `body`.
pub fn rec(name: &str, body: Exp) -> (result: Exp)
    ensures
        result@ == fix(name@, body@),
{
    Exp::Rec(name.to_owned(), Box::new(body))
}

/// The application of `f` to `a`.
pub fn apply(f: Exp, a: Exp) -> (result: Exp)
    ensures
        result@ == app(f@, a@),
{
    Exp::Apply(Box::new(f), Box::new(a))
}

/// The application of `f` to `a` and then to `b`.
pub fn apply2(f: Exp, a: Exp, b: Exp) -> (result: Exp)
    ensures
        result@ == app2(f@, a@, b@),
{
    apply(apply(f, a), b)
}

/// The application of `f` to `a`, then to `b`, then to `c`.
pub fn apply3(f: Exp, a: Exp, b: Exp, c: Exp) -> (result: Exp)
    ensures
        result@ == app3(f@, a@, b@, c@),
{
    apply(apply(apply(f, a), b), c)
}

/// The case expression on `scrutinee` with the given branches.
pub fn case_of(scrutinee: Exp, branches: Vec<Branch>) -> (result: Exp)
    ensures
        result@ == cases(scrutinee@, arms_of(branches@)),
{
    proof {
        lemma_case_view(scrutinee, branches);
    }
    Exp::Case(Box::new(scrutinee), branches)
}

/// A branch without parameters.
pub fn branch0(constructor: &str, body: Exp) -> (result: Branch)
    ensures
        result@ == arm(constructor@, seq![], body@),
{
    let parameters: Vec<String> = Vec::new();
    assert(names_view(parameters@) =~= seq![]);
    Branch { constructor: constructor.to_owned(), parameters, expression: Box::new(body) }
}

/// A branch with one parameter.
pub fn branch1(constructor: &str, first: &str, body: Exp) -> (result: Branch)
    ensures
        result@ == arm(constructor@, seq![first@], body@),
{
    let mut parameters: Vec<String> = Vec::new();
    parameters.push(first.to_owned());
    assert(names_view(parameters@) =~= seq![first@]);
    Branch { constructor: constructor.to_owned(), parameters, expression: Box::new(body) }
}

/// A branch with two parameters.
pub fn branch2(constructor: &str, first: &str, second: &str, body: Exp) -> (result: Branch)
    ensures
        result@ == arm(constructor@, seq![first@, second@], body@),
{
    let mut parameters: Vec<String> = Vec::new();
    parameters.push(first.to_owned());
    parameters.push(second.to_owned());
    assert(names_view(parameters@) =~= seq![first@, second@]);
    Branch { constructor: constructor.to_owned(), parameters, expression: Box::new(body) }
}

/// A branch with three parameters.
pub fn branch3(constructor: &str, first: &str, second: &str, third: &str, body: Exp) -> (result:
    Branch)
    ensures
        result@ == arm(constructor@, seq![first@, second@, third@], body@),
{
    let mut parameters: Vec<String> = Vec::new();
    parameters.push(first.to_owned());
    parameters.push(second.to_owned());
    parameters.push(third.to_owned());
    assert(names_view(parameters@) =~= seq![first@, second@, third@]);
    Branch { constructor: constructor.to_owned(), parameters, expression: Box::new(body) }
}

/// The list of one branch.
pub fn branches1(first: Branch) -> (result: Vec<Branch>)
    ensures
        arms_of(result@) == seq![first@],
{
    let mut result: Vec<Branch> = Vec::new();
    result.push(first);
    assert(arms_of(result@) =~= seq![first@]);
    result
}

/// The list of two branches.
pub fn branches2(first: Branch, second: Branch) -> (result: Vec<Branch>)
    ensures
        arms_of(result@) == seq![first@, second@],
{
    let mut result: Vec<Branch> = Vec::new();
    result.push(first);
    result.push(second);
    assert(arms_of(result@) =~= seq![first@, second@]);
    result
}

/// The list of six branches.
pub fn branches6(
    first: Branch,
    second: Branch,
    third: Branch,
    fourth: Branch,
    fifth: Branch,
    sixth: Branch,
) -> (result: Vec<Branch>)
    ensures
        arms_of(result@) == seq![first@, second@, third@, fourth@, fifth@, sixth@],
{
    let mut result: Vec<Branch> = Vec::new();
    result.push(first);
    result.push(second);
    result.push(third);
    result.push(fourth);
    result.push(fifth);
    result.push(sixth);
    assert(arms_of(result@) =~= seq![first@, second@, third@, fourth@, fifth@, sixth@]);
    result
}

} // verus!
