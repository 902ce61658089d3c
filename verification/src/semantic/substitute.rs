//! Substitution of a term for the free occurrences of a variable.
//!
//! Substitution goes by names: it stops at a binder of the variable it
//! replaces and renames nothing, so a free variable of the replacement may
//! be captured by a binder that it passes.

use crate::syntax::{
    arm_of, arms_of, clone_exp, clone_names, lemma_case_view, lemma_const_view, names_view,
    term_of, terms_of, Arm, Branch, Exp, Term,
};
use vstd::prelude::*;

verus! {

/// The term `term` with `replacement` in place of every free occurrence of
/// `variable`.
pub open spec fn subst(term: Term, variable: Seq<char>, replacement: Term) -> Term
    decreases term,
{
    match term {
        Term::Var(x) => if x == variable {
            replacement
        } else {
            term
        },
        Term::Apply(f, a) => Term::Apply(
            Box::new(subst(*f, variable, replacement)),
            Box::new(subst(*a, variable, replacement)),
        ),
        Term::Lambda(x, body) => if x == variable {
            term
        } else {
            Term::Lambda(x, Box::new(subst(*body, variable, replacement)))
        },
        Term::Rec(x, body) => if x == variable {
            term
        } else {
            Term::Rec(x, Box::new(subst(*body, variable, replacement)))
        },
        Term::Const(c, arguments) => Term::Const(
            c,
            Seq::new(
                arguments.len(),
                |i: int|
                    if 0 <= i < arguments.len() {
                        subst(arguments[i], variable, replacement)
                    } else {
                        arbitrary()
                    },
            ),
        ),
        Term::Case(scrutinee, arms) => Term::Case(
            Box::new(subst(*scrutinee, variable, replacement)),
            Seq::new(
                arms.len(),
                |i: int|
                    if 0 <= i < arms.len() {
                        subst_arm(arms[i], variable, replacement)
                    } else {
                        arbitrary()
                    },
            ),
        ),
    }
}

/// Substitution in a branch: a branch that binds `variable` among its
/// parameters is left as it is.
pub open spec fn subst_arm(arm: Arm, variable: Seq<char>, replacement: Term) -> Arm
    decreases arm,
{
    if arm.parameters.contains(variable) {
        arm
    } else {
        Arm {
            constructor: arm.constructor,
            parameters: arm.parameters,
            expression: Box::new(subst(*arm.expression, variable, replacement)),
        }
    }
}

/// Substitution in each term of a list.
pub open spec fn subst_all(terms: Seq<Term>, variable: Seq<char>, replacement: Term) -> Seq<Term> {
    Seq::new(terms.len(), |i: int| subst(terms[i], variable, replacement))
}

/// Substitution in each branch of a list.
pub open spec fn subst_arms(arms: Seq<Arm>, variable: Seq<char>, replacement: Term) -> Seq<Arm> {
    Seq::new(arms.len(), |i: int| subst_arm(arms[i], variable, replacement))
}

/// Substitution in a constructor application substitutes in every argument.
pub proof fn lemma_subst_const(
    c: Seq<char>,
    arguments: Seq<Term>,
    variable: Seq<char>,
    replacement: Term,
)
    ensures
        subst(Term::Const(c, arguments), variable, replacement) == Term::Const(
            c,
            subst_all(arguments, variable, replacement),
        ),
{
    assert(subst(Term::Const(c, arguments), variable, replacement)->Const_1 =~= subst_all(
        arguments,
        variable,
        replacement,
    ));
}

/// Substitution in a case expression substitutes in the scrutinee and in
/// every branch.
pub proof fn lemma_subst_case(
    scrutinee: Term,
    arms: Seq<Arm>,
    variable: Seq<char>,
    replacement: Term,
)
    ensures
        subst(Term::Case(Box::new(scrutinee), arms), variable, replacement) == Term::Case(
            Box::new(subst(scrutinee, variable, replacement)),
            subst_arms(arms, variable, replacement),
        ),
{
    assert(subst(Term::Case(Box::new(scrutinee), arms), variable, replacement)->Case_1
        =~= subst_arms(arms, variable, replacement));
}

/// Whether `variable` occurs free in `term`.
pub open spec fn occurs_free(term: Term, variable: Seq<char>) -> bool
    decreases term,
{
    match term {
        Term::Var(x) => x == variable,
        Term::Apply(f, a) => occurs_free(*f, variable) || occurs_free(*a, variable),
        Term::Lambda(x, body) => x != variable && occurs_free(*body, variable),
        Term::Rec(x, body) => x != variable && occurs_free(*body, variable),
        Term::Const(_, arguments) => exists|i: int|
            0 <= i < arguments.len() && occurs_free(#[trigger] arguments[i], variable),
        Term::Case(scrutinee, arms) => occurs_free(*scrutinee, variable) || exists|i: int|
            0 <= i < arms.len() && occurs_free_arm(#[trigger] arms[i], variable),
    }
}

/// Whether `variable` occurs free in a branch: it does not where the branch
/// binds it.
pub open spec fn occurs_free_arm(arm: Arm, variable: Seq<char>) -> bool
    decreases arm,
{
    !arm.parameters.contains(variable) && occurs_free(*arm.expression, variable)
}

/// Substituting for a variable that does not occur free changes nothing.
pub proof fn lemma_subst_absent(term: Term, variable: Seq<char>, replacement: Term)
    requires
        !occurs_free(term, variable),
    ensures
        subst(term, variable, replacement) == term,
    decreases term,
{
    match term {
        Term::Var(_) => {},
        Term::Apply(f, a) => {
            lemma_subst_absent(*f, variable, replacement);
            lemma_subst_absent(*a, variable, replacement);
        },
        Term::Lambda(x, body) => {
            if x != variable {
                lemma_subst_absent(*body, variable, replacement);
            }
        },
        Term::Rec(x, body) => {
            if x != variable {
                lemma_subst_absent(*body, variable, replacement);
            }
        },
        Term::Const(c, arguments) => {
            lemma_subst_const(c, arguments, variable, replacement);
            assert forall|i: int| 0 <= i < arguments.len() implies subst(
                arguments[i],
                variable,
                replacement,
            ) == arguments[i] by {
                lemma_subst_absent(arguments[i], variable, replacement);
            }
            assert(subst_all(arguments, variable, replacement) =~= arguments);
        },
        Term::Case(scrutinee, arms) => {
            lemma_subst_case(*scrutinee, arms, variable, replacement);
            lemma_subst_absent(*scrutinee, variable, replacement);
            assert forall|i: int| 0 <= i < arms.len() implies subst_arm(
                arms[i],
                variable,
                replacement,
            ) == arms[i] by {
                if !arms[i].parameters.contains(variable) {
                    assert(!occurs_free_arm(arms[i], variable));
                    lemma_subst_absent(*arms[i].expression, variable, replacement);
                }
            }
            assert(subst_arms(arms, variable, replacement) =~= arms);
        },
    }
}

/// A binder of the variable shadows it: substitution leaves an abstraction
/// or a recursive binding of that variable as it is.
pub proof fn lemma_subst_shadowed(variable: Seq<char>, body: Term, replacement: Term)
    ensures
        subst(Term::Lambda(variable, Box::new(body)), variable, replacement) == Term::Lambda(
            variable,
            Box::new(body),
        ),
        subst(Term::Rec(variable, Box::new(body)), variable, replacement) == Term::Rec(
            variable,
            Box::new(body),
        ),
{
}

/// Whether `name` is among `names`.
pub fn has_name(names: &Vec<String>, name: &String) -> (result: bool)
    ensures
        result == names_view(names@).contains(name@),
{
    let mut i: usize = 0;
    while i < names.len()
        invariant
            i <= names.len(),
            forall|j: int| 0 <= j < i ==> names@[j]@ != name@,
        decreases names.len() - i,
    {
        if names[i] == *name {
            assert(names_view(names@)[i as int] == name@);
            return true;
        }
        i += 1;
    }
    false
}

fn substitute_branch(branch: &Branch, name: &String, to_exp: &Exp) -> (result: Branch)
    ensures
        result@ == subst_arm(branch@, name@, to_exp@),
    decreases branch,
{
    if has_name(&branch.parameters, name) {
        branch.clone()
    } else {
        Branch {
            constructor: branch.constructor.clone(),
            parameters: clone_names(&branch.parameters),
            expression: Box::new(substitute_name(&branch.expression, name, to_exp)),
        }
    }
}

fn substitute_branches(branches: &Vec<Branch>, name: &String, to_exp: &Exp) -> (result: Vec<
    Branch,
>)
    ensures
        arms_of(result@) == subst_arms(arms_of(branches@), name@, to_exp@),
    decreases branches,
{
    let mut result: Vec<Branch> = Vec::new();
    let mut i: usize = 0;
    while i < branches.len()
        invariant
            i <= branches.len(),
            result@.len() == i,
            forall|j: int|
                0 <= j < i ==> arm_of(#[trigger] result@[j]) == subst_arm(
                    arm_of(branches@[j]),
                    name@,
                    to_exp@,
                ),
        decreases branches.len() - i,
    {
        result.push(substitute_branch(&branches[i], name, to_exp));
        i += 1;
    }
    assert(arms_of(result@) =~= subst_arms(arms_of(branches@), name@, to_exp@));
    result
}

fn substitute_exps(exps: &Vec<Exp>, name: &String, to_exp: &Exp) -> (result: Vec<Exp>)
    ensures
        terms_of(result@) == subst_all(terms_of(exps@), name@, to_exp@),
    decreases exps,
{
    let mut result: Vec<Exp> = Vec::new();
    let mut i: usize = 0;
    while i < exps.len()
        invariant
            i <= exps.len(),
            result@.len() == i,
            forall|j: int|
                0 <= j < i ==> term_of(#[trigger] result@[j]) == subst(
                    term_of(exps@[j]),
                    name@,
                    to_exp@,
                ),
        decreases exps.len() - i,
    {
        result.push(substitute_name(&exps[i], name, to_exp));
        i += 1;
    }
    assert(terms_of(result@) =~= subst_all(terms_of(exps@), name@, to_exp@));
    result
}

/// Substitution for a variable given as an owned name.
pub fn substitute_name(exp: &Exp, name: &String, to_exp: &Exp) -> (result: Exp)
    ensures
        result@ == subst(exp@, name@, to_exp@),
    decreases exp,
{
    match exp {
        Exp::Apply(f, x) => Exp::Apply(
            Box::new(substitute_name(f, name, to_exp)),
            Box::new(substitute_name(x, name, to_exp)),
        ),
        Exp::Lambda(x, body) => {
            if *x == *name {
                clone_exp(exp)
            } else {
                Exp::Lambda(x.clone(), Box::new(substitute_name(body, name, to_exp)))
            }
        },
        Exp::Case(scrutinee, branches) => {
            let exp_result = substitute_name(scrutinee, name, to_exp);
            let branches_result = substitute_branches(branches, name, to_exp);
            proof {
                lemma_case_view(**scrutinee, *branches);
                lemma_case_view(exp_result, branches_result);
                lemma_subst_case(scrutinee@, arms_of(branches@), name@, to_exp@);
            }
            Exp::Case(Box::new(exp_result), branches_result)
        },
        Exp::Rec(x, body) => {
            if *x == *name {
                clone_exp(exp)
            } else {
                Exp::Rec(x.clone(), Box::new(substitute_name(body, name, to_exp)))
            }
        },
        Exp::Var(x) => {
            if *x == *name {
                clone_exp(to_exp)
            } else {
                Exp::Var(x.clone())
            }
        },
        Exp::Const(constructor, exps) => {
            let exps_result = substitute_exps(exps, name, to_exp);
            let constructor_result = constructor.clone();
            proof {
                lemma_const_view(*constructor, *exps);
                lemma_const_view(constructor_result, exps_result);
                lemma_subst_const(constructor@, terms_of(exps@), name@, to_exp@);
            }
            Exp::Const(constructor_result, exps_result)
        },
    }
}

/// Replaces every free occurrence of `from_variable` in `exp` by `to_exp`.
///
/// Nothing is renamed: a free variable of `to_exp` is captured where it
/// passes a binder of the same name.
pub fn substitute(exp: &Exp, from_variable: &str, to_exp: &Exp) -> (result: Exp)
    ensures
        result@ == subst(exp@, from_variable@, to_exp@),
{
    let name = from_variable.to_owned();
    substitute_name(exp, &name, to_exp)
}

} // verus!
