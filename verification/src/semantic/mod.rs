//! The meaning of terms: substitution and reduction to normal form.
//!
//! Reduction is eager and works by substitution. A term may have no normal
//! form: a recursive binding is unfolded whenever it is met, and nothing
//! detects a binding that unfolds for ever. The mathematical definition
//! therefore counts the depth of nested reductions: [`reduce`] gives the
//! normal form that is reached within a given depth, if there is one.
//!
//! In a case expression the branch taken is the first one whose constructor
//! name and number of parameters both fit the scrutinee. A branch with the
//! right name and another number of parameters is passed over, and the case
//! expression is stuck where no branch fits.

pub mod normal;
pub mod substitute;

use crate::semantic::substitute::{subst, substitute_name};
use crate::syntax::{
    arm_of, arms_of, clone_exp, lemma_case_view, lemma_const_view, names_view, term_of,
    terms_of, Arm, Branch, Exp, Term,
};
use vstd::prelude::*;

verus! {

/// Whether a branch fits a constructor application: same name, and as many
/// parameters as there are arguments.
pub open spec fn arm_matches(arm: Arm, constructor: Seq<char>, arity: nat) -> bool {
    arm.constructor == constructor && arm.parameters.len() == arity
}

/// The index of the first branch at or after `from` that fits.
pub open spec fn first_match_from(
    arms: Seq<Arm>,
    constructor: Seq<char>,
    arity: nat,
    from: int,
) -> Option<int>
    decreases arms.len() - from,
{
    if from < 0 || from >= arms.len() {
        None
    } else if arm_matches(arms[from], constructor, arity) {
        Some(from)
    } else {
        first_match_from(arms, constructor, arity, from + 1)
    }
}

/// The index of the first branch that fits, in list order.
pub open spec fn first_match(arms: Seq<Arm>, constructor: Seq<char>, arity: nat) -> Option<int> {
    first_match_from(arms, constructor, arity, 0)
}

/// The branch that is taken is the first that fits: it fits, and no branch
/// before it does.
pub proof fn lemma_first_match(arms: Seq<Arm>, constructor: Seq<char>, arity: nat, from: int)
    requires
        0 <= from,
    ensures
        match first_match_from(arms, constructor, arity, from) {
            Some(i) => from <= i < arms.len() && arm_matches(arms[i], constructor, arity)
                && forall|j: int| from <= j < i ==> !arm_matches(#[trigger] arms[j], constructor, arity),
            None => forall|j: int|
                from <= j < arms.len() ==> !arm_matches(#[trigger] arms[j], constructor, arity),
        },
    decreases arms.len() - from,
{
    if from < arms.len() {
        lemma_first_match(arms, constructor, arity, from + 1);
    }
}

/// The body with the first `count` parameters bound to the arguments at the
/// same positions, the last of them substituted first.
pub open spec fn bind(
    body: Term,
    parameters: Seq<Seq<char>>,
    arguments: Seq<Term>,
    count: nat,
) -> Term
    decreases count,
{
    if count == 0 {
        body
    } else {
        bind(
            subst(body, parameters[count - 1], arguments[count - 1]),
            parameters,
            arguments,
            (count - 1) as nat,
        )
    }
}

/// The normal form of `term`, if it is reached with reductions nested at
/// most `fuel` deep.
pub open spec fn reduce(term: Term, fuel: nat) -> Option<Term>
    decreases fuel,
{
    if fuel == 0 {
        None
    } else {
        let rest = (fuel - 1) as nat;
        match term {
            Term::Var(_) => Some(term),
            Term::Lambda(_, _) => Some(term),
            Term::Apply(f, a) => match reduce(*f, rest) {
                None => None,
                Some(Term::Lambda(x, body)) => match reduce(*a, rest) {
                    None => None,
                    Some(value) => reduce(subst(*body, x, value), rest),
                },
                Some(_) => Some(term),
            },
            Term::Const(c, arguments) => if forall|i: int|
                0 <= i < arguments.len() ==> reduce(#[trigger] arguments[i], rest) is Some {
                Some(
                    Term::Const(
                        c,
                        Seq::new(arguments.len(), |i: int| reduce(arguments[i], rest).unwrap()),
                    ),
                )
            } else {
                None
            },
            Term::Case(scrutinee, arms) => match reduce(*scrutinee, rest) {
                None => None,
                Some(Term::Const(c, values)) => match first_match(arms, c, values.len()) {
                    Some(i) => reduce(
                        bind(*arms[i].expression, arms[i].parameters, values, values.len()),
                        rest,
                    ),
                    None => Some(term),
                },
                Some(_) => Some(term),
            },
            Term::Rec(x, body) => reduce(subst(*body, x, term), rest),
        }
    }
}

/// Whether every term of the list has a normal form within `fuel`.
pub open spec fn all_reduce(terms: Seq<Term>, fuel: nat) -> bool {
    forall|i: int| 0 <= i < terms.len() ==> reduce(#[trigger] terms[i], fuel) is Some
}

/// The normal forms of the terms of the list within `fuel`.
pub open spec fn reduced(terms: Seq<Term>, fuel: nat) -> Seq<Term> {
    Seq::new(terms.len(), |i: int| reduce(terms[i], fuel).unwrap())
}

/// A constructor application reduces to the constructor applied to the
/// normal forms of its arguments, where all of them have one.
pub proof fn lemma_reduce_const(c: Seq<char>, arguments: Seq<Term>, fuel: nat)
    requires
        fuel > 0,
    ensures
        reduce(Term::Const(c, arguments), fuel) == if all_reduce(
            arguments,
            (fuel - 1) as nat,
        ) {
            Some(Term::Const(c, reduced(arguments, (fuel - 1) as nat)))
        } else {
            None
        },
{
    let rest = (fuel - 1) as nat;
    let result = reduce(Term::Const(c, arguments), fuel);
    if all_reduce(arguments, rest) {
        assert(result is Some);
        assert(result.unwrap()->Const_1 =~= reduced(arguments, rest));
    } else {
        assert(result is None);
    }
}

/// Whether `term` has a normal form.
pub open spec fn evaluates(term: Term) -> bool {
    exists|fuel: nat| (#[trigger] reduce(term, fuel)) is Some
}

/// A depth within which `term` reaches its normal form, if it has one.
pub open spec fn enough_fuel(term: Term) -> nat {
    choose|fuel: nat| (#[trigger] reduce(term, fuel)) is Some
}

/// The normal form of a term that has one.
pub open spec fn normal_form(term: Term) -> Term {
    reduce(term, enough_fuel(term)).unwrap()
}

/// What a bounded evaluation returned, as a mathematical value.
pub open spec fn outcome(result: Option<Exp>) -> Option<Term> {
    match result {
        Some(exp) => Some(exp@),
        None => None,
    }
}

fn find_branch(branches: &Vec<Branch>, constructor: &String, arity: usize) -> (result: Option<
    usize,
>)
    ensures
        match result {
            Some(i) => first_match(arms_of(branches@), constructor@, arity as nat) == Some(
                i as int,
            ) && i < branches@.len() && branches@[i as int].parameters@.len() == arity,
            None => first_match(arms_of(branches@), constructor@, arity as nat) is None,
        },
{
    let mut i: usize = 0;
    while i < branches.len()
        invariant
            i <= branches.len(),
            first_match(arms_of(branches@), constructor@, arity as nat) == first_match_from(
                arms_of(branches@),
                constructor@,
                arity as nat,
                i as int,
            ),
        decreases branches.len() - i,
    {
        let branch = &branches[i];
        assert(arms_of(branches@)[i as int] == arm_of(*branch));
        if branch.constructor == *constructor && branch.parameters.len() == arity {
            return Some(i);
        }
        i += 1;
    }
    None
}

fn bind_parameters(arguments: &Vec<Exp>, branch: &Branch) -> (result: Exp)
    requires
        branch.parameters@.len() == arguments@.len(),
    ensures
        result@ == bind(
            term_of(*branch.expression),
            names_view(branch.parameters@),
            terms_of(arguments@),
            arguments@.len() as nat,
        ),
{
    let mut result = clone_exp(&branch.expression);
    let mut i: usize = arguments.len();
    while i > 0
        invariant
            i <= arguments@.len(),
            branch.parameters@.len() == arguments@.len(),
            bind(
                result@,
                names_view(branch.parameters@),
                terms_of(arguments@),
                i as nat,
            ) == bind(
                term_of(*branch.expression),
                names_view(branch.parameters@),
                terms_of(arguments@),
                arguments@.len() as nat,
            ),
        decreases i,
    {
        i -= 1;
        result = substitute_name(&result, &branch.parameters[i], &arguments[i]);
    }
    result
}

fn eval_exps(exps: &Vec<Exp>, limit: Option<usize>, Ghost(fuel): Ghost<nat>) -> (result: Option<
    Vec<Exp>,
>)
    requires
        limit matches Some(k) ==> k as nat == fuel,
        limit is None ==> all_reduce(terms_of(exps@), fuel),
    ensures
        match result {
            Some(values) => all_reduce(terms_of(exps@), fuel) && terms_of(values@) == reduced(
                terms_of(exps@),
                fuel,
            ),
            None => !all_reduce(terms_of(exps@), fuel),
        },
    decreases fuel, 1nat,
{
    let mut values: Vec<Exp> = Vec::new();
    let mut i: usize = 0;
    while i < exps.len()
        invariant
            i <= exps.len(),
            values@.len() == i,
            limit matches Some(k) ==> k as nat == fuel,
            limit is None ==> all_reduce(terms_of(exps@), fuel),
            forall|j: int|
                0 <= j < i ==> reduce(term_of(exps@[j]), fuel) == Some(
                    term_of(#[trigger] values@[j]),
                ),
        decreases exps.len() - i,
    {
        assert(terms_of(exps@)[i as int] == term_of(exps@[i as int]));
        match eval_core(&exps[i], limit, Ghost(fuel)) {
            None => {
                return None;
            },
            Some(value) => {
                values.push(value);
            },
        }
        i += 1;
    }
    proof {
        assert forall|j: int| 0 <= j < exps@.len() implies reduce(
            #[trigger] terms_of(exps@)[j],
            fuel,
        ) is Some by {
            assert(terms_of(exps@)[j] == term_of(exps@[j]));
            assert(reduce(term_of(exps@[j]), fuel) == Some(term_of(values@[j])));
        }
        assert(terms_of(values@) =~= reduced(terms_of(exps@), fuel));
    }
    Some(values)
}

fn eval_core(exp: &Exp, limit: Option<usize>, Ghost(fuel): Ghost<nat>) -> (result: Option<Exp>)
    requires
        limit matches Some(k) ==> k as nat == fuel,
        limit is None ==> reduce(exp@, fuel) is Some,
    ensures
        outcome(result) == reduce(exp@, fuel),
    decreases fuel, 0nat,
{
    let rest: Option<usize> = match limit {
        Some(k) => {
            if k == 0 {
                return None;
            }
            Some(k - 1)
        },
        None => None,
    };
    let ghost less = (fuel - 1) as nat;
    match exp {
        Exp::Var(x) => Some(Exp::Var(x.clone())),
        Exp::Lambda(_, _) => Some(clone_exp(exp)),
        Exp::Apply(f, param) => {
            match eval_core(f, rest, Ghost(less)) {
                None => None,
                Some(Exp::Lambda(x, body)) => {
                    match eval_core(param, rest, Ghost(less)) {
                        None => None,
                        Some(value) => {
                            let unfolded = substitute_name(&body, &x, &value);
                            eval_core(&unfolded, rest, Ghost(less))
                        },
                    }
                },
                Some(_) => Some(clone_exp(exp)),
            }
        },
        Exp::Case(scrutinee, branches) => {
            proof {
                lemma_case_view(**scrutinee, *branches);
            }
            match eval_core(scrutinee, rest, Ghost(less)) {
                None => None,
                Some(Exp::Const(constructor, values)) => {
                    proof {
                        lemma_const_view(constructor, values);
                    }
                    match find_branch(branches, &constructor, values.len()) {
                        Some(i) => {
                            let branch = &branches[i];
                            assert(arms_of(branches@)[i as int] == arm_of(*branch));
                            let bound = bind_parameters(&values, branch);
                            eval_core(&bound, rest, Ghost(less))
                        },
                        None => Some(clone_exp(exp)),
                    }
                },
                Some(_) => Some(clone_exp(exp)),
            }
        },
        Exp::Const(constructor, exps) => {
            proof {
                lemma_const_view(*constructor, *exps);
                lemma_reduce_const(constructor@, terms_of(exps@), fuel);
            }
            match eval_exps(exps, rest, Ghost(less)) {
                None => None,
                Some(values) => {
                    let name = constructor.clone();
                    proof {
                        lemma_const_view(name, values);
                    }
                    Some(Exp::Const(name, values))
                },
            }
        },
        Exp::Rec(x, body) => {
            let unfolded = substitute_name(body, x, exp);
            eval_core(&unfolded, rest, Ghost(less))
        },
    }
}

/// Reduces a term to its normal form.
///
/// Free variables, applications whose head does not become an abstraction
/// and case expressions that no branch fits are normal forms: a stuck
/// application or case expression is returned as it was given, without the
/// reductions made inside it. The term must have a normal form: on a term
/// that has none, such as `rec x = x`, evaluation would never return. The
/// result is a normal form: evaluating it again gives it back.
pub fn eval(exp: &Exp) -> (result: Exp)
    requires
        evaluates(exp@),
    ensures
        result@ == normal_form(exp@),
        evaluates(result@),
        normal_form(result@) == result@,
{
    proof {
        crate::semantic::normal::lemma_normal_form_idempotent(exp@);
    }
    match eval_core(exp, None, Ghost(enough_fuel(exp@))) {
        Some(result) => result,
        None => {
            proof {
                assert(false);
            }
            clone_exp(exp)
        },
    }
}

/// Reduces a term to its normal form with reductions nested at most `fuel`
/// deep, and returns `None` where that depth does not suffice.
pub fn eval_bounded(exp: &Exp, fuel: usize) -> (result: Option<Exp>)
    ensures
        outcome(result) == reduce(exp@, fuel as nat),
{
    eval_core(exp, Some(fuel), Ghost(fuel as nat))
}

} // verus!
