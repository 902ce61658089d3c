//! Evaluation invents no names: what a term reduces to holds only names of
//! the term, so a numbering that knows the term encodes the result without
//! giving a new number.

use crate::bootstrapping::encoding::{
    encode, knows, knows_arm, lemma_number, number, render, Numbering,
};
use crate::semantic::substitute::{
    lemma_subst_case, lemma_subst_const, subst, subst_all, subst_arms,
};
use crate::semantic::{bind, first_match, lemma_first_match, lemma_reduce_const, reduce, reduced};
use crate::syntax::Term;
use vstd::prelude::*;

verus! {

/// Substituting a term whose names are known in a term whose names are
/// known gives a term whose names are known.
pub proof fn lemma_subst_knows(
    term: Term,
    variable: Seq<char>,
    replacement: Term,
    numbering: Numbering,
)
    requires
        knows(term, numbering),
        knows(replacement, numbering),
    ensures
        knows(subst(term, variable, replacement), numbering),
    decreases term,
{
    match term {
        Term::Var(_) => {},
        Term::Apply(f, a) => {
            lemma_subst_knows(*f, variable, replacement, numbering);
            lemma_subst_knows(*a, variable, replacement, numbering);
        },
        Term::Lambda(x, body) => {
            if x != variable {
                lemma_subst_knows(*body, variable, replacement, numbering);
            }
        },
        Term::Rec(x, body) => {
            if x != variable {
                lemma_subst_knows(*body, variable, replacement, numbering);
            }
        },
        Term::Const(c, arguments) => {
            lemma_subst_const(c, arguments, variable, replacement);
            let after = subst_all(arguments, variable, replacement);
            assert forall|i: int| 0 <= i < after.len() implies knows(
                #[trigger] after[i],
                numbering,
            ) by {
                assert(knows(arguments[i], numbering));
                lemma_subst_knows(arguments[i], variable, replacement, numbering);
            }
        },
        Term::Case(scrutinee, arms) => {
            lemma_subst_case(*scrutinee, arms, variable, replacement);
            lemma_subst_knows(*scrutinee, variable, replacement, numbering);
            let after = subst_arms(arms, variable, replacement);
            assert forall|i: int| 0 <= i < after.len() implies knows_arm(
                #[trigger] after[i],
                numbering,
            ) by {
                assert(knows_arm(arms[i], numbering));
                if !arms[i].parameters.contains(variable) {
                    lemma_subst_knows(*arms[i].expression, variable, replacement, numbering);
                }
            }
        },
    }
}

/// Binding parameters to terms whose names are known, in a body whose names
/// are known, gives a term whose names are known.
pub proof fn lemma_bind_knows(
    body: Term,
    parameters: Seq<Seq<char>>,
    arguments: Seq<Term>,
    count: nat,
    numbering: Numbering,
)
    requires
        knows(body, numbering),
        count <= arguments.len(),
        forall|i: int| 0 <= i < arguments.len() ==> knows(#[trigger] arguments[i], numbering),
    ensures
        knows(bind(body, parameters, arguments, count), numbering),
    decreases count,
{
    if count > 0 {
        lemma_subst_knows(body, parameters[count - 1], arguments[count - 1], numbering);
        lemma_bind_knows(
            subst(body, parameters[count - 1], arguments[count - 1]),
            parameters,
            arguments,
            (count - 1) as nat,
            numbering,
        );
    }
}

/// What a term whose names are known reduces to holds only known names.
pub proof fn lemma_reduce_knows(term: Term, fuel: nat, numbering: Numbering)
    requires
        knows(term, numbering),
        reduce(term, fuel) is Some,
    ensures
        knows(reduce(term, fuel).unwrap(), numbering),
    decreases fuel,
{
    let rest = (fuel - 1) as nat;
    match term {
        Term::Var(_) => {},
        Term::Lambda(_, _) => {},
        Term::Apply(f, a) => {
            lemma_reduce_knows(*f, rest, numbering);
            match reduce(*f, rest) {
                Some(Term::Lambda(x, body)) => {
                    lemma_reduce_knows(*a, rest, numbering);
                    let value = reduce(*a, rest).unwrap();
                    lemma_subst_knows(*body, x, value, numbering);
                    lemma_reduce_knows(subst(*body, x, value), rest, numbering);
                },
                _ => {},
            }
        },
        Term::Const(c, arguments) => {
            lemma_reduce_const(c, arguments, fuel);
            let values = reduced(arguments, rest);
            assert forall|i: int| 0 <= i < values.len() implies knows(
                #[trigger] values[i],
                numbering,
            ) by {
                assert(knows(arguments[i], numbering));
                lemma_reduce_knows(arguments[i], rest, numbering);
            }
        },
        Term::Case(scrutinee, arms) => {
            lemma_reduce_knows(*scrutinee, rest, numbering);
            match reduce(*scrutinee, rest) {
                Some(Term::Const(c, values)) => {
                    match first_match(arms, c, values.len()) {
                        Some(i) => {
                            lemma_first_match(arms, c, values.len(), 0);
                            assert(knows_arm(arms[i], numbering));
                            lemma_bind_knows(
                                *arms[i].expression,
                                arms[i].parameters,
                                values,
                                values.len(),
                                numbering,
                            );
                            lemma_reduce_knows(
                                bind(
                                    *arms[i].expression,
                                    arms[i].parameters,
                                    values,
                                    values.len(),
                                ),
                                rest,
                                numbering,
                            );
                        },
                        None => {},
                    }
                },
                _ => {},
            }
        },
        Term::Rec(x, body) => {
            lemma_subst_knows(*body, x, term, numbering);
            lemma_reduce_knows(subst(*body, x, term), rest, numbering);
        },
    }
}

/// After a term was encoded, encoding what the term reduces to gives no new
/// number: the result is rendered under the numbering as it stands.
pub proof fn lemma_result_needs_no_numbers(term: Term, fuel: nat, numbering: Numbering)
    requires
        reduce(term, fuel) is Some,
    ensures
        encode(reduce(term, fuel).unwrap(), number(term, numbering)) == (
            render(reduce(term, fuel).unwrap(), number(term, numbering)),
            number(term, numbering),
        ),
{
    let after = number(term, numbering);
    lemma_number(term, numbering);
    lemma_reduce_knows(term, fuel, after);
    lemma_number(reduce(term, fuel).unwrap(), after);
}

} // verus!
