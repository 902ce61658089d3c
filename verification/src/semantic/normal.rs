//! Laws of reduction: more depth changes no result, a normal form reduces
//! to itself, and a binding that only names itself has no normal form.

use crate::semantic::substitute::subst;
use crate::semantic::{
    bind, enough_fuel, evaluates, first_match, lemma_reduce_const, normal_form, reduce, reduced,
};
use crate::syntax::Term;
use vstd::prelude::*;

verus! {

/// A normal form that is reached within some depth is reached within every
/// greater depth.
pub proof fn lemma_reduce_monotonic(term: Term, fuel: nat, more: nat)
    requires
        reduce(term, fuel) is Some,
        fuel <= more,
    ensures
        reduce(term, more) == reduce(term, fuel),
    decreases fuel,
{
    let rest = (fuel - 1) as nat;
    let more_rest = (more - 1) as nat;
    match term {
        Term::Var(_) => {},
        Term::Lambda(_, _) => {},
        Term::Apply(f, a) => {
            lemma_reduce_monotonic(*f, rest, more_rest);
            match reduce(*f, rest) {
                Some(Term::Lambda(x, body)) => {
                    lemma_reduce_monotonic(*a, rest, more_rest);
                    lemma_reduce_monotonic(
                        subst(*body, x, reduce(*a, rest).unwrap()),
                        rest,
                        more_rest,
                    );
                },
                _ => {},
            }
        },
        Term::Const(c, arguments) => {
            lemma_reduce_const(c, arguments, fuel);
            lemma_reduce_const(c, arguments, more);
            assert forall|i: int| 0 <= i < arguments.len() implies reduce(
                #[trigger] arguments[i],
                more_rest,
            ) == reduce(arguments[i], rest) by {
                lemma_reduce_monotonic(arguments[i], rest, more_rest);
            }
            assert(reduced(arguments, more_rest) =~= reduced(arguments, rest));
        },
        Term::Case(scrutinee, arms) => {
            lemma_reduce_monotonic(*scrutinee, rest, more_rest);
            match reduce(*scrutinee, rest) {
                Some(Term::Const(c, values)) => {
                    match first_match(arms, c, values.len()) {
                        Some(i) => {
                            lemma_reduce_monotonic(
                                bind(
                                    *arms[i].expression,
                                    arms[i].parameters,
                                    values,
                                    values.len(),
                                ),
                                rest,
                                more_rest,
                            );
                        },
                        None => {},
                    }
                },
                _ => {},
            }
        },
        Term::Rec(x, body) => {
            lemma_reduce_monotonic(subst(*body, x, term), rest, more_rest);
        },
    }
}

/// Whatever depth suffices gives the normal form.
pub proof fn lemma_reduce_gives_normal_form(term: Term, fuel: nat)
    requires
        reduce(term, fuel) is Some,
    ensures
        evaluates(term),
        reduce(term, fuel) == Some(normal_form(term)),
{
    let chosen = enough_fuel(term);
    if chosen <= fuel {
        lemma_reduce_monotonic(term, chosen, fuel);
    } else {
        lemma_reduce_monotonic(term, fuel, chosen);
    }
}

/// Whether a term is a normal form: reduction returns it as it is.
pub open spec fn is_normal(term: Term) -> bool {
    exists|fuel: nat| #[trigger] reduce(term, fuel) == Some(term)
}

/// A depth within which every term of a list of normal forms reduces to
/// itself.
proof fn lemma_common_fuel(values: Seq<Term>, count: nat) -> (fuel: nat)
    requires
        count <= values.len(),
        forall|i: int| 0 <= i < values.len() ==> is_normal(#[trigger] values[i]),
    ensures
        forall|i: int| 0 <= i < count ==> reduce(#[trigger] values[i], fuel) == Some(values[i]),
    decreases count,
{
    if count == 0 {
        0
    } else {
        let before = lemma_common_fuel(values, (count - 1) as nat);
        let last = values[count - 1];
        let own = choose|m: nat| reduce(last, m) == Some(last);
        let fuel = if before <= own {
            own
        } else {
            before
        };
        assert forall|i: int| 0 <= i < count implies reduce(#[trigger] values[i], fuel) == Some(
            values[i],
        ) by {
            if i < count - 1 {
                lemma_reduce_monotonic(values[i], before, fuel);
            } else {
                lemma_reduce_monotonic(last, own, fuel);
            }
        }
        fuel
    }
}

/// What a term reduces to reduces to itself.
pub proof fn lemma_result_is_normal(term: Term, fuel: nat)
    requires
        reduce(term, fuel) is Some,
    ensures
        is_normal(reduce(term, fuel).unwrap()),
    decreases fuel,
{
    let rest = (fuel - 1) as nat;
    let result = reduce(term, fuel).unwrap();
    match term {
        Term::Var(_) => {
            assert(reduce(result, 1) == Some(result));
        },
        Term::Lambda(_, _) => {
            assert(reduce(result, 1) == Some(result));
        },
        Term::Apply(f, a) => {
            match reduce(*f, rest) {
                Some(Term::Lambda(x, body)) => {
                    lemma_result_is_normal(
                        subst(*body, x, reduce(*a, rest).unwrap()),
                        rest,
                    );
                },
                _ => {
                    assert(reduce(result, fuel) == Some(result));
                },
            }
        },
        Term::Const(c, arguments) => {
            lemma_reduce_const(c, arguments, fuel);
            let values = reduced(arguments, rest);
            assert forall|i: int| 0 <= i < values.len() implies is_normal(
                #[trigger] values[i],
            ) by {
                lemma_result_is_normal(arguments[i], rest);
            }
            let common = lemma_common_fuel(values, values.len());
            lemma_reduce_const(c, values, common + 1);
            assert(reduced(values, common) =~= values);
            assert(reduce(result, common + 1) == Some(result));
        },
        Term::Case(scrutinee, arms) => {
            match reduce(*scrutinee, rest) {
                Some(Term::Const(c, values)) => {
                    match first_match(arms, c, values.len()) {
                        Some(i) => {
                            lemma_result_is_normal(
                                bind(
                                    *arms[i].expression,
                                    arms[i].parameters,
                                    values,
                                    values.len(),
                                ),
                                rest,
                            );
                        },
                        None => {
                            assert(reduce(result, fuel) == Some(result));
                        },
                    }
                },
                _ => {
                    assert(reduce(result, fuel) == Some(result));
                },
            }
        },
        Term::Rec(x, body) => {
            lemma_result_is_normal(subst(*body, x, term), rest);
        },
    }
}

/// Evaluation is idempotent: the normal form of a term has a normal form,
/// which is itself.
pub proof fn lemma_normal_form_idempotent(term: Term)
    requires
        evaluates(term),
    ensures
        is_normal(normal_form(term)),
        evaluates(normal_form(term)),
        normal_form(normal_form(term)) == normal_form(term),
{
    let fuel = enough_fuel(term);
    lemma_result_is_normal(term, fuel);
    let result = normal_form(term);
    let again = choose|m: nat| reduce(result, m) == Some(result);
    lemma_reduce_gives_normal_form(result, again);
}

/// A recursive binding whose body is its own variable has no normal form
/// within any depth.
pub proof fn lemma_self_binding_diverges(variable: Seq<char>, fuel: nat)
    ensures
        reduce(Term::Rec(variable, Box::new(Term::Var(variable))), fuel) is None,
    decreases fuel,
{
    if fuel > 0 {
        lemma_self_binding_diverges(variable, (fuel - 1) as nat);
    }
}

} // verus!
