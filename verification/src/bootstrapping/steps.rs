//! Reduction as a relation: a term steps to its normal form. The rules of
//! reduction follow, one for each kind of term.

use crate::bootstrapping::programs::{app, cases, con, fix, lam};
use crate::semantic::normal::lemma_reduce_monotonic;
use crate::semantic::substitute::subst;
use crate::semantic::{bind, first_match, lemma_reduce_const, reduce, reduced};
use crate::syntax::{Arm, Term};
use vstd::prelude::*;

verus! {

/// Whether `term` has the normal form `result`.
pub open spec fn steps(term: Term, result: Term) -> bool {
    exists|fuel: nat| #[trigger] reduce(term, fuel) == Some(result)
}

/// A depth within which `term` reaches the normal form `result`.
pub open spec fn depth(term: Term, result: Term) -> nat {
    choose|fuel: nat| #[trigger] reduce(term, fuel) == Some(result)
}

/// An abstraction is its own normal form.
pub proof fn lemma_steps_lambda(name: Seq<char>, body: Term)
    ensures
        steps(lam(name, body), lam(name, body)),
{
    assert(reduce(lam(name, body), 1) == Some(lam(name, body)));
}

/// An application whose function has an abstraction as its normal form
/// steps to what the body steps to, with the normal form of the argument in
/// place of the parameter.
pub proof fn lemma_steps_apply(
    function: Term,
    argument: Term,
    name: Seq<char>,
    body: Term,
    value: Term,
    result: Term,
)
    requires
        steps(function, lam(name, body)),
        steps(argument, value),
        steps(subst(body, name, value), result),
    ensures
        steps(app(function, argument), result),
{
    let first = depth(function, lam(name, body));
    let second = depth(argument, value);
    let third = depth(subst(body, name, value), result);
    let most = if first >= second && first >= third {
        first
    } else if second >= third {
        second
    } else {
        third
    };
    lemma_reduce_monotonic(function, first, most);
    lemma_reduce_monotonic(argument, second, most);
    lemma_reduce_monotonic(subst(body, name, value), third, most);
    assert(reduce(app(function, argument), most + 1) == Some(result));
}

/// A recursive binding steps to what its body steps to, with the binding
/// in place of its variable.
pub proof fn lemma_steps_rec(name: Seq<char>, body: Term, result: Term)
    requires
        steps(subst(body, name, fix(name, body)), result),
    ensures
        steps(fix(name, body), result),
{
    let fuel = depth(subst(body, name, fix(name, body)), result);
    assert(reduce(fix(name, body), fuel + 1) == Some(result));
}

/// A case expression whose scrutinee has a constructor application as its
/// normal form steps to what the body of the first branch that fits steps
/// to, with the arguments in place of the parameters.
pub proof fn lemma_steps_case(
    scrutinee: Term,
    arms: Seq<Arm>,
    constructor: Seq<char>,
    values: Seq<Term>,
    taken: int,
    result: Term,
)
    requires
        steps(scrutinee, con(constructor, values)),
        first_match(arms, constructor, values.len()) == Some(taken),
        steps(
            bind(*arms[taken].expression, arms[taken].parameters, values, values.len()),
            result,
        ),
    ensures
        steps(cases(scrutinee, arms), result),
{
    let bound = bind(*arms[taken].expression, arms[taken].parameters, values, values.len());
    let first = depth(scrutinee, con(constructor, values));
    let second = depth(bound, result);
    let most = if first >= second {
        first
    } else {
        second
    };
    lemma_reduce_monotonic(scrutinee, first, most);
    lemma_reduce_monotonic(bound, second, most);
    assert(reduce(cases(scrutinee, arms), most + 1) == Some(result));
}

/// A constructor application steps to the constructor applied to what its
/// arguments step to.
pub proof fn lemma_steps_con(constructor: Seq<char>, arguments: Seq<Term>, values: Seq<Term>)
    requires
        arguments.len() == values.len(),
        forall|i: int| 0 <= i < arguments.len() ==> steps(#[trigger] arguments[i], values[i]),
    ensures
        steps(con(constructor, arguments), con(constructor, values)),
{
    let most = lemma_common_depth(arguments, values, arguments.len());
    lemma_reduce_const(constructor, arguments, most + 1);
    assert(reduced(arguments, most) =~= values);
    assert(reduce(con(constructor, arguments), most + 1) == Some(con(constructor, values)));
}

/// A depth within which each of the first `count` terms reaches its normal
/// form.
proof fn lemma_common_depth(arguments: Seq<Term>, values: Seq<Term>, count: nat) -> (most: nat)
    requires
        count <= arguments.len() == values.len(),
        forall|i: int| 0 <= i < arguments.len() ==> steps(#[trigger] arguments[i], values[i]),
    ensures
        forall|i: int| 0 <= i < count ==> reduce(#[trigger] arguments[i], most) == Some(values[i]),
    decreases count,
{
    if count == 0 {
        0
    } else {
        let before = lemma_common_depth(arguments, values, (count - 1) as nat);
        let own = depth(arguments[count - 1], values[count - 1]);
        let most = if before >= own {
            before
        } else {
            own
        };
        assert forall|i: int| 0 <= i < count implies reduce(#[trigger] arguments[i], most)
            == Some(values[i]) by {
            if i < count - 1 {
                lemma_reduce_monotonic(arguments[i], before, most);
            } else {
                lemma_reduce_monotonic(arguments[i], own, most);
            }
        }
        most
    }
}

} // verus!
