//! Calls of recursive programs: a recursive binding of an abstraction,
//! applied to as many arguments as it has parameters, steps to what its
//! body steps to with the binding and the values of the arguments in place.

use crate::bootstrapping::programs::{app, app2, app3, fix, lam};
use crate::bootstrapping::steps::{
    lemma_steps_apply, lemma_steps_lambda, lemma_steps_rec, steps,
};
use crate::semantic::substitute::subst;
use crate::syntax::Term;
use vstd::prelude::*;

verus! {

/// A call of a recursive program of one parameter.
pub proof fn lemma_call1(
    name: Seq<char>,
    p: Seq<char>,
    body: Term,
    a: Term,
    value: Term,
    result: Term,
)
    requires
        name != p,
        steps(a, value),
        steps(subst(subst(body, name, fix(name, lam(p, body))), p, value), result),
    ensures
        steps(app(fix(name, lam(p, body)), a), result),
{
    let program = fix(name, lam(p, body));
    let unfolded = subst(body, name, program);
    assert(subst(lam(p, body), name, program) == lam(p, unfolded));
    lemma_steps_lambda(p, unfolded);
    lemma_steps_rec(name, lam(p, body), lam(p, unfolded));
    lemma_steps_apply(program, a, p, unfolded, value, result);
}

/// What a recursive program of two parameters is when it has got the first
/// argument.
pub open spec fn after_first(
    name: Seq<char>,
    p: Seq<char>,
    q: Seq<char>,
    body: Term,
    first: Term,
) -> Term {
    lam(q, subst(subst(body, name, fix(name, lam(p, lam(q, body)))), p, first))
}

/// A recursive program of two parameters, applied to one argument, is an
/// abstraction.
pub proof fn lemma_call2_first(
    name: Seq<char>,
    p: Seq<char>,
    q: Seq<char>,
    body: Term,
    a: Term,
    first: Term,
)
    requires
        name != p,
        name != q,
        p != q,
        steps(a, first),
    ensures
        steps(app(fix(name, lam(p, lam(q, body))), a), after_first(name, p, q, body, first)),
{
    let program = fix(name, lam(p, lam(q, body)));
    let unfolded = subst(body, name, program);
    assert(subst(lam(p, lam(q, body)), name, program) == lam(p, lam(q, unfolded))) by {
        reveal_with_fuel(subst, 2);
    }
    lemma_steps_lambda(p, lam(q, unfolded));
    lemma_steps_rec(name, lam(p, lam(q, body)), lam(p, lam(q, unfolded)));
    assert(subst(lam(q, unfolded), p, first) == after_first(name, p, q, body, first));
    lemma_steps_lambda(q, subst(unfolded, p, first));
    lemma_steps_apply(program, a, p, lam(q, unfolded), first, after_first(name, p, q, body, first));
}

/// A call of a recursive program of two parameters.
pub proof fn lemma_call2(
    name: Seq<char>,
    p: Seq<char>,
    q: Seq<char>,
    body: Term,
    a: Term,
    b: Term,
    first: Term,
    second: Term,
    result: Term,
)
    requires
        name != p,
        name != q,
        p != q,
        steps(a, first),
        steps(b, second),
        steps(
            subst(
                subst(subst(body, name, fix(name, lam(p, lam(q, body)))), p, first),
                q,
                second,
            ),
            result,
        ),
    ensures
        steps(app2(fix(name, lam(p, lam(q, body))), a, b), result),
{
    let program = fix(name, lam(p, lam(q, body)));
    lemma_call2_first(name, p, q, body, a, first);
    lemma_steps_apply(
        app(program, a),
        b,
        q,
        subst(subst(body, name, program), p, first),
        second,
        result,
    );
}

/// A call of a recursive program of three parameters.
pub proof fn lemma_call3(
    name: Seq<char>,
    p: Seq<char>,
    q: Seq<char>,
    s: Seq<char>,
    body: Term,
    a: Term,
    b: Term,
    c: Term,
    first: Term,
    second: Term,
    third: Term,
    result: Term,
)
    requires
        name != p,
        name != q,
        name != s,
        p != q,
        p != s,
        q != s,
        steps(a, first),
        steps(b, second),
        steps(c, third),
        steps(
            subst(
                subst(
                    subst(subst(body, name, fix(name, lam(p, lam(q, lam(s, body))))), p, first),
                    q,
                    second,
                ),
                s,
                third,
            ),
            result,
        ),
    ensures
        steps(app3(fix(name, lam(p, lam(q, lam(s, body)))), a, b, c), result),
{
    let program = fix(name, lam(p, lam(q, lam(s, body))));
    let unfolded = subst(body, name, program);
    assert(subst(lam(p, lam(q, lam(s, body))), name, program) == lam(
        p,
        lam(q, lam(s, unfolded)),
    )) by {
        reveal_with_fuel(subst, 3);
    }
    lemma_steps_lambda(p, lam(q, lam(s, unfolded)));
    lemma_steps_rec(name, lam(p, lam(q, lam(s, body))), lam(p, lam(q, lam(s, unfolded))));
    let one = subst(unfolded, p, first);
    assert(subst(lam(q, lam(s, unfolded)), p, first) == lam(q, lam(s, one))) by {
        reveal_with_fuel(subst, 2);
    }
    lemma_steps_lambda(q, lam(s, one));
    lemma_steps_apply(program, a, p, lam(q, lam(s, unfolded)), first, lam(q, lam(s, one)));
    let two = subst(one, q, second);
    assert(subst(lam(s, one), q, second) == lam(s, two));
    lemma_steps_lambda(s, two);
    lemma_steps_apply(app(program, a), b, q, lam(s, one), second, lam(s, two));
    lemma_steps_apply(app2(program, a, b), c, s, two, third, result);
}

} // verus!
