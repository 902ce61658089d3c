//! Substitution and binding, worked out for terms of the shapes that the
//! programs are built from.

use crate::bootstrapping::programs::{app, app2, app3, arm, cases, con, v};
use crate::semantic::substitute::{
    lemma_subst_case, lemma_subst_const, subst, subst_all, subst_arm, subst_arms,
};
use crate::semantic::{arm_matches, bind, first_match, lemma_first_match};
use crate::syntax::{Arm, Term};
use vstd::prelude::*;

verus! {

/// Whether substitution leaves the term as it is, whatever is substituted
/// for whichever variable: so it is for a term without free variables.
pub open spec fn inert(term: Term) -> bool {
    forall|variable: Seq<char>, replacement: Term| #[trigger]
        subst(term, variable, replacement) == term
}

/// Substitution in a variable.
pub proof fn lemma_subst_var(name: Seq<char>, x: Seq<char>, r: Term)
    ensures
        subst(v(name), x, r) == if name == x {
            r
        } else {
            v(name)
        },
{
}

/// Substitution in an application.
pub proof fn lemma_subst_app(f: Term, a: Term, x: Seq<char>, r: Term)
    ensures
        subst(app(f, a), x, r) == app(subst(f, x, r), subst(a, x, r)),
{
}

/// Substitution in an application to two arguments.
pub proof fn lemma_subst_app2(f: Term, a: Term, b: Term, x: Seq<char>, r: Term)
    ensures
        subst(app2(f, a, b), x, r) == app2(subst(f, x, r), subst(a, x, r), subst(b, x, r)),
{
    reveal_with_fuel(subst, 2);
}

/// Substitution in an application to three arguments.
pub proof fn lemma_subst_app3(f: Term, a: Term, b: Term, c: Term, x: Seq<char>, r: Term)
    ensures
        subst(app3(f, a, b, c), x, r) == app3(
            subst(f, x, r),
            subst(a, x, r),
            subst(b, x, r),
            subst(c, x, r),
        ),
{
    reveal_with_fuel(subst, 3);
}

/// Substitution in a constructor without arguments.
pub proof fn lemma_subst_con0(c: Seq<char>, x: Seq<char>, r: Term)
    ensures
        subst(con(c, seq![]), x, r) == con(c, seq![]),
{
    lemma_subst_const(c, seq![], x, r);
    assert(subst_all(seq![], x, r) =~= seq![]);
}

/// Substitution in a constructor application with one argument.
pub proof fn lemma_subst_con1(c: Seq<char>, a: Term, x: Seq<char>, r: Term)
    ensures
        subst(con(c, seq![a]), x, r) == con(c, seq![subst(a, x, r)]),
{
    lemma_subst_const(c, seq![a], x, r);
    assert(subst_all(seq![a], x, r) =~= seq![subst(a, x, r)]);
}

/// Substitution in a constructor application with two arguments.
pub proof fn lemma_subst_con2(c: Seq<char>, a: Term, b: Term, x: Seq<char>, r: Term)
    ensures
        subst(con(c, seq![a, b]), x, r) == con(c, seq![subst(a, x, r), subst(b, x, r)]),
{
    lemma_subst_const(c, seq![a, b], x, r);
    assert(subst_all(seq![a, b], x, r) =~= seq![subst(a, x, r), subst(b, x, r)]);
}

/// Substitution in a constructor application with three arguments.
pub proof fn lemma_subst_con3(c: Seq<char>, a: Term, b: Term, d: Term, x: Seq<char>, r: Term)
    ensures
        subst(con(c, seq![a, b, d]), x, r) == con(
            c,
            seq![subst(a, x, r), subst(b, x, r), subst(d, x, r)],
        ),
{
    lemma_subst_const(c, seq![a, b, d], x, r);
    assert(subst_all(seq![a, b, d], x, r) =~= seq![
        subst(a, x, r),
        subst(b, x, r),
        subst(d, x, r),
    ]);
}

/// Substitution in a case expression with one branch.
pub proof fn lemma_subst_cases1(s: Term, a: Arm, x: Seq<char>, r: Term)
    ensures
        subst(cases(s, seq![a]), x, r) == cases(subst(s, x, r), seq![subst_arm(a, x, r)]),
{
    lemma_subst_case(s, seq![a], x, r);
    assert(subst_arms(seq![a], x, r) =~= seq![subst_arm(a, x, r)]);
}

/// Substitution in a case expression with two branches.
pub proof fn lemma_subst_cases2(s: Term, a: Arm, b: Arm, x: Seq<char>, r: Term)
    ensures
        subst(cases(s, seq![a, b]), x, r) == cases(
            subst(s, x, r),
            seq![subst_arm(a, x, r), subst_arm(b, x, r)],
        ),
{
    lemma_subst_case(s, seq![a, b], x, r);
    assert(subst_arms(seq![a, b], x, r) =~= seq![subst_arm(a, x, r), subst_arm(b, x, r)]);
}

/// Substitution in a case expression with six branches.
pub proof fn lemma_subst_cases6(
    s: Term,
    a: Arm,
    b: Arm,
    c: Arm,
    d: Arm,
    e: Arm,
    f: Arm,
    x: Seq<char>,
    r: Term,
)
    ensures
        subst(cases(s, seq![a, b, c, d, e, f]), x, r) == cases(
            subst(s, x, r),
            seq![
                subst_arm(a, x, r),
                subst_arm(b, x, r),
                subst_arm(c, x, r),
                subst_arm(d, x, r),
                subst_arm(e, x, r),
                subst_arm(f, x, r),
            ],
        ),
{
    lemma_subst_case(s, seq![a, b, c, d, e, f], x, r);
    assert(subst_arms(seq![a, b, c, d, e, f], x, r) =~= seq![
        subst_arm(a, x, r),
        subst_arm(b, x, r),
        subst_arm(c, x, r),
        subst_arm(d, x, r),
        subst_arm(e, x, r),
        subst_arm(f, x, r),
    ]);
}

/// Substitution in a branch without parameters.
pub proof fn lemma_subst_arm0(c: Seq<char>, body: Term, x: Seq<char>, r: Term)
    ensures
        subst_arm(arm(c, seq![], body), x, r) == arm(c, seq![], subst(body, x, r)),
{
}

/// Substitution in a branch with one parameter.
pub proof fn lemma_subst_arm1(c: Seq<char>, p: Seq<char>, body: Term, x: Seq<char>, r: Term)
    ensures
        subst_arm(arm(c, seq![p], body), x, r) == if x == p {
            arm(c, seq![p], body)
        } else {
            arm(c, seq![p], subst(body, x, r))
        },
{
    if x == p {
        assert(seq![p][0] == x);
    }
}

/// Substitution in a branch with two parameters.
pub proof fn lemma_subst_arm2(
    c: Seq<char>,
    p: Seq<char>,
    q: Seq<char>,
    body: Term,
    x: Seq<char>,
    r: Term,
)
    ensures
        subst_arm(arm(c, seq![p, q], body), x, r) == if x == p || x == q {
            arm(c, seq![p, q], body)
        } else {
            arm(c, seq![p, q], subst(body, x, r))
        },
{
    if x == p {
        assert(seq![p, q][0] == x);
    }
    if x == q {
        assert(seq![p, q][1] == x);
    }
}

/// Substitution in a branch with three parameters.
pub proof fn lemma_subst_arm3(
    c: Seq<char>,
    p: Seq<char>,
    q: Seq<char>,
    s: Seq<char>,
    body: Term,
    x: Seq<char>,
    r: Term,
)
    ensures
        subst_arm(arm(c, seq![p, q, s], body), x, r) == if x == p || x == q || x == s {
            arm(c, seq![p, q, s], body)
        } else {
            arm(c, seq![p, q, s], subst(body, x, r))
        },
{
    if x == p {
        assert(seq![p, q, s][0] == x);
    }
    if x == q {
        assert(seq![p, q, s][1] == x);
    }
    if x == s {
        assert(seq![p, q, s][2] == x);
    }
}

/// Binding parameters in a term that substitution leaves as it is gives
/// that term.
pub proof fn lemma_bind_inert(
    body: Term,
    parameters: Seq<Seq<char>>,
    arguments: Seq<Term>,
    count: nat,
)
    requires
        inert(body),
    ensures
        bind(body, parameters, arguments, count) == body,
    decreases count,
{
    if count > 0 {
        assert(subst(body, parameters[count - 1], arguments[count - 1]) == body);
        lemma_bind_inert(body, parameters, arguments, (count - 1) as nat);
    }
}

/// Binding no parameter.
pub proof fn lemma_bind0(body: Term, parameters: Seq<Seq<char>>, arguments: Seq<Term>)
    ensures
        bind(body, parameters, arguments, 0) == body,
{
}

/// Binding one parameter.
pub proof fn lemma_bind1(body: Term, p: Seq<char>, a: Term)
    ensures
        bind(body, seq![p], seq![a], 1) == subst(body, p, a),
{
    reveal_with_fuel(bind, 2);
}

/// Binding two parameters: the second is substituted first.
pub proof fn lemma_bind2(body: Term, p: Seq<char>, q: Seq<char>, a: Term, b: Term)
    ensures
        bind(body, seq![p, q], seq![a, b], 2) == subst(subst(body, q, b), p, a),
{
    reveal_with_fuel(bind, 3);
}

/// Binding three parameters: the last is substituted first.
pub proof fn lemma_bind3(
    body: Term,
    p: Seq<char>,
    q: Seq<char>,
    s: Seq<char>,
    a: Term,
    b: Term,
    c: Term,
)
    ensures
        bind(body, seq![p, q, s], seq![a, b, c], 3) == subst(
            subst(subst(body, s, c), q, b),
            p,
            a,
        ),
{
    reveal_with_fuel(bind, 4);
}

/// A branch that fits, before which none fits, is the one that is taken.
pub proof fn lemma_takes(arms: Seq<Arm>, constructor: Seq<char>, arity: nat, taken: int)
    requires
        0 <= taken < arms.len(),
        arm_matches(arms[taken], constructor, arity),
        forall|j: int| 0 <= j < taken ==> !arm_matches(#[trigger] arms[j], constructor, arity),
    ensures
        first_match(arms, constructor, arity) == Some(taken),
{
    lemma_first_match(arms, constructor, arity, 0);
}

/// Where no branch fits, none is taken.
pub proof fn lemma_takes_none(arms: Seq<Arm>, constructor: Seq<char>, arity: nat)
    requires
        forall|j: int| 0 <= j < arms.len() ==> !arm_matches(#[trigger] arms[j], constructor, arity),
    ensures
        first_match(arms, constructor, arity) is None,
{
    lemma_first_match(arms, constructor, arity, 0);
}

} // verus!
