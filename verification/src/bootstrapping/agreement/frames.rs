//! Substitution in the pieces of the interpreter program.

use crate::bootstrapping::agreement::binding::lemma_binder_inert;
use crate::bootstrapping::agreement::finding::lemma_lookup_inert;
use crate::bootstrapping::agreement::rewrite::{
    inert, lemma_subst_app, lemma_subst_app3, lemma_subst_arm0, lemma_subst_arm1,
    lemma_subst_arm2, lemma_subst_cases2, lemma_subst_cases6, lemma_subst_con1,
    lemma_subst_con2, lemma_subst_var,
};
use crate::bootstrapping::agreement::shapes::{
    lemma_at_constructor_subst, lemma_substituter_inert,
};
use crate::bootstrapping::agreement::words::lemma_codes;
use crate::bootstrapping::programs::{
    app, app3, arm, at_constructor, beta, binder, cases, con, dispatch, interpreter,
    interpreter_arms, interpreter_body, lam, lookup, on_apply, on_case, on_rec, substituter,
    unless_const, unless_lambda, v,
};
use crate::semantic::substitute::{subst, subst_arm};
use crate::syntax::{Arm, Term};
use vstd::prelude::*;

verus! {

/// Substitution in the evaluation of the body of an abstraction.
pub proof fn lemma_beta_subst(ev: Term, x: Term, a: Term, b: Term, z: Seq<char>, r: Term)
    ensures
        subst(beta(ev, x, a, b), z, r) == beta(
            subst(ev, z, r),
            subst(x, z, r),
            subst(a, z, r),
            subst(b, z, r),
        ),
{
    lemma_substituter_inert();
    lemma_subst_app(ev, a, z, r);
    lemma_subst_app3(substituter(), x, app(ev, a), b, z, r);
    lemma_subst_app(ev, app3(substituter(), x, app(ev, a), b), z, r);
}

/// Substitution in what the interpreter does with a recursive binding.
pub proof fn lemma_on_rec_subst(ev: Term, x: Term, b: Term, z: Seq<char>, r: Term)
    ensures
        subst(on_rec(ev, x, b), z, r) == on_rec(subst(ev, z, r), subst(x, z, r), subst(b, z, r)),
{
    lemma_substituter_inert();
    lemma_subst_con2("Rec"@, x, b, z, r);
    lemma_subst_app3(substituter(), x, con("Rec"@, seq![x, b]), b, z, r);
    lemma_subst_app(ev, app3(substituter(), x, con("Rec"@, seq![x, b]), b), z, r);
}

/// Substitution in the call of the evaluation of a bound body.
pub proof fn lemma_bound_call_subst(ev: Term, ps: Term, vs: Term, b: Term, z: Seq<char>, r: Term)
    ensures
        subst(app(ev, app3(binder(), ps, vs, b)), z, r) == app(
            subst(ev, z, r),
            app3(binder(), subst(ps, z, r), subst(vs, z, r), subst(b, z, r)),
        ),
{
    lemma_binder_inert();
    lemma_subst_app3(binder(), ps, vs, b, z, r);
    lemma_subst_app(ev, app3(binder(), ps, vs, b), z, r);
}

/// Substitution in the dispatch on the value of a scrutinee: a variable
/// that the branch for `Found` binds does not reach what stands under it.
pub proof fn lemma_dispatch_subst(
    ev: Term,
    c: Term,
    vs: Term,
    bs: Term,
    s: Term,
    z: Seq<char>,
    r: Term,
)
    ensures
        subst(dispatch(ev, c, vs, bs, s), z, r) == cases(
            app3(lookup(), subst(c, z, r), subst(vs, z, r), subst(bs, z, r)),
            seq![
                if z == "ps"@ || z == "b"@ {
                    arm("Found"@, seq!["ps"@, "b"@], app(ev, app3(binder(), v("ps"@), vs, v("b"@))))
                } else {
                    arm(
                        "Found"@,
                        seq!["ps"@, "b"@],
                        app(
                            subst(ev, z, r),
                            app3(binder(), v("ps"@), subst(vs, z, r), v("b"@)),
                        ),
                    )
                },
                arm("Missing"@, seq![], con("Case"@, seq![subst(s, z, r), subst(bs, z, r)])),
            ],
        ),
{
    lemma_lookup_inert();
    let call = app(ev, app3(binder(), v("ps"@), vs, v("b"@)));
    let stuck = con("Case"@, seq![s, bs]);
    lemma_subst_app3(lookup(), c, vs, bs, z, r);
    lemma_bound_call_subst(ev, v("ps"@), vs, v("b"@), z, r);
    lemma_subst_var("ps"@, z, r);
    lemma_subst_var("b"@, z, r);
    lemma_subst_con2("Case"@, s, bs, z, r);
    lemma_subst_arm2("Found"@, "ps"@, "b"@, call, z, r);
    lemma_subst_arm0("Missing"@, stuck, z, r);
    lemma_subst_cases2(
        app3(lookup(), c, vs, bs),
        arm("Found"@, seq!["ps"@, "b"@], call),
        arm("Missing"@, seq![], stuck),
        z,
        r,
    );
}

/// Whether a name is one that a branch in what the interpreter does with an
/// application binds.
pub open spec fn bound_in_on_apply(name: Seq<char>) -> bool {
    ||| name == "x"@
    ||| name == "b"@
    ||| name == "y"@
    ||| name == "g"@
    ||| name == "h"@
    ||| name == "k"@
    ||| name == "es"@
    ||| name == "s"@
    ||| name == "bs"@
}

/// Whether a name is one that a branch in what the interpreter does with a
/// case expression binds.
pub open spec fn bound_in_on_case(name: Seq<char>) -> bool {
    ||| name == "c"@
    ||| name == "vs"@
    ||| name == "ps"@
    ||| name == "b"@
    ||| name == "y"@
    ||| name == "g"@
    ||| name == "h"@
    ||| name == "r"@
    ||| name == "cs"@
}

/// Substitution in the six branches that tell an abstraction from the
/// other kinds, where it leaves what stands for the other kinds as it is
/// or reaches it.
pub proof fn lemma_unless_lambda_subst(
    on_lambda: Arm,
    otherwise: Term,
    after: Term,
    z: Seq<char>,
    r: Term,
)
    requires
        subst(otherwise, z, r) == after,
        bound_in_on_apply(z) ==> after == otherwise,
    ensures
        forall|i: int|
            1 <= i < 6 ==> subst_arm(#[trigger] unless_lambda(on_lambda, otherwise)[i], z, r)
                == unless_lambda(on_lambda, after)[i],
{
    lemma_subst_arm1("Var"@, "y"@, otherwise, z, r);
    lemma_subst_arm2("Apply"@, "g"@, "h"@, otherwise, z, r);
    lemma_subst_arm2("Const"@, "k"@, "es"@, otherwise, z, r);
    lemma_subst_arm2("Case"@, "s"@, "bs"@, otherwise, z, r);
    lemma_subst_arm2("Rec"@, "y"@, "b"@, otherwise, z, r);
}

/// Substitution in the six branches that tell a constructor application
/// from the other kinds.
pub proof fn lemma_unless_const_subst(
    on_const: Arm,
    otherwise: Term,
    after: Term,
    z: Seq<char>,
    r: Term,
)
    requires
        subst(otherwise, z, r) == after,
        bound_in_on_case(z) ==> after == otherwise,
    ensures
        forall|i: int|
            1 <= i < 6 ==> subst_arm(#[trigger] unless_const(on_const, otherwise)[i], z, r)
                == unless_const(on_const, after)[i],
{
    lemma_subst_arm1("Var"@, "y"@, otherwise, z, r);
    lemma_subst_arm2("Apply"@, "g"@, "h"@, otherwise, z, r);
    lemma_subst_arm2("Lambda"@, "y"@, "b"@, otherwise, z, r);
    lemma_subst_arm2("Case"@, "r"@, "cs"@, otherwise, z, r);
    lemma_subst_arm2("Rec"@, "y"@, "b"@, otherwise, z, r);
}

/// Substitution in what the interpreter does with an application, where
/// the variable is none that a branch in it binds, or substitution leaves
/// what stands in its three places as it is.
pub proof fn lemma_on_apply_subst(ev: Term, f: Term, a: Term, z: Seq<char>, r: Term)
    requires
        !bound_in_on_apply(z) || (subst(ev, z, r) == ev && subst(f, z, r) == f && subst(a, z, r)
            == a),
    ensures
        subst(on_apply(ev, f, a), z, r) == on_apply(
            subst(ev, z, r),
            subst(f, z, r),
            subst(a, z, r),
        ),
{
    lemma_codes();
    let first = arm("Lambda"@, seq!["x"@, "b"@], beta(ev, v("x"@), a, v("b"@)));
    let stuck = con("Apply"@, seq![f, a]);
    let arms = unless_lambda(first, stuck);
    let first_after = arm(
        "Lambda"@,
        seq!["x"@, "b"@],
        beta(subst(ev, z, r), v("x"@), subst(a, z, r), v("b"@)),
    );
    let stuck_after = con("Apply"@, seq![subst(f, z, r), subst(a, z, r)]);
    let after = unless_lambda(first_after, stuck_after);
    lemma_subst_con2("Apply"@, f, a, z, r);
    lemma_unless_lambda_subst(first, stuck, stuck_after, z, r);
    lemma_beta_subst(ev, v("x"@), a, v("b"@), z, r);
    lemma_subst_var("x"@, z, r);
    lemma_subst_var("b"@, z, r);
    lemma_subst_arm2("Lambda"@, "x"@, "b"@, beta(ev, v("x"@), a, v("b"@)), z, r);
    lemma_subst_app(ev, f, z, r);
    lemma_subst_cases6(app(ev, f), arms[0], arms[1], arms[2], arms[3], arms[4], arms[5], z, r);
    assert(arms =~= seq![arms[0], arms[1], arms[2], arms[3], arms[4], arms[5]]);
    assert(after[1] == unless_lambda(first, stuck_after)[1]);
    assert(after[2] == unless_lambda(first, stuck_after)[2]);
    assert(after[3] == unless_lambda(first, stuck_after)[3]);
    assert(after[4] == unless_lambda(first, stuck_after)[4]);
    assert(after[5] == unless_lambda(first, stuck_after)[5]);
    assert(after =~= seq![
        subst_arm(arms[0], z, r),
        subst_arm(arms[1], z, r),
        subst_arm(arms[2], z, r),
        subst_arm(arms[3], z, r),
        subst_arm(arms[4], z, r),
        subst_arm(arms[5], z, r),
    ]);
}

/// Substitution in what the interpreter does with a case expression, where
/// the variable is none that a branch in it binds, or substitution leaves
/// what stands in its three places as it is.
pub proof fn lemma_on_case_subst(ev: Term, s: Term, bs: Term, z: Seq<char>, r: Term)
    requires
        !bound_in_on_case(z) || (subst(ev, z, r) == ev && subst(s, z, r) == s && subst(bs, z, r)
            == bs),
    ensures
        subst(on_case(ev, s, bs), z, r) == on_case(
            subst(ev, z, r),
            subst(s, z, r),
            subst(bs, z, r),
        ),
{
    lemma_codes();
    let first = arm("Const"@, seq!["c"@, "vs"@], dispatch(ev, v("c"@), v("vs"@), bs, s));
    let stuck = con("Case"@, seq![s, bs]);
    let arms = unless_const(first, stuck);
    let first_after = arm(
        "Const"@,
        seq!["c"@, "vs"@],
        dispatch(subst(ev, z, r), v("c"@), v("vs"@), subst(bs, z, r), subst(s, z, r)),
    );
    let stuck_after = con("Case"@, seq![subst(s, z, r), subst(bs, z, r)]);
    let after = unless_const(first_after, stuck_after);
    lemma_subst_con2("Case"@, s, bs, z, r);
    lemma_unless_const_subst(first, stuck, stuck_after, z, r);
    lemma_dispatch_subst(ev, v("c"@), v("vs"@), bs, s, z, r);
    lemma_subst_var("c"@, z, r);
    lemma_subst_var("vs"@, z, r);
    lemma_subst_arm2("Const"@, "c"@, "vs"@, dispatch(ev, v("c"@), v("vs"@), bs, s), z, r);
    lemma_subst_app(ev, s, z, r);
    lemma_subst_cases6(app(ev, s), arms[0], arms[1], arms[2], arms[3], arms[4], arms[5], z, r);
    assert(arms =~= seq![arms[0], arms[1], arms[2], arms[3], arms[4], arms[5]]);
    assert(after[1] == unless_const(first, stuck_after)[1]);
    assert(after[2] == unless_const(first, stuck_after)[2]);
    assert(after[3] == unless_const(first, stuck_after)[3]);
    assert(after[4] == unless_const(first, stuck_after)[4]);
    assert(after[5] == unless_const(first, stuck_after)[5]);
    assert(after =~= seq![
        subst_arm(arms[0], z, r),
        subst_arm(arms[1], z, r),
        subst_arm(arms[2], z, r),
        subst_arm(arms[3], z, r),
        subst_arm(arms[4], z, r),
        subst_arm(arms[5], z, r),
    ]);
}

/// Whether a name is one that a branch of the interpreter binds.
pub open spec fn bound_in_interpreter(name: Seq<char>) -> bool {
    ||| name == "x"@
    ||| name == "b"@
    ||| name == "f"@
    ||| name == "a"@
    ||| name == "c"@
    ||| name == "es"@
    ||| name == "s"@
    ||| name == "bs"@
    ||| bound_in_on_apply(name)
    ||| bound_in_on_case(name)
}

/// Substitution in the body of the interpreter, where the variable is none
/// that a branch binds, or substitution leaves what stands for the
/// interpreter in the calls as it is.
pub proof fn lemma_interpreter_body_subst(ev: Term, e: Term, z: Seq<char>, r: Term)
    requires
        !bound_in_interpreter(z) || subst(ev, z, r) == ev,
    ensures
        subst(interpreter_body(ev, e), z, r) == interpreter_body(subst(ev, z, r), subst(e, z, r)),
{
    let arms = interpreter_arms(ev);
    let after = interpreter_arms(subst(ev, z, r));
    assert forall|i: int| 0 <= i < 6 implies subst_arm(#[trigger] arms[i], z, r) == after[i] by {
        lemma_codes();
        lemma_subst_var("x"@, z, r);
        lemma_subst_var("b"@, z, r);
        lemma_subst_var("f"@, z, r);
        lemma_subst_var("a"@, z, r);
        lemma_subst_var("c"@, z, r);
        lemma_subst_var("es"@, z, r);
        lemma_subst_var("s"@, z, r);
        lemma_subst_var("bs"@, z, r);
        if i == 0 {
            lemma_subst_con1("Var"@, v("x"@), z, r);
            lemma_subst_arm1("Var"@, "x"@, con("Var"@, seq![v("x"@)]), z, r);
        } else if i == 1 {
            lemma_subst_con2("Lambda"@, v("x"@), v("b"@), z, r);
            lemma_subst_arm2("Lambda"@, "x"@, "b"@, con("Lambda"@, seq![v("x"@), v("b"@)]), z, r);
        } else if i == 2 {
            if z != "f"@ && z != "a"@ {
                lemma_on_apply_subst(ev, v("f"@), v("a"@), z, r);
            }
            lemma_subst_arm2("Apply"@, "f"@, "a"@, on_apply(ev, v("f"@), v("a"@)), z, r);
        } else if i == 3 {
            lemma_at_constructor_subst(ev, v("c"@), v("es"@), z, r);
            lemma_subst_arm2("Const"@, "c"@, "es"@, at_constructor(ev, v("c"@), v("es"@)), z, r);
        } else if i == 4 {
            lemma_on_rec_subst(ev, v("x"@), v("b"@), z, r);
            lemma_subst_arm2("Rec"@, "x"@, "b"@, on_rec(ev, v("x"@), v("b"@)), z, r);
        } else {
            if z != "s"@ && z != "bs"@ {
                lemma_on_case_subst(ev, v("s"@), v("bs"@), z, r);
            }
            lemma_subst_arm2("Case"@, "s"@, "bs"@, on_case(ev, v("s"@), v("bs"@)), z, r);
        }
    }
    lemma_subst_cases6(e, arms[0], arms[1], arms[2], arms[3], arms[4], arms[5], z, r);
    assert(arms =~= seq![arms[0], arms[1], arms[2], arms[3], arms[4], arms[5]]);
    assert(after =~= seq![
        subst_arm(arms[0], z, r),
        subst_arm(arms[1], z, r),
        subst_arm(arms[2], z, r),
        subst_arm(arms[3], z, r),
        subst_arm(arms[4], z, r),
        subst_arm(arms[5], z, r),
    ]);
}

/// What the interpreter unfolds to: an abstraction of the encoded term.
pub open spec fn interpreter_step() -> Term {
    lam("e"@, interpreter_body(interpreter(), v("e"@)))
}

/// Substitution leaves the interpreter program, and what it unfolds to, as
/// they are.
pub proof fn lemma_interpreter_inert()
    ensures
        inert(interpreter()),
        inert(interpreter_step()),
{
    assert forall|z: Seq<char>, r: Term| #[trigger] subst(interpreter(), z, r)
        == interpreter() by {
        lemma_codes();
        lemma_subst_var("eval"@, z, r);
        lemma_subst_var("e"@, z, r);
        if z != "eval"@ && z != "e"@ {
            lemma_interpreter_body_subst(v("eval"@), v("e"@), z, r);
        }
        reveal_with_fuel(subst, 2);
    }
    assert forall|z: Seq<char>, r: Term| #[trigger] subst(interpreter_step(), z, r)
        == interpreter_step() by {
        lemma_codes();
        lemma_subst_var("e"@, z, r);
        if z != "e"@ {
            lemma_interpreter_body_subst(interpreter(), v("e"@), z, r);
        }
    }
}

} // verus!
