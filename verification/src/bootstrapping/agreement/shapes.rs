//! Substitution in the pieces of the substitution program.

use crate::bootstrapping::agreement::lists::{lemma_map_inert, lemma_member_inert};
use crate::bootstrapping::agreement::numbers::lemma_same_number_inert;
use crate::bootstrapping::agreement::rewrite::{
    inert, lemma_subst_app, lemma_subst_app2, lemma_subst_arm0, lemma_subst_arm1,
    lemma_subst_arm2, lemma_subst_arm3, lemma_subst_cases1, lemma_subst_cases2,
    lemma_subst_cases6, lemma_subst_con1, lemma_subst_con2, lemma_subst_con3, lemma_subst_var,
};
use crate::bootstrapping::agreement::words::lemma_codes;
use crate::bootstrapping::programs::{
    app, app2, arm, at_application, at_branch, at_case, at_constructor, at_variable, con,
    in_branch, lam, map_list, member, same_number, substituter, substituter_arms,
    substituter_body, substituter_loop, under_binder, v,
};
use crate::semantic::substitute::{subst, subst_arm};
use crate::syntax::Term;
use vstd::prelude::*;

verus! {

/// Whether a name is one that a branch of the substitution program binds.
pub open spec fn bound_in_substituter(name: Seq<char>) -> bool {
    ||| name == "y"@
    ||| name == "f"@
    ||| name == "a"@
    ||| name == "b"@
    ||| name == "c"@
    ||| name == "es"@
    ||| name == "s"@
    ||| name == "bs"@
    ||| name == "br"@
    ||| name == "ps"@
}

/// Substitution in what stands for a variable.
pub proof fn lemma_at_variable_subst(x: Term, t: Term, y: Term, z: Seq<char>, r: Term)
    ensures
        subst(at_variable(x, t, y), z, r) == at_variable(
            subst(x, z, r),
            subst(t, z, r),
            subst(y, z, r),
        ),
{
    lemma_same_number_inert();
    let test = app2(same_number(), x, y);
    let a1 = arm("True"@, seq![], t);
    let a2 = arm("False"@, seq![], con("Var"@, seq![y]));
    lemma_subst_app2(same_number(), x, y, z, r);
    lemma_subst_con1("Var"@, y, z, r);
    lemma_subst_arm0("True"@, t, z, r);
    lemma_subst_arm0("False"@, con("Var"@, seq![y]), z, r);
    lemma_subst_cases2(test, a1, a2, z, r);
}

/// Substitution in what stands for an application.
pub proof fn lemma_at_application_subst(go: Term, f: Term, a: Term, z: Seq<char>, r: Term)
    ensures
        subst(at_application(go, f, a), z, r) == at_application(
            subst(go, z, r),
            subst(f, z, r),
            subst(a, z, r),
        ),
{
    lemma_subst_app(go, f, z, r);
    lemma_subst_app(go, a, z, r);
    lemma_subst_con2("Apply"@, app(go, f), app(go, a), z, r);
}

/// Substitution in what stands for a binder.
pub proof fn lemma_under_binder_subst(
    kind: Seq<char>,
    x: Term,
    go: Term,
    y: Term,
    b: Term,
    z: Seq<char>,
    r: Term,
)
    ensures
        subst(under_binder(kind, x, go, y, b), z, r) == under_binder(
            kind,
            subst(x, z, r),
            subst(go, z, r),
            subst(y, z, r),
            subst(b, z, r),
        ),
{
    lemma_same_number_inert();
    let test = app2(same_number(), x, y);
    let kept = con(kind, seq![y, b]);
    let changed = con(kind, seq![y, app(go, b)]);
    lemma_subst_app2(same_number(), x, y, z, r);
    lemma_subst_app(go, b, z, r);
    lemma_subst_con2(kind, y, b, z, r);
    lemma_subst_con2(kind, y, app(go, b), z, r);
    lemma_subst_arm0("True"@, kept, z, r);
    lemma_subst_arm0("False"@, changed, z, r);
    lemma_subst_cases2(test, arm("True"@, seq![], kept), arm("False"@, seq![], changed), z, r);
}

/// Substitution in what stands for a constructor application.
pub proof fn lemma_at_constructor_subst(go: Term, c: Term, es: Term, z: Seq<char>, r: Term)
    ensures
        subst(at_constructor(go, c, es), z, r) == at_constructor(
            subst(go, z, r),
            subst(c, z, r),
            subst(es, z, r),
        ),
{
    lemma_map_inert();
    lemma_subst_app2(map_list(), go, es, z, r);
    lemma_subst_con2("Const"@, c, app2(map_list(), go, es), z, r);
}

/// Substitution in what stands for a branch.
pub proof fn lemma_at_branch_subst(
    x: Term,
    go: Term,
    c: Term,
    ps: Term,
    b: Term,
    z: Seq<char>,
    r: Term,
)
    ensures
        subst(at_branch(x, go, c, ps, b), z, r) == at_branch(
            subst(x, z, r),
            subst(go, z, r),
            subst(c, z, r),
            subst(ps, z, r),
            subst(b, z, r),
        ),
{
    lemma_member_inert();
    let test = app2(member(), x, ps);
    let kept = con("Branch"@, seq![c, ps, b]);
    let changed = con("Branch"@, seq![c, ps, app(go, b)]);
    lemma_subst_app2(member(), x, ps, z, r);
    lemma_subst_app(go, b, z, r);
    lemma_subst_con3("Branch"@, c, ps, b, z, r);
    lemma_subst_con3("Branch"@, c, ps, app(go, b), z, r);
    lemma_subst_arm0("True"@, kept, z, r);
    lemma_subst_arm0("False"@, changed, z, r);
    lemma_subst_cases2(test, arm("True"@, seq![], kept), arm("False"@, seq![], changed), z, r);
}

/// Substitution in the function that substitutes in a branch.
pub proof fn lemma_in_branch_subst(x: Term, go: Term, z: Seq<char>, r: Term)
    ensures
        subst(in_branch(x, go), z, r) == if z == "br"@ || z == "c"@ || z == "ps"@ || z == "b"@ {
            in_branch(x, go)
        } else {
            in_branch(subst(x, z, r), subst(go, z, r))
        },
{
    lemma_codes();
    let piece = at_branch(x, go, v("c"@), v("ps"@), v("b"@));
    let only = arm("Branch"@, seq!["c"@, "ps"@, "b"@], piece);
    lemma_at_branch_subst(x, go, v("c"@), v("ps"@), v("b"@), z, r);
    lemma_subst_var("c"@, z, r);
    lemma_subst_var("ps"@, z, r);
    lemma_subst_var("b"@, z, r);
    lemma_subst_var("br"@, z, r);
    lemma_subst_arm3("Branch"@, "c"@, "ps"@, "b"@, piece, z, r);
    lemma_subst_cases1(v("br"@), only, z, r);
}

/// Substitution in what stands for a case expression.
pub proof fn lemma_at_case_subst(x: Term, go: Term, s: Term, bs: Term, z: Seq<char>, r: Term)
    ensures
        subst(at_case(x, go, s, bs), z, r) == con(
            "Case"@,
            seq![
                app(subst(go, z, r), subst(s, z, r)),
                app2(map_list(), subst(in_branch(x, go), z, r), subst(bs, z, r)),
            ],
        ),
{
    lemma_map_inert();
    lemma_subst_app(go, s, z, r);
    lemma_subst_app2(map_list(), in_branch(x, go), bs, z, r);
    lemma_subst_con2("Case"@, app(go, s), app2(map_list(), in_branch(x, go), bs), z, r);
}

/// Substitution in the branches of the substitution program, for a
/// variable that none of them binds, reaches what stands for the variable,
/// the replacement and the function.
pub proof fn lemma_substituter_arms_subst(x: Term, t: Term, go: Term, z: Seq<char>, r: Term)
    requires
        !bound_in_substituter(z),
    ensures
        forall|i: int|
            0 <= i < 6 ==> subst_arm(#[trigger] substituter_arms(x, t, go)[i], z, r)
                == substituter_arms(subst(x, z, r), subst(t, z, r), subst(go, z, r))[i],
{
    lemma_codes();
    lemma_subst_var("y"@, z, r);
    lemma_subst_var("f"@, z, r);
    lemma_subst_var("a"@, z, r);
    lemma_subst_var("b"@, z, r);
    lemma_subst_var("c"@, z, r);
    lemma_subst_var("es"@, z, r);
    lemma_subst_var("s"@, z, r);
    lemma_subst_var("bs"@, z, r);
    lemma_at_variable_subst(x, t, v("y"@), z, r);
    lemma_subst_arm1("Var"@, "y"@, at_variable(x, t, v("y"@)), z, r);
    lemma_at_application_subst(go, v("f"@), v("a"@), z, r);
    lemma_subst_arm2("Apply"@, "f"@, "a"@, at_application(go, v("f"@), v("a"@)), z, r);
    lemma_under_binder_subst("Lambda"@, x, go, v("y"@), v("b"@), z, r);
    lemma_subst_arm2(
        "Lambda"@,
        "y"@,
        "b"@,
        under_binder("Lambda"@, x, go, v("y"@), v("b"@)),
        z,
        r,
    );
    lemma_under_binder_subst("Rec"@, x, go, v("y"@), v("b"@), z, r);
    lemma_subst_arm2("Rec"@, "y"@, "b"@, under_binder("Rec"@, x, go, v("y"@), v("b"@)), z, r);
    lemma_at_constructor_subst(go, v("c"@), v("es"@), z, r);
    lemma_subst_arm2("Const"@, "c"@, "es"@, at_constructor(go, v("c"@), v("es"@)), z, r);
    lemma_at_case_subst(x, go, v("s"@), v("bs"@), z, r);
    lemma_in_branch_subst(x, go, z, r);
    lemma_subst_arm2("Case"@, "s"@, "bs"@, at_case(x, go, v("s"@), v("bs"@)), z, r);
}

/// Substitution in the body of the substitution program, for a variable
/// that no branch binds.
pub proof fn lemma_substituter_body_subst(
    x: Term,
    t: Term,
    go: Term,
    e: Term,
    z: Seq<char>,
    r: Term,
)
    requires
        !bound_in_substituter(z),
    ensures
        subst(substituter_body(x, t, go, e), z, r) == substituter_body(
            subst(x, z, r),
            subst(t, z, r),
            subst(go, z, r),
            subst(e, z, r),
        ),
{
    let arms = substituter_arms(x, t, go);
    let after = substituter_arms(subst(x, z, r), subst(t, z, r), subst(go, z, r));
    lemma_substituter_arms_subst(x, t, go, z, r);
    lemma_subst_cases6(e, arms[0], arms[1], arms[2], arms[3], arms[4], arms[5], z, r);
    assert(arms =~= seq![arms[0], arms[1], arms[2], arms[3], arms[4], arms[5]]);
    assert(after =~= seq![
        subst_arm(arms[0], z, r),
        subst_arm(arms[1], z, r),
        subst_arm(arms[2], z, r),
        subst_arm(arms[3], z, r),
        subst_arm(arms[4], z, r),
        subst_arm(arms[5], z, r),
    ]);
}

/// Substitution leaves the body of the substitution program as it is,
/// where it leaves what stands in its four places as it is.
pub proof fn lemma_substituter_body_stable(
    x: Term,
    t: Term,
    go: Term,
    e: Term,
    z: Seq<char>,
    r: Term,
)
    requires
        subst(x, z, r) == x,
        subst(t, z, r) == t,
        subst(go, z, r) == go,
        subst(e, z, r) == e,
    ensures
        subst(substituter_body(x, t, go, e), z, r) == substituter_body(x, t, go, e),
{
    let arms = substituter_arms(x, t, go);
    assert forall|i: int| 0 <= i < 6 implies subst_arm(#[trigger] arms[i], z, r) == arms[i] by {
        lemma_codes();
        lemma_subst_var("y"@, z, r);
        lemma_subst_var("f"@, z, r);
        lemma_subst_var("a"@, z, r);
        lemma_subst_var("b"@, z, r);
        lemma_subst_var("c"@, z, r);
        lemma_subst_var("es"@, z, r);
        lemma_subst_var("s"@, z, r);
        lemma_subst_var("bs"@, z, r);
        if i == 0 {
            lemma_at_variable_subst(x, t, v("y"@), z, r);
            lemma_subst_arm1("Var"@, "y"@, at_variable(x, t, v("y"@)), z, r);
        } else if i == 1 {
            lemma_at_application_subst(go, v("f"@), v("a"@), z, r);
            lemma_subst_arm2("Apply"@, "f"@, "a"@, at_application(go, v("f"@), v("a"@)), z, r);
        } else if i == 2 {
            lemma_under_binder_subst("Lambda"@, x, go, v("y"@), v("b"@), z, r);
            lemma_subst_arm2(
                "Lambda"@,
                "y"@,
                "b"@,
                under_binder("Lambda"@, x, go, v("y"@), v("b"@)),
                z,
                r,
            );
        } else if i == 3 {
            lemma_under_binder_subst("Rec"@, x, go, v("y"@), v("b"@), z, r);
            lemma_subst_arm2(
                "Rec"@,
                "y"@,
                "b"@,
                under_binder("Rec"@, x, go, v("y"@), v("b"@)),
                z,
                r,
            );
        } else if i == 4 {
            lemma_at_constructor_subst(go, v("c"@), v("es"@), z, r);
            lemma_subst_arm2("Const"@, "c"@, "es"@, at_constructor(go, v("c"@), v("es"@)), z, r);
        } else {
            lemma_at_case_subst(x, go, v("s"@), v("bs"@), z, r);
            lemma_in_branch_subst(x, go, z, r);
            lemma_subst_arm2("Case"@, "s"@, "bs"@, at_case(x, go, v("s"@), v("bs"@)), z, r);
        }
    }
    lemma_subst_cases6(e, arms[0], arms[1], arms[2], arms[3], arms[4], arms[5], z, r);
    assert(arms =~= seq![arms[0], arms[1], arms[2], arms[3], arms[4], arms[5]]);
    assert(arms =~= seq![
        subst_arm(arms[0], z, r),
        subst_arm(arms[1], z, r),
        subst_arm(arms[2], z, r),
        subst_arm(arms[3], z, r),
        subst_arm(arms[4], z, r),
        subst_arm(arms[5], z, r),
    ]);
}

/// Substitution leaves the function that substitutes in a branch as it is,
/// where it leaves what stands in its two places as it is.
pub proof fn lemma_in_branch_inert(x: Term, go: Term)
    requires
        inert(x),
        inert(go),
    ensures
        inert(in_branch(x, go)),
{
    assert forall|z: Seq<char>, r: Term| #[trigger] subst(in_branch(x, go), z, r) == in_branch(
        x,
        go,
    ) by {
        lemma_in_branch_subst(x, go, z, r);
    }
}

/// What the function that substitutes in a term unfolds to: an abstraction
/// of the encoded term.
pub open spec fn substituter_step(x: Term, t: Term) -> Term {
    lam("e"@, substituter_body(x, t, substituter_loop(x, t), v("e"@)))
}

/// Substitution leaves the function that substitutes in a term, and what it
/// unfolds to, as they are, where it leaves the numeral of the variable and
/// the replacement as they are.
pub proof fn lemma_substituter_loop_inert(x: Term, t: Term)
    requires
        inert(x),
        inert(t),
    ensures
        inert(substituter_loop(x, t)),
        inert(substituter_step(x, t)),
{
    let looped = substituter_loop(x, t);
    assert forall|z: Seq<char>, r: Term| #[trigger] subst(looped, z, r) == looped by {
        lemma_codes();
        lemma_subst_var("go"@, z, r);
        lemma_subst_var("e"@, z, r);
        if z != "go"@ && z != "e"@ {
            lemma_substituter_body_stable(x, t, v("go"@), v("e"@), z, r);
        }
        reveal_with_fuel(subst, 2);
    }
    assert forall|z: Seq<char>, r: Term| #[trigger] subst(substituter_step(x, t), z, r)
        == substituter_step(x, t) by {
        lemma_codes();
        lemma_subst_var("e"@, z, r);
        if z != "e"@ {
            lemma_substituter_body_stable(x, t, looped, v("e"@), z, r);
        }
    }
}

/// Substitution leaves the substitution program as it is.
pub proof fn lemma_substituter_inert()
    ensures
        inert(substituter()),
{
    assert forall|z: Seq<char>, r: Term| #[trigger] subst(substituter(), z, r)
        == substituter() by {
        lemma_codes();
        lemma_subst_var("x"@, z, r);
        lemma_subst_var("t"@, z, r);
        lemma_subst_var("go"@, z, r);
        lemma_subst_var("e"@, z, r);
        if z != "x"@ && z != "t"@ && z != "go"@ && z != "e"@ {
            lemma_substituter_body_stable(v("x"@), v("t"@), v("go"@), v("e"@), z, r);
        }
        reveal_with_fuel(subst, 4);
    }
}

} // verus!
