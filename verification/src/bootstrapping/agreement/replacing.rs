//! What each branch of the substitution program does with an encoded term
//! of its kind.

use crate::bootstrapping::agreement::data::{
    data, datum, lemma_con_datum, lemma_list_datum, lemma_numeral_datum,
};
use crate::bootstrapping::agreement::lists::{
    lemma_map, lemma_member, lemma_numerals_data, numerals,
};
use crate::bootstrapping::agreement::numbers::lemma_same_number;
use crate::bootstrapping::agreement::rewrite::{
    inert, lemma_bind0, lemma_bind1, lemma_bind2, lemma_bind3, lemma_subst_arm3,
    lemma_subst_cases1, lemma_subst_var, lemma_takes,
};
use crate::bootstrapping::agreement::shapes::{
    lemma_at_application_subst, lemma_at_branch_subst, lemma_at_case_subst,
    lemma_at_constructor_subst, lemma_at_variable_subst, lemma_in_branch_inert,
    lemma_under_binder_subst,
};
use crate::bootstrapping::agreement::words::lemma_codes;
use crate::bootstrapping::encoding::{list, numeral};
use crate::bootstrapping::programs::{
    app, app2, arm, at_application, at_branch, at_case, at_constructor, at_variable, cases, con,
    in_branch, map_list, member, same_number, substituter_arms, under_binder, v,
};
use crate::bootstrapping::steps::{
    lemma_steps_apply, lemma_steps_case, lemma_steps_con, lemma_steps_lambda, steps,
};
use crate::semantic::substitute::subst;
use crate::semantic::{arm_matches, bind};
use crate::syntax::Term;
use vstd::prelude::*;

verus! {

/// The branch at `index` is the first of the substitution program that
/// fits the tag `kind` with `arity` fields.
pub open spec fn takes_branch(kind: Seq<char>, arity: nat, index: int) -> bool {
    ||| kind == "Var"@ && arity == 1 && index == 0
    ||| kind == "Apply"@ && arity == 2 && index == 1
    ||| kind == "Lambda"@ && arity == 2 && index == 2
    ||| kind == "Rec"@ && arity == 2 && index == 3
    ||| kind == "Const"@ && arity == 2 && index == 4
    ||| kind == "Case"@ && arity == 2 && index == 5
}

/// A case expression with the branches of the substitution program takes
/// the branch of the kind of its scrutinee.
pub proof fn lemma_substituter_takes(
    x: Term,
    t: Term,
    go: Term,
    kind: Seq<char>,
    arity: nat,
    index: int,
)
    requires
        takes_branch(kind, arity, index),
    ensures
        crate::semantic::first_match(substituter_arms(x, t, go), kind, arity) == Some(index),
{
    lemma_codes();
    let arms = substituter_arms(x, t, go);
    assert(arm_matches(arms[index], kind, arity));
    assert forall|j: int| 0 <= j < index implies !arm_matches(#[trigger] arms[j], kind, arity) by {
        if j == 0 {
        } else if j == 1 {
        } else if j == 2 {
        } else if j == 3 {
        } else if j == 4 {
        }
    }
    lemma_takes(arms, kind, arity, index);
}

/// What stands for a variable steps to the replacement where the numbers
/// are the same, and to the encoded variable where they are not.
pub proof fn lemma_at_variable_steps(wanted: nat, t: Term, found: nat)
    requires
        datum(t),
    ensures
        steps(
            at_variable(numeral(wanted), t, numeral(found)),
            if wanted == found {
                t
            } else {
                con("Var"@, seq![numeral(found)])
            },
        ),
{
    let x = numeral(wanted);
    let y = numeral(found);
    let kept = con("Var"@, seq![y]);
    let a1 = arm("True"@, seq![], t);
    let a2 = arm("False"@, seq![], kept);
    lemma_numeral_datum(found);
    lemma_con_datum("Var"@, seq![y]);
    lemma_same_number(wanted, found);
    if wanted == found {
        lemma_takes(seq![a1, a2], "True"@, 0, 0);
        lemma_bind0(t, seq![], seq![]);
        lemma_steps_case(app2(same_number(), x, y), seq![a1, a2], "True"@, seq![], 0, t);
    } else {
        assert(!arm_matches(a1, "False"@, 0)) by {
            lemma_codes();
        }
        lemma_takes(seq![a1, a2], "False"@, 0, 1);
        lemma_bind0(kept, seq![], seq![]);
        lemma_steps_case(app2(same_number(), x, y), seq![a1, a2], "False"@, seq![], 1, kept);
    }
}

/// The substitution program on an encoded variable.
pub proof fn lemma_substituter_on_variable(wanted: nat, t: Term, go: Term, found: nat)
    requires
        datum(t),
        inert(go),
    ensures
        steps(
            cases(
                con("Var"@, seq![numeral(found)]),
                substituter_arms(numeral(wanted), t, go),
            ),
            if wanted == found {
                t
            } else {
                con("Var"@, seq![numeral(found)])
            },
        ),
{
    let x = numeral(wanted);
    let y = numeral(found);
    let arms = substituter_arms(x, t, go);
    let result = if wanted == found {
        t
    } else {
        con("Var"@, seq![y])
    };
    lemma_numeral_datum(wanted);
    lemma_numeral_datum(found);
    lemma_con_datum("Var"@, seq![y]);
    lemma_substituter_takes(x, t, go, "Var"@, 1, 0);
    assert(bind(at_variable(x, t, v("y"@)), seq!["y"@], seq![y], 1) == at_variable(x, t, y)) by {
        lemma_bind1(at_variable(x, t, v("y"@)), "y"@, y);
        lemma_at_variable_subst(x, t, v("y"@), "y"@, y);
        lemma_subst_var("y"@, "y"@, y);
    }
    lemma_at_variable_steps(wanted, t, found);
    lemma_steps_case(con("Var"@, seq![y]), arms, "Var"@, seq![y], 0, result);
}

/// The substitution program on an encoded application.
pub proof fn lemma_substituter_on_application(
    x: Term,
    t: Term,
    go: Term,
    f: Term,
    a: Term,
    f_result: Term,
    a_result: Term,
)
    requires
        inert(go),
        datum(f),
        datum(a),
        steps(app(go, f), f_result),
        steps(app(go, a), a_result),
    ensures
        steps(
            cases(con("Apply"@, seq![f, a]), substituter_arms(x, t, go)),
            con("Apply"@, seq![f_result, a_result]),
        ),
{
    let arms = substituter_arms(x, t, go);
    let subject = con("Apply"@, seq![f, a]);
    lemma_con_datum("Apply"@, seq![f, a]);
    lemma_substituter_takes(x, t, go, "Apply"@, 2, 1);
    let piece = at_application(go, v("f"@), v("a"@));
    assert(bind(piece, seq!["f"@, "a"@], seq![f, a], 2) == at_application(go, f, a)) by {
        lemma_codes();
        lemma_bind2(piece, "f"@, "a"@, f, a);
        lemma_at_application_subst(go, v("f"@), v("a"@), "a"@, a);
        lemma_subst_var("f"@, "a"@, a);
        lemma_subst_var("a"@, "a"@, a);
        lemma_at_application_subst(go, v("f"@), a, "f"@, f);
        lemma_subst_var("f"@, "f"@, f);
    }
    lemma_steps_con("Apply"@, seq![app(go, f), app(go, a)], seq![f_result, a_result]);
    lemma_steps_case(
        subject,
        arms,
        "Apply"@,
        seq![f, a],
        1,
        con("Apply"@, seq![f_result, a_result]),
    );
}

/// What stands for a binder steps to the binder as it is where the numbers
/// are the same, and to the binder over what the body gives where they are
/// not.
pub proof fn lemma_under_binder_steps(
    kind: Seq<char>,
    wanted: nat,
    go: Term,
    found: nat,
    b: Term,
    b_result: Term,
)
    requires
        datum(b),
        wanted != found ==> steps(app(go, b), b_result),
    ensures
        steps(
            under_binder(kind, numeral(wanted), go, numeral(found), b),
            if wanted == found {
                con(kind, seq![numeral(found), b])
            } else {
                con(kind, seq![numeral(found), b_result])
            },
        ),
{
    let x = numeral(wanted);
    let y = numeral(found);
    let kept = con(kind, seq![y, b]);
    let changed = con(kind, seq![y, app(go, b)]);
    let a1 = arm("True"@, seq![], kept);
    let a2 = arm("False"@, seq![], changed);
    lemma_numeral_datum(found);
    lemma_con_datum(kind, seq![y, b]);
    lemma_same_number(wanted, found);
    if wanted == found {
        lemma_takes(seq![a1, a2], "True"@, 0, 0);
        lemma_bind0(kept, seq![], seq![]);
        lemma_steps_case(app2(same_number(), x, y), seq![a1, a2], "True"@, seq![], 0, kept);
    } else {
        assert(!arm_matches(a1, "False"@, 0)) by {
            lemma_codes();
        }
        lemma_takes(seq![a1, a2], "False"@, 0, 1);
        lemma_bind0(changed, seq![], seq![]);
        lemma_steps_con(kind, seq![y, app(go, b)], seq![y, b_result]);
        lemma_steps_case(
            app2(same_number(), x, y),
            seq![a1, a2],
            "False"@,
            seq![],
            1,
            con(kind, seq![y, b_result]),
        );
    }
}

/// The substitution program on an encoded abstraction or recursive
/// binding.
pub proof fn lemma_substituter_on_binder(
    kind: Seq<char>,
    index: int,
    wanted: nat,
    t: Term,
    go: Term,
    found: nat,
    b: Term,
    b_result: Term,
)
    requires
        (kind == "Lambda"@ && index == 2) || (kind == "Rec"@ && index == 3),
        inert(go),
        datum(b),
        wanted != found ==> steps(app(go, b), b_result),
    ensures
        steps(
            cases(
                con(kind, seq![numeral(found), b]),
                substituter_arms(numeral(wanted), t, go),
            ),
            if wanted == found {
                con(kind, seq![numeral(found), b])
            } else {
                con(kind, seq![numeral(found), b_result])
            },
        ),
{
    let x = numeral(wanted);
    let y = numeral(found);
    let arms = substituter_arms(x, t, go);
    let subject = con(kind, seq![y, b]);
    let result = if wanted == found {
        con(kind, seq![y, b])
    } else {
        con(kind, seq![y, b_result])
    };
    lemma_numeral_datum(wanted);
    lemma_numeral_datum(found);
    lemma_con_datum(kind, seq![y, b]);
    lemma_substituter_takes(x, t, go, kind, 2, index);
    let piece = under_binder(kind, x, go, v("y"@), v("b"@));
    assert(bind(piece, seq!["y"@, "b"@], seq![y, b], 2) == under_binder(kind, x, go, y, b)) by {
        lemma_codes();
        lemma_bind2(piece, "y"@, "b"@, y, b);
        lemma_under_binder_subst(kind, x, go, v("y"@), v("b"@), "b"@, b);
        lemma_subst_var("y"@, "b"@, b);
        lemma_subst_var("b"@, "b"@, b);
        lemma_under_binder_subst(kind, x, go, v("y"@), b, "y"@, y);
        lemma_subst_var("y"@, "y"@, y);
    }
    lemma_under_binder_steps(kind, wanted, go, found, b, b_result);
    lemma_steps_case(subject, arms, kind, seq![y, b], index, result);
}

/// The substitution program on an encoded constructor application.
pub proof fn lemma_substituter_on_constructor(
    x: Term,
    t: Term,
    go: Term,
    unfolded: Term,
    c: Term,
    items: Seq<Term>,
    results: Seq<Term>,
)
    requires
        inert(go),
        steps(go, unfolded),
        steps(unfolded, unfolded),
        inert(unfolded),
        datum(c),
        data(items),
        items.len() == results.len(),
        forall|i: int|
            0 <= i < items.len() ==> steps(app(unfolded, #[trigger] items[i]), results[i]),
    ensures
        steps(
            cases(con("Const"@, seq![c, list(items)]), substituter_arms(x, t, go)),
            con("Const"@, seq![c, list(results)]),
        ),
{
    let arms = substituter_arms(x, t, go);
    let es = list(items);
    let subject = con("Const"@, seq![c, es]);
    lemma_list_datum(items);
    lemma_con_datum("Const"@, seq![c, es]);
    lemma_substituter_takes(x, t, go, "Const"@, 2, 4);
    let piece = at_constructor(go, v("c"@), v("es"@));
    assert(bind(piece, seq!["c"@, "es"@], seq![c, es], 2) == at_constructor(go, c, es)) by {
        lemma_codes();
        lemma_bind2(piece, "c"@, "es"@, c, es);
        lemma_at_constructor_subst(go, v("c"@), v("es"@), "es"@, es);
        lemma_subst_var("c"@, "es"@, es);
        lemma_subst_var("es"@, "es"@, es);
        lemma_at_constructor_subst(go, v("c"@), es, "c"@, c);
        lemma_subst_var("c"@, "c"@, c);
    }
    lemma_map(go, unfolded, items, results);
    lemma_steps_con(
        "Const"@,
        seq![c, app2(map_list(), go, es)],
        seq![c, list(results)],
    );
    lemma_steps_case(
        subject,
        arms,
        "Const"@,
        seq![c, es],
        4,
        con("Const"@, seq![c, list(results)]),
    );
}

/// The substitution program on an encoded case expression.
pub proof fn lemma_substituter_on_case(
    x: Term,
    t: Term,
    go: Term,
    s: Term,
    s_result: Term,
    items: Seq<Term>,
    results: Seq<Term>,
)
    requires
        inert(x),
        inert(go),
        datum(s),
        steps(app(go, s), s_result),
        data(items),
        items.len() == results.len(),
        forall|i: int|
            0 <= i < items.len() ==> steps(
                app(in_branch(x, go), #[trigger] items[i]),
                results[i],
            ),
    ensures
        steps(
            cases(con("Case"@, seq![s, list(items)]), substituter_arms(x, t, go)),
            con("Case"@, seq![s_result, list(results)]),
        ),
{
    let arms = substituter_arms(x, t, go);
    let bs = list(items);
    let subject = con("Case"@, seq![s, bs]);
    let function = in_branch(x, go);
    lemma_list_datum(items);
    lemma_con_datum("Case"@, seq![s, bs]);
    lemma_in_branch_inert(x, go);
    lemma_substituter_takes(x, t, go, "Case"@, 2, 5);
    let piece = at_case(x, go, v("s"@), v("bs"@));
    assert(bind(piece, seq!["s"@, "bs"@], seq![s, bs], 2) == at_case(x, go, s, bs)) by {
        lemma_codes();
        lemma_bind2(piece, "s"@, "bs"@, s, bs);
        lemma_at_case_subst(x, go, v("s"@), v("bs"@), "bs"@, bs);
        lemma_subst_var("s"@, "bs"@, bs);
        lemma_subst_var("bs"@, "bs"@, bs);
        lemma_at_case_subst(x, go, v("s"@), bs, "s"@, s);
        lemma_subst_var("s"@, "s"@, s);
    }
    lemma_steps_lambda(
        "br"@,
        cases(
            v("br"@),
            seq![
                arm(
                    "Branch"@,
                    seq!["c"@, "ps"@, "b"@],
                    at_branch(x, go, v("c"@), v("ps"@), v("b"@)),
                ),
            ],
        ),
    );
    lemma_map(function, function, items, results);
    lemma_steps_con(
        "Case"@,
        seq![app(go, s), app2(map_list(), function, bs)],
        seq![s_result, list(results)],
    );
    lemma_steps_case(
        subject,
        arms,
        "Case"@,
        seq![s, bs],
        5,
        con("Case"@, seq![s_result, list(results)]),
    );
}

/// The function that substitutes in a branch, applied to an encoded
/// branch, gives the branch as it is where the number of the variable is
/// among those of the parameters, and the branch with what the body gives
/// where it is not.
pub proof fn lemma_in_branch_steps(
    wanted: nat,
    go: Term,
    c: Term,
    parameters: Seq<nat>,
    b: Term,
    b_result: Term,
)
    requires
        inert(go),
        datum(c),
        datum(b),
        !parameters.contains(wanted) ==> steps(app(go, b), b_result),
    ensures
        steps(
            app(
                in_branch(numeral(wanted), go),
                con("Branch"@, seq![c, list(numerals(parameters)), b]),
            ),
            if parameters.contains(wanted) {
                con("Branch"@, seq![c, list(numerals(parameters)), b])
            } else {
                con("Branch"@, seq![c, list(numerals(parameters)), b_result])
            },
        ),
{
    let x = numeral(wanted);
    let ps = list(numerals(parameters));
    let subject = con("Branch"@, seq![c, ps, b]);
    let kept = con("Branch"@, seq![c, ps, b]);
    let changed = con("Branch"@, seq![c, ps, app(go, b)]);
    let result = if parameters.contains(wanted) {
        kept
    } else {
        con("Branch"@, seq![c, ps, b_result])
    };
    let piece = at_branch(x, go, v("c"@), v("ps"@), v("b"@));
    let only = arm("Branch"@, seq!["c"@, "ps"@, "b"@], piece);
    lemma_numeral_datum(wanted);
    lemma_numerals_data(parameters);
    lemma_con_datum("Branch"@, seq![c, ps, b]);
    // What stands for the branch steps to the result.
    assert(steps(at_branch(x, go, c, ps, b), result)) by {
        let a1 = arm("True"@, seq![], kept);
        let a2 = arm("False"@, seq![], changed);
        lemma_member(wanted, parameters);
        if parameters.contains(wanted) {
            lemma_takes(seq![a1, a2], "True"@, 0, 0);
            lemma_bind0(kept, seq![], seq![]);
            lemma_steps_case(app2(member(), x, ps), seq![a1, a2], "True"@, seq![], 0, result);
        } else {
            assert(!arm_matches(a1, "False"@, 0)) by {
                lemma_codes();
            }
            lemma_takes(seq![a1, a2], "False"@, 0, 1);
            lemma_bind0(changed, seq![], seq![]);
            lemma_steps_con("Branch"@, seq![c, ps, app(go, b)], seq![c, ps, b_result]);
            lemma_steps_case(app2(member(), x, ps), seq![a1, a2], "False"@, seq![], 1, result);
        }
    }
    // The case on the branch binds its three fields.
    assert(bind(piece, seq!["c"@, "ps"@, "b"@], seq![c, ps, b], 3) == at_branch(x, go, c, ps, b))
        by {
        lemma_codes();
        lemma_bind3(piece, "c"@, "ps"@, "b"@, c, ps, b);
        lemma_at_branch_subst(x, go, v("c"@), v("ps"@), v("b"@), "b"@, b);
        lemma_subst_var("c"@, "b"@, b);
        lemma_subst_var("ps"@, "b"@, b);
        lemma_subst_var("b"@, "b"@, b);
        lemma_at_branch_subst(x, go, v("c"@), v("ps"@), b, "ps"@, ps);
        lemma_subst_var("c"@, "ps"@, ps);
        lemma_subst_var("ps"@, "ps"@, ps);
        lemma_at_branch_subst(x, go, v("c"@), ps, b, "c"@, c);
        lemma_subst_var("c"@, "c"@, c);
    }
    lemma_takes(seq![only], "Branch"@, 3, 0);
    lemma_steps_case(subject, seq![only], "Branch"@, seq![c, ps, b], 0, result);
    // The function is an abstraction, applied to the branch.
    let body = cases(v("br"@), seq![only]);
    assert(subst(body, "br"@, subject) == cases(subject, seq![only])) by {
        lemma_codes();
        lemma_subst_var("br"@, "br"@, subject);
        lemma_at_branch_subst(x, go, v("c"@), v("ps"@), v("b"@), "br"@, subject);
        lemma_subst_var("c"@, "br"@, subject);
        lemma_subst_var("ps"@, "br"@, subject);
        lemma_subst_var("b"@, "br"@, subject);
        lemma_subst_arm3("Branch"@, "c"@, "ps"@, "b"@, piece, "br"@, subject);
        lemma_subst_cases1(v("br"@), only, "br"@, subject);
    }
    lemma_steps_lambda("br"@, body);
    lemma_steps_apply(in_branch(x, go), subject, "br"@, body, subject, result);
}

} // verus!
