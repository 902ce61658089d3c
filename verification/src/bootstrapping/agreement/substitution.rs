//! The substitution program substitutes: applied to the numeral of a
//! variable, an encoded replacement and an encoded term, it gives the
//! encoding of the term with the replacement in place of the variable.

use crate::bootstrapping::agreement::calls::lemma_call1;
use crate::bootstrapping::agreement::data::{
    data, datum, lemma_numeral_datum, lemma_render_arm_datum, lemma_render_datum,
};
use crate::bootstrapping::agreement::lists::numerals;
use crate::bootstrapping::agreement::replacing::{
    lemma_in_branch_steps, lemma_substituter_on_application, lemma_substituter_on_binder,
    lemma_substituter_on_case, lemma_substituter_on_constructor, lemma_substituter_on_variable,
};
use crate::bootstrapping::agreement::rewrite::{inert, lemma_subst_var};
use crate::bootstrapping::agreement::shapes::{
    lemma_substituter_body_subst, lemma_substituter_loop_inert, substituter_step,
};
use crate::bootstrapping::agreement::words::lemma_codes;
use crate::bootstrapping::encoding::{
    knows, knows_arm, list, numeral, render, render_arm, render_arms, render_names,
    render_terms, Numbering,
};
use crate::bootstrapping::programs::{
    app, app2, app3, in_branch, lam, substituter, substituter_body, substituter_loop, v,
};
use crate::bootstrapping::steps::{
    lemma_steps_apply, lemma_steps_lambda, lemma_steps_rec, steps,
};
use crate::semantic::substitute::{
    lemma_subst_case, lemma_subst_const, subst, subst_all, subst_arm, subst_arms,
};
use crate::syntax::{Arm, Term};
use vstd::prelude::*;

verus! {

/// The encodings of the terms of a list.
pub open spec fn renders(terms: Seq<Term>, numbering: Numbering) -> Seq<Term> {
    Seq::new(terms.len(), |i: int| render(terms[i], numbering))
}

/// The encodings of the branches of a list.
pub open spec fn arm_renders(arms: Seq<Arm>, numbering: Numbering) -> Seq<Term> {
    Seq::new(arms.len(), |i: int| render_arm(arms[i], numbering))
}

/// The numbers of the names of a list.
pub open spec fn numbers_of(names: Seq<Seq<char>>, numbering: Numbering) -> Seq<nat> {
    Seq::new(names.len(), |i: int| numbering.variables.ids[names[i]])
}

/// An encoded list of terms is the list of the encoded terms.
pub proof fn lemma_render_terms_list(terms: Seq<Term>, numbering: Numbering)
    ensures
        render_terms(terms, numbering) == list(renders(terms, numbering)),
        data(renders(terms, numbering)),
    decreases terms.len(),
{
    assert forall|i: int| 0 <= i < terms.len() implies datum(
        #[trigger] renders(terms, numbering)[i],
    ) by {
        lemma_render_datum(terms[i], numbering);
    }
    if terms.len() > 0 {
        lemma_render_terms_list(terms.drop_first(), numbering);
        assert(renders(terms, numbering).drop_first() =~= renders(
            terms.drop_first(),
            numbering,
        ));
    }
}

/// An encoded list of branches is the list of the encoded branches.
pub proof fn lemma_render_arms_list(arms: Seq<Arm>, numbering: Numbering)
    ensures
        render_arms(arms, numbering) == list(arm_renders(arms, numbering)),
        data(arm_renders(arms, numbering)),
    decreases arms.len(),
{
    assert forall|i: int| 0 <= i < arms.len() implies datum(
        #[trigger] arm_renders(arms, numbering)[i],
    ) by {
        lemma_render_arm_datum(arms[i], numbering);
    }
    if arms.len() > 0 {
        lemma_render_arms_list(arms.drop_first(), numbering);
        assert(arm_renders(arms, numbering).drop_first() =~= arm_renders(
            arms.drop_first(),
            numbering,
        ));
    }
}

/// The numerals of names are the numerals of their numbers; and under a
/// well-formed numbering that knows the names, the number of a name is
/// among the numbers of a list where the name is in the list.
pub proof fn lemma_numbers_of(names: Seq<Seq<char>>, name: Seq<char>, numbering: Numbering)
    requires
        numbering.wf(),
        crate::bootstrapping::encoding::knows_names(names, numbering),
        numbering.variables.ids.contains_key(name),
    ensures
        render_names(names, numbering) == numerals(numbers_of(names, numbering)),
        numbers_of(names, numbering).contains(numbering.variables.ids[name]) == names.contains(
            name,
        ),
{
    let numbers = numbers_of(names, numbering);
    let number = numbering.variables.ids[name];
    assert(render_names(names, numbering) =~= numerals(numbers));
    if names.contains(name) {
        let i = choose|i: int| 0 <= i < names.len() && names[i] == name;
        assert(numbers[i] == number);
    }
    if numbers.contains(number) {
        let i = choose|i: int| 0 <= i < numbers.len() && numbers[i] == number;
        assert(numbering.variables.ids.contains_key(names[i]));
        assert(names[i] == name);
    }
}

/// The function that substitutes in a term unfolds to an abstraction.
pub proof fn lemma_substituter_loop_unfolds(x: Term, t: Term)
    requires
        inert(x),
        inert(t),
    ensures
        steps(substituter_loop(x, t), substituter_step(x, t)),
        steps(substituter_step(x, t), substituter_step(x, t)),
{
    let go = substituter_loop(x, t);
    let body = substituter_body(x, t, v("go"@), v("e"@));
    assert(subst(lam("e"@, body), "go"@, go) == substituter_step(x, t)) by {
        lemma_codes();
        lemma_subst_var("go"@, "go"@, go);
        lemma_subst_var("e"@, "go"@, go);
        lemma_substituter_body_subst(x, t, v("go"@), v("e"@), "go"@, go);
    }
    lemma_steps_lambda("e"@, substituter_body(x, t, go, v("e"@)));
    lemma_steps_rec("go"@, lam("e"@, body), substituter_step(x, t));
}

/// What the body of the substitution program is when the encoded term
/// stands in the place of its variable.
pub proof fn lemma_substituter_body_applied(x: Term, t: Term, subject: Term)
    requires
        inert(x),
        inert(t),
    ensures
        subst(substituter_body(x, t, substituter_loop(x, t), v("e"@)), "e"@, subject)
            == substituter_body(x, t, substituter_loop(x, t), subject),
{
    lemma_codes();
    lemma_substituter_loop_inert(x, t);
    lemma_subst_var("e"@, "e"@, subject);
    lemma_substituter_body_subst(x, t, substituter_loop(x, t), v("e"@), "e"@, subject);
}

/// The body of the substitution program, on an encoded term, steps to the
/// encoding of the term with the replacement in place of the variable.
pub proof fn lemma_substitutes(
    term: Term,
    variable: Seq<char>,
    replacement: Term,
    numbering: Numbering,
)
    requires
        numbering.wf(),
        knows(term, numbering),
        knows(replacement, numbering),
        numbering.variables.ids.contains_key(variable),
    ensures
        steps(
            substituter_body(
                numeral(numbering.variables.ids[variable]),
                render(replacement, numbering),
                substituter_loop(
                    numeral(numbering.variables.ids[variable]),
                    render(replacement, numbering),
                ),
                render(term, numbering),
            ),
            render(subst(term, variable, replacement), numbering),
        ),
    decreases term, 0nat,
{
    let wanted = numbering.variables.ids[variable];
    let x = numeral(wanted);
    let t = render(replacement, numbering);
    let go = substituter_loop(x, t);
    lemma_numeral_datum(wanted);
    lemma_render_datum(replacement, numbering);
    lemma_substituter_loop_inert(x, t);
    match term {
        Term::Var(y) => {
            lemma_substituter_on_variable(wanted, t, go, numbering.variables.ids[y]);
        },
        Term::Apply(f, a) => {
            lemma_render_datum(*f, numbering);
            lemma_render_datum(*a, numbering);
            lemma_substitutes_called(*f, variable, replacement, numbering);
            lemma_substitutes_called(*a, variable, replacement, numbering);
            lemma_substituter_on_application(
                x,
                t,
                go,
                render(*f, numbering),
                render(*a, numbering),
                render(subst(*f, variable, replacement), numbering),
                render(subst(*a, variable, replacement), numbering),
            );
        },
        Term::Lambda(y, body) => {
            lemma_render_datum(*body, numbering);
            if y != variable {
                lemma_substitutes_called(*body, variable, replacement, numbering);
            }
            lemma_substituter_on_binder(
                "Lambda"@,
                2,
                wanted,
                t,
                go,
                numbering.variables.ids[y],
                render(*body, numbering),
                render(subst(*body, variable, replacement), numbering),
            );
        },
        Term::Rec(y, body) => {
            lemma_render_datum(*body, numbering);
            if y != variable {
                lemma_substitutes_called(*body, variable, replacement, numbering);
            }
            lemma_substituter_on_binder(
                "Rec"@,
                3,
                wanted,
                t,
                go,
                numbering.variables.ids[y],
                render(*body, numbering),
                render(subst(*body, variable, replacement), numbering),
            );
        },
        Term::Const(c, arguments) => {
            let after = subst_all(arguments, variable, replacement);
            let items = renders(arguments, numbering);
            let results = renders(after, numbering);
            lemma_subst_const(c, arguments, variable, replacement);
            lemma_render_terms_list(arguments, numbering);
            lemma_render_terms_list(after, numbering);
            lemma_numeral_datum(numbering.constructors.ids[c]);
            lemma_substituter_loop_unfolds(x, t);
            assert forall|i: int| 0 <= i < items.len() implies steps(
                app(substituter_step(x, t), #[trigger] items[i]),
                results[i],
            ) by {
                assert(knows(arguments[i], numbering));
                lemma_substitutes_applied(arguments[i], variable, replacement, numbering);
            }
            lemma_substituter_on_constructor(
                x,
                t,
                go,
                substituter_step(x, t),
                numeral(numbering.constructors.ids[c]),
                items,
                results,
            );
        },
        Term::Case(scrutinee, arms) => {
            let after = subst_arms(arms, variable, replacement);
            let items = arm_renders(arms, numbering);
            let results = arm_renders(after, numbering);
            lemma_subst_case(*scrutinee, arms, variable, replacement);
            lemma_render_arms_list(arms, numbering);
            lemma_render_arms_list(after, numbering);
            lemma_render_datum(*scrutinee, numbering);
            lemma_substitutes_called(*scrutinee, variable, replacement, numbering);
            assert forall|i: int| 0 <= i < items.len() implies steps(
                app(in_branch(x, go), #[trigger] items[i]),
                results[i],
            ) by {
                assert(knows_arm(arms[i], numbering));
                lemma_substitutes_in_arm(arms[i], variable, replacement, numbering);
            }
            lemma_substituter_on_case(
                x,
                t,
                go,
                render(*scrutinee, numbering),
                render(subst(*scrutinee, variable, replacement), numbering),
                items,
                results,
            );
        },
    }
}

/// The function that substitutes in a term, applied to an encoded term,
/// gives the encoding of the term with the replacement in place of the
/// variable.
pub proof fn lemma_substitutes_called(
    term: Term,
    variable: Seq<char>,
    replacement: Term,
    numbering: Numbering,
)
    requires
        numbering.wf(),
        knows(term, numbering),
        knows(replacement, numbering),
        numbering.variables.ids.contains_key(variable),
    ensures
        steps(
            app(
                substituter_loop(
                    numeral(numbering.variables.ids[variable]),
                    render(replacement, numbering),
                ),
                render(term, numbering),
            ),
            render(subst(term, variable, replacement), numbering),
        ),
    decreases term, 1nat,
{
    let x = numeral(numbering.variables.ids[variable]);
    let t = render(replacement, numbering);
    let go = substituter_loop(x, t);
    let subject = render(term, numbering);
    let body = substituter_body(x, t, v("go"@), v("e"@));
    lemma_numeral_datum(numbering.variables.ids[variable]);
    lemma_render_datum(replacement, numbering);
    lemma_render_datum(term, numbering);
    lemma_substitutes(term, variable, replacement, numbering);
    assert(subst(body, "go"@, go) == substituter_body(x, t, go, v("e"@))) by {
        lemma_codes();
        lemma_subst_var("go"@, "go"@, go);
        lemma_subst_var("e"@, "go"@, go);
        lemma_substituter_body_subst(x, t, v("go"@), v("e"@), "go"@, go);
    }
    lemma_substituter_body_applied(x, t, subject);
    assert("go"@ != "e"@) by {
        lemma_codes();
    }
    lemma_call1(
        "go"@,
        "e"@,
        body,
        subject,
        subject,
        render(subst(term, variable, replacement), numbering),
    );
}

/// What the function that substitutes in a term unfolds to, applied to an
/// encoded term, gives the encoding of the term with the replacement in
/// place of the variable.
pub proof fn lemma_substitutes_applied(
    term: Term,
    variable: Seq<char>,
    replacement: Term,
    numbering: Numbering,
)
    requires
        numbering.wf(),
        knows(term, numbering),
        knows(replacement, numbering),
        numbering.variables.ids.contains_key(variable),
    ensures
        steps(
            app(
                substituter_step(
                    numeral(numbering.variables.ids[variable]),
                    render(replacement, numbering),
                ),
                render(term, numbering),
            ),
            render(subst(term, variable, replacement), numbering),
        ),
    decreases term, 1nat,
{
    let x = numeral(numbering.variables.ids[variable]);
    let t = render(replacement, numbering);
    let go = substituter_loop(x, t);
    let subject = render(term, numbering);
    lemma_numeral_datum(numbering.variables.ids[variable]);
    lemma_render_datum(replacement, numbering);
    lemma_render_datum(term, numbering);
    lemma_substitutes(term, variable, replacement, numbering);
    lemma_substituter_body_applied(x, t, subject);
    lemma_substituter_loop_unfolds(x, t);
    lemma_steps_apply(
        substituter_step(x, t),
        subject,
        "e"@,
        substituter_body(x, t, go, v("e"@)),
        subject,
        render(subst(term, variable, replacement), numbering),
    );
}

/// The function that substitutes in a branch, applied to an encoded
/// branch, gives the encoding of the branch after substitution.
pub proof fn lemma_substitutes_in_arm(
    arm: Arm,
    variable: Seq<char>,
    replacement: Term,
    numbering: Numbering,
)
    requires
        numbering.wf(),
        knows_arm(arm, numbering),
        knows(replacement, numbering),
        numbering.variables.ids.contains_key(variable),
    ensures
        steps(
            app(
                in_branch(
                    numeral(numbering.variables.ids[variable]),
                    substituter_loop(
                        numeral(numbering.variables.ids[variable]),
                        render(replacement, numbering),
                    ),
                ),
                render_arm(arm, numbering),
            ),
            render_arm(subst_arm(arm, variable, replacement), numbering),
        ),
    decreases arm, 1nat,
{
    let wanted = numbering.variables.ids[variable];
    let x = numeral(wanted);
    let t = render(replacement, numbering);
    let go = substituter_loop(x, t);
    lemma_numeral_datum(wanted);
    lemma_render_datum(replacement, numbering);
    lemma_substituter_loop_inert(x, t);
    lemma_numeral_datum(numbering.constructors.ids[arm.constructor]);
    lemma_render_datum(*arm.expression, numbering);
    lemma_numbers_of(arm.parameters, variable, numbering);
    if !arm.parameters.contains(variable) {
        lemma_substitutes_called(*arm.expression, variable, replacement, numbering);
    }
    lemma_in_branch_steps(
        wanted,
        go,
        numeral(numbering.constructors.ids[arm.constructor]),
        numbers_of(arm.parameters, numbering),
        render(*arm.expression, numbering),
        render(subst(*arm.expression, variable, replacement), numbering),
    );
}

/// The substitution program, applied to what steps to the numeral of a
/// variable, to an encoded replacement and to an encoded term, steps to the
/// encoding of the term with the replacement in place of the free
/// occurrences of the variable.
pub proof fn lemma_substituter_call(
    first: Term,
    second: Term,
    third: Term,
    variable: Seq<char>,
    replacement: Term,
    term: Term,
    numbering: Numbering,
)
    requires
        numbering.wf(),
        knows(term, numbering),
        knows(replacement, numbering),
        numbering.variables.ids.contains_key(variable),
        steps(first, numeral(numbering.variables.ids[variable])),
        steps(second, render(replacement, numbering)),
        steps(third, render(term, numbering)),
    ensures
        steps(
            app3(substituter(), first, second, third),
            render(subst(term, variable, replacement), numbering),
        ),
{
    let x = numeral(numbering.variables.ids[variable]);
    let t = render(replacement, numbering);
    let subject = render(term, numbering);
    let go = substituter_loop(x, t);
    let result = render(subst(term, variable, replacement), numbering);
    lemma_numeral_datum(numbering.variables.ids[variable]);
    lemma_render_datum(replacement, numbering);
    lemma_render_datum(term, numbering);
    // Applied to the numeral, the program is an abstraction of the
    // replacement.
    let after_first = lam("t"@, substituter_loop(x, v("t"@)));
    assert(steps(app(substituter(), first), after_first)) by {
        assert(subst(lam("t"@, substituter_loop(v("x"@), v("t"@))), "x"@, x) == after_first) by {
            lemma_codes();
            lemma_subst_var("x"@, "x"@, x);
            lemma_subst_var("t"@, "x"@, x);
            lemma_subst_var("go"@, "x"@, x);
            lemma_subst_var("e"@, "x"@, x);
            lemma_substituter_body_subst(v("x"@), v("t"@), v("go"@), v("e"@), "x"@, x);
            reveal_with_fuel(subst, 3);
        }
        lemma_steps_lambda("x"@, lam("t"@, substituter_loop(v("x"@), v("t"@))));
        lemma_steps_lambda("t"@, substituter_loop(x, v("t"@)));
        lemma_steps_apply(
            substituter(),
            first,
            "x"@,
            lam("t"@, substituter_loop(v("x"@), v("t"@))),
            x,
            after_first,
        );
    }
    // Applied to the replacement, it unfolds to an abstraction of the term.
    assert(steps(app2(substituter(), first, second), substituter_step(x, t))) by {
        assert(subst(substituter_loop(x, v("t"@)), "t"@, t) == go) by {
            lemma_codes();
            lemma_subst_var("t"@, "t"@, t);
            lemma_subst_var("go"@, "t"@, t);
            lemma_subst_var("e"@, "t"@, t);
            lemma_substituter_body_subst(x, v("t"@), v("go"@), v("e"@), "t"@, t);
            reveal_with_fuel(subst, 2);
        }
        lemma_substituter_loop_unfolds(x, t);
        lemma_steps_apply(
            app(substituter(), first),
            second,
            "t"@,
            substituter_loop(x, v("t"@)),
            t,
            substituter_step(x, t),
        );
    }
    // Applied to the term, it substitutes.
    lemma_substitutes(term, variable, replacement, numbering);
    lemma_substituter_body_applied(x, t, subject);
    lemma_steps_apply(
        app2(substituter(), first, second),
        third,
        "e"@,
        substituter_body(x, t, go, v("e"@)),
        subject,
        result,
    );
}

/// The substitution program agrees with substitution: applied to the
/// numeral of a variable, an encoded replacement and an encoded term, it
/// steps to the encoding of the term with the replacement in place of the
/// free occurrences of the variable.
pub proof fn lemma_substituter_agrees(
    variable: Seq<char>,
    replacement: Term,
    term: Term,
    numbering: Numbering,
)
    requires
        numbering.wf(),
        knows(term, numbering),
        knows(replacement, numbering),
        numbering.variables.ids.contains_key(variable),
    ensures
        steps(
            app3(
                substituter(),
                numeral(numbering.variables.ids[variable]),
                render(replacement, numbering),
                render(term, numbering),
            ),
            render(subst(term, variable, replacement), numbering),
        ),
{
    lemma_numeral_datum(numbering.variables.ids[variable]);
    lemma_render_datum(replacement, numbering);
    lemma_render_datum(term, numbering);
    lemma_substituter_call(
        numeral(numbering.variables.ids[variable]),
        render(replacement, numbering),
        render(term, numbering),
        variable,
        replacement,
        term,
        numbering,
    );
}

} // verus!
