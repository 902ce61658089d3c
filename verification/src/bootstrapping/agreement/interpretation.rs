//! The interpreter program evaluates: applied to an encoded term that has a
//! normal form, it gives the encoding of that normal form.

use crate::bootstrapping::agreement::binding::lemma_binder;
use crate::bootstrapping::agreement::calls::lemma_call1;
use crate::bootstrapping::agreement::data::{
    lemma_numeral_datum, lemma_render_arms_datum, lemma_render_datum, lemma_render_names_data,
    lemma_render_terms_datum,
};
use crate::bootstrapping::agreement::finding::lemma_lookup;
use crate::bootstrapping::agreement::frames::{
    interpreter_step, lemma_interpreter_body_subst, lemma_interpreter_inert,
};
use crate::bootstrapping::agreement::rewrite::lemma_subst_var;
use crate::bootstrapping::agreement::running::{
    lemma_dispatch_found, lemma_dispatch_missing, lemma_interpreter_binds_apply,
    lemma_interpreter_binds_case, lemma_interpreter_binds_rec, lemma_interpreter_on_constructor,
    lemma_interpreter_on_lambda, lemma_interpreter_on_variable, lemma_on_apply_reduces,
    lemma_on_apply_stuck, lemma_on_case_dispatches, lemma_on_case_stuck,
};
use crate::bootstrapping::agreement::substitution::{
    lemma_render_terms_list, lemma_substituter_call, renders,
};
use crate::bootstrapping::agreement::words::lemma_codes;
use crate::bootstrapping::encoding::{
    knows, knows_arm, list, numeral, render, render_arms, render_names, render_terms, Numbering,
};
use crate::bootstrapping::names::{lemma_bind_knows, lemma_reduce_knows, lemma_subst_knows};
use crate::bootstrapping::programs::{
    app, app3, binder, con, interpreter, interpreter_body, lam, on_apply, on_case, on_rec,
    substituter, v,
};
use crate::bootstrapping::steps::{
    lemma_steps_apply, lemma_steps_lambda, lemma_steps_rec, steps,
};
use crate::semantic::substitute::subst;
use crate::semantic::{bind, first_match, lemma_first_match, lemma_reduce_const, reduce, reduced};
use crate::syntax::{Arm, Term};
use vstd::prelude::*;

verus! {

/// The interpreter unfolds to an abstraction.
pub proof fn lemma_interpreter_unfolds()
    ensures
        steps(interpreter(), interpreter_step()),
        steps(interpreter_step(), interpreter_step()),
{
    let body = interpreter_body(v("eval"@), v("e"@));
    assert(subst(lam("e"@, body), "eval"@, interpreter()) == interpreter_step()) by {
        lemma_codes();
        lemma_subst_var("eval"@, "eval"@, interpreter());
        lemma_subst_var("e"@, "eval"@, interpreter());
        lemma_interpreter_body_subst(v("eval"@), v("e"@), "eval"@, interpreter());
    }
    lemma_steps_lambda("e"@, interpreter_body(interpreter(), v("e"@)));
    lemma_steps_rec("eval"@, lam("e"@, body), interpreter_step());
}

/// What the body of the interpreter is when the encoded term stands in the
/// place of its variable.
pub proof fn lemma_interpreter_body_applied(subject: Term)
    ensures
        subst(interpreter_body(interpreter(), v("e"@)), "e"@, subject) == interpreter_body(
            interpreter(),
            subject,
        ),
{
    lemma_codes();
    lemma_interpreter_inert();
    lemma_subst_var("e"@, "e"@, subject);
    lemma_interpreter_body_subst(interpreter(), v("e"@), "e"@, subject);
}

/// The interpreter on an encoded application.
proof fn lemma_interprets_apply(f: Term, a: Term, fuel: nat, numbering: Numbering)
    requires
        numbering.wf(),
        knows(f, numbering),
        knows(a, numbering),
        reduce(Term::Apply(Box::new(f), Box::new(a)), fuel) is Some,
    ensures
        steps(
            on_apply(interpreter(), render(f, numbering), render(a, numbering)),
            render(reduce(Term::Apply(Box::new(f), Box::new(a)), fuel).unwrap(), numbering),
        ),
    decreases fuel, 0nat,
{
    let term = Term::Apply(Box::new(f), Box::new(a));
    let rest = (fuel - 1) as nat;
    let ev = interpreter();
    let ff = render(f, numbering);
    let aa = render(a, numbering);
    let value = reduce(f, rest).unwrap();
    lemma_interpreter_inert();
    lemma_render_datum(f, numbering);
    lemma_render_datum(a, numbering);
    lemma_interprets_called(ff, f, rest, numbering);
    lemma_reduce_knows(f, rest, numbering);
    match value {
        Term::Lambda(y, body) => {
            let argument = reduce(a, rest).unwrap();
            let unfolded = subst(*body, y, argument);
            let result = reduce(unfolded, rest).unwrap();
            let yy = numeral(numbering.variables.ids[y]);
            let bb = render(*body, numbering);
            lemma_numeral_datum(numbering.variables.ids[y]);
            lemma_render_datum(*body, numbering);
            lemma_interprets_called(aa, a, rest, numbering);
            lemma_reduce_knows(a, rest, numbering);
            lemma_subst_knows(*body, y, argument, numbering);
            lemma_substituter_call(yy, app(ev, aa), bb, y, argument, *body, numbering);
            lemma_interprets_called(
                app3(substituter(), yy, app(ev, aa), bb),
                unfolded,
                rest,
                numbering,
            );
            lemma_on_apply_reduces(ev, ff, aa, yy, bb, render(result, numbering));
        },
        Term::Var(x) => {
            lemma_on_apply_stuck(ev, ff, aa, "Var"@, seq![numeral(numbering.variables.ids[x])], 1);
        },
        Term::Apply(g, h) => {
            lemma_on_apply_stuck(
                ev,
                ff,
                aa,
                "Apply"@,
                seq![render(*g, numbering), render(*h, numbering)],
                2,
            );
        },
        Term::Const(c, arguments) => {
            lemma_on_apply_stuck(
                ev,
                ff,
                aa,
                "Const"@,
                seq![numeral(numbering.constructors.ids[c]), render_terms(arguments, numbering)],
                3,
            );
        },
        Term::Case(scrutinee, arms) => {
            lemma_on_apply_stuck(
                ev,
                ff,
                aa,
                "Case"@,
                seq![render(*scrutinee, numbering), render_arms(arms, numbering)],
                4,
            );
        },
        Term::Rec(x, body) => {
            lemma_on_apply_stuck(
                ev,
                ff,
                aa,
                "Rec"@,
                seq![numeral(numbering.variables.ids[x]), render(*body, numbering)],
                5,
            );
        },
    }
}

/// The interpreter on an encoded recursive binding.
proof fn lemma_interprets_rec(y: Seq<char>, body: Term, fuel: nat, numbering: Numbering)
    requires
        numbering.wf(),
        knows(Term::Rec(y, Box::new(body)), numbering),
        reduce(Term::Rec(y, Box::new(body)), fuel) is Some,
    ensures
        steps(
            on_rec(
                interpreter(),
                numeral(numbering.variables.ids[y]),
                render(body, numbering),
            ),
            render(reduce(Term::Rec(y, Box::new(body)), fuel).unwrap(), numbering),
        ),
    decreases fuel, 0nat,
{
    let term = Term::Rec(y, Box::new(body));
    let rest = (fuel - 1) as nat;
    let unfolded = subst(body, y, term);
    let yy = numeral(numbering.variables.ids[y]);
    let bb = render(body, numbering);
    lemma_numeral_datum(numbering.variables.ids[y]);
    lemma_render_datum(body, numbering);
    lemma_render_datum(term, numbering);
    lemma_subst_knows(body, y, term, numbering);
    lemma_substituter_call(yy, render(term, numbering), bb, y, term, body, numbering);
    lemma_interprets_called(
        app3(substituter(), yy, con("Rec"@, seq![yy, bb]), bb),
        unfolded,
        rest,
        numbering,
    );
}

/// The interpreter on an encoded case expression.
proof fn lemma_interprets_case(scrutinee: Term, arms: Seq<Arm>, fuel: nat, numbering: Numbering)
    requires
        numbering.wf(),
        knows(Term::Case(Box::new(scrutinee), arms), numbering),
        reduce(Term::Case(Box::new(scrutinee), arms), fuel) is Some,
    ensures
        steps(
            on_case(interpreter(), render(scrutinee, numbering), render_arms(arms, numbering)),
            render(reduce(Term::Case(Box::new(scrutinee), arms), fuel).unwrap(), numbering),
        ),
    decreases fuel, 0nat,
{
    let term = Term::Case(Box::new(scrutinee), arms);
    let rest = (fuel - 1) as nat;
    let ev = interpreter();
    let ss = render(scrutinee, numbering);
    let bs = render_arms(arms, numbering);
    let value = reduce(scrutinee, rest).unwrap();
    lemma_interpreter_inert();
    lemma_render_datum(scrutinee, numbering);
    lemma_render_arms_datum(arms, numbering);
    lemma_interprets_called(ss, scrutinee, rest, numbering);
    lemma_reduce_knows(scrutinee, rest, numbering);
    match value {
        Term::Const(c, values) => {
            let cc = numeral(numbering.constructors.ids[c]);
            let vs = list(renders(values, numbering));
            lemma_numeral_datum(numbering.constructors.ids[c]);
            lemma_render_terms_list(values, numbering);
            lemma_render_terms_datum(values, numbering);
            lemma_lookup(c, renders(values, numbering), arms, numbering);
            lemma_first_match(arms, c, values.len(), 0);
            match first_match(arms, c, values.len()) {
                Some(i) => {
                    let taken = arms[i];
                    let bound = bind(*taken.expression, taken.parameters, values, values.len());
                    let result = reduce(bound, rest).unwrap();
                    let ps = list(render_names(taken.parameters, numbering));
                    let bb = render(*taken.expression, numbering);
                    assert(knows_arm(taken, numbering));
                    lemma_render_names_data(taken.parameters, numbering);
                    lemma_render_datum(*taken.expression, numbering);
                    lemma_binder(taken.parameters, values, *taken.expression, numbering);
                    lemma_bind_knows(
                        *taken.expression,
                        taken.parameters,
                        values,
                        values.len(),
                        numbering,
                    );
                    lemma_interprets_called(app3(binder(), ps, vs, bb), bound, rest, numbering);
                    lemma_dispatch_found(ev, cc, vs, bs, ss, ps, bb, render(result, numbering));
                    lemma_on_case_dispatches(ev, ss, bs, cc, vs, render(result, numbering));
                },
                None => {
                    lemma_dispatch_missing(ev, cc, vs, bs, ss);
                    lemma_on_case_dispatches(ev, ss, bs, cc, vs, render(term, numbering));
                },
            }
        },
        Term::Var(x) => {
            lemma_on_case_stuck(ev, ss, bs, "Var"@, seq![numeral(numbering.variables.ids[x])], 1);
        },
        Term::Apply(g, h) => {
            lemma_on_case_stuck(
                ev,
                ss,
                bs,
                "Apply"@,
                seq![render(*g, numbering), render(*h, numbering)],
                2,
            );
        },
        Term::Lambda(x, body) => {
            lemma_on_case_stuck(
                ev,
                ss,
                bs,
                "Lambda"@,
                seq![numeral(numbering.variables.ids[x]), render(*body, numbering)],
                3,
            );
        },
        Term::Case(inner, others) => {
            lemma_on_case_stuck(
                ev,
                ss,
                bs,
                "Case"@,
                seq![render(*inner, numbering), render_arms(others, numbering)],
                4,
            );
        },
        Term::Rec(x, body) => {
            lemma_on_case_stuck(
                ev,
                ss,
                bs,
                "Rec"@,
                seq![numeral(numbering.variables.ids[x]), render(*body, numbering)],
                5,
            );
        },
    }
}

/// The body of the interpreter, on an encoded term that has a normal form,
/// steps to the encoding of the normal form.
pub proof fn lemma_interprets(term: Term, fuel: nat, numbering: Numbering)
    requires
        numbering.wf(),
        knows(term, numbering),
        reduce(term, fuel) is Some,
    ensures
        steps(
            interpreter_body(interpreter(), render(term, numbering)),
            render(reduce(term, fuel).unwrap(), numbering),
        ),
    decreases fuel, 1nat,
{
    let rest = (fuel - 1) as nat;
    let ev = interpreter();
    let result = render(reduce(term, fuel).unwrap(), numbering);
    lemma_interpreter_inert();
    match term {
        Term::Var(x) => {
            lemma_numeral_datum(numbering.variables.ids[x]);
            lemma_interpreter_on_variable(ev, numeral(numbering.variables.ids[x]));
        },
        Term::Lambda(x, body) => {
            lemma_numeral_datum(numbering.variables.ids[x]);
            lemma_render_datum(*body, numbering);
            lemma_interpreter_on_lambda(
                ev,
                numeral(numbering.variables.ids[x]),
                render(*body, numbering),
            );
        },
        Term::Apply(f, a) => {
            lemma_render_datum(*f, numbering);
            lemma_render_datum(*a, numbering);
            lemma_interprets_apply(*f, *a, fuel, numbering);
            lemma_interpreter_binds_apply(
                ev,
                render(*f, numbering),
                render(*a, numbering),
                result,
            );
        },
        Term::Const(c, arguments) => {
            let values = reduced(arguments, rest);
            let items = renders(arguments, numbering);
            let results = renders(values, numbering);
            lemma_reduce_const(c, arguments, fuel);
            lemma_render_terms_list(arguments, numbering);
            lemma_render_terms_list(values, numbering);
            lemma_numeral_datum(numbering.constructors.ids[c]);
            lemma_interpreter_unfolds();
            assert forall|i: int| 0 <= i < items.len() implies steps(
                app(interpreter_step(), #[trigger] items[i]),
                results[i],
            ) by {
                assert(knows(arguments[i], numbering));
                assert(reduce(arguments[i], rest) is Some);
                lemma_interprets_applied(arguments[i], rest, numbering);
            }
            lemma_interpreter_on_constructor(
                ev,
                interpreter_step(),
                numeral(numbering.constructors.ids[c]),
                items,
                results,
            );
        },
        Term::Rec(y, body) => {
            lemma_numeral_datum(numbering.variables.ids[y]);
            lemma_render_datum(*body, numbering);
            lemma_interprets_rec(y, *body, fuel, numbering);
            lemma_interpreter_binds_rec(
                ev,
                numeral(numbering.variables.ids[y]),
                render(*body, numbering),
                result,
            );
        },
        Term::Case(scrutinee, arms) => {
            lemma_render_datum(*scrutinee, numbering);
            lemma_render_arms_datum(arms, numbering);
            lemma_interprets_case(*scrutinee, arms, fuel, numbering);
            lemma_interpreter_binds_case(
                ev,
                render(*scrutinee, numbering),
                render_arms(arms, numbering),
                result,
            );
        },
    }
}

/// The interpreter, applied to what steps to an encoded term that has a
/// normal form, steps to the encoding of the normal form.
pub proof fn lemma_interprets_called(
    argument: Term,
    term: Term,
    fuel: nat,
    numbering: Numbering,
)
    requires
        numbering.wf(),
        knows(term, numbering),
        reduce(term, fuel) is Some,
        steps(argument, render(term, numbering)),
    ensures
        steps(app(interpreter(), argument), render(reduce(term, fuel).unwrap(), numbering)),
    decreases fuel, 2nat,
{
    let subject = render(term, numbering);
    let body = interpreter_body(v("eval"@), v("e"@));
    lemma_interprets(term, fuel, numbering);
    assert(subst(body, "eval"@, interpreter()) == interpreter_body(interpreter(), v("e"@))) by {
        lemma_codes();
        lemma_subst_var("eval"@, "eval"@, interpreter());
        lemma_subst_var("e"@, "eval"@, interpreter());
        lemma_interpreter_body_subst(v("eval"@), v("e"@), "eval"@, interpreter());
    }
    lemma_interpreter_body_applied(subject);
    assert("eval"@ != "e"@) by {
        lemma_codes();
    }
    lemma_call1(
        "eval"@,
        "e"@,
        body,
        argument,
        subject,
        render(reduce(term, fuel).unwrap(), numbering),
    );
}

/// What the interpreter unfolds to, applied to an encoded term that has a
/// normal form, steps to the encoding of the normal form.
pub proof fn lemma_interprets_applied(term: Term, fuel: nat, numbering: Numbering)
    requires
        numbering.wf(),
        knows(term, numbering),
        reduce(term, fuel) is Some,
    ensures
        steps(
            app(interpreter_step(), render(term, numbering)),
            render(reduce(term, fuel).unwrap(), numbering),
        ),
    decreases fuel, 2nat,
{
    let subject = render(term, numbering);
    lemma_render_datum(term, numbering);
    lemma_interprets(term, fuel, numbering);
    lemma_interpreter_body_applied(subject);
    lemma_interpreter_unfolds();
    lemma_steps_apply(
        interpreter_step(),
        subject,
        "e"@,
        interpreter_body(interpreter(), v("e"@)),
        subject,
        render(reduce(term, fuel).unwrap(), numbering),
    );
}

/// The interpreter program agrees with evaluation: applied to the encoding
/// of a term that has a normal form, it steps to the encoding of the normal
/// form.
pub proof fn lemma_interpreter_agrees(term: Term, fuel: nat, numbering: Numbering)
    requires
        numbering.wf(),
        knows(term, numbering),
        reduce(term, fuel) is Some,
    ensures
        steps(
            app(interpreter(), render(term, numbering)),
            render(reduce(term, fuel).unwrap(), numbering),
        ),
{
    lemma_render_datum(term, numbering);
    lemma_interprets_called(render(term, numbering), term, fuel, numbering);
}

} // verus!
