//! What each branch of the interpreter program does with an encoded term
//! of its kind.

use crate::bootstrapping::agreement::data::{data, datum, lemma_con_datum, lemma_list_datum};
use crate::bootstrapping::agreement::frames::{
    lemma_beta_subst, lemma_bound_call_subst, lemma_dispatch_subst, lemma_on_apply_subst,
    lemma_on_case_subst, lemma_on_rec_subst,
};
use crate::bootstrapping::agreement::lists::lemma_map;
use crate::bootstrapping::agreement::rewrite::{
    inert, lemma_bind0, lemma_bind1, lemma_bind2, lemma_bind_inert, lemma_subst_con1,
    lemma_subst_con2, lemma_subst_var, lemma_takes,
};
use crate::bootstrapping::agreement::shapes::lemma_at_constructor_subst;
use crate::bootstrapping::agreement::words::lemma_codes;
use crate::bootstrapping::encoding::list;
use crate::bootstrapping::programs::{
    app, app2, app3, arm, at_constructor, beta, binder, cases, con, dispatch, interpreter_arms,
    lookup, map_list, on_apply, on_case, on_rec, unless_const, unless_lambda, v,
};
use crate::bootstrapping::steps::{lemma_steps_case, lemma_steps_con, steps};

use crate::semantic::{arm_matches, bind, first_match};
use crate::syntax::Term;
use vstd::prelude::*;

verus! {

/// The branch at `index` is the first of the interpreter that fits the tag
/// `kind` with `arity` fields.
pub open spec fn runs_branch(kind: Seq<char>, arity: nat, index: int) -> bool {
    ||| kind == "Var"@ && arity == 1 && index == 0
    ||| kind == "Lambda"@ && arity == 2 && index == 1
    ||| kind == "Apply"@ && arity == 2 && index == 2
    ||| kind == "Const"@ && arity == 2 && index == 3
    ||| kind == "Rec"@ && arity == 2 && index == 4
    ||| kind == "Case"@ && arity == 2 && index == 5
}

/// A case expression with the branches of the interpreter takes the branch
/// of the kind of its scrutinee.
pub proof fn lemma_interpreter_takes(ev: Term, kind: Seq<char>, arity: nat, index: int)
    requires
        runs_branch(kind, arity, index),
    ensures
        first_match(interpreter_arms(ev), kind, arity) == Some(index),
{
    lemma_codes();
    let arms = interpreter_arms(ev);
    assert(arm_matches(arms[index], kind, arity));
    assert forall|j: int| 0 <= j < index implies !arm_matches(#[trigger] arms[j], kind, arity) by {
        if j == 0 {
        } else if j == 1 {
        } else if j == 2 {
        } else if j == 3 {
        } else if j == 4 {
        }
    }
    lemma_takes(arms, kind, arity, index);
}

/// The interpreter on an encoded variable gives it back.
pub proof fn lemma_interpreter_on_variable(ev: Term, x: Term)
    requires
        datum(x),
    ensures
        steps(cases(con("Var"@, seq![x]), interpreter_arms(ev)), con("Var"@, seq![x])),
{
    let subject = con("Var"@, seq![x]);
    lemma_con_datum("Var"@, seq![x]);
    lemma_interpreter_takes(ev, "Var"@, 1, 0);
    assert(bind(con("Var"@, seq![v("x"@)]), seq!["x"@], seq![x], 1) == subject) by {
        lemma_bind1(con("Var"@, seq![v("x"@)]), "x"@, x);
        lemma_subst_con1("Var"@, v("x"@), "x"@, x);
        lemma_subst_var("x"@, "x"@, x);
    }
    lemma_steps_case(subject, interpreter_arms(ev), "Var"@, seq![x], 0, subject);
}

/// The interpreter on an encoded abstraction gives it back.
pub proof fn lemma_interpreter_on_lambda(ev: Term, x: Term, b: Term)
    requires
        datum(x),
        datum(b),
    ensures
        steps(
            cases(con("Lambda"@, seq![x, b]), interpreter_arms(ev)),
            con("Lambda"@, seq![x, b]),
        ),
{
    let subject = con("Lambda"@, seq![x, b]);
    let piece = con("Lambda"@, seq![v("x"@), v("b"@)]);
    lemma_con_datum("Lambda"@, seq![x, b]);
    lemma_interpreter_takes(ev, "Lambda"@, 2, 1);
    assert(bind(piece, seq!["x"@, "b"@], seq![x, b], 2) == subject) by {
        lemma_codes();
        lemma_bind2(piece, "x"@, "b"@, x, b);
        lemma_subst_con2("Lambda"@, v("x"@), v("b"@), "b"@, b);
        lemma_subst_var("x"@, "b"@, b);
        lemma_subst_var("b"@, "b"@, b);
        lemma_subst_con2("Lambda"@, v("x"@), b, "x"@, x);
        lemma_subst_var("x"@, "x"@, x);
    }
    lemma_steps_case(subject, interpreter_arms(ev), "Lambda"@, seq![x, b], 1, subject);
}

/// The branch for applications binds the function and the argument.
pub proof fn lemma_interpreter_binds_apply(ev: Term, f: Term, a: Term, result: Term)
    requires
        inert(ev),
        datum(f),
        datum(a),
        steps(on_apply(ev, f, a), result),
    ensures
        steps(cases(con("Apply"@, seq![f, a]), interpreter_arms(ev)), result),
{
    let subject = con("Apply"@, seq![f, a]);
    let piece = on_apply(ev, v("f"@), v("a"@));
    lemma_con_datum("Apply"@, seq![f, a]);
    lemma_interpreter_takes(ev, "Apply"@, 2, 2);
    assert(bind(piece, seq!["f"@, "a"@], seq![f, a], 2) == on_apply(ev, f, a)) by {
        lemma_codes();
        lemma_bind2(piece, "f"@, "a"@, f, a);
        lemma_on_apply_subst(ev, v("f"@), v("a"@), "a"@, a);
        lemma_subst_var("f"@, "a"@, a);
        lemma_subst_var("a"@, "a"@, a);
        lemma_on_apply_subst(ev, v("f"@), a, "f"@, f);
        lemma_subst_var("f"@, "f"@, f);
    }
    lemma_steps_case(subject, interpreter_arms(ev), "Apply"@, seq![f, a], 2, result);
}

/// What the interpreter does with an application whose function has an
/// abstraction as its value.
pub proof fn lemma_on_apply_reduces(
    ev: Term,
    f: Term,
    a: Term,
    x: Term,
    b: Term,
    result: Term,
)
    requires
        inert(ev),
        datum(a),
        datum(x),
        datum(b),
        steps(app(ev, f), con("Lambda"@, seq![x, b])),
        steps(beta(ev, x, a, b), result),
    ensures
        steps(on_apply(ev, f, a), result),
{
    let piece = beta(ev, v("x"@), a, v("b"@));
    let first = arm("Lambda"@, seq!["x"@, "b"@], piece);
    let arms = unless_lambda(first, con("Apply"@, seq![f, a]));
    lemma_takes(arms, "Lambda"@, 2, 0);
    assert(bind(piece, seq!["x"@, "b"@], seq![x, b], 2) == beta(ev, x, a, b)) by {
        lemma_codes();
        lemma_bind2(piece, "x"@, "b"@, x, b);
        lemma_beta_subst(ev, v("x"@), a, v("b"@), "b"@, b);
        lemma_subst_var("x"@, "b"@, b);
        lemma_subst_var("b"@, "b"@, b);
        lemma_beta_subst(ev, v("x"@), a, b, "x"@, x);
        lemma_subst_var("x"@, "x"@, x);
    }
    lemma_steps_case(app(ev, f), arms, "Lambda"@, seq![x, b], 0, result);
}

/// Whether the tag `kind` with `arity` fields is that of an encoded term
/// which is no abstraction, and `index` the branch for it.
pub open spec fn no_lambda(kind: Seq<char>, arity: nat, index: int) -> bool {
    ||| kind == "Var"@ && arity == 1 && index == 1
    ||| kind == "Apply"@ && arity == 2 && index == 2
    ||| kind == "Const"@ && arity == 2 && index == 3
    ||| kind == "Case"@ && arity == 2 && index == 4
    ||| kind == "Rec"@ && arity == 2 && index == 5
}

/// What the interpreter does with an application whose function has no
/// abstraction as its value: it gives the application back.
pub proof fn lemma_on_apply_stuck(
    ev: Term,
    f: Term,
    a: Term,
    kind: Seq<char>,
    fields: Seq<Term>,
    index: int,
)
    requires
        datum(f),
        datum(a),
        no_lambda(kind, fields.len(), index),
        steps(app(ev, f), con(kind, fields)),
    ensures
        steps(on_apply(ev, f, a), con("Apply"@, seq![f, a])),
{
    let stuck = con("Apply"@, seq![f, a]);
    let first = arm("Lambda"@, seq!["x"@, "b"@], beta(ev, v("x"@), a, v("b"@)));
    let arms = unless_lambda(first, stuck);
    lemma_con_datum("Apply"@, seq![f, a]);
    assert(first_match(arms, kind, fields.len()) == Some(index)) by {
        lemma_codes();
        assert(arm_matches(arms[index], kind, fields.len()));
        assert forall|j: int| 0 <= j < index implies !arm_matches(
            #[trigger] arms[j],
            kind,
            fields.len(),
        ) by {
            if j == 0 {
            } else if j == 1 {
            } else if j == 2 {
            } else if j == 3 {
            } else if j == 4 {
            }
        }
        lemma_takes(arms, kind, fields.len(), index);
    }
    assert(*arms[index].expression == stuck);
    lemma_bind_inert(stuck, arms[index].parameters, fields, fields.len());
    lemma_steps_case(app(ev, f), arms, kind, fields, index, stuck);
}

/// The interpreter on an encoded constructor application.
pub proof fn lemma_interpreter_on_constructor(
    ev: Term,
    unfolded: Term,
    c: Term,
    items: Seq<Term>,
    results: Seq<Term>,
)
    requires
        inert(ev),
        steps(ev, unfolded),
        steps(unfolded, unfolded),
        inert(unfolded),
        datum(c),
        data(items),
        items.len() == results.len(),
        forall|i: int|
            0 <= i < items.len() ==> steps(app(unfolded, #[trigger] items[i]), results[i]),
    ensures
        steps(
            cases(con("Const"@, seq![c, list(items)]), interpreter_arms(ev)),
            con("Const"@, seq![c, list(results)]),
        ),
{
    let es = list(items);
    let subject = con("Const"@, seq![c, es]);
    lemma_list_datum(items);
    lemma_con_datum("Const"@, seq![c, es]);
    lemma_interpreter_takes(ev, "Const"@, 2, 3);
    let piece = at_constructor(ev, v("c"@), v("es"@));
    assert(bind(piece, seq!["c"@, "es"@], seq![c, es], 2) == at_constructor(ev, c, es)) by {
        lemma_codes();
        lemma_bind2(piece, "c"@, "es"@, c, es);
        lemma_at_constructor_subst(ev, v("c"@), v("es"@), "es"@, es);
        lemma_subst_var("c"@, "es"@, es);
        lemma_subst_var("es"@, "es"@, es);
        lemma_at_constructor_subst(ev, v("c"@), es, "c"@, c);
        lemma_subst_var("c"@, "c"@, c);
    }
    lemma_map(ev, unfolded, items, results);
    lemma_steps_con("Const"@, seq![c, app2(map_list(), ev, es)], seq![c, list(results)]);
    lemma_steps_case(
        subject,
        interpreter_arms(ev),
        "Const"@,
        seq![c, es],
        3,
        con("Const"@, seq![c, list(results)]),
    );
}

/// The branch for recursive bindings binds the variable and the body.
pub proof fn lemma_interpreter_binds_rec(ev: Term, x: Term, b: Term, result: Term)
    requires
        inert(ev),
        datum(x),
        datum(b),
        steps(on_rec(ev, x, b), result),
    ensures
        steps(cases(con("Rec"@, seq![x, b]), interpreter_arms(ev)), result),
{
    let subject = con("Rec"@, seq![x, b]);
    let piece = on_rec(ev, v("x"@), v("b"@));
    lemma_con_datum("Rec"@, seq![x, b]);
    lemma_interpreter_takes(ev, "Rec"@, 2, 4);
    assert(bind(piece, seq!["x"@, "b"@], seq![x, b], 2) == on_rec(ev, x, b)) by {
        lemma_codes();
        lemma_bind2(piece, "x"@, "b"@, x, b);
        lemma_on_rec_subst(ev, v("x"@), v("b"@), "b"@, b);
        lemma_subst_var("x"@, "b"@, b);
        lemma_subst_var("b"@, "b"@, b);
        lemma_on_rec_subst(ev, v("x"@), b, "x"@, x);
        lemma_subst_var("x"@, "x"@, x);
    }
    lemma_steps_case(subject, interpreter_arms(ev), "Rec"@, seq![x, b], 4, result);
}

/// The branch for case expressions binds the scrutinee and the branches.
pub proof fn lemma_interpreter_binds_case(ev: Term, s: Term, bs: Term, result: Term)
    requires
        inert(ev),
        datum(s),
        datum(bs),
        steps(on_case(ev, s, bs), result),
    ensures
        steps(cases(con("Case"@, seq![s, bs]), interpreter_arms(ev)), result),
{
    let subject = con("Case"@, seq![s, bs]);
    let piece = on_case(ev, v("s"@), v("bs"@));
    lemma_con_datum("Case"@, seq![s, bs]);
    lemma_interpreter_takes(ev, "Case"@, 2, 5);
    assert(bind(piece, seq!["s"@, "bs"@], seq![s, bs], 2) == on_case(ev, s, bs)) by {
        lemma_codes();
        lemma_bind2(piece, "s"@, "bs"@, s, bs);
        lemma_on_case_subst(ev, v("s"@), v("bs"@), "bs"@, bs);
        lemma_subst_var("s"@, "bs"@, bs);
        lemma_subst_var("bs"@, "bs"@, bs);
        lemma_on_case_subst(ev, v("s"@), bs, "s"@, s);
        lemma_subst_var("s"@, "s"@, s);
    }
    lemma_steps_case(subject, interpreter_arms(ev), "Case"@, seq![s, bs], 5, result);
}

/// What the interpreter does with a case expression whose scrutinee has a
/// constructor application as its value: the dispatch on it.
pub proof fn lemma_on_case_dispatches(
    ev: Term,
    s: Term,
    bs: Term,
    c: Term,
    vs: Term,
    result: Term,
)
    requires
        inert(ev),
        datum(s),
        datum(bs),
        datum(c),
        datum(vs),
        steps(app(ev, s), con("Const"@, seq![c, vs])),
        steps(dispatch(ev, c, vs, bs, s), result),
    ensures
        steps(on_case(ev, s, bs), result),
{
    let piece = dispatch(ev, v("c"@), v("vs"@), bs, s);
    let first = arm("Const"@, seq!["c"@, "vs"@], piece);
    let arms = unless_const(first, con("Case"@, seq![s, bs]));
    lemma_takes(arms, "Const"@, 2, 0);
    assert(bind(piece, seq!["c"@, "vs"@], seq![c, vs], 2) == dispatch(ev, c, vs, bs, s)) by {
        lemma_codes();
        lemma_bind2(piece, "c"@, "vs"@, c, vs);
        lemma_dispatch_subst(ev, v("c"@), v("vs"@), bs, s, "vs"@, vs);
        lemma_subst_var("c"@, "vs"@, vs);
        lemma_subst_var("vs"@, "vs"@, vs);
        lemma_dispatch_subst(ev, v("c"@), vs, bs, s, "c"@, c);
        lemma_subst_var("c"@, "c"@, c);
    }
    lemma_steps_case(app(ev, s), arms, "Const"@, seq![c, vs], 0, result);
}

/// The dispatch where the lookup finds a branch: its body is evaluated
/// with the values in place of its parameters.
pub proof fn lemma_dispatch_found(
    ev: Term,
    c: Term,
    vs: Term,
    bs: Term,
    s: Term,
    ps: Term,
    b: Term,
    result: Term,
)
    requires
        inert(ev),
        datum(vs),
        datum(ps),
        datum(b),
        steps(app3(lookup(), c, vs, bs), con("Found"@, seq![ps, b])),
        steps(app(ev, app3(binder(), ps, vs, b)), result),
    ensures
        steps(dispatch(ev, c, vs, bs, s), result),
{
    let call = app(ev, app3(binder(), v("ps"@), vs, v("b"@)));
    let a1 = arm("Found"@, seq!["ps"@, "b"@], call);
    let a2 = arm("Missing"@, seq![], con("Case"@, seq![s, bs]));
    lemma_takes(seq![a1, a2], "Found"@, 2, 0);
    assert(bind(call, seq!["ps"@, "b"@], seq![ps, b], 2) == app(ev, app3(binder(), ps, vs, b)))
        by {
        lemma_codes();
        lemma_bind2(call, "ps"@, "b"@, ps, b);
        lemma_bound_call_subst(ev, v("ps"@), vs, v("b"@), "b"@, b);
        lemma_subst_var("ps"@, "b"@, b);
        lemma_subst_var("b"@, "b"@, b);
        lemma_bound_call_subst(ev, v("ps"@), vs, b, "ps"@, ps);
        lemma_subst_var("ps"@, "ps"@, ps);
    }
    lemma_steps_case(app3(lookup(), c, vs, bs), seq![a1, a2], "Found"@, seq![ps, b], 0, result);
}

/// The dispatch where the lookup finds no branch: the case expression is
/// given back.
pub proof fn lemma_dispatch_missing(ev: Term, c: Term, vs: Term, bs: Term, s: Term)
    requires
        datum(s),
        datum(bs),
        steps(app3(lookup(), c, vs, bs), con("Missing"@, seq![])),
    ensures
        steps(dispatch(ev, c, vs, bs, s), con("Case"@, seq![s, bs])),
{
    let stuck = con("Case"@, seq![s, bs]);
    let call = app(ev, app3(binder(), v("ps"@), vs, v("b"@)));
    let a1 = arm("Found"@, seq!["ps"@, "b"@], call);
    let a2 = arm("Missing"@, seq![], stuck);
    lemma_con_datum("Case"@, seq![s, bs]);
    assert(!arm_matches(a1, "Missing"@, 0)) by {
        lemma_codes();
    }
    lemma_takes(seq![a1, a2], "Missing"@, 0, 1);
    lemma_bind0(stuck, seq![], seq![]);
    lemma_steps_case(app3(lookup(), c, vs, bs), seq![a1, a2], "Missing"@, seq![], 1, stuck);
}

/// Whether the tag `kind` with `arity` fields is that of an encoded term
/// which is no constructor application, and `index` the branch for it.
pub open spec fn no_const(kind: Seq<char>, arity: nat, index: int) -> bool {
    ||| kind == "Var"@ && arity == 1 && index == 1
    ||| kind == "Apply"@ && arity == 2 && index == 2
    ||| kind == "Lambda"@ && arity == 2 && index == 3
    ||| kind == "Case"@ && arity == 2 && index == 4
    ||| kind == "Rec"@ && arity == 2 && index == 5
}

/// What the interpreter does with a case expression whose scrutinee has no
/// constructor application as its value: it gives the case expression
/// back.
pub proof fn lemma_on_case_stuck(
    ev: Term,
    s: Term,
    bs: Term,
    kind: Seq<char>,
    fields: Seq<Term>,
    index: int,
)
    requires
        datum(s),
        datum(bs),
        no_const(kind, fields.len(), index),
        steps(app(ev, s), con(kind, fields)),
    ensures
        steps(on_case(ev, s, bs), con("Case"@, seq![s, bs])),
{
    let stuck = con("Case"@, seq![s, bs]);
    let first = arm("Const"@, seq!["c"@, "vs"@], dispatch(ev, v("c"@), v("vs"@), bs, s));
    let arms = unless_const(first, stuck);
    lemma_con_datum("Case"@, seq![s, bs]);
    assert(first_match(arms, kind, fields.len()) == Some(index)) by {
        lemma_codes();
        assert(arm_matches(arms[index], kind, fields.len()));
        assert forall|j: int| 0 <= j < index implies !arm_matches(
            #[trigger] arms[j],
            kind,
            fields.len(),
        ) by {
            if j == 0 {
            } else if j == 1 {
            } else if j == 2 {
            } else if j == 3 {
            } else if j == 4 {
            }
        }
        lemma_takes(arms, kind, fields.len(), index);
    }
    assert(*arms[index].expression == stuck);
    lemma_bind_inert(stuck, arms[index].parameters, fields, fields.len());
    lemma_steps_case(app(ev, s), arms, kind, fields, index, stuck);
}

} // verus!
