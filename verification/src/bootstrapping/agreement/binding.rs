//! The binding program binds the parameters of a branch to the values of
//! the arguments, the last parameter first.

use crate::bootstrapping::agreement::calls::lemma_call3;
use crate::bootstrapping::agreement::data::{
    data, datum, lemma_list_datum, lemma_numeral_datum, lemma_render_datum,
    lemma_render_names_data,
};
use crate::bootstrapping::agreement::lists::lemma_list_cons;
use crate::bootstrapping::agreement::rewrite::{
    inert, lemma_bind0, lemma_bind2, lemma_subst_app3, lemma_subst_arm0, lemma_subst_arm2,
    lemma_subst_cases2, lemma_subst_var, lemma_takes,
};
use crate::bootstrapping::agreement::shapes::lemma_substituter_inert;
use crate::bootstrapping::agreement::substitution::{
    lemma_render_terms_list, lemma_substituter_call, renders,
};
use crate::bootstrapping::agreement::words::lemma_codes;
use crate::bootstrapping::encoding::{
    knows, knows_names, knows_terms, list, numeral, render, render_names, Numbering,
};
use crate::bootstrapping::names::lemma_bind_knows;
use crate::bootstrapping::programs::{
    app3, arm, binder, binder_body, binder_call, binder_cons, substituter, v,
};
use crate::bootstrapping::steps::{lemma_steps_case, steps};
use crate::semantic::substitute::subst;
use crate::semantic::{arm_matches, bind};
use crate::syntax::Term;
use vstd::prelude::*;

verus! {

/// Substitution in the call that binds one parameter.
pub proof fn lemma_binder_call_subst(
    recur: Term,
    b: Term,
    p: Term,
    pt: Term,
    w: Term,
    wt: Term,
    z: Seq<char>,
    r: Term,
)
    ensures
        subst(binder_call(recur, b, p, pt, w, wt), z, r) == binder_call(
            subst(recur, z, r),
            subst(b, z, r),
            subst(p, z, r),
            subst(pt, z, r),
            subst(w, z, r),
            subst(wt, z, r),
        ),
{
    lemma_substituter_inert();
    lemma_subst_app3(recur, pt, wt, b, z, r);
    lemma_subst_app3(substituter(), p, w, app3(recur, pt, wt, b), z, r);
}

/// Substitution in what binding does with parameters that are not at
/// their end, for a variable that the case on the values does not bind.
pub proof fn lemma_binder_cons_subst(
    recur: Term,
    vs: Term,
    b: Term,
    p: Term,
    pt: Term,
    z: Seq<char>,
    r: Term,
)
    requires
        z != "w"@,
        z != "wt"@,
    ensures
        subst(binder_cons(recur, vs, b, p, pt), z, r) == binder_cons(
            subst(recur, z, r),
            subst(vs, z, r),
            subst(b, z, r),
            subst(p, z, r),
            subst(pt, z, r),
        ),
{
    let piece = binder_call(recur, b, p, pt, v("w"@), v("wt"@));
    lemma_binder_call_subst(recur, b, p, pt, v("w"@), v("wt"@), z, r);
    lemma_subst_var("w"@, z, r);
    lemma_subst_var("wt"@, z, r);
    lemma_subst_arm0("Nil"@, b, z, r);
    lemma_subst_arm2("Cons"@, "w"@, "wt"@, piece, z, r);
    lemma_subst_cases2(
        vs,
        arm("Nil"@, seq![], b),
        arm("Cons"@, seq!["w"@, "wt"@], piece),
        z,
        r,
    );
}

/// Substitution in the body of binding, for a variable that it does not
/// bind.
pub proof fn lemma_binder_body_subst(
    recur: Term,
    ps: Term,
    vs: Term,
    b: Term,
    z: Seq<char>,
    r: Term,
)
    requires
        z != "p"@,
        z != "pt"@,
        z != "w"@,
        z != "wt"@,
    ensures
        subst(binder_body(recur, ps, vs, b), z, r) == binder_body(
            subst(recur, z, r),
            subst(ps, z, r),
            subst(vs, z, r),
            subst(b, z, r),
        ),
{
    let piece = binder_cons(recur, vs, b, v("p"@), v("pt"@));
    lemma_binder_cons_subst(recur, vs, b, v("p"@), v("pt"@), z, r);
    lemma_subst_var("p"@, z, r);
    lemma_subst_var("pt"@, z, r);
    lemma_subst_arm0("Nil"@, b, z, r);
    lemma_subst_arm2("Cons"@, "p"@, "pt"@, piece, z, r);
    lemma_subst_cases2(
        ps,
        arm("Nil"@, seq![], b),
        arm("Cons"@, seq!["p"@, "pt"@], piece),
        z,
        r,
    );
}

/// Substitution leaves the body of binding as it is, where it leaves what
/// stands in its four places as it is.
pub proof fn lemma_binder_body_stable(
    recur: Term,
    ps: Term,
    vs: Term,
    b: Term,
    z: Seq<char>,
    r: Term,
)
    requires
        subst(recur, z, r) == recur,
        subst(ps, z, r) == ps,
        subst(vs, z, r) == vs,
        subst(b, z, r) == b,
    ensures
        subst(binder_body(recur, ps, vs, b), z, r) == binder_body(recur, ps, vs, b),
{
    lemma_codes();
    let call = binder_call(recur, b, v("p"@), v("pt"@), v("w"@), v("wt"@));
    let piece = binder_cons(recur, vs, b, v("p"@), v("pt"@));
    lemma_subst_var("p"@, z, r);
    lemma_subst_var("pt"@, z, r);
    lemma_subst_var("w"@, z, r);
    lemma_subst_var("wt"@, z, r);
    lemma_binder_call_subst(recur, b, v("p"@), v("pt"@), v("w"@), v("wt"@), z, r);
    lemma_subst_arm0("Nil"@, b, z, r);
    lemma_subst_arm2("Cons"@, "w"@, "wt"@, call, z, r);
    lemma_subst_cases2(
        vs,
        arm("Nil"@, seq![], b),
        arm("Cons"@, seq!["w"@, "wt"@], call),
        z,
        r,
    );
    lemma_subst_arm2("Cons"@, "p"@, "pt"@, piece, z, r);
    lemma_subst_cases2(
        ps,
        arm("Nil"@, seq![], b),
        arm("Cons"@, seq!["p"@, "pt"@], piece),
        z,
        r,
    );
}

/// Substitution leaves the binding program as it is.
pub proof fn lemma_binder_inert()
    ensures
        inert(binder()),
{
    assert forall|z: Seq<char>, r: Term| #[trigger] subst(binder(), z, r) == binder() by {
        lemma_codes();
        lemma_subst_var("bind"@, z, r);
        lemma_subst_var("ps"@, z, r);
        lemma_subst_var("vs"@, z, r);
        lemma_subst_var("b"@, z, r);
        if z != "bind"@ && z != "ps"@ && z != "vs"@ && z != "b"@ {
            lemma_binder_body_stable(v("bind"@), v("ps"@), v("vs"@), v("b"@), z, r);
        }
        reveal_with_fuel(subst, 4);
    }
}

/// Binding from the front: what binding all parameters gives is what
/// binding the first gives in what binding the others gives.
pub proof fn lemma_bind_front(
    body: Term,
    parameters: Seq<Seq<char>>,
    values: Seq<Term>,
    count: nat,
)
    requires
        1 <= count <= parameters.len(),
        parameters.len() == values.len(),
    ensures
        bind(body, parameters, values, count) == subst(
            bind(body, parameters.drop_first(), values.drop_first(), (count - 1) as nat),
            parameters[0],
            values[0],
        ),
    decreases count,
{
    let names = parameters.drop_first();
    let others = values.drop_first();
    if count > 1 {
        let inner = subst(body, parameters[count - 1], values[count - 1]);
        lemma_bind_front(inner, parameters, values, (count - 1) as nat);
        assert(names[count - 2] == parameters[count - 1]);
        assert(others[count - 2] == values[count - 1]);
        assert(bind(body, parameters, values, count) == bind(
            inner,
            parameters,
            values,
            (count - 1) as nat,
        ));
        assert(bind(body, names, others, (count - 1) as nat) == bind(
            inner,
            names,
            others,
            (count - 2) as nat,
        ));
    } else {
        let inner = subst(body, parameters[0], values[0]);
        assert(bind(body, parameters, values, 1) == bind(inner, parameters, values, 0));
        assert(bind(inner, parameters, values, 0) == inner);
        assert(bind(body, names, others, 0) == body);
    }
}

/// What the body of binding does with lists that are not empty, where the
/// call that binds the first parameter gives what it should.
pub proof fn lemma_binder_cons_steps(
    recur: Term,
    p: Term,
    pt: Term,
    w: Term,
    wt: Term,
    b: Term,
    result: Term,
)
    requires
        inert(recur),
        datum(p),
        datum(pt),
        datum(w),
        datum(wt),
        datum(b),
        steps(binder_call(recur, b, p, pt, w, wt), result),
    ensures
        steps(
            binder_body(
                recur,
                crate::bootstrapping::programs::con("Cons"@, seq![p, pt]),
                crate::bootstrapping::programs::con("Cons"@, seq![w, wt]),
                b,
            ),
            result,
        ),
{
    let ps = crate::bootstrapping::programs::con("Cons"@, seq![p, pt]);
    let vs = crate::bootstrapping::programs::con("Cons"@, seq![w, wt]);
    crate::bootstrapping::agreement::data::lemma_con_datum("Cons"@, seq![p, pt]);
    crate::bootstrapping::agreement::data::lemma_con_datum("Cons"@, seq![w, wt]);
    // The case on the values binds the first value and the rest.
    let call = binder_call(recur, b, p, pt, v("w"@), v("wt"@));
    let i1 = arm("Nil"@, seq![], b);
    let i2 = arm("Cons"@, seq!["w"@, "wt"@], call);
    assert(bind(call, seq!["w"@, "wt"@], seq![w, wt], 2) == binder_call(recur, b, p, pt, w, wt))
        by {
        lemma_codes();
        lemma_bind2(call, "w"@, "wt"@, w, wt);
        lemma_binder_call_subst(recur, b, p, pt, v("w"@), v("wt"@), "wt"@, wt);
        lemma_subst_var("w"@, "wt"@, wt);
        lemma_subst_var("wt"@, "wt"@, wt);
        lemma_binder_call_subst(recur, b, p, pt, v("w"@), wt, "w"@, w);
        lemma_subst_var("w"@, "w"@, w);
    }
    assert(!arm_matches(i1, "Cons"@, 2)) by {
        lemma_codes();
    }
    lemma_takes(seq![i1, i2], "Cons"@, 2, 1);
    lemma_steps_case(vs, seq![i1, i2], "Cons"@, seq![w, wt], 1, result);
    // The case on the parameters binds the first parameter and the rest.
    let piece = binder_cons(recur, vs, b, v("p"@), v("pt"@));
    let o1 = arm("Nil"@, seq![], b);
    let o2 = arm("Cons"@, seq!["p"@, "pt"@], piece);
    assert(bind(piece, seq!["p"@, "pt"@], seq![p, pt], 2) == binder_cons(recur, vs, b, p, pt)) by {
        lemma_codes();
        lemma_bind2(piece, "p"@, "pt"@, p, pt);
        lemma_binder_cons_subst(recur, vs, b, v("p"@), v("pt"@), "pt"@, pt);
        lemma_subst_var("p"@, "pt"@, pt);
        lemma_subst_var("pt"@, "pt"@, pt);
        lemma_binder_cons_subst(recur, vs, b, v("p"@), pt, "p"@, p);
        lemma_subst_var("p"@, "p"@, p);
    }
    assert(!arm_matches(o1, "Cons"@, 2)) by {
        lemma_codes();
    }
    lemma_takes(seq![o1, o2], "Cons"@, 2, 1);
    lemma_steps_case(ps, seq![o1, o2], "Cons"@, seq![p, pt], 1, result);
}

/// The binding program, applied to the encoded parameters of a branch, as
/// many encoded values and the encoded body, gives the encoding of the body
/// with the values in place of the parameters.
pub proof fn lemma_binder(
    parameters: Seq<Seq<char>>,
    values: Seq<Term>,
    body: Term,
    numbering: Numbering,
)
    requires
        numbering.wf(),
        knows_names(parameters, numbering),
        knows_terms(values, numbering),
        knows(body, numbering),
        parameters.len() == values.len(),
    ensures
        steps(
            app3(
                binder(),
                list(render_names(parameters, numbering)),
                list(renders(values, numbering)),
                render(body, numbering),
            ),
            render(bind(body, parameters, values, values.len()), numbering),
        ),
    decreases parameters.len(),
{
    let ps = list(render_names(parameters, numbering));
    let vs = list(renders(values, numbering));
    let b = render(body, numbering);
    let result = render(bind(body, parameters, values, values.len()), numbering);
    let template = binder_body(v("bind"@), v("ps"@), v("vs"@), v("b"@));
    lemma_render_names_data(parameters, numbering);
    lemma_render_terms_list(values, numbering);
    lemma_list_datum(renders(values, numbering));
    lemma_render_datum(body, numbering);
    lemma_binder_inert();
    assert(subst(subst(subst(subst(template, "bind"@, binder()), "ps"@, ps), "vs"@, vs), "b"@, b)
        == binder_body(binder(), ps, vs, b)) by {
        lemma_codes();
        lemma_subst_var("bind"@, "bind"@, binder());
        lemma_subst_var("ps"@, "bind"@, binder());
        lemma_subst_var("vs"@, "bind"@, binder());
        lemma_subst_var("b"@, "bind"@, binder());
        lemma_binder_body_subst(v("bind"@), v("ps"@), v("vs"@), v("b"@), "bind"@, binder());
        lemma_subst_var("ps"@, "ps"@, ps);
        lemma_subst_var("vs"@, "ps"@, ps);
        lemma_subst_var("b"@, "ps"@, ps);
        lemma_binder_body_subst(binder(), v("ps"@), v("vs"@), v("b"@), "ps"@, ps);
        lemma_subst_var("vs"@, "vs"@, vs);
        lemma_subst_var("b"@, "vs"@, vs);
        lemma_binder_body_subst(binder(), ps, v("vs"@), v("b"@), "vs"@, vs);
        lemma_subst_var("b"@, "b"@, b);
        lemma_binder_body_subst(binder(), ps, vs, v("b"@), "b"@, b);
    }
    assert(steps(binder_body(binder(), ps, vs, b), result)) by {
        if parameters.len() == 0 {
            let o1 = arm("Nil"@, seq![], b);
            let o2 = arm(
                "Cons"@,
                seq!["p"@, "pt"@],
                binder_cons(binder(), vs, b, v("p"@), v("pt"@)),
            );
            lemma_takes(seq![o1, o2], "Nil"@, 0, 0);
            lemma_bind0(b, seq![], seq![]);
            lemma_steps_case(ps, seq![o1, o2], "Nil"@, seq![], 0, result);
        } else {
            let names = parameters.drop_first();
            let others = values.drop_first();
            let p = numeral(numbering.variables.ids[parameters[0]]);
            let pt = list(render_names(names, numbering));
            let w = render(values[0], numbering);
            let wt = list(renders(others, numbering));
            let before = bind(body, names, others, others.len());
            assert(render_names(parameters, numbering).first() == p);
            assert(render_names(parameters, numbering).drop_first() =~= render_names(
                names,
                numbering,
            ));
            assert(renders(values, numbering).first() == w);
            assert(renders(values, numbering).drop_first() =~= renders(others, numbering));
            lemma_list_cons(render_names(parameters, numbering));
            lemma_list_cons(renders(values, numbering));
            assert(numbering.variables.ids.contains_key(parameters[0]));
            assert(knows(values[0], numbering));
            assert forall|i: int| 0 <= i < names.len() implies numbering.variables.ids.contains_key(
                #[trigger] names[i],
            ) by {
                assert(names[i] == parameters[i + 1]);
            }
            assert forall|i: int| 0 <= i < others.len() implies knows(
                #[trigger] others[i],
                numbering,
            ) by {
                assert(others[i] == values[i + 1]);
            }
            lemma_numeral_datum(numbering.variables.ids[parameters[0]]);
            lemma_render_names_data(names, numbering);
            lemma_render_datum(values[0], numbering);
            lemma_render_terms_list(others, numbering);
            lemma_list_datum(renders(others, numbering));
            // The others are bound first, and the first parameter in what
            // that gives.
            lemma_binder(names, others, body, numbering);
            lemma_bind_knows(body, names, others, others.len(), numbering);
            lemma_bind_front(body, parameters, values, values.len());
            lemma_substituter_call(
                p,
                w,
                app3(binder(), pt, wt, b),
                parameters[0],
                values[0],
                before,
                numbering,
            );
            lemma_binder_cons_steps(binder(), p, pt, w, wt, b, result);
        }
    }
    assert("bind"@ != "ps"@ && "bind"@ != "vs"@ && "bind"@ != "b"@ && "ps"@ != "vs"@ && "ps"@
        != "b"@ && "vs"@ != "b"@) by {
        lemma_codes();
    }
    lemma_call3("bind"@, "ps"@, "vs"@, "b"@, template, ps, vs, b, ps, vs, b, result);
}

} // verus!
