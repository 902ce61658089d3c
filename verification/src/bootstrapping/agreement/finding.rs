//! The lookup program finds the first branch that fits a constructor and a
//! list of arguments.

use crate::bootstrapping::agreement::calls::lemma_call3;
use crate::bootstrapping::agreement::data::{
    data, datum, lemma_con_datum, lemma_list_datum, lemma_numeral_datum, lemma_render_arms_datum,
    lemma_render_datum, lemma_render_names_data,
};
use crate::bootstrapping::agreement::lists::{lemma_same_length, lemma_same_length_inert};
use crate::bootstrapping::agreement::numbers::{lemma_same_number, lemma_same_number_inert};
use crate::bootstrapping::agreement::rewrite::{
    inert, lemma_bind0, lemma_bind2, lemma_bind3, lemma_subst_app2, lemma_subst_app3,
    lemma_subst_arm0, lemma_subst_arm2, lemma_subst_arm3, lemma_subst_cases1,
    lemma_subst_cases2, lemma_subst_con0, lemma_subst_con2, lemma_subst_var, lemma_takes,
};
use crate::bootstrapping::agreement::words::lemma_codes;
use crate::bootstrapping::encoding::{
    knows_arm, knows_arms, list, numeral, render, render_arm, render_arms, render_names,
    Numbering,
};
use crate::bootstrapping::programs::{
    app2, app3, arm, cases, con, lookup, lookup_body, lookup_branch, lookup_cons, same_length,
    same_number, v,
};
use crate::bootstrapping::steps::{lemma_steps_case, steps};
use crate::semantic::substitute::subst;
use crate::semantic::{arm_matches, bind, first_match, lemma_first_match};
use crate::syntax::{Arm, Term};
use vstd::prelude::*;

verus! {

/// Substitution in what the lookup does with a branch.
pub proof fn lemma_lookup_branch_subst(
    recur: Term,
    c: Term,
    vs: Term,
    rest: Term,
    k: Term,
    ps: Term,
    b: Term,
    z: Seq<char>,
    r: Term,
)
    ensures
        subst(lookup_branch(recur, c, vs, rest, k, ps, b), z, r) == lookup_branch(
            subst(recur, z, r),
            subst(c, z, r),
            subst(vs, z, r),
            subst(rest, z, r),
            subst(k, z, r),
            subst(ps, z, r),
            subst(b, z, r),
        ),
{
    lemma_same_number_inert();
    lemma_same_length_inert();
    let next = app3(recur, c, vs, rest);
    let found = con("Found"@, seq![ps, b]);
    let i1 = arm("True"@, seq![], found);
    let i2 = arm("False"@, seq![], next);
    let inner = cases(app2(same_length(), ps, vs), seq![i1, i2]);
    let o1 = arm("False"@, seq![], next);
    let o2 = arm("True"@, seq![], inner);
    lemma_subst_app3(recur, c, vs, rest, z, r);
    lemma_subst_con2("Found"@, ps, b, z, r);
    lemma_subst_app2(same_length(), ps, vs, z, r);
    lemma_subst_app2(same_number(), c, k, z, r);
    lemma_subst_arm0("True"@, found, z, r);
    lemma_subst_arm0("False"@, next, z, r);
    lemma_subst_cases2(app2(same_length(), ps, vs), i1, i2, z, r);
    lemma_subst_arm0("True"@, inner, z, r);
    lemma_subst_cases2(app2(same_number(), c, k), o1, o2, z, r);
}

/// Substitution in what the lookup does with a list that is not empty,
/// for a variable that the case on its first branch does not bind.
pub proof fn lemma_lookup_cons_subst(
    recur: Term,
    c: Term,
    vs: Term,
    br: Term,
    rest: Term,
    z: Seq<char>,
    r: Term,
)
    requires
        z != "k"@,
        z != "ps"@,
        z != "b"@,
    ensures
        subst(lookup_cons(recur, c, vs, br, rest), z, r) == lookup_cons(
            subst(recur, z, r),
            subst(c, z, r),
            subst(vs, z, r),
            subst(br, z, r),
            subst(rest, z, r),
        ),
{
    let piece = lookup_branch(recur, c, vs, rest, v("k"@), v("ps"@), v("b"@));
    lemma_lookup_branch_subst(recur, c, vs, rest, v("k"@), v("ps"@), v("b"@), z, r);
    lemma_subst_var("k"@, z, r);
    lemma_subst_var("ps"@, z, r);
    lemma_subst_var("b"@, z, r);
    lemma_subst_arm3("Branch"@, "k"@, "ps"@, "b"@, piece, z, r);
    lemma_subst_cases1(br, arm("Branch"@, seq!["k"@, "ps"@, "b"@], piece), z, r);
}

/// Substitution in the body of the lookup, for a variable that it does not
/// bind.
pub proof fn lemma_lookup_body_subst(
    recur: Term,
    c: Term,
    vs: Term,
    bs: Term,
    z: Seq<char>,
    r: Term,
)
    requires
        z != "br"@,
        z != "rest"@,
        z != "k"@,
        z != "ps"@,
        z != "b"@,
    ensures
        subst(lookup_body(recur, c, vs, bs), z, r) == lookup_body(
            subst(recur, z, r),
            subst(c, z, r),
            subst(vs, z, r),
            subst(bs, z, r),
        ),
{
    let piece = lookup_cons(recur, c, vs, v("br"@), v("rest"@));
    lemma_lookup_cons_subst(recur, c, vs, v("br"@), v("rest"@), z, r);
    lemma_subst_var("br"@, z, r);
    lemma_subst_var("rest"@, z, r);
    lemma_subst_con0("Missing"@, z, r);
    lemma_subst_arm0("Nil"@, con("Missing"@, seq![]), z, r);
    lemma_subst_arm2("Cons"@, "br"@, "rest"@, piece, z, r);
    lemma_subst_cases2(
        bs,
        arm("Nil"@, seq![], con("Missing"@, seq![])),
        arm("Cons"@, seq!["br"@, "rest"@], piece),
        z,
        r,
    );
}

/// Substitution leaves the body of the lookup as it is, where it leaves
/// what stands in its four places as it is.
pub proof fn lemma_lookup_body_stable(
    recur: Term,
    c: Term,
    vs: Term,
    bs: Term,
    z: Seq<char>,
    r: Term,
)
    requires
        subst(recur, z, r) == recur,
        subst(c, z, r) == c,
        subst(vs, z, r) == vs,
        subst(bs, z, r) == bs,
    ensures
        subst(lookup_body(recur, c, vs, bs), z, r) == lookup_body(recur, c, vs, bs),
{
    lemma_codes();
    let inner = lookup_branch(recur, c, vs, v("rest"@), v("k"@), v("ps"@), v("b"@));
    let only = arm("Branch"@, seq!["k"@, "ps"@, "b"@], inner);
    let piece = lookup_cons(recur, c, vs, v("br"@), v("rest"@));
    lemma_subst_var("br"@, z, r);
    lemma_subst_var("rest"@, z, r);
    lemma_subst_var("k"@, z, r);
    lemma_subst_var("ps"@, z, r);
    lemma_subst_var("b"@, z, r);
    lemma_lookup_branch_subst(recur, c, vs, v("rest"@), v("k"@), v("ps"@), v("b"@), z, r);
    lemma_subst_arm3("Branch"@, "k"@, "ps"@, "b"@, inner, z, r);
    lemma_subst_cases1(v("br"@), only, z, r);
    lemma_subst_con0("Missing"@, z, r);
    lemma_subst_arm0("Nil"@, con("Missing"@, seq![]), z, r);
    lemma_subst_arm2("Cons"@, "br"@, "rest"@, piece, z, r);
    lemma_subst_cases2(
        bs,
        arm("Nil"@, seq![], con("Missing"@, seq![])),
        arm("Cons"@, seq!["br"@, "rest"@], piece),
        z,
        r,
    );
}

/// Substitution leaves the lookup program as it is.
pub proof fn lemma_lookup_inert()
    ensures
        inert(lookup()),
{
    assert forall|z: Seq<char>, r: Term| #[trigger] subst(lookup(), z, r) == lookup() by {
        lemma_codes();
        lemma_subst_var("lookup"@, z, r);
        lemma_subst_var("c"@, z, r);
        lemma_subst_var("vs"@, z, r);
        lemma_subst_var("bs"@, z, r);
        if z != "lookup"@ && z != "c"@ && z != "vs"@ && z != "bs"@ {
            lemma_lookup_body_stable(v("lookup"@), v("c"@), v("vs"@), v("bs"@), z, r);
        }
        reveal_with_fuel(subst, 4);
    }
}

/// What the lookup gives: `Found` with the encoded parameters and body of
/// the first branch that fits, or `Missing()`.
pub open spec fn found(
    arms: Seq<Arm>,
    constructor: Seq<char>,
    arity: nat,
    numbering: Numbering,
) -> Term {
    match first_match(arms, constructor, arity) {
        Some(i) => con(
            "Found"@,
            seq![
                list(render_names(arms[i].parameters, numbering)),
                render(*arms[i].expression, numbering),
            ],
        ),
        None => con("Missing"@, seq![]),
    }
}

/// The first branch that fits is the first of the list where that fits,
/// and otherwise the first that fits among the others.
pub proof fn lemma_first_match_rest(arms: Seq<Arm>, constructor: Seq<char>, arity: nat)
    requires
        arms.len() > 0,
    ensures
        first_match(arms, constructor, arity) == if arm_matches(arms[0], constructor, arity) {
            Some(0int)
        } else {
            match first_match(arms.drop_first(), constructor, arity) {
                Some(i) => Some(i + 1),
                None => None,
            }
        },
{
    let rest = arms.drop_first();
    lemma_first_match(arms, constructor, arity, 0);
    lemma_first_match(rest, constructor, arity, 0);
    if !arm_matches(arms[0], constructor, arity) {
        match first_match(rest, constructor, arity) {
            Some(i) => {
                assert(arms[i + 1] == rest[i]);
                assert forall|j: int| 0 <= j < i + 1 implies !arm_matches(
                    #[trigger] arms[j],
                    constructor,
                    arity,
                ) by {
                    if j > 0 {
                        assert(arms[j] == rest[j - 1]);
                    }
                }
                lemma_takes(arms, constructor, arity, i + 1);
            },
            None => {
                assert forall|j: int| 0 <= j < arms.len() implies !arm_matches(
                    #[trigger] arms[j],
                    constructor,
                    arity,
                ) by {
                    if j > 0 {
                        assert(arms[j] == rest[j - 1]);
                    }
                }
                crate::bootstrapping::agreement::rewrite::lemma_takes_none(
                    arms,
                    constructor,
                    arity,
                );
            },
        }
    }
}

/// What the lookup does with a branch steps to `Found` where the numbers of
/// the constructors are the same and the lists are equally long, and
/// otherwise to what the lookup in the rest of the list gives.
pub proof fn lemma_lookup_branch_steps(
    recur: Term,
    wanted: nat,
    values: Seq<Term>,
    rest: Term,
    found: nat,
    parameters: Seq<Term>,
    b: Term,
    next: Term,
)
    requires
        data(values),
        data(parameters),
        datum(b),
        !(wanted == found && parameters.len() == values.len()) ==> steps(
            app3(recur, numeral(wanted), list(values), rest),
            next,
        ),
    ensures
        steps(
            lookup_branch(
                recur,
                numeral(wanted),
                list(values),
                rest,
                numeral(found),
                list(parameters),
                b,
            ),
            if wanted == found && parameters.len() == values.len() {
                con("Found"@, seq![list(parameters), b])
            } else {
                next
            },
        ),
{
    let c = numeral(wanted);
    let k = numeral(found);
    let vs = list(values);
    let ps = list(parameters);
    let call = app3(recur, c, vs, rest);
    let hit = con("Found"@, seq![ps, b]);
    let i1 = arm("True"@, seq![], hit);
    let i2 = arm("False"@, seq![], call);
    let inner = cases(app2(same_length(), ps, vs), seq![i1, i2]);
    let o1 = arm("False"@, seq![], call);
    let o2 = arm("True"@, seq![], inner);
    let result = if wanted == found && parameters.len() == values.len() {
        hit
    } else {
        next
    };
    lemma_list_datum(parameters);
    lemma_con_datum("Found"@, seq![ps, b]);
    lemma_same_number(wanted, found);
    if wanted == found {
        lemma_same_length(parameters, values);
        assert(steps(inner, result)) by {
            if parameters.len() == values.len() {
                lemma_takes(seq![i1, i2], "True"@, 0, 0);
                lemma_bind0(hit, seq![], seq![]);
                lemma_steps_case(
                    app2(same_length(), ps, vs),
                    seq![i1, i2],
                    "True"@,
                    seq![],
                    0,
                    result,
                );
            } else {
                assert(!arm_matches(i1, "False"@, 0)) by {
                    lemma_codes();
                }
                lemma_takes(seq![i1, i2], "False"@, 0, 1);
                lemma_bind0(call, seq![], seq![]);
                lemma_steps_case(
                    app2(same_length(), ps, vs),
                    seq![i1, i2],
                    "False"@,
                    seq![],
                    1,
                    result,
                );
            }
        }
        assert(!arm_matches(o1, "True"@, 0)) by {
            lemma_codes();
        }
        lemma_takes(seq![o1, o2], "True"@, 0, 1);
        lemma_bind0(inner, seq![], seq![]);
        lemma_steps_case(app2(same_number(), c, k), seq![o1, o2], "True"@, seq![], 1, result);
    } else {
        lemma_takes(seq![o1, o2], "False"@, 0, 0);
        lemma_bind0(call, seq![], seq![]);
        lemma_steps_case(app2(same_number(), c, k), seq![o1, o2], "False"@, seq![], 0, result);
    }
}

/// What the body of the lookup does with a list of encoded branches that
/// is not empty.
pub proof fn lemma_lookup_cons_steps(
    recur: Term,
    wanted: nat,
    values: Seq<Term>,
    found: nat,
    parameters: Seq<Term>,
    b: Term,
    rest: Term,
    next: Term,
)
    requires
        inert(recur),
        data(values),
        data(parameters),
        datum(b),
        datum(rest),
        !(wanted == found && parameters.len() == values.len()) ==> steps(
            app3(recur, numeral(wanted), list(values), rest),
            next,
        ),
    ensures
        steps(
            lookup_body(
                recur,
                numeral(wanted),
                list(values),
                con(
                    "Cons"@,
                    seq![con("Branch"@, seq![numeral(found), list(parameters), b]), rest],
                ),
            ),
            if wanted == found && parameters.len() == values.len() {
                con("Found"@, seq![list(parameters), b])
            } else {
                next
            },
        ),
{
    let c = numeral(wanted);
    let k = numeral(found);
    let vs = list(values);
    let ps = list(parameters);
    let br = con("Branch"@, seq![k, ps, b]);
    let bs = con("Cons"@, seq![br, rest]);
    let result = if wanted == found && parameters.len() == values.len() {
        con("Found"@, seq![ps, b])
    } else {
        next
    };
    lemma_numeral_datum(wanted);
    lemma_numeral_datum(found);
    lemma_list_datum(values);
    lemma_list_datum(parameters);
    lemma_con_datum("Branch"@, seq![k, ps, b]);
    lemma_con_datum("Cons"@, seq![br, rest]);
    lemma_lookup_branch_steps(recur, wanted, values, rest, found, parameters, b, next);
    // The case on the first branch binds its three fields.
    let inner = lookup_branch(recur, c, vs, rest, v("k"@), v("ps"@), v("b"@));
    let only = arm("Branch"@, seq!["k"@, "ps"@, "b"@], inner);
    assert(bind(inner, seq!["k"@, "ps"@, "b"@], seq![k, ps, b], 3) == lookup_branch(
        recur,
        c,
        vs,
        rest,
        k,
        ps,
        b,
    )) by {
        lemma_codes();
        lemma_bind3(inner, "k"@, "ps"@, "b"@, k, ps, b);
        lemma_lookup_branch_subst(recur, c, vs, rest, v("k"@), v("ps"@), v("b"@), "b"@, b);
        lemma_subst_var("k"@, "b"@, b);
        lemma_subst_var("ps"@, "b"@, b);
        lemma_subst_var("b"@, "b"@, b);
        lemma_lookup_branch_subst(recur, c, vs, rest, v("k"@), v("ps"@), b, "ps"@, ps);
        lemma_subst_var("k"@, "ps"@, ps);
        lemma_subst_var("ps"@, "ps"@, ps);
        lemma_lookup_branch_subst(recur, c, vs, rest, v("k"@), ps, b, "k"@, k);
        lemma_subst_var("k"@, "k"@, k);
    }
    lemma_takes(seq![only], "Branch"@, 3, 0);
    lemma_steps_case(br, seq![only], "Branch"@, seq![k, ps, b], 0, result);
    // The case on the list binds the first branch and the rest.
    let piece = lookup_cons(recur, c, vs, v("br"@), v("rest"@));
    let o1 = arm("Nil"@, seq![], con("Missing"@, seq![]));
    let o2 = arm("Cons"@, seq!["br"@, "rest"@], piece);
    assert(bind(piece, seq!["br"@, "rest"@], seq![br, rest], 2) == lookup_cons(
        recur,
        c,
        vs,
        br,
        rest,
    )) by {
        lemma_codes();
        lemma_bind2(piece, "br"@, "rest"@, br, rest);
        lemma_lookup_cons_subst(recur, c, vs, v("br"@), v("rest"@), "rest"@, rest);
        lemma_subst_var("br"@, "rest"@, rest);
        lemma_subst_var("rest"@, "rest"@, rest);
        lemma_lookup_cons_subst(recur, c, vs, v("br"@), rest, "br"@, br);
        lemma_subst_var("br"@, "br"@, br);
    }
    assert(!arm_matches(o1, "Cons"@, 2)) by {
        lemma_codes();
    }
    lemma_takes(seq![o1, o2], "Cons"@, 2, 1);
    lemma_steps_case(bs, seq![o1, o2], "Cons"@, seq![br, rest], 1, result);
}

/// The lookup program, applied to the numeral of a constructor, a list of
/// values and an encoded list of branches, gives `Found` with the encoded
/// parameters and body of the first branch that fits, or `Missing()`.
pub proof fn lemma_lookup(
    constructor: Seq<char>,
    values: Seq<Term>,
    arms: Seq<Arm>,
    numbering: Numbering,
)
    requires
        numbering.wf(),
        knows_arms(arms, numbering),
        numbering.constructors.ids.contains_key(constructor),
        data(values),
    ensures
        steps(
            app3(
                lookup(),
                numeral(numbering.constructors.ids[constructor]),
                list(values),
                render_arms(arms, numbering),
            ),
            found(arms, constructor, values.len(), numbering),
        ),
    decreases arms.len(),
{
    let wanted = numbering.constructors.ids[constructor];
    let c = numeral(wanted);
    let vs = list(values);
    let bs = render_arms(arms, numbering);
    let result = found(arms, constructor, values.len(), numbering);
    let body = lookup_body(v("lookup"@), v("c"@), v("vs"@), v("bs"@));
    lemma_numeral_datum(wanted);
    lemma_list_datum(values);
    lemma_render_arms_datum(arms, numbering);
    lemma_lookup_inert();
    assert(subst(subst(subst(subst(body, "lookup"@, lookup()), "c"@, c), "vs"@, vs), "bs"@, bs)
        == lookup_body(lookup(), c, vs, bs)) by {
        lemma_codes();
        lemma_subst_var("lookup"@, "lookup"@, lookup());
        lemma_subst_var("c"@, "lookup"@, lookup());
        lemma_subst_var("vs"@, "lookup"@, lookup());
        lemma_subst_var("bs"@, "lookup"@, lookup());
        lemma_lookup_body_subst(v("lookup"@), v("c"@), v("vs"@), v("bs"@), "lookup"@, lookup());
        lemma_subst_var("c"@, "c"@, c);
        lemma_subst_var("vs"@, "c"@, c);
        lemma_subst_var("bs"@, "c"@, c);
        lemma_lookup_body_subst(lookup(), v("c"@), v("vs"@), v("bs"@), "c"@, c);
        lemma_subst_var("vs"@, "vs"@, vs);
        lemma_subst_var("bs"@, "vs"@, vs);
        lemma_lookup_body_subst(lookup(), c, v("vs"@), v("bs"@), "vs"@, vs);
        lemma_subst_var("bs"@, "bs"@, bs);
        lemma_lookup_body_subst(lookup(), c, vs, v("bs"@), "bs"@, bs);
    }
    assert(steps(lookup_body(lookup(), c, vs, bs), result)) by {
        if arms.len() == 0 {
            let o1 = arm("Nil"@, seq![], con("Missing"@, seq![]));
            let o2 = arm(
                "Cons"@,
                seq!["br"@, "rest"@],
                lookup_cons(lookup(), c, vs, v("br"@), v("rest"@)),
            );
            lemma_con_datum("Missing"@, seq![]);
            lemma_takes(seq![o1, o2], "Nil"@, 0, 0);
            lemma_bind0(con("Missing"@, seq![]), seq![], seq![]);
            lemma_steps_case(bs, seq![o1, o2], "Nil"@, seq![], 0, result);
        } else {
            let first = arms.first();
            let others = arms.drop_first();
            let parameters = render_names(first.parameters, numbering);
            let b = render(*first.expression, numbering);
            let rest = render_arms(others, numbering);
            let next = found(others, constructor, values.len(), numbering);
            assert(knows_arm(arms[0], numbering));
            assert forall|i: int| 0 <= i < others.len() implies knows_arm(
                #[trigger] others[i],
                numbering,
            ) by {
                assert(others[i] == arms[i + 1]);
            }
            lemma_first_match_rest(arms, constructor, values.len());
            lemma_render_names_data(first.parameters, numbering);
            lemma_render_datum(*first.expression, numbering);
            lemma_render_arms_datum(others, numbering);
            lemma_lookup(constructor, values, others, numbering);
            lemma_lookup_cons_steps(
                lookup(),
                wanted,
                values,
                numbering.constructors.ids[first.constructor],
                parameters,
                b,
                rest,
                next,
            );
            let number = numbering.constructors.ids[first.constructor];
            assert(numbering.constructors.ids.contains_key(first.constructor));
            assert((wanted == number) == (constructor == first.constructor));
            assert(parameters.len() == first.parameters.len());
            assert(arm_matches(first, constructor, values.len()) == (wanted == number
                && parameters.len() == values.len()));
            assert(render_arm(first, numbering) == con(
                "Branch"@,
                seq![numeral(number), list(parameters), b],
            ));
            assert(bs == con("Cons"@, seq![render_arm(first, numbering), rest]));
            lemma_first_match(others, constructor, values.len(), 0);
            match first_match(others, constructor, values.len()) {
                Some(i) => {
                    assert(others[i] == arms[i + 1]);
                },
                None => {},
            }
        }
    }
    assert("lookup"@ != "c"@ && "lookup"@ != "vs"@ && "lookup"@ != "bs"@ && "c"@ != "vs"@
        && "c"@ != "bs"@ && "vs"@ != "bs"@) by {
        lemma_codes();
    }
    lemma_call3("lookup"@, "c"@, "vs"@, "bs"@, body, c, vs, bs, c, vs, bs, result);
}

} // verus!
