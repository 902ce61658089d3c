//! The programs on lists: one looks for a numeral in a list of numerals, one
//! compares the lengths of two lists, and one maps a function over a list.

use crate::bootstrapping::agreement::calls::lemma_call2;
use crate::bootstrapping::agreement::data::{
    data, datum, lemma_con_datum, lemma_list_datum, lemma_numeral_datum,
};
use crate::bootstrapping::agreement::numbers::{
    lemma_same_number, lemma_same_number_inert, lemma_truth_datum,
};
use crate::bootstrapping::agreement::rewrite::{
    inert, lemma_bind0, lemma_bind2, lemma_subst_app, lemma_subst_app2, lemma_subst_arm0,
    lemma_subst_arm2, lemma_subst_cases2, lemma_subst_con0, lemma_subst_con2, lemma_subst_var,
    lemma_takes,
};
use crate::bootstrapping::agreement::words::lemma_codes;
use crate::bootstrapping::encoding::{list, numeral};
use crate::bootstrapping::programs::{
    app, app2, arm, cases, con, map_body, map_list, member, member_body, same_length,
    same_length_body, same_number, truth, v,
};
use crate::bootstrapping::steps::{lemma_steps_case, lemma_steps_con, steps};
use crate::semantic::substitute::subst;
use crate::semantic::{arm_matches, bind};
use crate::syntax::Term;
use vstd::prelude::*;

verus! {

/// The numerals of a list of numbers.
pub open spec fn numerals(numbers: Seq<nat>) -> Seq<Term> {
    Seq::new(numbers.len(), |i: int| numeral(numbers[i]))
}

/// The numerals of numbers are finished data.
pub proof fn lemma_numerals_data(numbers: Seq<nat>)
    ensures
        data(numerals(numbers)),
        datum(list(numerals(numbers))),
{
    assert forall|i: int| 0 <= i < numbers.len() implies datum(#[trigger] numerals(numbers)[i]) by {
        lemma_numeral_datum(numbers[i]);
    }
    lemma_list_datum(numerals(numbers));
}

/// A list that is not empty is `Cons` of its first item and the list of
/// the others.
pub proof fn lemma_list_cons(items: Seq<Term>)
    requires
        items.len() > 0,
    ensures
        list(items) == con("Cons"@, seq![items.first(), list(items.drop_first())]),
{
}

/// Substitution in the body of the program that looks for a numeral.
pub proof fn lemma_member_body_subst(
    recur: Term,
    wanted: Term,
    items: Term,
    x: Seq<char>,
    r: Term,
)
    ensures
        subst(member_body(recur, wanted, items), x, r) == member_body(
            if x == "m"@ || x == "ms"@ {
                recur
            } else {
                subst(recur, x, r)
            },
            if x == "m"@ || x == "ms"@ {
                wanted
            } else {
                subst(wanted, x, r)
            },
            subst(items, x, r),
        ),
{
    lemma_codes();
    lemma_same_number_inert();
    let test = app2(same_number(), wanted, v("m"@));
    let call = app2(recur, wanted, v("ms"@));
    let t1 = arm("True"@, seq![], truth(true));
    let t2 = arm("False"@, seq![], call);
    let inner = cases(test, seq![t1, t2]);
    let o1 = arm("Nil"@, seq![], truth(false));
    let o2 = arm("Cons"@, seq!["m"@, "ms"@], inner);
    lemma_subst_con0("True"@, x, r);
    lemma_subst_con0("False"@, x, r);
    lemma_subst_app2(same_number(), wanted, v("m"@), x, r);
    lemma_subst_app2(recur, wanted, v("ms"@), x, r);
    lemma_subst_arm0("True"@, truth(true), x, r);
    lemma_subst_arm0("False"@, call, x, r);
    lemma_subst_cases2(test, t1, t2, x, r);
    lemma_subst_arm0("Nil"@, truth(false), x, r);
    lemma_subst_arm2("Cons"@, "m"@, "ms"@, inner, x, r);
    lemma_subst_cases2(items, o1, o2, x, r);
}

/// Substitution leaves the program that looks for a numeral as it is.
pub proof fn lemma_member_inert()
    ensures
        inert(member()),
{
    assert forall|x: Seq<char>, r: Term| #[trigger] subst(member(), x, r) == member() by {
        lemma_codes();
        reveal_with_fuel(subst, 3);
        lemma_member_body_subst(v("member"@), v("n"@), v("ns"@), x, r);
    }
}

/// What the body of the program that looks for a numeral steps to, where
/// the call on the rest of the list gives what it should.
proof fn lemma_member_step(program: Term, wanted: nat, numbers: Seq<nat>)
    requires
        inert(program),
        numbers.len() > 0 && numbers[0] != wanted ==> steps(
            app2(program, numeral(wanted), list(numerals(numbers.drop_first()))),
            truth(numbers.drop_first().contains(wanted)),
        ),
    ensures
        steps(
            member_body(program, numeral(wanted), list(numerals(numbers))),
            truth(numbers.contains(wanted)),
        ),
{
    let a = numeral(wanted);
    let items = list(numerals(numbers));
    let test = app2(same_number(), a, v("m"@));
    let call = app2(program, a, v("ms"@));
    let t1 = arm("True"@, seq![], truth(true));
    let t2 = arm("False"@, seq![], call);
    let inner = cases(test, seq![t1, t2]);
    let o1 = arm("Nil"@, seq![], truth(false));
    let o2 = arm("Cons"@, seq!["m"@, "ms"@], inner);
    lemma_numeral_datum(wanted);
    lemma_numerals_data(numbers);
    lemma_truth_datum(true);
    lemma_truth_datum(false);
    if numbers.len() == 0 {
        assert(!numbers.contains(wanted));
        lemma_takes(seq![o1, o2], "Nil"@, 0, 0);
        lemma_bind0(truth(false), seq![], seq![]);
        lemma_steps_case(items, seq![o1, o2], "Nil"@, seq![], 0, truth(false));
    } else {
        let head = numeral(numbers[0]);
        let rest = numbers.drop_first();
        let tail = list(numerals(rest));
        let result = truth(numbers.contains(wanted));
        assert(numerals(numbers).first() == head);
        assert(numerals(numbers).drop_first() =~= numerals(rest));
        lemma_list_cons(numerals(numbers));
        lemma_numeral_datum(numbers[0]);
        lemma_numerals_data(rest);
        lemma_same_number_inert();
        // The branch for `Cons` is taken, and its parameters are bound.
        let call_rest = app2(program, a, tail);
        let c2 = arm("False"@, seq![], call_rest);
        let bound = cases(app2(same_number(), a, head), seq![t1, c2]);
        assert(bind(inner, seq!["m"@, "ms"@], seq![head, tail], 2) == bound) by {
            lemma_codes();
            lemma_bind2(inner, "m"@, "ms"@, head, tail);
            let middle = cases(test, seq![t1, c2]);
            assert(subst(inner, "ms"@, tail) == middle) by {
                lemma_subst_app2(same_number(), a, v("m"@), "ms"@, tail);
                lemma_subst_app2(program, a, v("ms"@), "ms"@, tail);
                lemma_subst_arm0("True"@, truth(true), "ms"@, tail);
                lemma_subst_arm0("False"@, call, "ms"@, tail);
                lemma_subst_cases2(test, t1, t2, "ms"@, tail);
            }
            assert(subst(middle, "m"@, head) == bound) by {
                lemma_subst_app2(same_number(), a, v("m"@), "m"@, head);
                lemma_subst_app2(program, a, tail, "m"@, head);
                lemma_subst_arm0("True"@, truth(true), "m"@, head);
                lemma_subst_arm0("False"@, call_rest, "m"@, head);
                lemma_subst_cases2(test, t1, c2, "m"@, head);
            }
        }
        // The test tells whether the first number is the wanted one.
        lemma_same_number(wanted, numbers[0]);
        assert(steps(bound, result)) by {
            lemma_codes();
            if wanted == numbers[0] {
                assert(numbers.contains(wanted));
                lemma_takes(seq![t1, c2], "True"@, 0, 0);
                lemma_bind0(truth(true), seq![], seq![]);
                lemma_steps_case(
                    app2(same_number(), a, head),
                    seq![t1, c2],
                    "True"@,
                    seq![],
                    0,
                    result,
                );
            } else {
                assert(numbers.contains(wanted) == rest.contains(wanted)) by {
                    if rest.contains(wanted) {
                        let i = choose|i: int| 0 <= i < rest.len() && rest[i] == wanted;
                        assert(numbers[i + 1] == wanted);
                    }
                    if numbers.contains(wanted) {
                        let i = choose|i: int| 0 <= i < numbers.len() && numbers[i] == wanted;
                        assert(rest[i - 1] == wanted);
                    }
                }
                assert(!arm_matches(t1, "False"@, 0));
                lemma_takes(seq![t1, c2], "False"@, 0, 1);
                lemma_bind0(call_rest, seq![], seq![]);
                lemma_steps_case(
                    app2(same_number(), a, head),
                    seq![t1, c2],
                    "False"@,
                    seq![],
                    1,
                    result,
                );
            }
        }
        assert(!arm_matches(o1, "Cons"@, 2)) by {
            lemma_codes();
        }
        lemma_takes(seq![o1, o2], "Cons"@, 2, 1);
        lemma_steps_case(items, seq![o1, o2], "Cons"@, seq![head, tail], 1, result);
    }
}

/// The program that looks for a numeral, applied to the numeral of a number
/// and the list of the numerals of some numbers, gives `True()` where the
/// number is among them and `False()` where it is not.
pub proof fn lemma_member(wanted: nat, numbers: Seq<nat>)
    ensures
        steps(
            app2(member(), numeral(wanted), list(numerals(numbers))),
            truth(numbers.contains(wanted)),
        ),
    decreases numbers.len(),
{
    let a = numeral(wanted);
    let items = list(numerals(numbers));
    let body = member_body(v("member"@), v("n"@), v("ns"@));
    lemma_numeral_datum(wanted);
    lemma_numerals_data(numbers);
    lemma_member_inert();
    if numbers.len() > 0 {
        lemma_member(wanted, numbers.drop_first());
    }
    lemma_member_step(member(), wanted, numbers);
    assert(subst(subst(subst(body, "member"@, member()), "n"@, a), "ns"@, items) == member_body(
        member(),
        a,
        items,
    )) by {
        lemma_codes();
        lemma_member_body_subst(v("member"@), v("n"@), v("ns"@), "member"@, member());
        lemma_member_body_subst(member(), v("n"@), v("ns"@), "n"@, a);
        lemma_member_body_subst(member(), a, v("ns"@), "ns"@, items);
    }
    assert("member"@ != "n"@ && "member"@ != "ns"@ && "n"@ != "ns"@) by {
        lemma_codes();
    }
    lemma_call2(
        "member"@,
        "n"@,
        "ns"@,
        body,
        a,
        items,
        a,
        items,
        truth(numbers.contains(wanted)),
    );
}

/// Substitution in the body of the program that compares lengths.
pub proof fn lemma_same_length_body_subst(
    recur: Term,
    first: Term,
    second: Term,
    third: Term,
    x: Seq<char>,
    r: Term,
)
    ensures
        subst(same_length_body(recur, first, second, third), x, r) == same_length_body(
            if x == "x"@ || x == "xt"@ || x == "y"@ || x == "yt"@ {
                recur
            } else {
                subst(recur, x, r)
            },
            subst(first, x, r),
            subst(second, x, r),
            if x == "x"@ || x == "xt"@ {
                third
            } else {
                subst(third, x, r)
            },
        ),
{
    lemma_codes();
    let t = truth(true);
    let f = truth(false);
    let call = app2(recur, v("xt"@), v("yt"@));
    let a1 = arm("Nil"@, seq![], t);
    let a2 = arm("Cons"@, seq!["y"@, "yt"@], f);
    let b1 = arm("Nil"@, seq![], f);
    let b2 = arm("Cons"@, seq!["y"@, "yt"@], call);
    let inner1 = cases(second, seq![a1, a2]);
    let inner2 = cases(third, seq![b1, b2]);
    let o1 = arm("Nil"@, seq![], inner1);
    let o2 = arm("Cons"@, seq!["x"@, "xt"@], inner2);
    lemma_subst_con0("True"@, x, r);
    lemma_subst_con0("False"@, x, r);
    lemma_subst_app2(recur, v("xt"@), v("yt"@), x, r);
    lemma_subst_arm0("Nil"@, t, x, r);
    lemma_subst_arm0("Nil"@, f, x, r);
    lemma_subst_arm2("Cons"@, "y"@, "yt"@, f, x, r);
    lemma_subst_arm2("Cons"@, "y"@, "yt"@, call, x, r);
    lemma_subst_cases2(second, a1, a2, x, r);
    lemma_subst_cases2(third, b1, b2, x, r);
    lemma_subst_arm0("Nil"@, inner1, x, r);
    lemma_subst_arm2("Cons"@, "x"@, "xt"@, inner2, x, r);
    lemma_subst_cases2(first, o1, o2, x, r);
}

/// Substitution leaves the program that compares lengths as it is.
pub proof fn lemma_same_length_inert()
    ensures
        inert(same_length()),
{
    assert forall|x: Seq<char>, r: Term| #[trigger] subst(same_length(), x, r)
        == same_length() by {
        lemma_codes();
        reveal_with_fuel(subst, 3);
        lemma_same_length_body_subst(v("same"@), v("xs"@), v("ys"@), v("ys"@), x, r);
    }
}

/// What the case on the second list steps to, where the first list is
/// empty.
proof fn lemma_same_length_nil(second: Seq<Term>)
    requires
        data(second),
    ensures
        steps(
            cases(
                list(second),
                seq![
                    arm("Nil"@, seq![], truth(true)),
                    arm("Cons"@, seq!["y"@, "yt"@], truth(false)),
                ],
            ),
            truth(second.len() == 0),
        ),
{
    let a1 = arm("Nil"@, seq![], truth(true));
    let a2 = arm("Cons"@, seq!["y"@, "yt"@], truth(false));
    lemma_list_datum(second);
    lemma_truth_datum(true);
    lemma_truth_datum(false);
    if second.len() == 0 {
        lemma_takes(seq![a1, a2], "Nil"@, 0, 0);
        lemma_bind0(truth(true), seq![], seq![]);
        lemma_steps_case(list(second), seq![a1, a2], "Nil"@, seq![], 0, truth(true));
    } else {
        let fields = seq![second.first(), list(second.drop_first())];
        lemma_list_cons(second);
        assert(!arm_matches(a1, "Cons"@, 2)) by {
            lemma_codes();
        }
        lemma_takes(seq![a1, a2], "Cons"@, 2, 1);
        assert(bind(truth(false), seq!["y"@, "yt"@], fields, 2) == truth(false)) by {
            lemma_bind2(truth(false), "y"@, "yt"@, fields[0], fields[1]);
            assert(fields =~= seq![fields[0], fields[1]]);
        }
        lemma_steps_case(list(second), seq![a1, a2], "Cons"@, fields, 1, truth(false));
    }
}

/// What the case on the second list steps to, where the first list is not
/// empty and the call on the rests of the two lists gives what it should.
proof fn lemma_same_length_cons(program: Term, rest: Term, second: Seq<Term>, result: Term)
    requires
        inert(program),
        datum(rest),
        data(second),
        second.len() == 0 ==> result == truth(false),
        second.len() > 0 ==> steps(app2(program, rest, list(second.drop_first())), result),
    ensures
        steps(
            subst(
                cases(
                    list(second),
                    seq![
                        arm("Nil"@, seq![], truth(false)),
                        arm(
                            "Cons"@,
                            seq!["y"@, "yt"@],
                            app2(program, v("xt"@), v("yt"@)),
                        ),
                    ],
                ),
                "xt"@,
                rest,
            ),
            result,
        ),
{
    let f = truth(false);
    let call = app2(program, v("xt"@), v("yt"@));
    let call_rest = app2(program, rest, v("yt"@));
    let b1 = arm("Nil"@, seq![], f);
    let b2 = arm("Cons"@, seq!["y"@, "yt"@], call);
    let c2 = arm("Cons"@, seq!["y"@, "yt"@], call_rest);
    let items = list(second);
    lemma_list_datum(second);
    lemma_truth_datum(false);
    assert(subst(cases(items, seq![b1, b2]), "xt"@, rest) == cases(items, seq![b1, c2])) by {
        lemma_codes();
        lemma_subst_app2(program, v("xt"@), v("yt"@), "xt"@, rest);
        lemma_subst_arm0("Nil"@, f, "xt"@, rest);
        lemma_subst_arm2("Cons"@, "y"@, "yt"@, call, "xt"@, rest);
        lemma_subst_cases2(items, b1, b2, "xt"@, rest);
    }
    if second.len() == 0 {
        lemma_takes(seq![b1, c2], "Nil"@, 0, 0);
        lemma_bind0(f, seq![], seq![]);
        lemma_steps_case(items, seq![b1, c2], "Nil"@, seq![], 0, f);
    } else {
        let head = second.first();
        let tail = list(second.drop_first());
        lemma_list_cons(second);
        assert(datum(second[0]));
        assert forall|i: int| 0 <= i < second.drop_first().len() implies datum(
            #[trigger] second.drop_first()[i],
        ) by {
            assert(second.drop_first()[i] == second[i + 1]);
        }
        lemma_list_datum(second.drop_first());
        assert(!arm_matches(b1, "Cons"@, 2)) by {
            lemma_codes();
        }
        lemma_takes(seq![b1, c2], "Cons"@, 2, 1);
        assert(bind(call_rest, seq!["y"@, "yt"@], seq![head, tail], 2) == app2(
            program,
            rest,
            tail,
        )) by {
            lemma_codes();
            lemma_bind2(call_rest, "y"@, "yt"@, head, tail);
            lemma_subst_app2(program, rest, v("yt"@), "yt"@, tail);
            lemma_subst_app2(program, rest, tail, "y"@, head);
        }
        lemma_steps_case(items, seq![b1, c2], "Cons"@, seq![head, tail], 1, result);
    }
}

/// The program that compares lengths, applied to two lists of finished
/// data, gives `True()` where the lists are equally long and `False()`
/// where they are not.
pub proof fn lemma_same_length(first: Seq<Term>, second: Seq<Term>)
    requires
        data(first),
        data(second),
    ensures
        steps(
            app2(same_length(), list(first), list(second)),
            truth(first.len() == second.len()),
        ),
    decreases first.len(),
{
    let program = same_length();
    let a = list(first);
    let b = list(second);
    let result = truth(first.len() == second.len());
    let body = same_length_body(v("same"@), v("xs"@), v("ys"@), v("ys"@));
    lemma_list_datum(first);
    lemma_list_datum(second);
    lemma_same_length_inert();
    assert(subst(subst(subst(body, "same"@, program), "xs"@, a), "ys"@, b) == same_length_body(
        program,
        a,
        b,
        b,
    )) by {
        lemma_codes();
        lemma_same_length_body_subst(v("same"@), v("xs"@), v("ys"@), v("ys"@), "same"@, program);
        lemma_same_length_body_subst(program, v("xs"@), v("ys"@), v("ys"@), "xs"@, a);
        lemma_same_length_body_subst(program, a, v("ys"@), v("ys"@), "ys"@, b);
    }
    assert(steps(same_length_body(program, a, b, b), result)) by {
        let inner1 = cases(
            b,
            seq![
                arm("Nil"@, seq![], truth(true)),
                arm("Cons"@, seq!["y"@, "yt"@], truth(false)),
            ],
        );
        let inner2 = cases(
            b,
            seq![
                arm("Nil"@, seq![], truth(false)),
                arm("Cons"@, seq!["y"@, "yt"@], app2(program, v("xt"@), v("yt"@))),
            ],
        );
        let o1 = arm("Nil"@, seq![], inner1);
        let o2 = arm("Cons"@, seq!["x"@, "xt"@], inner2);
        if first.len() == 0 {
            lemma_same_length_nil(second);
            lemma_takes(seq![o1, o2], "Nil"@, 0, 0);
            lemma_bind0(inner1, seq![], seq![]);
            lemma_steps_case(a, seq![o1, o2], "Nil"@, seq![], 0, result);
        } else {
            let head = first.first();
            let rest = first.drop_first();
            let tail = list(rest);
            lemma_list_cons(first);
            assert(datum(first[0]));
            assert forall|i: int| 0 <= i < rest.len() implies datum(#[trigger] rest[i]) by {
                assert(rest[i] == first[i + 1]);
            }
            lemma_list_datum(rest);
            if second.len() > 0 {
                assert forall|i: int| 0 <= i < second.drop_first().len() implies datum(
                    #[trigger] second.drop_first()[i],
                ) by {
                    assert(second.drop_first()[i] == second[i + 1]);
                }
                lemma_same_length(rest, second.drop_first());
            }
            lemma_same_length_cons(program, tail, second, result);
            // The parameter `x` does not occur in the inner case.
            let bound = subst(inner2, "xt"@, tail);
            assert(bind(inner2, seq!["x"@, "xt"@], seq![head, tail], 2) == bound) by {
                lemma_codes();
                lemma_bind2(inner2, "x"@, "xt"@, head, tail);
                let call = app2(program, tail, v("yt"@));
                let b1 = arm("Nil"@, seq![], truth(false));
                let b2 = arm("Cons"@, seq!["y"@, "yt"@], app2(program, v("xt"@), v("yt"@)));
                let c2 = arm("Cons"@, seq!["y"@, "yt"@], call);
                lemma_truth_datum(false);
                lemma_subst_app2(program, v("xt"@), v("yt"@), "xt"@, tail);
                lemma_subst_arm0("Nil"@, truth(false), "xt"@, tail);
                lemma_subst_arm2("Cons"@, "y"@, "yt"@, app2(program, v("xt"@), v("yt"@)), "xt"@, tail);
                lemma_subst_cases2(b, b1, b2, "xt"@, tail);
                lemma_subst_app2(program, tail, v("yt"@), "x"@, head);
                lemma_subst_arm0("Nil"@, truth(false), "x"@, head);
                lemma_subst_arm2("Cons"@, "y"@, "yt"@, call, "x"@, head);
                lemma_subst_cases2(b, b1, c2, "x"@, head);
            }
            assert(!arm_matches(o1, "Cons"@, 2)) by {
                lemma_codes();
            }
            lemma_takes(seq![o1, o2], "Cons"@, 2, 1);
            lemma_steps_case(a, seq![o1, o2], "Cons"@, seq![head, tail], 1, result);
        }
    }
    assert("same"@ != "xs"@ && "same"@ != "ys"@ && "xs"@ != "ys"@) by {
        lemma_codes();
    }
    lemma_call2("same"@, "xs"@, "ys"@, body, a, b, a, b, result);
}

/// Substitution in the body of the program that maps.
pub proof fn lemma_map_body_subst(recur: Term, function: Term, items: Term, x: Seq<char>, r: Term)
    ensures
        subst(map_body(recur, function, items), x, r) == map_body(
            if x == "y"@ || x == "ys"@ {
                recur
            } else {
                subst(recur, x, r)
            },
            if x == "y"@ || x == "ys"@ {
                function
            } else {
                subst(function, x, r)
            },
            subst(items, x, r),
        ),
{
    lemma_codes();
    let one = app(function, v("y"@));
    let call = app2(recur, function, v("ys"@));
    let o1 = arm("Nil"@, seq![], con("Nil"@, seq![]));
    let o2 = arm("Cons"@, seq!["y"@, "ys"@], con("Cons"@, seq![one, call]));
    lemma_subst_con0("Nil"@, x, r);
    lemma_subst_var("y"@, x, r);
    lemma_subst_app(function, v("y"@), x, r);
    lemma_subst_app2(recur, function, v("ys"@), x, r);
    lemma_subst_con2("Cons"@, one, call, x, r);
    lemma_subst_arm0("Nil"@, con("Nil"@, seq![]), x, r);
    lemma_subst_arm2("Cons"@, "y"@, "ys"@, con("Cons"@, seq![one, call]), x, r);
    lemma_subst_cases2(items, o1, o2, x, r);
}

/// Substitution leaves the program that maps as it is.
pub proof fn lemma_map_inert()
    ensures
        inert(map_list()),
{
    assert forall|x: Seq<char>, r: Term| #[trigger] subst(map_list(), x, r) == map_list() by {
        lemma_codes();
        reveal_with_fuel(subst, 3);
        lemma_map_body_subst(v("map"@), v("f"@), v("xs"@), x, r);
    }
}

/// The program that maps, applied to what steps to a function and to a
/// list of finished data, gives the list of what the function gives for
/// each item.
pub proof fn lemma_map(function: Term, value: Term, items: Seq<Term>, results: Seq<Term>)
    requires
        steps(function, value),
        steps(value, value),
        inert(value),
        data(items),
        items.len() == results.len(),
        forall|i: int| 0 <= i < items.len() ==> steps(app(value, #[trigger] items[i]), results[i]),
    ensures
        steps(app2(map_list(), function, list(items)), list(results)),
    decreases items.len(),
{
    let program = map_list();
    let a = list(items);
    let body = map_body(v("map"@), v("f"@), v("xs"@));
    lemma_list_datum(items);
    lemma_map_inert();
    assert(subst(subst(subst(body, "map"@, program), "f"@, value), "xs"@, a) == map_body(
        program,
        value,
        a,
    )) by {
        lemma_codes();
        lemma_map_body_subst(v("map"@), v("f"@), v("xs"@), "map"@, program);
        lemma_map_body_subst(program, v("f"@), v("xs"@), "f"@, value);
        lemma_map_body_subst(program, value, v("xs"@), "xs"@, a);
    }
    assert(steps(map_body(program, value, a), list(results))) by {
        let one = app(value, v("y"@));
        let call = app2(program, value, v("ys"@));
        let o1 = arm("Nil"@, seq![], con("Nil"@, seq![]));
        let o2 = arm("Cons"@, seq!["y"@, "ys"@], con("Cons"@, seq![one, call]));
        if items.len() == 0 {
            lemma_con_datum("Nil"@, seq![]);
            lemma_takes(seq![o1, o2], "Nil"@, 0, 0);
            lemma_bind0(con("Nil"@, seq![]), seq![], seq![]);
            lemma_steps_case(a, seq![o1, o2], "Nil"@, seq![], 0, list(results));
        } else {
            let head = items.first();
            let rest = items.drop_first();
            let tail = list(rest);
            lemma_list_cons(items);
            lemma_list_cons(results);
            assert(datum(items[0]));
            assert forall|i: int| 0 <= i < rest.len() implies datum(#[trigger] rest[i]) by {
                assert(rest[i] == items[i + 1]);
            }
            lemma_list_datum(rest);
            assert forall|i: int| 0 <= i < rest.len() implies steps(
                app(value, #[trigger] rest[i]),
                results.drop_first()[i],
            ) by {
                assert(rest[i] == items[i + 1]);
            }
            lemma_map(value, value, rest, results.drop_first());
            let bound = con("Cons"@, seq![app(value, head), app2(program, value, tail)]);
            assert(bind(con("Cons"@, seq![one, call]), seq!["y"@, "ys"@], seq![head, tail], 2)
                == bound) by {
                lemma_codes();
                lemma_bind2(con("Cons"@, seq![one, call]), "y"@, "ys"@, head, tail);
                lemma_subst_var("y"@, "ys"@, tail);
                lemma_subst_var("y"@, "y"@, head);
                lemma_subst_app(value, v("y"@), "ys"@, tail);
                lemma_subst_app(value, v("y"@), "y"@, head);
                lemma_subst_app2(program, value, v("ys"@), "ys"@, tail);
                lemma_subst_con2("Cons"@, one, call, "ys"@, tail);
                lemma_subst_app2(program, value, tail, "y"@, head);
                lemma_subst_con2(
                    "Cons"@,
                    app(value, v("y"@)),
                    app2(program, value, tail),
                    "y"@,
                    head,
                );
            }
            let fields = seq![app(value, head), app2(program, value, tail)];
            let values = seq![results.first(), list(results.drop_first())];
            assert(steps(fields[0], values[0])) by {
                assert(head == items[0]);
            }
            lemma_steps_con("Cons"@, fields, values);
            assert(!arm_matches(o1, "Cons"@, 2)) by {
                lemma_codes();
            }
            lemma_takes(seq![o1, o2], "Cons"@, 2, 1);
            lemma_steps_case(a, seq![o1, o2], "Cons"@, seq![head, tail], 1, list(results));
        }
    }
    assert("map"@ != "f"@ && "map"@ != "xs"@ && "f"@ != "xs"@) by {
        lemma_codes();
    }
    lemma_call2("map"@, "f"@, "xs"@, body, function, a, value, a, list(results));
}

} // verus!
